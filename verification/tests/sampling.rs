//! Tests of distribution draws, the random source, rule-set generation and
//! its validation.

use plife::config::{
    Distribution, RulesetConfig, RulesetGenerationConfig, TypeRuleset, WallsConfig,
};
use plife::boundary::Walls;
use plife::matrix::Matrix;
use plife::random::RandomSource;
use plife::ruleset::{Ruleset, RulesetError};

#[test]
fn const_distribution_consumes_no_draw() {
    let mut src = RandomSource::from_draws(vec![37]);
    assert_eq!(Distribution::Const(42).sample(&mut src), 42);
    // The draw is still there for the next consumer.
    assert_eq!(Distribution::Uniform { min: 10, max: 20 }.sample(&mut src), 17);
}

#[test]
fn uniform_folds_draw_into_range() {
    let mut src = RandomSource::from_draws(vec![37, -3, 0]);
    let d = Distribution::Uniform { min: 10, max: 20 };
    assert_eq!(d.sample(&mut src), 17);  // 10 + (37 mod 10)
    assert_eq!(d.sample(&mut src), 17);  // 10 + (-3 mod 10) = 10 + 7
    assert_eq!(d.sample(&mut src), 10);  // 10 + (0 mod 10)
}

#[test]
fn uniform_empty_range_yields_min() {
    let mut src = RandomSource::from_draws(vec![123]);
    assert_eq!(Distribution::Uniform { min: 5, max: 5 }.sample(&mut src), 5);
}

#[test]
fn normal_scales_centred_deviate() {
    // A draw is folded into the deviate band [-4000, 4000]; 4000 is the
    // centre (deviate zero), 5000 one whole unit above it.
    let d = Distribution::Normal { mean: 1000, std: 500 };
    let mut src = RandomSource::from_draws(vec![4000]);
    assert_eq!(d.sample(&mut src), 1000);
    let mut src = RandomSource::from_draws(vec![5000]);
    assert_eq!(d.sample(&mut src), 1500);
    let mut src = RandomSource::from_draws(vec![0]);
    assert_eq!(d.sample(&mut src), -1000);
}

#[test]
fn exhausted_source_cycles() {
    let mut src = RandomSource::from_draws(vec![3]);
    let d = Distribution::Uniform { min: 0, max: 10 };
    assert_eq!(d.sample(&mut src), 3);
    assert_eq!(d.sample(&mut src), 3);
}

#[test]
fn empty_source_draws_zero() {
    let mut src = RandomSource::from_draws(vec![]);
    assert_eq!(Distribution::Uniform { min: 3, max: 9 }.sample(&mut src), 3);
}

#[test]
fn seeded_generation_is_reproducible() {
    // The same descriptors and the same seed give identical rule sets.
    let cfg = RulesetGenerationConfig {
        types: Distribution::Const(3),
        attractions: Distribution::Uniform { min: -500, max: 500 },
        min_r: Distribution::Uniform { min: 100, max: 1000 },
        max_r: Distribution::Uniform { min: 2000, max: 3000 },
        friction: Distribution::Const(100),
    };
    let mut s1 = RandomSource::from_seed(99, 64);
    let mut s2 = RandomSource::from_seed(99, 64);
    let r1 = cfg.sample(&mut s1).unwrap();
    let r2 = cfg.sample(&mut s2).unwrap();
    assert_eq!(r1.num_point_types(), 3);
    assert_eq!(r2.num_point_types(), 3);
    assert_eq!(r1.friction(), r2.friction());
    for i in 0..3 {
        for j in 0..3 {
            assert_eq!(r1.min_r(i, j), r2.min_r(i, j));
            assert_eq!(r1.max_r(i, j), r2.max_r(i, j));
            assert_eq!(r1.attraction(i, j), r2.attraction(i, j));
            assert!(r1.min_r(i, j) < r1.max_r(i, j));
        }
    }
}

#[test]
fn generation_draws_each_cell_afresh() {
    // A nonempty uniform range draws a fresh value per cell, so the matrix
    // is asymmetric in general; with a seeded source, at least two of the
    // nine attractions should differ.
    let cfg = RulesetGenerationConfig {
        types: Distribution::Const(3),
        attractions: Distribution::Uniform { min: -500, max: 500 },
        min_r: Distribution::Uniform { min: 100, max: 1000 },
        max_r: Distribution::Uniform { min: 2000, max: 3000 },
        friction: Distribution::Const(100),
    };
    let mut src = RandomSource::from_seed(7, 64);
    let rs = cfg.sample(&mut src).unwrap();
    let mut distinct = false;
    for i in 0..3 {
        for j in 0..3 {
            if rs.attraction(i, j) != rs.attraction(0, 0) {
                distinct = true;
            }
        }
    }
    assert!(distinct, "all nine attraction draws came out identical");
}

#[test]
fn generation_rejects_inverted_radii() {
    let cfg = RulesetGenerationConfig {
        types: Distribution::Const(2),
        attractions: Distribution::Const(0),
        min_r: Distribution::Const(2000),
        max_r: Distribution::Const(1000),
        friction: Distribution::Const(0),
    };
    let mut src = RandomSource::from_draws(vec![]);
    assert!(matches!(cfg.sample(&mut src), Err(RulesetError::BadRadius)));
}

#[test]
fn generation_rejects_bad_type_count() {
    let cfg = RulesetGenerationConfig {
        types: Distribution::Const(0),
        attractions: Distribution::Const(0),
        min_r: Distribution::Const(1000),
        max_r: Distribution::Const(2000),
        friction: Distribution::Const(0),
    };
    let mut src = RandomSource::from_draws(vec![]);
    assert!(matches!(cfg.sample(&mut src), Err(RulesetError::BadTypeCount)));
}

#[test]
fn precise_config_places_each_cell() {
    let row = |a: i64, b: i64| TypeRuleset {
        attractions: vec![Distribution::Const(a), Distribution::Const(b)],
        min_r: vec![Distribution::Const(1000), Distribution::Const(1100)],
        max_r: vec![Distribution::Const(9000), Distribution::Const(9100)],
    };
    let cfg = RulesetConfig::Precise {
        types: vec![row(10, 20), row(-30, 40)],
        friction: Distribution::Const(250),
    };
    let mut src = RandomSource::from_draws(vec![]);
    let rs = cfg.sample(&mut src).unwrap();
    assert_eq!(rs.num_point_types(), 2);
    assert_eq!(rs.friction(), 250);
    assert_eq!(rs.attraction(0, 0), 10);
    assert_eq!(rs.attraction(0, 1), 20);
    assert_eq!(rs.attraction(1, 0), -30);
    assert_eq!(rs.attraction(1, 1), 40);
    assert_eq!(rs.min_r(1, 0), 1000);
    assert_eq!(rs.max_r(0, 1), 9100);
}

#[test]
fn precise_config_rejects_ragged_rows() {
    let cfg = RulesetConfig::Precise {
        types: vec![TypeRuleset {
            attractions: vec![Distribution::Const(0)],
            min_r: vec![Distribution::Const(1000), Distribution::Const(1000)],
            max_r: vec![Distribution::Const(9000)],
        }],
        friction: Distribution::Const(0),
    };
    let mut src = RandomSource::from_draws(vec![]);
    assert!(matches!(cfg.sample(&mut src), Err(RulesetError::BadShape)));
}

#[test]
fn ruleset_validation_reports_first_defect() {
    let sq = |v: i64| Matrix::new(1, vec![v]);
    assert!(matches!(
        Ruleset::new(0, sq(0), sq(1), sq(0), 0),
        Err(RulesetError::BadTypeCount)
    ));
    assert!(matches!(
        Ruleset::new(2, sq(0), sq(1), sq(0), 0),
        Err(RulesetError::BadShape)
    ));
    assert!(matches!(
        Ruleset::new(1, sq(500), sq(400), sq(0), 0),
        Err(RulesetError::BadRadius)
    ));
    assert!(matches!(
        Ruleset::new(1, sq(500), sq(900), sq(3_000_000_000), 0),
        Err(RulesetError::BadAttraction)
    ));
    assert!(matches!(
        Ruleset::new(1, sq(500), sq(900), sq(0), 1001),
        Err(RulesetError::BadFriction)
    ));
    assert!(Ruleset::new(1, sq(500), sq(900), sq(0), 1000).is_ok());
}

#[test]
fn walls_config_samples_extent() {
    let mut src = RandomSource::from_draws(vec![37]);
    let w = WallsConfig::Periodic { dist: Distribution::Uniform { min: 1000, max: 2000 } }
        .sample(&mut src);
    assert_eq!(w, Walls::Periodic(1037));
    let mut src = RandomSource::from_draws(vec![]);
    assert_eq!(WallsConfig::Open.sample(&mut src), Walls::Open);
}

#[test]
fn seeded_source_draws_are_in_range_and_vary() {
    // The seeded source relies on the rand crate; its draws must land in
    // the documented half-open range and must not just echo a bound back.
    let mut src = RandomSource::from_seed(5, 50);
    let d = Distribution::Uniform { min: 0, max: 1000 };
    let mut seen = Vec::new();
    for _ in 0..50 {
        let v = d.sample(&mut src);
        assert!((0..1000).contains(&v));
        seen.push(v);
    }
    assert!(seen.iter().any(|&v| v != seen[0]), "50 seeded draws all equal");
}
