//! Tests of simulation construction: from explicit particles, from a
//! population count, and from a whole sampled configuration.

use plife::boundary::Walls;
use plife::config::{
    Config, Distribution, PointsConfig, PointSpawnConfig, RulesetConfig, RulesetGenerationConfig,
    WallsConfig,
};
use plife::matrix::Matrix;
use plife::random::RandomSource;
use plife::ruleset::{Ruleset, RulesetError};
use plife::simulation::{Particle, SimError, Simulation};

fn small_ruleset(ntypes: u32) -> Ruleset {
    let n = ntypes as usize;
    let mn = Matrix::new(n, vec![1000; n * n]);
    let mx = Matrix::new(n, vec![9000; n * n]);
    let at = Matrix::new(n, vec![300; n * n]);
    Ruleset::new(ntypes, mn, mx, at, 100).unwrap()
}

#[test]
fn new_open_simulation_spawns_population() {
    let rs = small_ruleset(2);
    let mut src = RandomSource::from_seed(1, 256);
    let sim = Simulation::new(10, rs, Walls::Open, &mut src).unwrap();
    assert_eq!(sim.particles().len(), 10);
    assert_eq!(sim.tick(), 0);
    for p in sim.particles() {
        assert!(p.kind < 2);
        assert_eq!(p.vx, 0);
        assert_eq!(p.vy, 0);
    }
}

#[test]
fn new_periodic_simulation_spawns_in_domain() {
    let rs = small_ruleset(3);
    let mut src = RandomSource::from_seed(2, 512);
    let sim = Simulation::new(50, rs, Walls::Periodic(6000), &mut src).unwrap();
    assert_eq!(sim.particles().len(), 50);
    for p in sim.particles() {
        assert!(-6000 <= p.x && p.x < 6000);
        assert!(-6000 <= p.y && p.y < 6000);
        assert!(p.kind < 3);
    }
}

#[test]
fn new_rejects_nonpositive_extent() {
    let rs = small_ruleset(1);
    let mut src = RandomSource::from_seed(3, 16);
    assert!(matches!(
        Simulation::new(4, rs, Walls::Periodic(0), &mut src),
        Err(SimError::BadExtent)
    ));
    let rs = small_ruleset(1);
    assert!(matches!(
        Simulation::new(4, rs, Walls::Reflective(-5), &mut src),
        Err(SimError::BadExtent)
    ));
}

#[test]
fn new_rejects_oversized_population() {
    let rs = small_ruleset(1);
    let mut src = RandomSource::from_seed(4, 16);
    assert!(matches!(
        Simulation::new(1_000_001, rs, Walls::Open, &mut src),
        Err(SimError::TooLarge)
    ));
}

#[test]
fn from_particles_rejects_unknown_type() {
    let rs = small_ruleset(2);
    let parts = vec![Particle { x: 0, y: 0, vx: 0, vy: 0, kind: 2 }];
    assert!(matches!(
        Simulation::from_particles(parts, rs, Walls::Open),
        Err(SimError::BadState)
    ));
}

#[test]
fn from_particles_rejects_position_outside_domain() {
    let rs = small_ruleset(1);
    let parts = vec![Particle { x: 7000, y: 0, vx: 0, vy: 0, kind: 0 }];
    assert!(matches!(
        Simulation::from_particles(parts, rs, Walls::Periodic(6000)),
        Err(SimError::BadState)
    ));
}

#[test]
fn from_particles_keeps_state_and_rules() {
    let rs = small_ruleset(2);
    let parts = vec![
        Particle { x: 10, y: 20, vx: 1, vy: 2, kind: 1 },
        Particle { x: -30, y: 40, vx: -1, vy: 0, kind: 0 },
    ];
    let sim = Simulation::from_particles(parts.clone(), rs, Walls::Open).unwrap();
    assert_eq!(sim.particles()[0], parts[0]);
    assert_eq!(sim.particles()[1], parts[1]);
    assert_eq!(sim.ruleset().num_point_types(), 2);
    assert_eq!(sim.ruleset().min_r(1, 0), 1000);
    assert_eq!(sim.ruleset().max_r(0, 1), 9000);
    assert_eq!(sim.ruleset().attraction(1, 1), 300);
    assert_eq!(sim.ruleset().friction(), 100);
    assert_eq!(sim.walls(), Walls::Open);
}

#[test]
fn from_config_builds_and_steps() {
    let config = Config {
        ruleset: RulesetConfig::Procedural(RulesetGenerationConfig {
            types: Distribution::Const(2),
            attractions: Distribution::Uniform { min: -200, max: 200 },
            min_r: Distribution::Const(1000),
            max_r: Distribution::Uniform { min: 5000, max: 9000 },
            friction: Distribution::Const(150),
        }),
        walls: WallsConfig::Periodic { dist: Distribution::Const(6000) },
        points: PointsConfig::Simple(Distribution::Const(4)),
    };
    let mut src = RandomSource::from_seed(11, 1024);
    let mut sim = Simulation::from_config(config, &mut src).unwrap();
    assert_eq!(sim.particles().len(), 4);
    assert_eq!(sim.walls(), Walls::Periodic(6000));
    assert_eq!(sim.ruleset().num_point_types(), 2);
    for _ in 0..10 {
        sim.step();
        for p in sim.particles() {
            assert!(-6000 <= p.x && p.x < 6000);
            assert!(-6000 <= p.y && p.y < 6000);
        }
    }
    assert_eq!(sim.tick(), 10);
}

#[test]
fn from_config_spawn_groups_add_up() {
    let spawn = |n: i64, x: i64, y: i64| PointSpawnConfig {
        num: Distribution::Const(n),
        x: Distribution::Const(x),
        y: Distribution::Const(y),
    };
    let config = Config {
        ruleset: RulesetConfig::Procedural(RulesetGenerationConfig {
            types: Distribution::Const(1),
            attractions: Distribution::Const(0),
            min_r: Distribution::Const(1000),
            max_r: Distribution::Const(9000),
            friction: Distribution::Const(0),
        }),
        walls: WallsConfig::Open,
        points: PointsConfig::Complex(vec![spawn(2, 100, 200), spawn(3, -300, 400)]),
    };
    let mut src = RandomSource::from_seed(12, 64);
    let sim = Simulation::from_config(config, &mut src).unwrap();
    assert_eq!(sim.particles().len(), 5);
    assert_eq!((sim.particles()[0].x, sim.particles()[0].y), (100, 200));
    assert_eq!((sim.particles()[1].x, sim.particles()[1].y), (100, 200));
    assert_eq!((sim.particles()[4].x, sim.particles()[4].y), (-300, 400));
}

#[test]
fn new_reflective_simulation_spawns_in_domain() {
    let rs = small_ruleset(1);
    let mut src = RandomSource::from_seed(21, 256);
    let sim = Simulation::new(20, rs, Walls::Reflective(4000), &mut src).unwrap();
    for p in sim.particles() {
        assert!(-4000 <= p.x && p.x <= 4000);
        assert!(-4000 <= p.y && p.y <= 4000);
    }
}

#[test]
fn whole_runs_are_reproducible_per_seed() {
    // The same configuration and the same seed give the same population
    // and the same trajectory, tick for tick.
    let make = || Config {
        ruleset: RulesetConfig::Procedural(RulesetGenerationConfig {
            types: Distribution::Const(3),
            attractions: Distribution::Uniform { min: -400, max: 400 },
            min_r: Distribution::Uniform { min: 500, max: 1500 },
            max_r: Distribution::Uniform { min: 4000, max: 9000 },
            friction: Distribution::Const(200),
        }),
        walls: WallsConfig::Periodic { dist: Distribution::Const(8000) },
        points: PointsConfig::Simple(Distribution::Const(6)),
    };
    let mut s1 = RandomSource::from_seed(77, 2048);
    let mut s2 = RandomSource::from_seed(77, 2048);
    let mut a = Simulation::from_config(make(), &mut s1).unwrap();
    let mut b = Simulation::from_config(make(), &mut s2).unwrap();
    for _ in 0..20 {
        a.step();
        b.step();
        assert_eq!(a.particles(), b.particles());
    }
}

#[test]
fn from_config_reports_rejected_rules() {
    let config = Config {
        ruleset: RulesetConfig::Procedural(RulesetGenerationConfig {
            types: Distribution::Const(1),
            attractions: Distribution::Const(0),
            min_r: Distribution::Const(5000),
            max_r: Distribution::Const(1000),
            friction: Distribution::Const(0),
        }),
        walls: WallsConfig::Open,
        points: PointsConfig::Simple(Distribution::Const(1)),
    };
    let mut src = RandomSource::from_seed(13, 16);
    assert!(matches!(
        Simulation::from_config(config, &mut src),
        Err(SimError::Rules(RulesetError::BadRadius))
    ));
}

#[test]
fn from_config_reports_bad_extent() {
    let config = Config {
        ruleset: RulesetConfig::Procedural(RulesetGenerationConfig {
            types: Distribution::Const(1),
            attractions: Distribution::Const(0),
            min_r: Distribution::Const(1000),
            max_r: Distribution::Const(9000),
            friction: Distribution::Const(0),
        }),
        walls: WallsConfig::Periodic { dist: Distribution::Const(-100) },
        points: PointsConfig::Simple(Distribution::Const(1)),
    };
    let mut src = RandomSource::from_seed(14, 16);
    assert!(matches!(
        Simulation::from_config(config, &mut src),
        Err(SimError::BadExtent)
    ));
}
