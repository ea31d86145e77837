//! Scenario tests of the stepper: force symmetry, boundary behaviour and
//! conservation, on populations small enough to compute by hand.

use plife::boundary::Walls;
use plife::matrix::Matrix;
use plife::ruleset::Ruleset;
use plife::simulation::{Particle, Simulation};

fn one_type_ruleset(min_r: i64, max_r: i64, attraction: i64, friction: i64) -> Ruleset {
    let mn = Matrix::new(1, vec![min_r]);
    let mx = Matrix::new(1, vec![max_r]);
    let at = Matrix::new(1, vec![attraction]);
    match Ruleset::new(1, mn, mx, at, friction) {
        Ok(rs) => rs,
        Err(e) => panic!("valid ruleset rejected: {:?}", e),
    }
}

fn pair_sim(p0: (i64, i64), p1: (i64, i64), rs: Ruleset, walls: Walls) -> Simulation {
    let parts = vec![
        Particle { x: p0.0, y: p0.1, vx: 0, vy: 0, kind: 0 },
        Particle { x: p1.0, y: p1.1, vx: 0, vy: 0, kind: 0 },
    ];
    match Simulation::from_particles(parts, rs, walls) {
        Ok(s) => s,
        Err(e) => panic!("valid state rejected: {:?}", e),
    }
}

#[test]
fn open_pair_attracts_symmetrically() {
    // Two particles of one type, min_r = 1, max_r = 10, attraction = 1,
    // friction = 0, open domain, at (0,0) and (5,0): after one tick the
    // velocities are nonzero, equal in magnitude, opposite along x.
    let rs = one_type_ruleset(1000, 10000, 1000, 0);
    let mut sim = pair_sim((0, 0), (5000, 0), rs, Walls::Open);
    sim.step();
    let a = sim.particles()[0];
    let b = sim.particles()[1];
    assert!(a.vx != 0 && b.vx != 0);
    assert_eq!(a.vy, 0);
    assert_eq!(b.vy, 0);
    assert_eq!(a.vx, -b.vx);
    assert_eq!(a.vx, 889);
    assert_eq!(a.x, 889);
    assert_eq!(b.x, 4111);
    assert_eq!(sim.tick(), 1);
}

#[test]
fn periodic_pair_uses_wrapped_distance() {
    // Same rule set but a torus of extent 6: particles at (5,0) and
    // (-5,0) are 2 apart through the seam, not 10 apart across the middle,
    // and the force matches the wrapped distance.
    let rs = one_type_ruleset(1000, 10000, 1000, 0);
    let mut sim = pair_sim((5000, 0), (-5000, 0), rs, Walls::Periodic(6000));
    sim.step();
    let a = sim.particles()[0];
    let b = sim.particles()[1];
    // The tent profile at distance 2 gives 223 thousandths, where the raw
    // distance 5 would give 889: each particle is pulled outward, through
    // the seam, towards the other.
    assert_eq!(a.vx, 223);
    assert_eq!(b.vx, -223);
    assert_eq!(a.x, 5223);
    assert_eq!(b.x, -5223);
}

#[test]
fn periodic_position_wraps_once() {
    // A lone particle crossing the right edge reappears on the left,
    // shifted by exactly one domain width, with its velocity kept.
    let rs = one_type_ruleset(1000, 10000, 1000, 0);
    let parts = vec![Particle { x: 5900, y: 0, vx: 200, vy: 0, kind: 0 }];
    let mut sim = Simulation::from_particles(parts, rs, Walls::Periodic(6000)).unwrap();
    sim.step();
    let p = sim.particles()[0];
    assert_eq!(p.x, -5900);
    assert_eq!(p.vx, 200);
}

#[test]
fn periodic_domain_is_never_left() {
    let rs = one_type_ruleset(1000, 10000, 1000, 0);
    let parts = vec![
        Particle { x: 5900, y: -5900, vx: 450, vy: -777, kind: 0 },
        Particle { x: -3000, y: 2500, vx: -901, vy: 333, kind: 0 },
    ];
    let mut sim = Simulation::from_particles(parts, rs, Walls::Periodic(6000)).unwrap();
    for _ in 0..25 {
        sim.step();
        for p in sim.particles() {
            assert!(-6000 <= p.x && p.x < 6000);
            assert!(-6000 <= p.y && p.y < 6000);
        }
    }
}

#[test]
fn reflective_wall_bounces_exactly() {
    // A particle driven at the wall is stopped on the wall exactly, its
    // outward velocity sign-flipped, and starts the next tick inside.
    let rs = one_type_ruleset(1000, 10000, 1000, 0);
    let parts = vec![Particle { x: 5900, y: 0, vx: 200, vy: 0, kind: 0 }];
    let mut sim = Simulation::from_particles(parts, rs, Walls::Reflective(6000)).unwrap();
    sim.step();
    let p = sim.particles()[0];
    assert_eq!(p.x, 6000);
    assert_eq!(p.vx, -200);
    sim.step();
    let p = sim.particles()[0];
    assert_eq!(p.x, 5800);
    assert_eq!(p.vx, -200);
    assert!(p.x <= 6000);
}

#[test]
fn zero_attraction_zero_friction_keeps_velocities() {
    // With attraction zero and friction zero, and the pair outside the
    // short-range band, velocities stay exactly as they were.
    let rs = one_type_ruleset(1000, 10000, 0, 0);
    let parts = vec![
        Particle { x: 0, y: 0, vx: 7, vy: -3, kind: 0 },
        Particle { x: 5000, y: 0, vx: 2, vy: 5, kind: 0 },
    ];
    let mut sim = Simulation::from_particles(parts, rs, Walls::Open).unwrap();
    for _ in 0..3 {
        sim.step();
        let a = sim.particles()[0];
        let b = sim.particles()[1];
        assert_eq!((a.vx, a.vy), (7, -3));
        assert_eq!((b.vx, b.vy), (2, 5));
    }
    // Positions still move by the velocity each tick.
    assert_eq!(sim.particles()[0].x, 21);
    assert_eq!(sim.particles()[1].y, 15);
}

#[test]
fn force_vanishes_beyond_max_r() {
    let rs = one_type_ruleset(1000, 10000, 1000, 0);
    let mut sim = pair_sim((0, 0), (50000, 0), rs, Walls::Open);
    sim.step();
    assert_eq!(sim.particles()[0].vx, 0);
    assert_eq!(sim.particles()[1].vx, 0);
}

#[test]
fn force_vanishes_below_distance_floor() {
    // Nearly coincident particles (squared distance under the floor) feel
    // nothing rather than a huge repulsion.
    let rs = one_type_ruleset(1000, 10000, 1000, 0);
    let mut sim = pair_sim((0, 0), (50, 0), rs, Walls::Open);
    sim.step();
    assert_eq!(sim.particles()[0].vx, 0);
    assert_eq!(sim.particles()[1].vx, 0);
}

#[test]
fn force_is_zero_at_min_r_from_both_branches() {
    // At distance exactly min_r the short-range branch applies and gives
    // zero, matching the triangular branch's zero at the same point.
    let rs = one_type_ruleset(5000, 10000, 1000, 0);
    let mut sim = pair_sim((0, 0), (5000, 0), rs, Walls::Open);
    sim.step();
    assert_eq!(sim.particles()[0].vx, 0);
    assert_eq!(sim.particles()[1].vx, 0);
}

#[test]
fn short_range_repulsion_pushes_apart() {
    // Inside min_r (but above the distance floor) the smoothed branch
    // repels regardless of the attraction sign.
    let rs = one_type_ruleset(5000, 10000, 1000, 0);
    let mut sim = pair_sim((0, 0), (1000, 0), rs, Walls::Open);
    sim.step();
    let a = sim.particles()[0];
    let b = sim.particles()[1];
    assert!(a.vx < 0, "left particle pushed further left, got {}", a.vx);
    assert!(b.vx > 0, "right particle pushed further right, got {}", b.vx);
    assert_eq!(a.vx, -b.vx);
}

#[test]
fn friction_damps_velocity() {
    // friction = 0.5: a lone particle's velocity halves each tick (the
    // magnitude rounding down), after the position moved by the undamped
    // velocity.
    let rs = one_type_ruleset(1000, 10000, 1000, 500);
    let parts = vec![Particle { x: 0, y: 0, vx: 1000, vy: 0, kind: 0 }];
    let mut sim = Simulation::from_particles(parts, rs, Walls::Open).unwrap();
    sim.step();
    let p = sim.particles()[0];
    assert_eq!(p.x, 1000);
    assert_eq!(p.vx, 500);
    sim.step();
    let p = sim.particles()[0];
    assert_eq!(p.x, 1500);
    assert_eq!(p.vx, 250);
}

#[test]
fn tick_counter_advances_one_per_step() {
    let rs = one_type_ruleset(1000, 10000, 1000, 0);
    let mut sim = pair_sim((0, 0), (5000, 0), rs, Walls::Open);
    assert_eq!(sim.tick(), 0);
    for k in 1..=5u64 {
        sim.step();
        assert_eq!(sim.tick(), k);
    }
}
