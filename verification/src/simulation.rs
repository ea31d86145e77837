//! The simulation proper: the particle population, the rule set and its
//! per-type-pair cache, the boundary policy, and the tick counter.
//!
//! One tick has two phases, always in order. The evaluate phase reads the
//! frozen particle array and writes every particle's force sum into a fresh
//! buffer, so no state an evaluation reads is mutated before every
//! evaluation has finished. The integrate phase then folds each force sum
//! into its particle's velocity, moves the particle, applies friction, and
//! enforces the boundary policy. No partially updated state is ever
//! observable: the particle array is replaced whole, once, at the end.

use vstd::prelude::*;

use crate::boundary::{enforce_spec, wrap_delta_spec, Walls};
use crate::config::{
    coord_of, lemma_pairs_spec_len, lemma_points_bounded, lemma_sample_uniform_range,
    lemma_samples_uniform_range, pairs_spec, points_sample_spec, sample_many, samples_spec,
    spawn_dist_spec, src_after, Config, rc_outcome, rc_src_after, ruleset_matches_draws,
    walls_sample_spec, walls_src_after, Distribution, PointsConfig,
};
use crate::fixed::{
    clamp_spec, clamp_i128, tdiv_spec, tdiv_i128, COORD_LIMIT, POP_LIMIT, RULE_LIMIT, UNIT,
};
use crate::force::{force, force_spec, mag};
use crate::random::RandomSource;
use crate::ruleset::{Ruleset, RulesetError, TypePairCache};

verus! {

/// One particle: fixed-point position and velocity, and its type index.
#[derive(Clone, Copy, Debug, PartialEq, Eq, Structural)]
pub struct Particle {
    pub x: i64,
    pub y: i64,
    pub vx: i64,
    pub vy: i64,
    pub kind: u32,
}

/// Whether a coordinate lies inside the domain of a boundary policy: any
/// value when open, `[-e, e)` on a torus, `[-e, e]` between reflecting
/// walls (a reflected particle rests on the wall itself).
pub open spec fn in_domain(x: int, w: Walls) -> bool {
    match w {
        Walls::Open => true,
        Walls::Periodic(e) => -e <= x < e,
        Walls::Reflective(e) => -e <= x <= e,
    }
}

/// A particle state the engine accepts: coordinates and velocities within
/// the saturation range, the position inside the domain, and a known type.
pub open spec fn particle_ok(p: Particle, w: Walls, ntypes: int) -> bool {
    &&& mag(p.x as int) <= COORD_LIMIT
    &&& mag(p.y as int) <= COORD_LIMIT
    &&& mag(p.vx as int) <= COORD_LIMIT
    &&& mag(p.vy as int) <= COORD_LIMIT
    &&& in_domain(p.x as int, w)
    &&& in_domain(p.y as int, w)
    &&& (p.kind as int) < ntypes
}

/// The force particle `i` receives from particle `j`: the displacement is
/// corrected by the boundary policy, the parameters come from the ordered
/// pair of their types.
pub open spec fn pair_force_spec(s: Seq<Particle>, i: int, j: int, rs: Ruleset, w: Walls) -> (
    int,
    int,
) {
    let dx = wrap_delta_spec(s[j].x - s[i].x, w);
    let dy = wrap_delta_spec(s[j].y - s[i].y, w);
    let a = s[i].kind as int;
    let b = s[j].kind as int;
    force_spec(dx, dy, rs.min_at(a, b), rs.max_at(a, b), rs.attr_at(a, b))
}

/// The sum of the forces particle `i` receives from particles `0..j`,
/// itself skipped.
pub open spec fn force_sum_spec(s: Seq<Particle>, i: int, j: nat, rs: Ruleset, w: Walls) -> (
    int,
    int,
)
    decreases j,
{
    if j == 0 {
        (0, 0)
    } else {
        let prev = force_sum_spec(s, i, (j - 1) as nat, rs, w);
        if i == j - 1 {
            prev
        } else {
            let f = pair_force_spec(s, i, j - 1, rs, w);
            (prev.0 + f.0, prev.1 + f.1)
        }
    }
}

/// A velocity after one tick's friction: scaled by `(UNIT - fr) / UNIT`,
/// rounding the magnitude down.
pub open spec fn damp_spec(v: int, fr: int) -> int {
    tdiv_spec(v * (UNIT - fr), UNIT as int)
}

/// What the boundary policy does to one axis after integration: the open
/// domain saturates at the coordinate range, the others enforce their
/// domain.
pub open spec fn finish_axis_spec(w: Walls, x: int, v: int) -> (int, int) {
    match w {
        Walls::Open => (clamp_spec(x, COORD_LIMIT as int), v),
        _ => enforce_spec(w, x, v),
    }
}

/// One particle's state after a whole tick: its force sum folded into the
/// velocity (saturated), the position moved by that velocity, friction
/// applied after motion, and the boundary enforced.
pub open spec fn step_particle_spec(s: Seq<Particle>, i: int, rs: Ruleset, w: Walls) -> Particle {
    let f = force_sum_spec(s, i, s.len(), rs, w);
    let vx1 = clamp_spec(s[i].vx + f.0, COORD_LIMIT as int);
    let vy1 = clamp_spec(s[i].vy + f.1, COORD_LIMIT as int);
    let x1 = s[i].x + vx1;
    let y1 = s[i].y + vy1;
    let vx2 = damp_spec(vx1, rs.friction_spec());
    let vy2 = damp_spec(vy1, rs.friction_spec());
    let ax = finish_axis_spec(w, x1, vx2);
    let ay = finish_axis_spec(w, y1, vy2);
    Particle {
        x: ax.0 as i64,
        y: ay.0 as i64,
        vx: ax.1 as i64,
        vy: ay.1 as i64,
        kind: s[i].kind,
    }
}

/// The whole population after one tick: every particle stepped against the
/// same frozen snapshot.
pub open spec fn step_spec(s: Seq<Particle>, rs: Ruleset, w: Walls) -> Seq<Particle> {
    Seq::new(s.len(), |i: int| step_particle_spec(s, i, rs, w))
}

/// Apply one tick's friction to a velocity component.
fn damp(v: i64, fr: i64) -> (r: i64)
    requires
        mag(v as int) <= COORD_LIMIT,
        0 <= fr <= UNIT,
    ensures
        r == damp_spec(v as int, fr as int),
        mag(r as int) <= mag(v as int),
{
    proof {
        let vg = v as int;
        let fg = (UNIT - fr) as int;
        assert(-1000000000000000 <= vg * fg <= 1000000000000000) by (nonlinear_arith)
            requires
                -1000000000000 <= vg <= 1000000000000,
                0 <= fg <= 1000,
        ;
    }
    let p: i128 = (v as i128) * ((UNIT - fr) as i128);
    let q = tdiv_i128(p, UNIT as i128);
    proof {
        let vg = v as int;
        let fg = (UNIT - fr) as int;
        let m = mag(vg);
        let numv = vg * fg;
        if vg >= 0 {
            assert(numv >= 0) by (nonlinear_arith)
                requires
                    vg >= 0,
                    fg >= 0,
                    numv == vg * fg,
            ;
            assert(mag(numv) == m * fg) by (nonlinear_arith)
                requires
                    vg >= 0,
                    numv >= 0,
                    numv == vg * fg,
                    m == vg,
            ;
        } else {
            assert(numv <= 0) by (nonlinear_arith)
                requires
                    vg <= 0,
                    fg >= 0,
                    numv == vg * fg,
            ;
            assert(mag(numv) == m * fg) by (nonlinear_arith)
                requires
                    vg < 0,
                    numv <= 0,
                    numv == vg * fg,
                    m == -vg,
            ;
        }
        vstd::arithmetic::div_mod::lemma_div_pos_is_pos(mag(numv), UNIT as int);
        if numv < 0 {
            vstd::arithmetic::div_mod::lemma_div_pos_is_pos(-numv, UNIT as int);
            assert(mag(tdiv_spec(numv, UNIT as int)) == mag(numv) / (UNIT as int));
        } else {
            assert(mag(tdiv_spec(numv, UNIT as int)) == mag(numv) / (UNIT as int));
        }
        assert(m * fg <= m * (UNIT as int)) by (nonlinear_arith)
            requires
                0 <= m,
                0 <= fg <= UNIT as int,
        ;
        vstd::arithmetic::div_mod::lemma_div_is_ordered(m * fg, m * (UNIT as int), UNIT as int);
        vstd::arithmetic::div_mod::lemma_div_multiples_vanish(m, UNIT as int);
        assert(m * (UNIT as int) == (UNIT as int) * m) by (nonlinear_arith);
    }
    q as i64
}

/// Why a simulation could not be constructed.
#[derive(Clone, Copy, Debug, PartialEq, Eq, Structural)]
pub enum SimError {
    /// A bounded boundary policy whose extent is not positive or not
    /// representable: the engine refuses to run with undefined geometry.
    BadExtent,
    /// More particles than the population limit.
    TooLarge,
    /// A particle outside the domain or the engine's bands, or of an
    /// unknown type.
    BadState,
    /// The configured rule-set draws were rejected.
    Rules(RulesetError),
}

/// Positions placed by a valid boundary policy's own placement
/// distribution lie inside its domain.
pub proof fn lemma_spawn_in_domain(w: Walls, s: RandomSource, k: nat)
    requires
        w.wf(),
    ensures
        forall|i: int|
            0 <= i < pairs_spec(spawn_dist_spec(w), spawn_dist_spec(w), s, k).0.len()
                ==> in_domain(
                (#[trigger] pairs_spec(spawn_dist_spec(w), spawn_dist_spec(w), s, k).0[i]).0 as int,
                w,
            ) && in_domain(
                pairs_spec(spawn_dist_spec(w), spawn_dist_spec(w), s, k).0[i].1 as int,
                w,
            ),
    decreases k,
{
    let d = spawn_dist_spec(w);
    if k > 0 {
        lemma_spawn_in_domain(w, s, (k - 1) as nat);
        let prev = pairs_spec(d, d, s, (k - 1) as nat);
        let cur = pairs_spec(d, d, s, k);
        let x = coord_of(d, prev.1.peek_spec());
        let s1 = src_after(d, prev.1);
        let y = coord_of(d, s1.peek_spec());
        assert(cur.0 == prev.0.push((x, y)));
        match w {
            Walls::Open => {},
            Walls::Reflective(e) => {
                lemma_sample_uniform_range((-e) as i64, e, prev.1.peek_spec());
                lemma_sample_uniform_range((-e) as i64, e, s1.peek_spec());
            },
            Walls::Periodic(e) => {
                lemma_sample_uniform_range((-e) as i64, e, prev.1.peek_spec());
                lemma_sample_uniform_range((-e) as i64, e, s1.peek_spec());
            },
        }
        assert(in_domain(x as int, w) && in_domain(y as int, w));
        assert forall|i: int| 0 <= i < cur.0.len() implies in_domain(
            (#[trigger] cur.0[i]).0 as int,
            w,
        ) && in_domain(cur.0[i].1 as int, w) by {
            if i < cur.0.len() - 1 {
                assert(cur.0[i] == prev.0[i]);
            } else {
                assert(cur.0[i] == (x, y));
            }
        }
    }
}

/// A running particle-life simulation: the population, the rule set with
/// its flattened type-pair cache, the boundary policy, and the tick count.
pub struct Simulation {
    particles: Vec<Particle>,
    ruleset: Ruleset,
    cache: TypePairCache,
    walls: Walls,
    tick: u64,
}

impl Simulation {
    /// The particle population.
    pub closed spec fn particles_spec(self) -> Seq<Particle> {
        self.particles@
    }

    /// The rule set.
    pub closed spec fn ruleset_spec(self) -> Ruleset {
        self.ruleset
    }

    /// The boundary policy.
    pub closed spec fn walls_spec(self) -> Walls {
        self.walls
    }

    /// How many ticks have been applied.
    pub closed spec fn tick_spec(self) -> int {
        self.tick as int
    }

    /// The type-pair cache.
    pub closed spec fn cache_spec(self) -> TypePairCache {
        self.cache
    }

    /// A state the stepper preserves: valid rule set and boundary, a cache
    /// that projects the rule set, and every particle in an accepted state.
    pub open spec fn wf(self) -> bool {
        &&& self.ruleset_spec().wf()
        &&& self.walls_spec().wf()
        &&& self.cache_spec().wf()
        &&& self.cache_spec().matches(self.ruleset_spec())
        &&& self.particles_spec().len() <= POP_LIMIT
        &&& forall|i: int|
            0 <= i < self.particles_spec().len() ==> particle_ok(
                #[trigger] self.particles_spec()[i],
                self.walls_spec(),
                self.ruleset_spec().num_types(),
            )
    }

    /// Read access to the particle array (between ticks only).
    pub fn particles(&self) -> (r: &Vec<Particle>)
        ensures
            r@ == self.particles_spec(),
    {
        &self.particles
    }

    /// The rule set in force.
    pub fn ruleset(&self) -> (r: &Ruleset)
        ensures
            *r == self.ruleset_spec(),
    {
        &self.ruleset
    }

    /// The boundary policy in force.
    pub fn walls(&self) -> (r: Walls)
        ensures
            r == self.walls_spec(),
    {
        self.walls
    }

    /// How many ticks have been applied.
    pub fn tick(&self) -> (r: u64)
        ensures
            r == self.tick_spec(),
    {
        self.tick
    }

    /// Advance exactly one tick: evaluate every pairwise force against the
    /// frozen snapshot, then integrate and enforce the boundary. Under a
    /// bounded policy no particle ever leaves the domain.
    #[verifier::rlimit(100)]
    pub fn step(&mut self)
        requires
            old(self).wf(),
            old(self).tick_spec() < u64::MAX,
        ensures
            final(self).wf(),
            final(self).particles_spec() == step_spec(
                old(self).particles_spec(),
                old(self).ruleset_spec(),
                old(self).walls_spec(),
            ),
            final(self).ruleset_spec() == old(self).ruleset_spec(),
            final(self).walls_spec() == old(self).walls_spec(),
            final(self).tick_spec() == old(self).tick_spec() + 1,
            forall|i: int|
                0 <= i < final(self).particles_spec().len() ==> in_domain(
                    (#[trigger] final(self).particles_spec()[i]).x as int,
                    old(self).walls_spec(),
                ) && in_domain(final(self).particles_spec()[i].y as int, old(self).walls_spec()),
    {
        let ghost ps = self.particles@;
        let ghost rs = self.ruleset;
        let ghost w = self.walls;
        let n = self.particles.len();

        // Evaluate phase: all force sums into a fresh buffer, reading only
        // the untouched particle array.
        let mut sums: Vec<(i64, i64)> = Vec::new();
        let mut i: usize = 0;
        while i < n
            invariant
                old(self).wf(),
                *self == *old(self),
                ps == self.particles@,
                rs == self.ruleset,
                w == self.walls,
                n == ps.len(),
                i <= n,
                sums@.len() == i,
                forall|k: int|
                    0 <= k < i ==> (#[trigger] sums@[k]).0 == force_sum_spec(ps, k, n as nat, rs, w).0
                        && sums@[k].1 == force_sum_spec(ps, k, n as nat, rs, w).1,
                forall|k: int|
                    0 <= k < i ==> mag((#[trigger] sums@[k]).0 as int) <= (n as int) * RULE_LIMIT
                        && mag(sums@[k].1 as int) <= (n as int) * RULE_LIMIT,
            decreases n - i,
        {
            let p = self.particles[i];
            let mut sx: i64 = 0;
            let mut sy: i64 = 0;
            let mut j: usize = 0;
            while j < n
                invariant
                    old(self).wf(),
                    *self == *old(self),
                    ps == self.particles@,
                    rs == self.ruleset,
                    w == self.walls,
                    n == ps.len(),
                    i < n,
                    j <= n,
                    p == ps[i as int],
                    sx == force_sum_spec(ps, i as int, j as nat, rs, w).0,
                    sy == force_sum_spec(ps, i as int, j as nat, rs, w).1,
                    mag(sx as int) <= (j as int) * RULE_LIMIT,
                    mag(sy as int) <= (j as int) * RULE_LIMIT,
                decreases n - j,
            {
                if j != i {
                    let q = self.particles[j];
                    proof {
                        assert(particle_ok(ps[i as int], w, rs.num_types()));
                        assert(particle_ok(ps[j as int], w, rs.num_types()));
                    }
                    let dx = self.walls.wrap_delta(q.x - p.x);
                    let dy = self.walls.wrap_delta(q.y - p.y);
                    let (lo, hi, at) = self.cache.params(p.kind, q.kind);
                    let f = force(dx, dy, lo, hi, at);
                    proof {
                        let jj = j as int;
                        let c = RULE_LIMIT as int;
                        assert(jj * c + c == (jj + 1) * c) by (nonlinear_arith);
                        assert((jj + 1) * c <= (n as int) * c) by (nonlinear_arith)
                            requires
                                jj + 1 <= n as int,
                                0 < c,
                        ;
                        assert((n as int) * c <= 1000000 * c) by (nonlinear_arith)
                            requires
                                0 <= n as int <= 1000000,
                                0 < c,
                        ;
                    }
                    sx = sx + f.0;
                    sy = sy + f.1;
                } else {
                    proof {
                        assert(force_sum_spec(ps, i as int, (j + 1) as nat, rs, w)
                            == force_sum_spec(ps, i as int, j as nat, rs, w));
                    }
                }
                j = j + 1;
            }
            sums.push((sx, sy));
            i = i + 1;
        }

        // Integrate phase: fold each force sum into its particle, move it,
        // apply friction, and enforce the boundary.
        let fr = self.ruleset.friction();
        let mut next: Vec<Particle> = Vec::new();
        let mut i: usize = 0;
        while i < n
            invariant
                old(self).wf(),
                *self == *old(self),
                ps == self.particles@,
                rs == self.ruleset,
                w == self.walls,
                fr == rs.friction_spec(),
                n == ps.len(),
                i <= n,
                sums@.len() == n,
                forall|k: int|
                    0 <= k < n ==> (#[trigger] sums@[k]).0 == force_sum_spec(ps, k, n as nat, rs, w).0
                        && sums@[k].1 == force_sum_spec(ps, k, n as nat, rs, w).1,
                forall|k: int|
                    0 <= k < n ==> mag((#[trigger] sums@[k]).0 as int) <= (n as int) * RULE_LIMIT
                        && mag(sums@[k].1 as int) <= (n as int) * RULE_LIMIT,
                next@.len() == i,
                forall|k: int|
                    0 <= k < i ==> #[trigger] next@[k] == step_particle_spec(ps, k, rs, w),
                forall|k: int|
                    0 <= k < i ==> particle_ok(#[trigger] next@[k], w, rs.num_types()),
            decreases n - i,
        {
            let p = self.particles[i];
            let f = sums[i];
            proof {
                assert(particle_ok(ps[i as int], w, rs.num_types()));
                let c = RULE_LIMIT as int;
                assert((n as int) * c <= 1000000 * c) by (nonlinear_arith)
                    requires
                        0 <= n as int <= 1000000,
                        0 < c,
                ;
            }
            let vx1 = clamp_i128((p.vx as i128) + (f.0 as i128), COORD_LIMIT);
            let vy1 = clamp_i128((p.vy as i128) + (f.1 as i128), COORD_LIMIT);
            let x1 = p.x + vx1;
            let y1 = p.y + vy1;
            let vx2 = damp(vx1, fr);
            let vy2 = damp(vy1, fr);
            let (nx, nvx): (i64, i64) = match self.walls {
                Walls::Open => (clamp_i128(x1 as i128, COORD_LIMIT), vx2),
                _ => self.walls.enforce(x1, vx2),
            };
            let (ny, nvy): (i64, i64) = match self.walls {
                Walls::Open => (clamp_i128(y1 as i128, COORD_LIMIT), vy2),
                _ => self.walls.enforce(y1, vy2),
            };
            let newp = Particle { x: nx, y: ny, vx: nvx, vy: nvy, kind: p.kind };
            proof {
                assert(newp == step_particle_spec(ps, i as int, rs, w));
                assert(particle_ok(newp, w, rs.num_types()));
            }
            next.push(newp);
            i = i + 1;
        }

        self.particles = next;
        self.tick = self.tick + 1;
        proof {
            assert(self.particles@ =~= step_spec(ps, rs, w));
        }
    }

    /// Adopt an explicit particle state (to start a scenario or resume a
    /// saved one): the boundary policy must have a usable extent, the
    /// population must fit, and every particle must be in an accepted
    /// state.
    pub fn from_particles(particles: Vec<Particle>, ruleset: Ruleset, walls: Walls) -> (r: Result<
        Simulation,
        SimError,
    >)
        requires
            ruleset.wf(),
        ensures
            match r {
                Ok(sim) => {
                    &&& walls.wf()
                    &&& particles@.len() <= POP_LIMIT
                    &&& forall|i: int|
                        0 <= i < particles@.len() ==> particle_ok(
                            #[trigger] particles@[i],
                            walls,
                            ruleset.num_types(),
                        )
                    &&& sim.wf()
                    &&& sim.particles_spec() == particles@
                    &&& sim.ruleset_spec() == ruleset
                    &&& sim.walls_spec() == walls
                    &&& sim.tick_spec() == 0
                },
                Err(e) => {
                    ||| (e == SimError::BadExtent && !walls.wf())
                    ||| (e == SimError::TooLarge && walls.wf() && particles@.len() > POP_LIMIT)
                    ||| (e == SimError::BadState && walls.wf() && particles@.len() <= POP_LIMIT
                        && exists|i: int|
                        0 <= i < particles@.len() && !particle_ok(
                            #[trigger] particles@[i],
                            walls,
                            ruleset.num_types(),
                        ))
                },
            },
    {
        let walls_ok = match walls {
            Walls::Open => true,
            Walls::Reflective(e) => 0 < e && e <= RULE_LIMIT,
            Walls::Periodic(e) => 0 < e && e <= RULE_LIMIT,
        };
        if !walls_ok {
            return Err(SimError::BadExtent);
        }
        let n = particles.len();
        if n > POP_LIMIT {
            return Err(SimError::TooLarge);
        }
        let nt = ruleset.num_point_types();
        let mut i: usize = 0;
        while i < n
            invariant
                ruleset.wf(),
                walls.wf(),
                nt == ruleset.num_types(),
                n == particles@.len(),
                n <= POP_LIMIT,
                i <= n,
                forall|k: int|
                    0 <= k < i ==> particle_ok(#[trigger] particles@[k], walls, nt as int),
            decreases n - i,
        {
            if !particle_ok_exec(&particles[i], &walls, nt) {
                proof {
                    assert(!particle_ok(particles@[i as int], walls, nt as int));
                }
                return Err(SimError::BadState);
            }
            i = i + 1;
        }
        let cache = TypePairCache::build(&ruleset);
        Ok(Simulation { particles, ruleset, cache, walls, tick: 0 })
    }

    /// Construct a fresh simulation: `population` particles placed by the
    /// boundary policy's own distribution (normal around the origin when
    /// open, uniform across the domain otherwise), with types drawn
    /// uniformly from the rule set's range and velocities zero.
    #[verifier::rlimit(60)]
    pub fn new(population: u32, ruleset: Ruleset, walls: Walls, src: &mut RandomSource) -> (r:
        Result<Simulation, SimError>)
        requires
            ruleset.wf(),
            old(src).wf(),
        ensures
            final(src).wf(),
            match r {
                Ok(sim) => {
                    let pc = PointsConfig::Simple(Distribution::Const(population as i64));
                    let pts = points_sample_spec(pc, walls, *old(src));
                    let ks = samples_spec(kind_dist(ruleset), pts.1, population as nat);
                    &&& walls.wf()
                    &&& population <= POP_LIMIT
                    &&& sim.wf()
                    &&& sim.ruleset_spec() == ruleset
                    &&& sim.walls_spec() == walls
                    &&& sim.tick_spec() == 0
                    &&& sim.particles_spec().len() == population
                    &&& forall|i: int|
                        0 <= i < population ==> #[trigger] sim.particles_spec()[i]
                            == built_particle(pts.0[i], ks.0[i])
                    &&& *final(src) == ks.1
                },
                Err(e) => {
                    &&& *final(src) == *old(src)
                    &&& ((e == SimError::BadExtent && !walls.wf()) || (e == SimError::TooLarge
                        && walls.wf() && population > POP_LIMIT))
                },
            },
    {
        let walls_ok = match walls {
            Walls::Open => true,
            Walls::Reflective(e) => 0 < e && e <= RULE_LIMIT,
            Walls::Periodic(e) => 0 < e && e <= RULE_LIMIT,
        };
        if !walls_ok {
            return Err(SimError::BadExtent);
        }
        if population as usize > POP_LIMIT {
            return Err(SimError::TooLarge);
        }
        let pc = PointsConfig::Simple(Distribution::Const(population as i64));
        let pts = pc.sample(&walls, src);
        proof {
            lemma_pairs_spec_len(
                spawn_dist_spec(walls),
                spawn_dist_spec(walls),
                *old(src),
                population as nat,
            );
            lemma_spawn_in_domain(walls, *old(src), population as nat);
        }
        let nt = ruleset.num_point_types();
        let kd = Distribution::Uniform { min: 0, max: nt as i64 };
        let ghost s_mid = *src;
        let ks = sample_many(&kd, pts.len(), src);
        proof {
            lemma_samples_uniform_range(0, nt as i64, s_mid, population as nat);
        }
        let particles = build_particles(&pts, &ks);
        let cache = TypePairCache::build(&ruleset);
        let sim = Simulation { particles, ruleset, cache, walls, tick: 0 };
        proof {
            assert forall|i: int| 0 <= i < sim.particles@.len() implies particle_ok(
                #[trigger] sim.particles@[i],
                walls,
                sim.ruleset.num_types(),
            ) by {
                assert(sim.particles@[i] == built_particle(pts@[i], ks@[i]));
            }
        }
        Ok(sim)
    }

    /// Build a whole simulation from a configuration: sample the rule set,
    /// the boundary policy and the initial positions, then draw one type
    /// per particle uniformly from the rule set's range.
    #[verifier::rlimit(60)]
    pub fn from_config(config: Config, src: &mut RandomSource) -> (r: Result<Simulation, SimError>)
        requires
            old(src).wf(),
        ensures
            final(src).wf(),
            match r {
                Ok(sim) => {
                    let s0 = *old(src);
                    let s1 = rc_src_after(config.ruleset, s0);
                    let w = walls_sample_spec(config.walls, s1);
                    let s2 = walls_src_after(config.walls, s1);
                    let pts = points_sample_spec(config.points, w, s2);
                    let ks = samples_spec(kind_dist(sim.ruleset_spec()), pts.1, pts.0.len());
                    &&& rc_outcome(config.ruleset, s0) is None
                    &&& sim.ruleset_spec().wf()
                    &&& ruleset_matches_draws(sim.ruleset_spec(), config.ruleset, s0)
                    &&& sim.walls_spec() == w
                    &&& w.wf()
                    &&& pts.0.len() <= POP_LIMIT
                    &&& sim.wf()
                    &&& sim.tick_spec() == 0
                    &&& sim.particles_spec().len() == pts.0.len()
                    &&& forall|i: int|
                        0 <= i < pts.0.len() ==> #[trigger] sim.particles_spec()[i]
                            == built_particle(pts.0[i], ks.0[i])
                    &&& *final(src) == ks.1
                },
                Err(e) => {
                    let s0 = *old(src);
                    let s1 = rc_src_after(config.ruleset, s0);
                    let w = walls_sample_spec(config.walls, s1);
                    let s2 = walls_src_after(config.walls, s1);
                    let pts = points_sample_spec(config.points, w, s2);
                    ||| (exists|re: RulesetError|
                        e == SimError::Rules(re) && rc_outcome(config.ruleset, s0) == Some(re)
                            && *final(src) == s1)
                    ||| (e == SimError::BadExtent && rc_outcome(config.ruleset, s0) is None
                        && !w.wf() && *final(src) == pts.1)
                    ||| (e == SimError::TooLarge && rc_outcome(config.ruleset, s0) is None
                        && w.wf() && pts.0.len() > POP_LIMIT && *final(src) == pts.1)
                    ||| (e == SimError::BadState && rc_outcome(config.ruleset, s0) is None
                        && w.wf() && pts.0.len() <= POP_LIMIT && (exists|i: int|
                        0 <= i < pts.0.len() && !(in_domain((#[trigger] pts.0[i]).0 as int, w)
                            && in_domain(pts.0[i].1 as int, w))))
                },
            },
    {
        let (ruleset, walls, pts) = match config.sample(src) {
            Ok(triple) => triple,
            Err(e) => {
                return Err(SimError::Rules(e));
            },
        };
        let walls_ok = match walls {
            Walls::Open => true,
            Walls::Reflective(e) => 0 < e && e <= RULE_LIMIT,
            Walls::Periodic(e) => 0 < e && e <= RULE_LIMIT,
        };
        if !walls_ok {
            return Err(SimError::BadExtent);
        }
        let n = pts.len();
        if n > POP_LIMIT {
            return Err(SimError::TooLarge);
        }
        let nt = ruleset.num_point_types();
        let kd = Distribution::Uniform { min: 0, max: nt as i64 };
        let ghost s_mid = *src;
        let ks = sample_many(&kd, n, src);
        proof {
            lemma_samples_uniform_range(0, nt as i64, s_mid, n as nat);
        }
        let particles = build_particles(&pts, &ks);
        let res = Self::from_particles(particles, ruleset, walls);
        proof {
            let s0 = *old(src);
            let s1 = rc_src_after(config.ruleset, s0);
            let w = walls_sample_spec(config.walls, s1);
            let s2 = walls_src_after(config.walls, s1);
            let pspec = points_sample_spec(config.points, w, s2);
            lemma_points_bounded(config.points, w, s2);
            assert(w == walls);
            assert(pts@ == pspec.0);
            let pv = build_view(pts@, ks@);
            match &res {
                Ok(sim) => {
                    assert(sim.particles_spec() =~= pv);
                    assert(kind_dist(sim.ruleset_spec()) == kd);
                },
                Err(e) => {
                    assert(walls.wf() && pts@.len() <= POP_LIMIT);
                    assert(*e == SimError::BadState);
                    let bi = choose|i: int|
                        0 <= i < pv.len() && !particle_ok(#[trigger] pv[i], walls, nt as int);
                    assert(pv[bi] == built_particle(pts@[bi], ks@[bi]));
                    assert(mag(pts@[bi].0 as int) <= COORD_LIMIT);
                    assert(mag(pts@[bi].1 as int) <= COORD_LIMIT);
                    assert(0 <= ks@[bi] < nt as i64);
                    assert(!(in_domain(pts@[bi].0 as int, walls) && in_domain(
                        pts@[bi].1 as int,
                        walls,
                    )));
                },
            }
        }
        match res {
            Ok(sim) => Ok(sim),
            Err(e) => Err(e),
        }
    }
}

/// Whether the pair `(i, j)` sits in the short-range band of the force
/// law: within interaction range but at or inside `min_r`, where the
/// smoothed repulsion acts regardless of the attraction coefficient.
pub open spec fn short_range_pair(s: Seq<Particle>, i: int, j: int, rs: Ruleset, w: Walls) -> bool {
    let dx = wrap_delta_spec(s[j].x - s[i].x, w);
    let dy = wrap_delta_spec(s[j].y - s[i].y, w);
    let a = s[i].kind as int;
    let b = s[j].kind as int;
    let r2 = dx * dx + dy * dy;
    &&& crate::fixed::MIN_DIST2 <= r2 <= rs.max_at(a, b) * rs.max_at(a, b)
    &&& crate::fixed::isqrt_spec(r2) <= rs.min_at(a, b)
}

/// A pair with zero attraction that is not in the short-range band exerts
/// no force.
proof fn lemma_pair_force_zero(s: Seq<Particle>, i: int, j: int, rs: Ruleset, w: Walls)
    requires
        0 <= i < s.len(),
        0 <= j < s.len(),
        rs.attr_at(s[i].kind as int, s[j].kind as int) == 0,
        !short_range_pair(s, i, j, rs, w),
    ensures
        pair_force_spec(s, i, j, rs, w) == ((0int, 0int)),
{
    let dx = wrap_delta_spec(s[j].x - s[i].x, w);
    let dy = wrap_delta_spec(s[j].y - s[i].y, w);
    let a = s[i].kind as int;
    let b = s[j].kind as int;
    let m = rs.min_at(a, b);
    let mx = rs.max_at(a, b);
    let r2 = dx * dx + dy * dy;
    if r2 > mx * mx || r2 < crate::fixed::MIN_DIST2 {
    } else {
        let r = crate::fixed::isqrt_spec(r2);
        assert(r > m);
        let t = crate::force::tent_factor(r, m, mx);
        assert(crate::force::mag(0int) * t == 0) by (nonlinear_arith);
        assert(0int * t == 0) by (nonlinear_arith);
        vstd::arithmetic::div_mod::lemma_div_basics(0);
        assert((0int) / (UNIT as int) == 0);
        assert(crate::force::force_mag(r, m, mx, 0) == 0);
        crate::fixed::lemma_isqrt_at_least(r2, 100);
        assert(mag(dx) * mag(0int) == 0) by (nonlinear_arith);
        assert(mag(dy) * mag(0int) == 0) by (nonlinear_arith);
        assert((0int) / r == 0);
        assert(crate::force::comp_along(dx, 0, r) == 0);
        assert(crate::force::comp_along(dy, 0, r) == 0);
    }
}

/// With zero attraction everywhere and no short-range pair, the whole
/// force sum on particle `i` vanishes.
proof fn lemma_force_sum_zero(s: Seq<Particle>, i: int, j: nat, rs: Ruleset, w: Walls)
    requires
        0 <= i < s.len(),
        j <= s.len(),
        forall|k: int|
            0 <= k < s.len() && k != i ==> rs.attr_at(
                s[i].kind as int,
                (#[trigger] s[k]).kind as int,
            ) == 0,
        forall|k: int| 0 <= k < s.len() && k != i ==> !short_range_pair(s, i, k, rs, w),
    ensures
        force_sum_spec(s, i, j, rs, w) == ((0int, 0int)),
    decreases j,
{
    if j > 0 {
        lemma_force_sum_zero(s, i, (j - 1) as nat, rs, w);
        if i != j - 1 {
            assert(!short_range_pair(s, i, j - 1, rs, w));
            lemma_pair_force_zero(s, i, j - 1, rs, w);
        }
    }
}

/// Friction zero leaves a velocity exactly as it was.
proof fn lemma_damp_zero(v: int)
    ensures
        damp_spec(v, 0) == v,
{
    if v >= 0 {
        assert(v * (UNIT as int) >= 0) by (nonlinear_arith)
            requires
                v >= 0,
        ;
        vstd::arithmetic::div_mod::lemma_div_multiples_vanish(v, UNIT as int);
        assert(v * (UNIT as int) == (UNIT as int) * v) by (nonlinear_arith);
    } else {
        assert(v * (UNIT as int) < 0) by (nonlinear_arith)
            requires
                v < 0,
        ;
        assert(-(v * (UNIT as int)) == (-v) * (UNIT as int)) by (nonlinear_arith);
        vstd::arithmetic::div_mod::lemma_div_multiples_vanish(-v, UNIT as int);
        assert((-v) * (UNIT as int) == (UNIT as int) * (-v)) by (nonlinear_arith);
    }
}

/// Conservation: with every relevant attraction zero, zero friction, no
/// pair in the short-range band, and (between reflecting walls) the moved
/// position still inside the domain, one tick leaves particle `i`'s
/// velocity exactly unchanged.
pub proof fn lemma_zero_attraction_keeps_velocity(s: Seq<Particle>, rs: Ruleset, w: Walls, i: int)
    requires
        0 <= i < s.len(),
        rs.friction_spec() == 0,
        mag(s[i].vx as int) <= COORD_LIMIT,
        mag(s[i].vy as int) <= COORD_LIMIT,
        forall|k: int|
            0 <= k < s.len() && k != i ==> rs.attr_at(
                s[i].kind as int,
                (#[trigger] s[k]).kind as int,
            ) == 0,
        forall|k: int| 0 <= k < s.len() && k != i ==> !short_range_pair(s, i, k, rs, w),
        w is Reflective ==> {
            let e = w->Reflective_0 as int;
            -e <= s[i].x + s[i].vx < e && -e <= s[i].y + s[i].vy < e
        },
    ensures
        step_particle_spec(s, i, rs, w).vx == s[i].vx,
        step_particle_spec(s, i, rs, w).vy == s[i].vy,
{
    lemma_force_sum_zero(s, i, s.len(), rs, w);
    let vx1 = clamp_spec(s[i].vx + 0, COORD_LIMIT as int);
    let vy1 = clamp_spec(s[i].vy + 0, COORD_LIMIT as int);
    assert(vx1 == s[i].vx);
    assert(vy1 == s[i].vy);
    lemma_damp_zero(vx1);
    lemma_damp_zero(vy1);
}

/// The uniform type-index distribution of a rule set.
pub open spec fn kind_dist(rs: Ruleset) -> Distribution {
    Distribution::Uniform { min: 0, max: rs.num_types() as i64 }
}

/// A freshly spawned particle: a sampled position, zero velocity, and a
/// drawn type index.
pub open spec fn built_particle(pt: (i64, i64), k: i64) -> Particle {
    Particle { x: pt.0, y: pt.1, vx: 0, vy: 0, kind: k as u32 }
}

/// The particles a position list and a type list build.
pub open spec fn build_view(pts: Seq<(i64, i64)>, ks: Seq<i64>) -> Seq<Particle> {
    Seq::new(pts.len(), |i: int| built_particle(pts[i], ks[i]))
}

/// Check one particle's state against the engine's bands and the domain.
fn particle_ok_exec(p: &Particle, walls: &Walls, ntypes: u32) -> (r: bool)
    requires
        walls.wf(),
    ensures
        r == particle_ok(*p, *walls, ntypes as int),
{
    let coords_ok = p.x <= COORD_LIMIT && p.x >= -COORD_LIMIT && p.y <= COORD_LIMIT && p.y
        >= -COORD_LIMIT && p.vx <= COORD_LIMIT && p.vx >= -COORD_LIMIT && p.vy <= COORD_LIMIT
        && p.vy >= -COORD_LIMIT;
    let dom_ok = match walls {
        Walls::Open => true,
        Walls::Periodic(e) => p.x >= -*e && p.x < *e && p.y >= -*e && p.y < *e,
        Walls::Reflective(e) => p.x >= -*e && p.x <= *e && p.y >= -*e && p.y <= *e,
    };
    coords_ok && dom_ok && p.kind < ntypes
}

/// Zip sampled positions and type draws into particles at rest.
fn build_particles(pts: &Vec<(i64, i64)>, kinds: &Vec<i64>) -> (v: Vec<Particle>)
    requires
        pts@.len() == kinds@.len(),
        forall|i: int| 0 <= i < kinds@.len() ==> 0 <= #[trigger] kinds@[i] < 0x100000000,
    ensures
        v@.len() == pts@.len(),
        v@ == build_view(pts@, kinds@),
{
    let n = pts.len();
    let mut v: Vec<Particle> = Vec::new();
    let mut i: usize = 0;
    while i < n
        invariant
            n == pts@.len(),
            n == kinds@.len(),
            forall|k: int| 0 <= k < n ==> 0 <= #[trigger] kinds@[k] < 0x100000000,
            i <= n,
            v@.len() == i,
            forall|k: int| 0 <= k < i ==> #[trigger] v@[k] == built_particle(pts@[k], kinds@[k]),
        decreases n - i,
    {
        let pt = pts[i];
        let k = kinds[i];
        v.push(Particle { x: pt.0, y: pt.1, vx: 0, vy: 0, kind: k as u32 });
        i = i + 1;
    }
    proof {
        assert(v@ =~= build_view(pts@, kinds@));
    }
    v
}

} // verus!
