//! The boundary policy of the simulated domain: unbounded, reflecting walls,
//! or a periodic (toroidal) square, together with the displacement
//! correction and the post-integration enforcement each policy applies.

use vstd::prelude::*;

use crate::fixed::{COORD_LIMIT, RULE_LIMIT, emod_i64};
use crate::force::mag;

verus! {

/// The spatial topology of the domain, chosen once at construction.
///
/// `Reflective(e)` and `Periodic(e)` bound the square `[-e, e)` on both
/// axes; `Open` places no limit.
#[derive(Clone, Copy, Debug, PartialEq, Eq, Structural)]
pub enum Walls {
    Open,
    Reflective(i64),
    Periodic(i64),
}

impl Walls {
    /// A wall extent, where one is required, is positive and representable.
    pub open spec fn wf(self) -> bool {
        match self {
            Walls::Open => true,
            Walls::Reflective(e) => 0 < e <= RULE_LIMIT,
            Walls::Periodic(e) => 0 < e <= RULE_LIMIT,
        }
    }
}

/// One periodic correction of a displacement: the shorter way around the
/// torus, for raw deltas within one domain width of the range.
pub open spec fn wrap_delta_spec(d: int, w: Walls) -> int {
    match w {
        Walls::Periodic(e) => if d >= e {
            d - 2 * e
        } else if d < -e {
            d + 2 * e
        } else {
            d
        },
        _ => d,
    }
}

/// A coordinate brought back into `[-e, e)` by whole domain widths.
pub open spec fn wrap_coord_spec(x: int, e: int) -> int
    decreases (if x >= e { mag(x) + 1 } else { mag(x) }) when 0 < e
{
    if x < -e {
        wrap_coord_spec(x + 2 * e, e)
    } else if x >= e {
        wrap_coord_spec(x - 2 * e, e)
    } else {
        x
    }
}

/// Wrapping lands in `[-e, e)` and moves the coordinate by a whole number
/// of domain widths.
pub proof fn lemma_wrap_coord_form(x: int, e: int)
    requires
        0 < e,
    ensures
        -e <= wrap_coord_spec(x, e) < e,
        exists|k: int| wrap_coord_spec(x, e) == x + #[trigger] (2 * e * k),
    decreases (if x >= e { mag(x) + 1 } else { mag(x) }),
{
    if x < -e {
        lemma_wrap_coord_form(x + 2 * e, e);
        let k0 = choose|k: int| wrap_coord_spec(x + 2 * e, e) == x + 2 * e + #[trigger] (2 * e * k);
        assert(x + 2 * e + 2 * e * k0 == x + 2 * e * (k0 + 1)) by (nonlinear_arith);
        assert(wrap_coord_spec(x, e) == x + 2 * e * (k0 + 1));
    } else if x >= e {
        lemma_wrap_coord_form(x - 2 * e, e);
        let k0 = choose|k: int| wrap_coord_spec(x - 2 * e, e) == x - 2 * e + #[trigger] (2 * e * k);
        assert(x - 2 * e + 2 * e * k0 == x + 2 * e * (k0 - 1)) by (nonlinear_arith);
        assert(wrap_coord_spec(x, e) == x + 2 * e * (k0 - 1));
    } else {
        assert(2 * e * 0 == 0) by (nonlinear_arith);
        assert(wrap_coord_spec(x, e) == x + 2 * e * 0);
    }
}

/// Any position update that leaves `[-e, e)` by less than one domain width
/// is restored by exactly one correction of `2 * e`; one already in range is
/// left alone.
pub proof fn lemma_wrap_single_correction(x: int, e: int)
    requires
        0 < e,
    ensures
        -e <= x < e ==> wrap_coord_spec(x, e) == x,
        e <= x < 3 * e ==> wrap_coord_spec(x, e) == x - 2 * e,
        -3 * e <= x < -e ==> wrap_coord_spec(x, e) == x + 2 * e,
{
    if e <= x < 3 * e {
        assert(wrap_coord_spec(x - 2 * e, e) == x - 2 * e);
    }
    if -3 * e <= x < -e {
        assert(wrap_coord_spec(x + 2 * e, e) == x + 2 * e);
    }
}

/// In-range values are exactly the fixed points of one wrap step.
pub proof fn lemma_wrap_unique(x: int, e: int, r: int)
    requires
        0 < e,
        -e <= r < e,
        exists|k: int| r == x + #[trigger] (2 * e * k),
    ensures
        r == wrap_coord_spec(x, e),
{
    lemma_wrap_coord_form(x, e);
    let w = wrap_coord_spec(x, e);
    let k1 = choose|k: int| r == x + #[trigger] (2 * e * k);
    let k2 = choose|k: int| w == x + #[trigger] (2 * e * k);
    assert(r - w == 2 * e * (k1 - k2)) by (nonlinear_arith)
        requires
            r == x + 2 * e * k1,
            w == x + 2 * e * k2,
    ;
    assert(k1 == k2) by (nonlinear_arith)
        requires
            r - w == 2 * e * (k1 - k2),
            -2 * e < r - w < 2 * e,
            0 < e,
    ;
}

/// Bring a coordinate back into `[-e, e)` in one remainder step.
pub fn wrap_coord(x: i64, e: i64) -> (r: i64)
    requires
        0 < e <= RULE_LIMIT,
        mag(x as int) <= COORD_LIMIT + RULE_LIMIT,
    ensures
        r == wrap_coord_spec(x as int, e as int),
        -e <= r < e,
{
    let rem = emod_i64(x + e, 2 * e);
    let r = rem - e;
    proof {
        let xg = x as int;
        let eg = e as int;
        let q = (xg + eg) / (2 * eg);
        vstd::arithmetic::div_mod::lemma_fundamental_div_mod(xg + eg, 2 * eg);
        assert(r == xg + 2 * eg * (-q)) by (nonlinear_arith)
            requires
                r == (xg + eg) - (2 * eg) * q + (-eg),
        ;
        lemma_wrap_unique(xg, eg, r as int);
    }
    r
}

/// One reflective bounce: a coordinate outside `[-e, e)` is clamped to the
/// boundary it crossed and the matching velocity component is negated.
pub open spec fn reflect_spec(x: int, vx: int, e: int) -> (int, int) {
    if x >= e {
        (e, -vx)
    } else if x < -e {
        (-e, -vx)
    } else {
        (x, vx)
    }
}

/// A particle driven at a reflecting wall is stopped on the wall exactly,
/// with its outward velocity component sign-flipped, and starts the next
/// tick inside `[-e, e]`.
pub proof fn lemma_reflect_bounce(x: int, vx: int, e: int)
    requires
        0 < e,
    ensures
        x >= e ==> reflect_spec(x, vx, e) == ((e, -vx)),
        x < -e ==> reflect_spec(x, vx, e) == ((-e, -vx)),
        -e <= x < e ==> reflect_spec(x, vx, e) == ((x, vx)),
        -e <= reflect_spec(x, vx, e).0 <= e,
        mag(reflect_spec(x, vx, e).1) == mag(vx),
{
}

/// What boundary enforcement does to one axis of one particle after
/// integration.
pub open spec fn enforce_spec(w: Walls, x: int, vx: int) -> (int, int) {
    match w {
        Walls::Open => (x, vx),
        Walls::Periodic(e) => (wrap_coord_spec(x, e as int), vx),
        Walls::Reflective(e) => reflect_spec(x, vx, e as int),
    }
}

impl Walls {
    /// Displacement correction for the evaluate phase: the shortest path on
    /// the torus under `Periodic`, the raw delta otherwise.
    pub fn wrap_delta(&self, d: i64) -> (r: i64)
        requires
            self.wf(),
            mag(d as int) <= 2 * COORD_LIMIT,
            *self is Periodic ==> mag(d as int) < 2 * ((*self)->Periodic_0 as int),
        ensures
            r == wrap_delta_spec(d as int, *self),
            mag(r as int) <= 2 * COORD_LIMIT,
            *self is Periodic ==> mag(r as int) <= (*self)->Periodic_0 as int,
    {
        match self {
            Walls::Periodic(e) => {
                if d >= *e {
                    d - 2 * *e
                } else if d < -*e {
                    d + 2 * *e
                } else {
                    d
                }
            },
            _ => d,
        }
    }

    /// Post-integration enforcement for one axis of one particle.
    pub fn enforce(&self, x: i64, vx: i64) -> (r: (i64, i64))
        requires
            self.wf(),
            mag(x as int) <= COORD_LIMIT + RULE_LIMIT,
            mag(vx as int) <= COORD_LIMIT,
        ensures
            r.0 == enforce_spec(*self, x as int, vx as int).0,
            r.1 == enforce_spec(*self, x as int, vx as int).1,
            mag(r.1 as int) <= COORD_LIMIT,
            *self is Open ==> r.0 == x,
            *self is Periodic ==> -((*self)->Periodic_0) <= r.0 < (*self)->Periodic_0,
            *self is Reflective ==> -((*self)->Reflective_0) <= r.0 <= (*self)->Reflective_0,
    {
        match self {
            Walls::Open => (x, vx),
            Walls::Periodic(e) => (wrap_coord(x, *e), vx),
            Walls::Reflective(e) => {
                if x >= *e {
                    (*e, -vx)
                } else if x < -*e {
                    (-*e, -vx)
                } else {
                    (x, vx)
                }
            },
        }
    }
}

} // verus!
