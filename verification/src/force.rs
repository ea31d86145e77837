//! The pairwise force law: a pure function of the displacement between two
//! particles and the (min_r, max_r, attraction) triple of their type pair.
//!
//! Outside `[sqrt(MIN_DIST2), max_r]` the force vanishes. Between `min_r` and
//! `max_r` its magnitude follows a triangular profile peaking midway, scaled
//! by the signed attraction. At `min_r` and below, a smoothed repulsive
//! branch takes over, finite down to the minimum-distance floor and equal to
//! the triangular branch (both zero) at `min_r` itself.

use vstd::prelude::*;

use crate::fixed::{
    DELTA_LIMIT, MIN_DIST2, R_SMOOTH, RULE_LIMIT, UNIT, isqrt_spec, isqrt_u128,
    lemma_isqrt_at_least, lemma_isqrt_at_most,
};

verus! {

/// Magnitude of a signed value.
pub open spec fn mag(v: int) -> int {
    if v < 0 {
        -v
    } else {
        v
    }
}

/// The triangular profile between `m` and `mx`: `UNIT` scaled fraction of
/// the way from either end towards the midpoint.
pub open spec fn tent_factor(r: int, m: int, mx: int) -> int {
    UNIT - (mag(2 * r - (mx + m)) * UNIT) / (mx - m)
}

/// `a` scaled by the fixed-point fraction `t` of `UNIT`, rounding the
/// magnitude down.
pub open spec fn scale_frac(a: int, t: int) -> int {
    if a < 0 {
        -((mag(a) * t) / (UNIT as int))
    } else {
        (a * t) / (UNIT as int)
    }
}

/// Magnitude of the mid-range branch: attraction times the triangular profile.
pub open spec fn tent_mag(r: int, m: int, mx: int, a: int) -> int {
    scale_frac(a, tent_factor(r, m, mx))
}

/// Magnitude of the short-range branch: a smoothed repulsion, finite at the
/// distance floor and zero at `m`.
pub open spec fn smooth_mag(r: int, m: int) -> int {
    -((R_SMOOTH * m * (m - r)) / ((m + R_SMOOTH) * (r + R_SMOOTH)))
}

/// The signed force magnitude at centre distance `r`.
pub open spec fn force_mag(r: int, m: int, mx: int, a: int) -> int {
    if r > m {
        tent_mag(r, m, mx, a)
    } else {
        smooth_mag(r, m)
    }
}

/// The component of the force along one axis: the axis share `d / r` of the
/// magnitude `f`, with the sign of `d * f`.
pub open spec fn comp_along(d: int, f: int, r: int) -> int {
    let q = (mag(d) * mag(f)) / r;
    if (d < 0) == (f < 0) {
        q
    } else {
        -q
    }
}

/// The force vector a particle at the origin receives from one at `(dx, dy)`,
/// under the type pair's `(m, mx, a)` parameters.
pub open spec fn force_spec(dx: int, dy: int, m: int, mx: int, a: int) -> (int, int) {
    let r2 = dx * dx + dy * dy;
    if r2 > mx * mx || r2 < MIN_DIST2 {
        (0, 0)
    } else {
        let r = isqrt_spec(r2);
        let f = force_mag(r, m, mx, a);
        (comp_along(dx, f, r), comp_along(dy, f, r))
    }
}

/// Euclidean quotient of nonnegative fixed-point intermediates.
fn div_nn(num: i128, den: i128) -> (q: i128)
    requires
        0 <= num,
        0 < den,
    ensures
        q == num as int / den as int,
        0 <= q <= num,
{
    proof {
        vstd::arithmetic::div_mod::lemma_div_is_ordered_by_denominator(num as int, 1, den as int);
        vstd::arithmetic::div_mod::lemma_div_basics(num as int);
    }
    ((num as u128) / (den as u128)) as i128
}

/// The mid-range branch. Relies on the caller keeping `r` inside `(m, mx]`.
fn tent_exec(r: i64, m: i64, mx: i64, a: i64) -> (res: i64)
    requires
        0 <= m < mx <= RULE_LIMIT,
        m < r <= mx,
        mag(a as int) <= RULE_LIMIT,
    ensures
        res == tent_mag(r as int, m as int, mx as int, a as int),
        mag(res as int) <= mag(a as int),
{
    let dm: i64 = if 2 * r >= mx + m {
        2 * r - (mx + m)
    } else {
        (mx + m) - 2 * r
    };
    assert(dm == mag(2 * (r as int) - (mx as int + m as int)));
    assert(dm <= mx - m);
    let quot = div_nn((dm as i128) * (UNIT as i128), (mx - m) as i128);
    proof {
        let dmg = dm as int;
        let span = mx as int - m as int;
        vstd::arithmetic::div_mod::lemma_div_is_ordered(
            dmg * (UNIT as int), span * (UNIT as int), span);
        vstd::arithmetic::div_mod::lemma_div_multiples_vanish(UNIT as int, span);
        assert(dmg * (UNIT as int) <= span * (UNIT as int)) by (nonlinear_arith)
            requires
                0 <= dmg <= span,
        ;
    }
    let t: i64 = UNIT - (quot as i64);
    assert(0 <= t <= UNIT);
    assert(t == tent_factor(r as int, m as int, mx as int));
    let am: i64 = if a < 0 {
        -a
    } else {
        a
    };
    proof {
        let amg = am as int;
        let tg = t as int;
        assert(0 <= amg * tg <= 2000000000 * 1000) by (nonlinear_arith)
            requires
                0 <= amg <= 2000000000,
                0 <= tg <= 1000,
        ;
    }
    let q2 = div_nn((am as i128) * (t as i128), UNIT as i128);
    proof {
        let amg = am as int;
        let tg = t as int;
        assert(amg * tg <= amg * (UNIT as int)) by (nonlinear_arith)
            requires
                0 <= amg,
                0 <= tg <= UNIT as int,
        ;
        vstd::arithmetic::div_mod::lemma_div_is_ordered(
            amg * tg, amg * (UNIT as int), UNIT as int);
        vstd::arithmetic::div_mod::lemma_div_multiples_vanish(amg, UNIT as int);
        assert(amg * (UNIT as int) == (UNIT as int) * amg) by (nonlinear_arith);
    }
    if a < 0 {
        -(q2 as i64)
    } else {
        q2 as i64
    }
}

/// The short-range branch. Relies on the caller keeping `r` inside `(0, m]`.
fn smooth_exec(r: i64, m: i64) -> (res: i64)
    requires
        0 < r <= m <= RULE_LIMIT,
    ensures
        res == smooth_mag(r as int, m as int),
        0 <= -res <= m,
{
    proof {
        let rg = r as int;
        let mg = m as int;
        let rs = R_SMOOTH as int;
        assert(0 <= rs * mg <= 2000 * 2000000000) by (nonlinear_arith)
            requires
                0 <= mg <= 2000000000,
                rs == 2000,
        ;
        assert(0 <= (rs * mg) * (mg - rg) <= 2000 * 2000000000 * 2000000000)
            by (nonlinear_arith)
            requires
                0 <= rs * mg <= 2000 * 2000000000,
                0 <= mg - rg <= 2000000000,
        ;
        assert(0 < (mg + rs) * (rg + rs) <= 2000002000 * 2000002000) by (nonlinear_arith)
            requires
                0 < rg + rs <= mg + rs <= 2000002000,
        ;
    }
    let num = (R_SMOOTH as i128) * (m as i128) * ((m - r) as i128);
    let den = ((m + R_SMOOTH) as i128) * ((r + R_SMOOTH) as i128);
    proof {
        let rg = r as int;
        let mg = m as int;
        let rs = R_SMOOTH as int;
        assert(0 <= rs * mg * (mg - rg) <= rs * mg * mg) by (nonlinear_arith)
            requires
                0 < rg <= mg,
                0 < rs,
        ;
        assert(rs * mg * mg <= 2000 * 2000000000 * 2000000000) by (nonlinear_arith)
            requires
                0 <= mg <= 2000000000,
                rs == 2000,
        ;
        assert(0 < (mg + rs) * (rg + rs) <= (mg + rs) * (mg + rs)) by (nonlinear_arith)
            requires
                0 < rg <= mg,
                0 < rs,
        ;
        assert((mg + rs) * (mg + rs) <= 2000002000 * 2000002000) by (nonlinear_arith)
            requires
                0 < mg + rs <= 2000002000,
        ;
    }
    let q = div_nn(num, den);
    proof {
        let rg = r as int;
        let mg = m as int;
        let rs = R_SMOOTH as int;
        let numg = rs * mg * (mg - rg);
        let deng = (mg + rs) * (rg + rs);
        let den0 = (mg + rs) * rs;
        assert(0 < den0 <= deng) by (nonlinear_arith)
            requires
                0 < rg,
                0 < rs,
                0 <= mg,
                deng == (mg + rs) * (rg + rs),
                den0 == (mg + rs) * rs,
        ;
        vstd::arithmetic::div_mod::lemma_div_is_ordered_by_denominator(numg, den0, deng);
        assert(numg <= den0 * mg) by (nonlinear_arith)
            requires
                0 < rg <= mg,
                0 < rs,
                numg == rs * mg * (mg - rg),
                den0 == (mg + rs) * rs,
        ;
        vstd::arithmetic::div_mod::lemma_div_is_ordered(numg, den0 * mg, den0);
        vstd::arithmetic::div_mod::lemma_div_multiples_vanish(mg, den0);
    }
    -(q as i64)
}

/// The axis component of a force of magnitude `f` at distance `r`, along an
/// axis on which the displacement is `d`.
fn comp_exec(d: i64, f: i64, r: i64) -> (res: i64)
    requires
        0 < r <= RULE_LIMIT,
        mag(d as int) <= r,
        mag(f as int) <= RULE_LIMIT,
    ensures
        res == comp_along(d as int, f as int, r as int),
        mag(res as int) <= mag(f as int),
{
    let dm: i64 = if d < 0 {
        -d
    } else {
        d
    };
    let fm: i64 = if f < 0 {
        -f
    } else {
        f
    };
    proof {
        let dmg = dm as int;
        let fmg = fm as int;
        assert(0 <= dmg * fmg <= 2000000000 * 2000000000) by (nonlinear_arith)
            requires
                0 <= dmg <= 2000000000,
                0 <= fmg <= 2000000000,
        ;
    }
    let q = div_nn((dm as i128) * (fm as i128), r as i128);
    proof {
        let dmg = dm as int;
        let fmg = fm as int;
        let rgi = r as int;
        assert(dmg * fmg <= rgi * fmg) by (nonlinear_arith)
            requires
                0 <= dmg <= rgi,
                0 <= fmg,
        ;
        vstd::arithmetic::div_mod::lemma_div_is_ordered(dmg * fmg, rgi * fmg, rgi);
        vstd::arithmetic::div_mod::lemma_div_multiples_vanish(fmg, rgi);
    }
    if (d < 0) == (f < 0) {
        q as i64
    } else {
        -(q as i64)
    }
}

/// The force the particle at the origin receives from one displaced by
/// `(dx, dy)`. Pairs beyond `max_r`, or inside the minimum-distance floor,
/// contribute nothing.
pub fn force(dx: i64, dy: i64, min_r: i64, max_r: i64, attraction: i64) -> (fv: (i64, i64))
    requires
        0 <= min_r < max_r <= RULE_LIMIT,
        mag(attraction as int) <= RULE_LIMIT,
        mag(dx as int) <= DELTA_LIMIT,
        mag(dy as int) <= DELTA_LIMIT,
    ensures
        fv.0 == force_spec(dx as int, dy as int, min_r as int, max_r as int, attraction as int).0,
        fv.1 == force_spec(dx as int, dy as int, min_r as int, max_r as int, attraction as int).1,
        mag(fv.0 as int) <= RULE_LIMIT,
        mag(fv.1 as int) <= RULE_LIMIT,
        dx * dx + dy * dy > max_r * max_r || dx * dx + dy * dy < MIN_DIST2 ==> fv == ((0i64, 0i64)),
{
    let dxi = dx as i128;
    let dyi = dy as i128;
    proof {
        let dxg = dx as int;
        let dyg = dy as int;
        assert(0 <= dxg * dxg <= 4000000000000000000000000) by (nonlinear_arith)
            requires
                -2000000000000 <= dxg <= 2000000000000,
        ;
        assert(0 <= dyg * dyg <= 4000000000000000000000000) by (nonlinear_arith)
            requires
                -2000000000000 <= dyg <= 2000000000000,
        ;
        assert((max_r as int) * (max_r as int) <= 4000000000000000000) by (nonlinear_arith)
            requires
                0 <= max_r as int <= 2000000000,
        ;
    }
    let r2: i128 = dxi * dxi + dyi * dyi;
    let mm: i128 = (max_r as i128) * (max_r as i128);
    if r2 > mm || r2 < MIN_DIST2 as i128 {
        (0i64, 0i64)
    } else {
        let r64 = isqrt_u128(r2 as u128);
        proof {
            let r2g = r2 as int;
            assert(r2g < (max_r as int + 1) * (max_r as int + 1)) by (nonlinear_arith)
                requires
                    r2g <= (max_r as int) * (max_r as int),
                    0 <= max_r as int,
            ;
            lemma_isqrt_at_most(r2g, max_r as int);
            lemma_isqrt_at_least(r2g, 100);
            let dxg = dx as int;
            let dyg = dy as int;
            assert(mag(dxg) * mag(dxg) <= r2g && mag(dyg) * mag(dyg) <= r2g)
                by (nonlinear_arith)
                requires
                    r2g == dxg * dxg + dyg * dyg,
            ;
            lemma_isqrt_at_least(r2g, mag(dxg));
            lemma_isqrt_at_least(r2g, mag(dyg));
        }
        let r = r64 as i64;
        let f: i64 = if r > min_r {
            tent_exec(r, min_r, max_r, attraction)
        } else {
            smooth_exec(r, min_r)
        };
        let cx = comp_exec(dx, f, r);
        let cy = comp_exec(dy, f, r);
        (cx, cy)
    }
}

/// Continuity of the force law at `r == min_r`: the triangular branch and the
/// smoothed short-range branch agree there, both evaluating to zero, for any
/// `min_r < max_r` and any attraction.
pub proof fn lemma_force_continuous_at_min_r(m: int, mx: int, a: int)
    requires
        0 <= m < mx,
    ensures
        tent_mag(m, m, mx, a) == smooth_mag(m, m),
        tent_mag(m, m, mx, a) == 0,
{
    let span = mx - m;
    assert(mag(2 * m - (mx + m)) == span);
    vstd::arithmetic::div_mod::lemma_div_multiples_vanish(UNIT as int, span);
    assert(tent_factor(m, m, mx) == 0);
    vstd::arithmetic::div_mod::lemma_div_basics(UNIT as int);
    assert(mag(a) * 0 == 0) by (nonlinear_arith);
    assert(a * 0 == 0) by (nonlinear_arith);
    assert((0int) / (UNIT as int) == 0);
    let rs = R_SMOOTH as int;
    assert(rs * m * (m - m) == 0) by (nonlinear_arith);
    assert(0 < (m + rs) * (m + rs)) by (nonlinear_arith)
        requires
            0 <= m,
            0 < rs,
    ;
    assert((0int) / ((m + rs) * (m + rs)) == 0);
}

/// Outside the interaction band — squared distance above `max_r^2` or below
/// the minimum-distance floor — the force is the zero vector.
pub proof fn lemma_force_zero_out_of_range(dx: int, dy: int, m: int, mx: int, a: int)
    requires
        dx * dx + dy * dy > mx * mx || dx * dx + dy * dy < MIN_DIST2,
    ensures
        force_spec(dx, dy, m, mx, a) == ((0int, 0int)),
{
}

} // verus!
