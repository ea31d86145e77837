//! Fixed-point scale and the engine's numeric limits, with the small
//! arithmetic helpers the rest of the crate builds on.

use vstd::prelude::*;

verus! {

/// Fractional steps per whole unit: a real quantity `x` is stored as `x * UNIT`.
pub const UNIT: i64 = 1000;

/// Softening constant of the short-range force branch (2.0 in whole units).
pub const R_SMOOTH: i64 = 2000;

/// Minimum-distance floor of the force law, in squared fixed-point units
/// (0.01 in squared whole units).
pub const MIN_DIST2: i64 = 10000;

/// Magnitude bound on positions and velocities: coordinates saturate here.
pub const COORD_LIMIT: i64 = 1_000_000_000_000;

/// Magnitude bound on rule-set entries (radii, attractions) and wall extents.
pub const RULE_LIMIT: i64 = 2_000_000_000;

/// Magnitude bound on a displacement between two in-range coordinates.
pub const DELTA_LIMIT: i64 = 2 * COORD_LIMIT;

/// Largest population a simulation may hold.
pub const POP_LIMIT: usize = 1_000_000;

/// Largest number of particle types a rule set may declare.
pub const TYPE_LIMIT: u32 = 4096;

/// `v` brought into `[-limit, limit]` by saturation.
pub open spec fn clamp_spec(v: int, limit: int) -> int {
    if v < -limit {
        -limit
    } else if v > limit {
        limit
    } else {
        v
    }
}

/// Saturate a wide intermediate into `[-limit, limit]`.
pub fn clamp_i128(v: i128, limit: i64) -> (r: i64)
    requires
        0 <= limit,
    ensures
        r == clamp_spec(v as int, limit as int),
{
    if v < -(limit as i128) {
        -limit
    } else if v > limit as i128 {
        limit
    } else {
        v as i64
    }
}

/// Euclidean remainder of `d` by a positive modulus, always in `[0, m)`.
pub fn emod_i64(d: i64, m: i64) -> (r: i64)
    requires
        0 < m,
    ensures
        r == d as int % m as int,
        0 <= r < m,
{
    broadcast use vstd::arithmetic::div_mod::lemma_fundamental_div_mod;

    if d >= 0 {
        let r = ((d as u128) % (m as u128)) as i64;
        assert(r == d as int % m as int) by {
            vstd::arithmetic::div_mod::lemma_mod_division_less_than_divisor(d as int, m as int);
        }
        r
    } else {
        let n: u128 = (-(d as i128)) as u128;
        let rem: u128 = n % (m as u128);
        let r = if rem == 0 {
            0i64
        } else {
            (m as u128 - rem) as i64
        };
        proof {
            let q = n as int / m as int;
            let r0 = n as int % m as int;
            assert(n as int == -(d as int));
            vstd::arithmetic::div_mod::lemma_fundamental_div_mod(n as int, m as int);
            vstd::arithmetic::div_mod::lemma_mod_division_less_than_divisor(n as int, m as int);
            if r0 == 0 {
                assert(d as int == (-q) * m as int + 0) by (nonlinear_arith)
                    requires
                        d as int == -(q * m as int),
                ;
                vstd::arithmetic::div_mod::lemma_fundamental_div_mod_converse_mod(
                    d as int, m as int, -q, 0);
            } else {
                assert(d as int == (-q - 1) * m + (m - r0)) by (nonlinear_arith)
                    requires
                        d as int == -(q * m as int + r0),
                ;
                vstd::arithmetic::div_mod::lemma_fundamental_div_mod_converse_mod(
                    d as int, m as int, -q - 1, m as int - r0);
            }
        }
        r
    }
}

/// Euclidean remainder by a positive modulus on wide intermediates.
pub fn emod_i128(d: i128, m: i128) -> (r: i128)
    requires
        0 < m,
        i128::MIN < d,
    ensures
        r == d as int % m as int,
        0 <= r < m,
{
    if d >= 0 {
        let r = ((d as u128) % (m as u128)) as i128;
        assert(r == d as int % m as int) by {
            vstd::arithmetic::div_mod::lemma_mod_division_less_than_divisor(d as int, m as int);
        }
        r
    } else {
        let n: u128 = (-d) as u128;
        let rem: u128 = n % (m as u128);
        let r = if rem == 0 {
            0i128
        } else {
            (m as u128 - rem) as i128
        };
        proof {
            let q = n as int / m as int;
            let r0 = n as int % m as int;
            assert(n as int == -(d as int));
            vstd::arithmetic::div_mod::lemma_fundamental_div_mod(n as int, m as int);
            vstd::arithmetic::div_mod::lemma_mod_division_less_than_divisor(n as int, m as int);
            if r0 == 0 {
                assert(d as int == (-q) * m as int + 0) by (nonlinear_arith)
                    requires
                        d as int == -(q * m as int),
                ;
                vstd::arithmetic::div_mod::lemma_fundamental_div_mod_converse_mod(
                    d as int, m as int, -q, 0);
            } else {
                assert(d as int == (-q - 1) * m + (m - r0)) by (nonlinear_arith)
                    requires
                        d as int == -(q * m as int + r0),
                ;
                vstd::arithmetic::div_mod::lemma_fundamental_div_mod_converse_mod(
                    d as int, m as int, -q - 1, m as int - r0);
            }
        }
        r
    }
}

/// Quotient truncated towards zero: the magnitude quotient carrying the
/// dividend's sign.
pub open spec fn tdiv_spec(num: int, den: int) -> int {
    if num < 0 {
        -((-num) / den)
    } else {
        num / den
    }
}

/// Truncating division of a wide intermediate by a positive divisor.
pub fn tdiv_i128(num: i128, den: i128) -> (q: i128)
    requires
        0 < den,
        i128::MIN < num,
    ensures
        q == tdiv_spec(num as int, den as int),
{
    if num < 0 {
        proof {
            vstd::arithmetic::div_mod::lemma_div_nonincreasing(-(num as int), den as int);
            vstd::arithmetic::div_mod::lemma_div_pos_is_pos(-(num as int), den as int);
        }
        let m = ((-num) as u128) / (den as u128);
        -(m as i128)
    } else {
        proof {
            vstd::arithmetic::div_mod::lemma_div_nonincreasing(num as int, den as int);
            vstd::arithmetic::div_mod::lemma_div_pos_is_pos(num as int, den as int);
        }
        ((num as u128) / (den as u128)) as i128
    }
}

/// Floor of the square root, defined by the recursive halving scheme.
pub open spec fn isqrt_spec(n: int) -> int
    decreases n,
{
    if n < 1 {
        0
    } else {
        let t = 2 * isqrt_spec(n / 4);
        if (t + 1) * (t + 1) <= n {
            t + 1
        } else {
            t
        }
    }
}

/// `isqrt_spec(n)` is the unique `r >= 0` with `r * r <= n < (r + 1) * (r + 1)`.
pub proof fn lemma_isqrt_bounds(n: int)
    requires
        0 <= n,
    ensures
        0 <= isqrt_spec(n),
        isqrt_spec(n) * isqrt_spec(n) <= n,
        n < (isqrt_spec(n) + 1) * (isqrt_spec(n) + 1),
    decreases n,
{
    if n < 1 {
    } else {
        lemma_isqrt_bounds(n / 4);
        let s = isqrt_spec(n / 4);
        let t = 2 * s;
        vstd::arithmetic::div_mod::lemma_fundamental_div_mod(n, 4);
        assert(t * t <= n) by (nonlinear_arith)
            requires
                s * s <= n / 4,
                n == 4 * (n / 4) + n % 4,
                0 <= n % 4,
                t == 2 * s,
        ;
        assert(n < (t + 2) * (t + 2)) by (nonlinear_arith)
            requires
                n / 4 < (s + 1) * (s + 1),
                n == 4 * (n / 4) + n % 4,
                n % 4 < 4,
                t == 2 * s,
        ;
        let r = isqrt_spec(n);
        if (t + 1) * (t + 1) <= n {
            assert(r == t + 1);
            assert((r + 1) * (r + 1) == (t + 2) * (t + 2)) by (nonlinear_arith)
                requires
                    r == t + 1,
            ;
        } else {
            assert(r == t);
        }
    }
}

/// Any two values that bracket `n` as its rounded-down square root are equal.
pub proof fn lemma_isqrt_unique(n: int, r: int)
    requires
        0 <= n,
        0 <= r,
        r * r <= n,
        n < (r + 1) * (r + 1),
    ensures
        r == isqrt_spec(n),
{
    lemma_isqrt_bounds(n);
    let q = isqrt_spec(n);
    assert(r == q) by (nonlinear_arith)
        requires
            0 <= r,
            0 <= q,
            r * r <= n,
            n < (r + 1) * (r + 1),
            q * q <= n,
            n < (q + 1) * (q + 1),
    ;
}

/// A nonnegative value whose square is at most `n` is at most `isqrt_spec(n)`.
pub proof fn lemma_isqrt_at_least(n: int, a: int)
    requires
        0 <= a,
        a * a <= n,
    ensures
        a <= isqrt_spec(n),
{
    lemma_isqrt_bounds(n);
    let q = isqrt_spec(n);
    assert(a <= q) by (nonlinear_arith)
        requires
            0 <= a,
            0 <= q,
            a * a <= n,
            n < (q + 1) * (q + 1),
    ;
}

/// If `n` stays below `(b + 1)^2` then its root stays at most `b`.
pub proof fn lemma_isqrt_at_most(n: int, b: int)
    requires
        0 <= n,
        0 <= b,
        n < (b + 1) * (b + 1),
    ensures
        isqrt_spec(n) <= b,
{
    lemma_isqrt_bounds(n);
    let q = isqrt_spec(n);
    assert(q <= b) by (nonlinear_arith)
        requires
            0 <= q,
            0 <= b,
            q * q <= n,
            n < (b + 1) * (b + 1),
    ;
}

/// Upper bound of the argument range `isqrt_u128` accepts (`2^84`).
pub const ISQRT_ARG_LIMIT: u128 = 0x1000000000000000000000;

/// Rounded-down square root by bisection.
pub fn isqrt_u128(n: u128) -> (r: u64)
    requires
        (n as int) < ISQRT_ARG_LIMIT as int,
    ensures
        r == isqrt_spec(n as int),
{
    let mut lo: u64 = 0;
    let mut hi: u64 = 0x40000000000;  // 2^42, whose square tops the argument range
    proof {
        assert((0x40000000000int) * (0x40000000000int) == ISQRT_ARG_LIMIT as int);
    }
    while lo + 1 < hi
        invariant
            0 <= lo < hi <= 0x40000000000,
            (lo as int) * (lo as int) <= n as int,
            (n as int) < (hi as int) * (hi as int),
        decreases hi - lo,
    {
        let mid: u64 = lo + (hi - lo) / 2;
        assert(lo < mid < hi);
        assert((mid as int) * (mid as int) <= ISQRT_ARG_LIMIT as int) by (nonlinear_arith)
            requires
                0 <= mid as int <= 0x40000000000,
        ;
        let sq: u128 = (mid as u128) * (mid as u128);
        if sq <= n {
            lo = mid;
        } else {
            hi = mid;
        }
    }
    proof {
        lemma_isqrt_unique(n as int, lo as int);
    }
    lo
}

} // verus!
