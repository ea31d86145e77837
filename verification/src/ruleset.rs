//! The immutable per-simulation interaction parameters, validated at
//! construction, and the flattened per-type-pair cache the hot loop reads.

use vstd::prelude::*;

use crate::fixed::{RULE_LIMIT, TYPE_LIMIT, UNIT};
use crate::force::mag;
use crate::matrix::Matrix;

verus! {

/// Why a candidate rule set was rejected.
#[derive(Clone, Copy, Debug, PartialEq, Eq, Structural)]
pub enum RulesetError {
    /// No types at all, or more than `TYPE_LIMIT`.
    BadTypeCount,
    /// A matrix does not have one row and one column per type.
    BadShape,
    /// A radius pair with `min_r` negative, `max_r` above `RULE_LIMIT`,
    /// or `min_r >= max_r` (which would make the force law divide by zero
    /// or worse).
    BadRadius,
    /// An attraction beyond `RULE_LIMIT` in magnitude.
    BadAttraction,
    /// A friction outside `[0, UNIT]`.
    BadFriction,
}

/// Every ordered type pair has `0 <= min_r < max_r <= RULE_LIMIT`.
pub open spec fn radii_ok(min_r: Matrix, max_r: Matrix, n: int) -> bool {
    forall|i: int, j: int|
        0 <= i < n && 0 <= j < n ==> 0 <= #[trigger] min_r.entry(i, j)
            && min_r.entry(i, j) < max_r.entry(i, j) && max_r.entry(i, j) <= RULE_LIMIT
}

/// Every ordered type pair has an attraction within `RULE_LIMIT`.
pub open spec fn attractions_ok(attractions: Matrix, n: int) -> bool {
    forall|i: int, j: int|
        0 <= i < n && 0 <= j < n ==> mag(#[trigger] attractions.entry(i, j)) <= RULE_LIMIT
}

/// The outcome `Ruleset::new` owes for each combination of arguments:
/// the first failed check, or nothing when all pass.
pub open spec fn validate_spec(
    num_point_types: u32,
    min_r: Matrix,
    max_r: Matrix,
    attractions: Matrix,
    friction: i64,
) -> Option<RulesetError> {
    let n = num_point_types as int;
    if !(1 <= n <= TYPE_LIMIT) {
        Some(RulesetError::BadTypeCount)
    } else if !(min_r.dim() == n && max_r.dim() == n && attractions.dim() == n) {
        Some(RulesetError::BadShape)
    } else if !radii_ok(min_r, max_r, n) {
        Some(RulesetError::BadRadius)
    } else if !attractions_ok(attractions, n) {
        Some(RulesetError::BadAttraction)
    } else if !(0 <= friction <= UNIT) {
        Some(RulesetError::BadFriction)
    } else {
        Option::None
    }
}

/// The interaction parameters of one simulation: per-type-pair radii and
/// attractions, and a single friction. Immutable once constructed, and
/// only constructible in a valid state.
pub struct Ruleset {
    num_point_types: u32,
    min_r: Matrix,
    max_r: Matrix,
    attractions: Matrix,
    friction: i64,
}

impl Ruleset {
    /// Number of particle types.
    pub closed spec fn num_types(self) -> int {
        self.num_point_types as int
    }

    /// The table of inner interaction radii.
    pub closed spec fn min_mat(self) -> Matrix {
        self.min_r
    }

    /// The table of outer interaction radii.
    pub closed spec fn max_mat(self) -> Matrix {
        self.max_r
    }

    /// The table of attraction coefficients.
    pub closed spec fn attr_mat(self) -> Matrix {
        self.attractions
    }

    /// Inner interaction radius of the ordered type pair `(i, j)`.
    pub open spec fn min_at(self, i: int, j: int) -> int {
        self.min_mat().entry(i, j)
    }

    /// Outer interaction radius of the ordered type pair `(i, j)`.
    pub open spec fn max_at(self, i: int, j: int) -> int {
        self.max_mat().entry(i, j)
    }

    /// Attraction coefficient of the ordered type pair `(i, j)`.
    pub open spec fn attr_at(self, i: int, j: int) -> int {
        self.attr_mat().entry(i, j)
    }

    /// Friction, as a fixed-point fraction of `UNIT`.
    pub closed spec fn friction_spec(self) -> int {
        self.friction as int
    }

    /// Validity: one row and column per type in each table, and every
    /// parameter in its band. Construction establishes it.
    pub open spec fn wf(self) -> bool {
        &&& 1 <= self.num_types() <= TYPE_LIMIT
        &&& self.min_mat().dim() == self.num_types()
        &&& self.max_mat().dim() == self.num_types()
        &&& self.attr_mat().dim() == self.num_types()
        &&& radii_ok(self.min_mat(), self.max_mat(), self.num_types())
        &&& attractions_ok(self.attr_mat(), self.num_types())
        &&& 0 <= self.friction_spec() <= UNIT
    }

    /// Validate and assemble a rule set: one row and column per type in
    /// each matrix, radii ordered and bounded, attractions bounded,
    /// friction in `[0, UNIT]`.
    pub fn new(
        num_point_types: u32,
        min_r: Matrix,
        max_r: Matrix,
        attractions: Matrix,
        friction: i64,
    ) -> (r: Result<Ruleset, RulesetError>)
        ensures
            match r {
                Ok(rs) => {
                    &&& validate_spec(num_point_types, min_r, max_r, attractions, friction)
                        is None
                    &&& rs.wf()
                    &&& rs.num_types() == num_point_types
                    &&& rs.friction_spec() == friction
                    &&& forall|i: int, j: int|
                        0 <= i < num_point_types && 0 <= j < num_point_types ==> {
                            &&& #[trigger] rs.min_at(i, j) == min_r.entry(i, j)
                            &&& rs.max_at(i, j) == max_r.entry(i, j)
                            &&& rs.attr_at(i, j) == attractions.entry(i, j)
                        }
                },
                Err(e) => validate_spec(num_point_types, min_r, max_r, attractions, friction)
                    == Some(e),
            },
    {
        if num_point_types == 0 || num_point_types > TYPE_LIMIT {
            return Err(RulesetError::BadTypeCount);
        }
        let n = num_point_types as usize;
        if min_r.len() != n || max_r.len() != n || attractions.len() != n {
            return Err(RulesetError::BadShape);
        }
        let mut i: usize = 0;
        while i < n
            invariant
                n == num_point_types,
                1 <= num_point_types <= TYPE_LIMIT,
                min_r.dim() == n && max_r.dim() == n && attractions.dim() == n,
                i <= n,
                forall|p: int, q: int|
                    0 <= p < i && 0 <= q < n ==> 0 <= #[trigger] min_r.entry(p, q)
                        && min_r.entry(p, q) < max_r.entry(p, q)
                        && max_r.entry(p, q) <= RULE_LIMIT,
            decreases n - i,
        {
            let mut j: usize = 0;
            while j < n
                invariant
                    n == num_point_types,
                    1 <= num_point_types <= TYPE_LIMIT,
                    min_r.dim() == n && max_r.dim() == n && attractions.dim() == n,
                    i < n,
                    j <= n,
                    forall|p: int, q: int|
                        0 <= p < i && 0 <= q < n ==> 0 <= #[trigger] min_r.entry(p, q)
                            && min_r.entry(p, q) < max_r.entry(p, q)
                            && max_r.entry(p, q) <= RULE_LIMIT,
                    forall|q: int|
                        0 <= q < j ==> 0 <= #[trigger] min_r.entry(i as int, q)
                            && min_r.entry(i as int, q) < max_r.entry(i as int, q)
                            && max_r.entry(i as int, q) <= RULE_LIMIT,
                decreases n - j,
            {
                let lo = min_r.get(i, j);
                let hi = max_r.get(i, j);
                if lo < 0 || hi > RULE_LIMIT || lo >= hi {
                    proof {
                        assert(!(0 <= min_r.entry(i as int, j as int) && min_r.entry(
                            i as int, j as int) < max_r.entry(i as int, j as int) && max_r.entry(
                            i as int, j as int) <= RULE_LIMIT));
                        assert(!radii_ok(min_r, max_r, n as int));
                    }
                    return Err(RulesetError::BadRadius);
                }
                j = j + 1;
            }
            i = i + 1;
        }
        let mut i: usize = 0;
        while i < n
            invariant
                n == num_point_types,
                1 <= num_point_types <= TYPE_LIMIT,
                min_r.dim() == n && max_r.dim() == n && attractions.dim() == n,
                radii_ok(min_r, max_r, n as int),
                i <= n,
                forall|p: int, q: int|
                    0 <= p < i && 0 <= q < n ==> mag(#[trigger] attractions.entry(p, q))
                        <= RULE_LIMIT,
            decreases n - i,
        {
            let mut j: usize = 0;
            while j < n
                invariant
                    n == num_point_types,
                    1 <= num_point_types <= TYPE_LIMIT,
                    min_r.dim() == n && max_r.dim() == n && attractions.dim() == n,
                    radii_ok(min_r, max_r, n as int),
                    i < n,
                    j <= n,
                    forall|p: int, q: int|
                        0 <= p < i && 0 <= q < n ==> mag(#[trigger] attractions.entry(p, q))
                            <= RULE_LIMIT,
                    forall|q: int|
                        0 <= q < j ==> mag(#[trigger] attractions.entry(i as int, q))
                            <= RULE_LIMIT,
                decreases n - j,
            {
                let at = attractions.get(i, j);
                if at > RULE_LIMIT || at < -RULE_LIMIT {
                    proof {
                        assert(!(mag(attractions.entry(i as int, j as int)) <= RULE_LIMIT));
                        assert(!attractions_ok(attractions, n as int));
                    }
                    return Err(RulesetError::BadAttraction);
                }
                j = j + 1;
            }
            i = i + 1;
        }
        if friction < 0 || friction > UNIT {
            return Err(RulesetError::BadFriction);
        }
        Ok(Ruleset { num_point_types, min_r, max_r, attractions, friction })
    }

    /// Number of particle types.
    pub fn num_point_types(&self) -> (r: u32)
        ensures
            r == self.num_types(),
    {
        self.num_point_types
    }

    /// Friction, as a fixed-point fraction of `UNIT`.
    pub fn friction(&self) -> (r: i64)
        ensures
            r == self.friction_spec(),
    {
        self.friction
    }

    /// Inner radius of the ordered type pair `(i, j)`.
    pub fn min_r(&self, i: u32, j: u32) -> (r: i64)
        requires
            self.wf(),
            i < self.num_types(),
            j < self.num_types(),
        ensures
            r == self.min_at(i as int, j as int),
    {
        self.min_r.get(i as usize, j as usize)
    }

    /// Outer radius of the ordered type pair `(i, j)`.
    pub fn max_r(&self, i: u32, j: u32) -> (r: i64)
        requires
            self.wf(),
            i < self.num_types(),
            j < self.num_types(),
        ensures
            r == self.max_at(i as int, j as int),
    {
        self.max_r.get(i as usize, j as usize)
    }

    /// Attraction of the ordered type pair `(i, j)`.
    pub fn attraction(&self, i: u32, j: u32) -> (r: i64)
        requires
            self.wf(),
            i < self.num_types(),
            j < self.num_types(),
        ensures
            r == self.attr_at(i as int, j as int),
    {
        self.attractions.get(i as usize, j as usize)
    }
}

/// The per-type-pair parameters flattened into three row-major arrays, so
/// the evaluate loop reads each triple with one index computation.
pub struct TypePairCache {
    n: usize,
    min_r: Vec<i64>,
    max_r: Vec<i64>,
    attractions: Vec<i64>,
}

impl TypePairCache {
    /// Number of types the cache covers.
    pub closed spec fn dim(self) -> int {
        self.n as int
    }

    /// Cached inner radius of the ordered type pair `(a, b)`.
    pub closed spec fn min_at(self, a: int, b: int) -> int {
        self.min_r[a * self.n + b] as int
    }

    /// Cached outer radius of the ordered type pair `(a, b)`.
    pub closed spec fn max_at(self, a: int, b: int) -> int {
        self.max_r[a * self.n + b] as int
    }

    /// Cached attraction of the ordered type pair `(a, b)`.
    pub closed spec fn attr_at(self, a: int, b: int) -> int {
        self.attractions[a * self.n + b] as int
    }

    /// Three square arrays of the same side length.
    pub closed spec fn wf(self) -> bool {
        &&& self.min_r.len() == self.n * self.n
        &&& self.max_r.len() == self.n * self.n
        &&& self.attractions.len() == self.n * self.n
        &&& self.n <= TYPE_LIMIT
    }

    /// The cache is a faithful projection of `rs`, type pair by type pair.
    pub open spec fn matches(self, rs: Ruleset) -> bool {
        &&& self.dim() == rs.num_types()
        &&& forall|a: int, b: int|
            0 <= a < self.dim() && 0 <= b < self.dim() ==> {
                &&& #[trigger] self.min_at(a, b) == rs.min_at(a, b)
                &&& #[trigger] self.max_at(a, b) == rs.max_at(a, b)
                &&& #[trigger] self.attr_at(a, b) == rs.attr_at(a, b)
            }
    }

    /// Flatten the rule set's matrices, row by row.
    pub fn build(rs: &Ruleset) -> (c: TypePairCache)
        requires
            rs.wf(),
        ensures
            c.wf(),
            c.matches(*rs),
    {
        let n32 = rs.num_point_types();
        let n = n32 as usize;
        let mut min_v: Vec<i64> = Vec::new();
        let mut max_v: Vec<i64> = Vec::new();
        let mut att_v: Vec<i64> = Vec::new();
        let mut a: usize = 0;
        while a < n
            invariant
                rs.wf(),
                n == rs.num_types(),
                n <= TYPE_LIMIT,
                a <= n,
                min_v.len() == a * n,
                max_v.len() == a * n,
                att_v.len() == a * n,
                forall|p: int, q: int|
                    0 <= p < a && 0 <= q < n ==> {
                        &&& min_v[p * n + q] == rs.min_at(p, q)
                        &&& max_v[p * n + q] == rs.max_at(p, q)
                        &&& att_v[p * n + q] == rs.attr_at(p, q)
                    },
            decreases n - a,
        {
            let mut b: usize = 0;
            while b < n
                invariant
                    rs.wf(),
                    n == rs.num_types(),
                    n <= TYPE_LIMIT,
                    a < n,
                    b <= n,
                    min_v.len() == a * n + b,
                    max_v.len() == a * n + b,
                    att_v.len() == a * n + b,
                    forall|p: int, q: int|
                        0 <= p < a && 0 <= q < n ==> {
                            &&& min_v[p * n + q] == rs.min_at(p, q)
                            &&& max_v[p * n + q] == rs.max_at(p, q)
                            &&& att_v[p * n + q] == rs.attr_at(p, q)
                        },
                    forall|q: int|
                        0 <= q < b ==> {
                            &&& min_v[a as int * n + q] == rs.min_at(a as int, q)
                            &&& max_v[a as int * n + q] == rs.max_at(a as int, q)
                            &&& att_v[a as int * n + q] == rs.attr_at(a as int, q)
                        },
                decreases n - b,
            {
                proof {
                    let ai = a as int;
                    let bi = b as int;
                    let ni = n as int;
                    assert(ai * ni + bi < ni * ni && (ai * ni + bi) + 1 <= ni * ni)
                        by (nonlinear_arith)
                        requires
                            0 <= ai < ni,
                            0 <= bi < ni,
                    ;
                }
                min_v.push(rs.min_r(a as u32, b as u32));
                max_v.push(rs.max_r(a as u32, b as u32));
                att_v.push(rs.attraction(a as u32, b as u32));
                proof {
                    let ai = a as int;
                    let ni = n as int;
                    assert forall|p: int, q: int| 0 <= p < ai && 0 <= q < ni implies #[trigger] (
                    p * ni + q) < ai * ni by {
                        assert(p * ni + q < ai * ni) by (nonlinear_arith)
                            requires
                                0 <= p < ai,
                                0 <= q < ni,
                        ;
                    }
                }
                b = b + 1;
            }
            proof {
                let ai = a as int;
                let ni = n as int;
                assert(ai * ni + ni == (ai + 1) * ni) by (nonlinear_arith);
            }
            a = a + 1;
        }
        proof {
            let ni = n as int;
            assert(ni * ni == ni * ni);
        }
        TypePairCache { n, min_r: min_v, max_r: max_v, attractions: att_v }
    }

    /// The `(min_r, max_r, attraction)` triple of the ordered type pair
    /// `(a, b)`.
    pub fn params(&self, a: u32, b: u32) -> (r: (i64, i64, i64))
        requires
            self.wf(),
            a < self.dim(),
            b < self.dim(),
        ensures
            r.0 == self.min_at(a as int, b as int),
            r.1 == self.max_at(a as int, b as int),
            r.2 == self.attr_at(a as int, b as int),
    {
        proof {
            let ai = a as int;
            let bi = b as int;
            let ni = self.n as int;
            assert(ai * ni + bi < ni * ni) by (nonlinear_arith)
                requires
                    0 <= ai < ni,
                    0 <= bi < ni,
            ;
        }
        let idx = (a as usize) * self.n + (b as usize);
        (self.min_r[idx], self.max_r[idx], self.attractions[idx])
    }
}

} // verus!
