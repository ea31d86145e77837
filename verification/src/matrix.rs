//! A square table of fixed-point coefficients, stored flat so that its
//! rectangular shape is an invariant rather than a convention.

use vstd::prelude::*;

use crate::fixed::TYPE_LIMIT;

verus! {

/// An `n` by `n` table of fixed-point values with bounds-checked access.
pub struct Matrix {
    n: usize,
    data: Vec<i64>,
}

impl Matrix {
    /// Side length of the table.
    pub closed spec fn dim(self) -> int {
        self.n as int
    }

    /// The entry in row `i`, column `j`.
    pub closed spec fn entry(self, i: int, j: int) -> int {
        self.data[i * self.n + j] as int
    }

    /// The table is square and small enough to index safely.
    #[verifier::type_invariant]
    pub closed spec fn wf(self) -> bool {
        &&& self.data.len() == self.n * self.n
        &&& self.n <= TYPE_LIMIT
    }

    /// Wrap `n * n` values, row by row, into a table.
    pub fn new(n: usize, data: Vec<i64>) -> (r: Matrix)
        requires
            n <= TYPE_LIMIT,
            data.len() == n * n,
        ensures
            r.dim() == n,
            forall|i: int, j: int|
                0 <= i < n && 0 <= j < n ==> r.entry(i, j) == data[i * n + j],
    {
        Matrix { n, data }
    }

    /// Side length, as a machine value.
    pub fn len(&self) -> (r: usize)
        ensures
            r == self.dim(),
    {
        self.n
    }

    /// Bounds-checked read of row `i`, column `j`.
    pub fn get(&self, i: usize, j: usize) -> (r: i64)
        requires
            i < self.dim(),
            j < self.dim(),
        ensures
            r == self.entry(i as int, j as int),
    {
        proof {
            use_type_invariant(&*self);
            let ii = i as int;
            let jj = j as int;
            let nn = self.n as int;
            assert(ii * nn + jj < nn * nn) by (nonlinear_arith)
                requires
                    0 <= ii < nn,
                    0 <= jj < nn,
            ;
        }
        self.data[i * self.n + j]
    }
}

} // verus!
