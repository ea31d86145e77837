//! An explicit random source threaded through every sampling call.
//!
//! The source is a pre-drawn stream of raw draws, consumed in order and
//! cycled when exhausted. Consumers interpret each raw draw (see
//! `Distribution`), so sampling is a deterministic function of the stream,
//! which makes generation reproducible; the statistical shape of the draws
//! is the stream producer's concern. A stream can be filled from explicit
//! values or from a seeded generator of the `rand` crate.

use vstd::prelude::*;

verus! {

/// A finite stream of raw draws with a cursor, consumed cyclically.
pub struct RandomSource {
    draws: Vec<i64>,
    next: usize,
}

impl RandomSource {
    /// The stream of raw draws.
    pub closed spec fn draws(self) -> Seq<i64> {
        self.draws@
    }

    /// Position of the next draw to be handed out.
    pub closed spec fn cursor(self) -> int {
        self.next as int
    }

    /// The cursor stays on a draw, or at zero for an empty stream.
    pub closed spec fn wf(self) -> bool {
        if self.draws@.len() == 0 {
            self.next == 0
        } else {
            self.next < self.draws@.len()
        }
    }

    /// The draw the next call hands out: the one under the cursor, or zero
    /// from an empty stream.
    pub open spec fn peek_spec(self) -> int {
        if self.draws().len() == 0 {
            0
        } else {
            self.draws()[self.cursor()] as int
        }
    }

    /// The source as it stands after one draw: same stream, cursor moved on
    /// one place and returned to the front at the end.
    pub closed spec fn step_spec(self) -> RandomSource {
        if self.draws@.len() == 0 {
            self
        } else if self.next + 1 == self.draws@.len() {
            RandomSource { draws: self.draws, next: 0 }
        } else {
            RandomSource { draws: self.draws, next: (self.next + 1) as usize }
        }
    }

    /// What one draw does to the source, stated over the public view.
    pub proof fn lemma_step_spec(self)
        requires
            self.wf(),
        ensures
            self.step_spec().wf(),
            self.step_spec().draws() == self.draws(),
            self.step_spec().cursor() == if self.draws().len() == 0 {
                0
            } else if self.cursor() + 1 == self.draws().len() {
                0
            } else {
                self.cursor() + 1
            },
    {
        broadcast use vstd::std_specs::vec::axiom_spec_len;

        assert(self.draws@.len() == vstd::std_specs::vec::spec_vec_len(&self.draws));
    }

    /// A source that will hand out `draws` in order, cyclically.
    pub fn from_draws(draws: Vec<i64>) -> (s: RandomSource)
        ensures
            s.wf(),
            s.draws() == draws@,
            s.cursor() == 0,
    {
        RandomSource { draws, next: 0 }
    }

    /// A source of `n` draws taken from a generator seeded with `seed`.
    ///
    /// Every draw is nonnegative; a distribution that reads a draw as a
    /// centred deviate folds it into its own band first.
    pub fn from_seed(seed: u64, n: usize) -> (s: RandomSource)
        ensures
            s.wf(),
            s.draws().len() == n,
            s.cursor() == 0,
    {
        let mut rng = seed_rng(seed);
        let mut draws: Vec<i64> = Vec::new();
        while draws.len() < n
            invariant
                draws.len() <= n,
            decreases n - draws.len(),
        {
            let d = draw_range(&mut rng, 0, i64::MAX);
            draws.push(d);
        }
        RandomSource { draws, next: 0 }
    }

    /// Hand out the draw under the cursor and move on.
    pub fn next_draw(&mut self) -> (d: i64)
        requires
            old(self).wf(),
        ensures
            final(self).wf(),
            d == old(self).peek_spec(),
            *final(self) == old(self).step_spec(),
    {
        if self.draws.len() == 0 {
            0
        } else {
            let d = self.draws[self.next];
            self.next = self.next + 1;
            if self.next == self.draws.len() {
                self.next = 0;
            }
            d
        }
    }
}

#[verifier::external_type_specification]
#[verifier::external_body]
pub struct ExStdRng(rand::rngs::StdRng);

/// Relies on `rand::SeedableRng::seed_from_u64`: builds a `StdRng` from a
/// word-sized seed. Nothing is assumed of the values it will produce.
#[verifier::external_body]
fn seed_rng(seed: u64) -> rand::rngs::StdRng {
    <rand::rngs::StdRng as rand::SeedableRng>::seed_from_u64(seed)
}

/// Relies on `rand::Rng::gen_range` over `lo..hi`: the draw lies in
/// `[lo, hi)`, and the call panics only on an empty range, which the
/// precondition rules out.
#[verifier::external_body]
fn draw_range(rng: &mut rand::rngs::StdRng, lo: i64, hi: i64) -> (r: i64)
    requires
        lo < hi,
    ensures
        lo <= r < hi,
{
    rand::Rng::gen_range(rng, lo..hi)
}

} // verus!
