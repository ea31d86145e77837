//! Declarative simulation configuration: every parameter is described by a
//! distribution, and sampling against an explicit random source turns a
//! description into a concrete rule set, boundary policy and initial
//! particle placement.
//!
//! Each stochastic draw consumes one raw draw of the source and maps it
//! deterministically: a uniform descriptor folds the draw into its range by
//! remainder, a normal descriptor folds it into a centred deviate band and
//! scales by the spread. Generation is therefore a function of the
//! descriptor and the source alone, which makes it reproducible.

use vstd::prelude::*;

use crate::boundary::Walls;
use crate::fixed::{
    clamp_spec, clamp_i128, emod_i64, tdiv_spec, tdiv_i128, COORD_LIMIT, POP_LIMIT, RULE_LIMIT,
    TYPE_LIMIT, UNIT,
};
use crate::force::mag;
use crate::matrix::Matrix;
use crate::random::RandomSource;
use crate::ruleset::{radii_ok, attractions_ok, Ruleset, RulesetError};

verus! {

/// Half-width of the deviate band a normal draw is folded into
/// (four whole units, so four spreads either side of the mean).
pub const Z_SPAN: i64 = 4000;

/// How one scalar parameter is chosen: a constant, a uniform range, or a
/// normal distribution given by mean and spread.
#[derive(Clone, Copy, Debug, PartialEq, Eq, Structural)]
pub enum Distribution {
    Const(i64),
    Uniform { min: i64, max: i64 },
    Normal { mean: i64, std: i64 },
}

/// The centred deviate a raw draw stands for, in `[-Z_SPAN, Z_SPAN]`.
pub open spec fn deviate_spec(draw: int) -> int {
    draw % (2 * Z_SPAN + 1) - Z_SPAN
}

/// The value a descriptor yields from one raw draw: the constant itself; a
/// uniform value folded into `[min, max)` (or `min` when the range is
/// empty); or the mean offset by the deviate times the spread, saturated to
/// the representable range.
pub open spec fn sample_spec(d: Distribution, draw: int) -> i64 {
    match d {
        Distribution::Const(v) => v,
        Distribution::Uniform { min, max } => if min < max {
            (min + draw % (max - min)) as i64
        } else {
            min
        },
        Distribution::Normal { mean, std } => clamp_spec(
            mean + tdiv_spec(std * deviate_spec(draw), UNIT as int),
            i64::MAX as int,
        ) as i64,
    }
}

/// Whether sampling `d` consumes a draw (everything but a constant does).
pub open spec fn consumes_draw(d: Distribution) -> bool {
    !(d is Const)
}

/// The source as it stands after one sample of `d`.
pub open spec fn src_after(d: Distribution, s: RandomSource) -> RandomSource {
    if consumes_draw(d) {
        s.step_spec()
    } else {
        s
    }
}

impl Distribution {
    /// Draw one value as described, advancing the source.
    pub fn sample(&self, src: &mut RandomSource) -> (r: i64)
        requires
            old(src).wf(),
        ensures
            final(src).wf(),
            r == sample_spec(*self, old(src).peek_spec()),
            *final(src) == src_after(*self, *old(src)),
    {
        match self {
            Distribution::Const(v) => *v,
            Distribution::Uniform { min, max } => {
                let d = src.next_draw();
                proof {
                    old(src).lemma_step_spec();
                }
                if *min < *max {
                    let span: i128 = (*max as i128) - (*min as i128);
                    let rem = crate::fixed::emod_i128(d as i128, span);
                    ((*min as i128) + rem) as i64
                } else {
                    *min
                }
            },
            Distribution::Normal { mean, std } => {
                let d = src.next_draw();
                proof {
                    old(src).lemma_step_spec();
                }
                let zq = emod_i64(d, 2 * Z_SPAN + 1) - Z_SPAN;
                proof {
                    let sg = *std as int;
                    let zg = zq as int;
                    assert(-36893488147419103232000 <= sg * zg <= 36893488147419103232000)
                        by (nonlinear_arith)
                        requires
                            -9223372036854775808 <= sg <= 9223372036854775807,
                            -4000 <= zg <= 4000,
                    ;
                }
                let p: i128 = (*std as i128) * (zq as i128);
                let q = tdiv_i128(p, UNIT as i128);
                clamp_i128((*mean as i128) + q, i64::MAX)
            },
        }
    }
}

/// `k` values sampled one after another with the same descriptor.
pub open spec fn samples_spec(d: Distribution, s: RandomSource, k: nat) -> (Seq<i64>, RandomSource)
    decreases k,
{
    if k == 0 {
        (Seq::empty(), s)
    } else {
        let prev = samples_spec(d, s, (k - 1) as nat);
        (prev.0.push(sample_spec(d, prev.1.peek_spec())), src_after(d, prev.1))
    }
}

/// The sequence side of `samples_spec` has one entry per sample, and the
/// source side stays well formed.
pub proof fn lemma_samples_spec_len(d: Distribution, s: RandomSource, k: nat)
    requires
        s.wf(),
    ensures
        samples_spec(d, s, k).0.len() == k,
        samples_spec(d, s, k).1.wf(),
    decreases k,
{
    if k > 0 {
        lemma_samples_spec_len(d, s, (k - 1) as nat);
        samples_spec(d, s, (k - 1) as nat).1.lemma_step_spec();
    }
}

/// Sample `k` values in a row with one descriptor.
pub fn sample_many(d: &Distribution, k: usize, src: &mut RandomSource) -> (v: Vec<i64>)
    requires
        old(src).wf(),
    ensures
        final(src).wf(),
        v@.len() == k,
        v@ == samples_spec(*d, *old(src), k as nat).0,
        *final(src) == samples_spec(*d, *old(src), k as nat).1,
{
    let mut v: Vec<i64> = Vec::new();
    let mut i: usize = 0;
    while i < k
        invariant
            old(src).wf(),
            i <= k,
            src.wf(),
            v@.len() == i,
            v@ == samples_spec(*d, *old(src), i as nat).0,
            *src == samples_spec(*d, *old(src), i as nat).1,
        decreases k - i,
    {
        let r = d.sample(src);
        v.push(r);
        proof {
            lemma_samples_spec_len(*d, *old(src), i as nat);
            assert(samples_spec(*d, *old(src), (i + 1) as nat).0 == samples_spec(
                *d,
                *old(src),
                i as nat,
            ).0.push(sample_spec(*d, samples_spec(*d, *old(src), i as nat).1.peek_spec())));
        }
        i = i + 1;
    }
    v
}

/// Samples of a nonempty uniform descriptor stay inside its range.
pub proof fn lemma_sample_uniform_range(lo: i64, hi: i64, draw: int)
    requires
        lo < hi,
    ensures
        lo <= sample_spec(Distribution::Uniform { min: lo, max: hi }, draw) < hi,
{
    vstd::arithmetic::div_mod::lemma_mod_division_less_than_divisor(draw, hi - lo);
    vstd::arithmetic::div_mod::lemma_mod_bound(draw, hi - lo);
}

/// Every sample of a nonempty uniform descriptor stays inside its range.
pub proof fn lemma_samples_uniform_range(lo: i64, hi: i64, s: RandomSource, k: nat)
    requires
        lo < hi,
    ensures
        forall|i: int|
            0 <= i < samples_spec(Distribution::Uniform { min: lo, max: hi }, s, k).0.len()
                ==> lo <= #[trigger] samples_spec(
                Distribution::Uniform { min: lo, max: hi },
                s,
                k,
            ).0[i] < hi,
    decreases k,
{
    let d = Distribution::Uniform { min: lo, max: hi };
    if k > 0 {
        lemma_samples_uniform_range(lo, hi, s, (k - 1) as nat);
        let prev = samples_spec(d, s, (k - 1) as nat);
        let cur = samples_spec(d, s, k);
        lemma_sample_uniform_range(lo, hi, prev.1.peek_spec());
        assert(cur.0 == prev.0.push(sample_spec(d, prev.1.peek_spec())));
        assert forall|i: int| 0 <= i < cur.0.len() implies lo <= #[trigger] cur.0[i] < hi by {
            if i < cur.0.len() - 1 {
                assert(cur.0[i] == prev.0[i]);
            } else {
                assert(cur.0[i] == sample_spec(d, prev.1.peek_spec()));
            }
        }
    }
}

/// Row-major radii draws that a valid rule set admits.
pub open spec fn seq_radii_ok(mins: Seq<i64>, maxs: Seq<i64>, n: int) -> bool {
    forall|i: int, j: int|
        0 <= i < n && 0 <= j < n ==> 0 <= #[trigger] mins[i * n + j] && mins[i * n + j] < maxs[i * n
            + j] && maxs[i * n + j] <= RULE_LIMIT
}

/// Row-major attraction draws that a valid rule set admits.
pub open spec fn seq_attr_ok(atts: Seq<i64>, n: int) -> bool {
    forall|i: int, j: int|
        0 <= i < n && 0 <= j < n ==> mag(#[trigger] atts[i * n + j] as int) <= RULE_LIMIT
}

/// Build a rule set out of drawn values: the three flattened tables and the
/// friction, with the first invalid kind of value reported as the error.
#[verifier::rlimit(60)]
fn assemble(t: u32, mins: Vec<i64>, maxs: Vec<i64>, atts: Vec<i64>, f: i64) -> (r: Result<
    Ruleset,
    RulesetError,
>)
    requires
        1 <= t <= TYPE_LIMIT,
        mins@.len() == t * t,
        maxs@.len() == t * t,
        atts@.len() == t * t,
    ensures
        match r {
            Ok(rs) => {
                &&& rs.wf()
                &&& rs.num_types() == t
                &&& rs.friction_spec() == f
                &&& seq_radii_ok(mins@, maxs@, t as int)
                &&& seq_attr_ok(atts@, t as int)
                &&& 0 <= f <= UNIT
                &&& forall|i: int, j: int|
                    0 <= i < t && 0 <= j < t ==> {
                        &&& #[trigger] rs.min_at(i, j) == mins@[i * t + j]
                        &&& rs.max_at(i, j) == maxs@[i * t + j]
                        &&& rs.attr_at(i, j) == atts@[i * t + j]
                    }
            },
            Err(e) => {
                ||| (e == RulesetError::BadRadius && !seq_radii_ok(mins@, maxs@, t as int))
                ||| (e == RulesetError::BadAttraction && seq_radii_ok(mins@, maxs@, t as int)
                    && !seq_attr_ok(atts@, t as int))
                ||| (e == RulesetError::BadFriction && seq_radii_ok(mins@, maxs@, t as int)
                    && seq_attr_ok(atts@, t as int) && !(0 <= f <= UNIT))
            },
        },
{
    let n = t as usize;
    let ghost gm = mins@;
    let ghost gx = maxs@;
    let ghost ga = atts@;
    let mn = Matrix::new(n, mins);
    let mx = Matrix::new(n, maxs);
    let ma = Matrix::new(n, atts);
    proof {
        let tt = t as int;
        assert forall|i: int, j: int| 0 <= i < tt && 0 <= j < tt implies #[trigger] mn.entry(i, j)
            == gm[i * tt + j] by {
            assert(0 <= i * tt + j < tt * tt) by (nonlinear_arith)
                requires
                    0 <= i < tt,
                    0 <= j < tt,
            ;
        }
        assert forall|i: int, j: int| 0 <= i < tt && 0 <= j < tt implies #[trigger] mx.entry(i, j)
            == gx[i * tt + j] by {
            assert(0 <= i * tt + j < tt * tt) by (nonlinear_arith)
                requires
                    0 <= i < tt,
                    0 <= j < tt,
            ;
        }
        assert forall|i: int, j: int| 0 <= i < tt && 0 <= j < tt implies #[trigger] ma.entry(i, j)
            == ga[i * tt + j] by {
            assert(0 <= i * tt + j < tt * tt) by (nonlinear_arith)
                requires
                    0 <= i < tt,
                    0 <= j < tt,
            ;
        }
        assert(radii_ok(mn, mx, tt) == seq_radii_ok(gm, gx, tt)) by {
            if radii_ok(mn, mx, tt) {
                assert forall|i: int, j: int| 0 <= i < tt && 0 <= j < tt implies 0 <= #[trigger] gm[i
                    * tt + j] && gm[i * tt + j] < gx[i * tt + j] && gx[i * tt + j]
                    <= RULE_LIMIT by {
                    assert(0 <= mn.entry(i, j) && mn.entry(i, j) < mx.entry(i, j) && mx.entry(i, j)
                        <= RULE_LIMIT);
                }
            }
            if seq_radii_ok(gm, gx, tt) {
                assert forall|i: int, j: int| 0 <= i < tt && 0 <= j < tt implies 0
                    <= #[trigger] mn.entry(i, j) && mn.entry(i, j) < mx.entry(i, j) && mx.entry(
                    i,
                    j,
                ) <= RULE_LIMIT by {
                    assert(0 <= gm[i * tt + j] && gm[i * tt + j] < gx[i * tt + j] && gx[i * tt + j]
                        <= RULE_LIMIT);
                }
            }
        }
        assert(attractions_ok(ma, tt) == seq_attr_ok(ga, tt)) by {
            if attractions_ok(ma, tt) {
                assert forall|i: int, j: int| 0 <= i < tt && 0 <= j < tt implies mag(
                    #[trigger] ga[i * tt + j] as int,
                ) <= RULE_LIMIT by {
                    assert(mag(ma.entry(i, j)) <= RULE_LIMIT);
                }
            }
            if seq_attr_ok(ga, tt) {
                assert forall|i: int, j: int| 0 <= i < tt && 0 <= j < tt implies mag(
                    #[trigger] ma.entry(i, j),
                ) <= RULE_LIMIT by {
                    assert(mag(ga[i * tt + j] as int) <= RULE_LIMIT);
                }
            }
        }
    }
    Ruleset::new(t, mn, mx, ma, f)
}

/// Procedural generation: one distribution per kind of parameter, drawn
/// afresh for every ordered type pair.
pub struct RulesetGenerationConfig {
    pub types: Distribution,
    pub attractions: Distribution,
    pub min_r: Distribution,
    pub max_r: Distribution,
    pub friction: Distribution,
}

/// The type count a procedural draw asks for.
pub open spec fn gen_type_count(g: RulesetGenerationConfig, s: RandomSource) -> int {
    sample_spec(g.types, s.peek_spec()) as int
}

/// Everything a procedural generation draws after the type count: the three
/// flattened parameter tables, the friction, and the source left behind.
pub open spec fn gen_draws(g: RulesetGenerationConfig, s: RandomSource, n: int) -> (
    Seq<i64>,
    Seq<i64>,
    Seq<i64>,
    i64,
    RandomSource,
) {
    let s1 = src_after(g.types, s);
    let k = (n * n) as nat;
    let mins = samples_spec(g.min_r, s1, k);
    let maxs = samples_spec(g.max_r, mins.1, k);
    let atts = samples_spec(g.attractions, maxs.1, k);
    let f = sample_spec(g.friction, atts.1.peek_spec());
    (mins.0, maxs.0, atts.0, f, src_after(g.friction, atts.1))
}

/// The outcome a procedural generation owes: the first reason the drawn
/// values cannot form a valid rule set, or nothing when they can.
pub open spec fn gen_outcome(g: RulesetGenerationConfig, s: RandomSource) -> Option<RulesetError> {
    let t = gen_type_count(g, s);
    if !(1 <= t <= TYPE_LIMIT) {
        Some(RulesetError::BadTypeCount)
    } else {
        let d = gen_draws(g, s, t);
        if !seq_radii_ok(d.0, d.1, t) {
            Some(RulesetError::BadRadius)
        } else if !seq_attr_ok(d.2, t) {
            Some(RulesetError::BadAttraction)
        } else if !(0 <= d.3 <= UNIT) {
            Some(RulesetError::BadFriction)
        } else {
            Option::None
        }
    }
}

/// The source a procedural generation leaves behind: everything is drawn
/// unless the type count already failed.
pub open spec fn gen_src_after(g: RulesetGenerationConfig, s: RandomSource) -> RandomSource {
    let t = gen_type_count(g, s);
    if !(1 <= t <= TYPE_LIMIT) {
        src_after(g.types, s)
    } else {
        gen_draws(g, s, t).4
    }
}

impl RulesetGenerationConfig {
    /// Draw a full rule set: the type count, then the inner radii, outer
    /// radii and attractions for every ordered pair, then the friction, in
    /// that order; reject draws no valid rule set can hold.
    #[verifier::rlimit(60)]
    pub fn sample(&self, src: &mut RandomSource) -> (r: Result<Ruleset, RulesetError>)
        requires
            old(src).wf(),
        ensures
            final(src).wf(),
            *final(src) == gen_src_after(*self, *old(src)),
            match r {
                Ok(rs) => {
                    let t = gen_type_count(*self, *old(src));
                    let d = gen_draws(*self, *old(src), t);
                    &&& gen_outcome(*self, *old(src)) is None
                    &&& rs.wf()
                    &&& rs.num_types() == t
                    &&& rs.friction_spec() == d.3
                    &&& forall|i: int, j: int|
                        0 <= i < t && 0 <= j < t ==> {
                            &&& #[trigger] rs.min_at(i, j) == d.0[i * t + j]
                            &&& rs.max_at(i, j) == d.1[i * t + j]
                            &&& rs.attr_at(i, j) == d.2[i * t + j]
                        }
                },
                Err(e) => gen_outcome(*self, *old(src)) == Some(e),
            },
    {
        let t64 = self.types.sample(src);
        if t64 < 1 || t64 > TYPE_LIMIT as i64 {
            return Err(RulesetError::BadTypeCount);
        }
        let t = t64 as u32;
        let n = t as usize;
        proof {
            assert((n as int) * (n as int) <= 4096 * 4096) by (nonlinear_arith)
                requires
                    0 <= n as int <= 4096,
            ;
        }
        let k = n * n;
        let mins = sample_many(&self.min_r, k, src);
        let maxs = sample_many(&self.max_r, k, src);
        let atts = sample_many(&self.attractions, k, src);
        let f = self.friction.sample(src);
        let res = assemble(t, mins, maxs, atts, f);
        proof {
            let s0 = *old(src);
            let tg = gen_type_count(*self, s0);
            let d = gen_draws(*self, s0, tg);
            assert(tg == t as int);
            assert(d.0 == mins@ && d.1 == maxs@ && d.2 == atts@ && d.3 == f);
            match &res {
                Ok(rs) => {
                    assert(gen_outcome(*self, s0) is None);
                },
                Err(e) => {
                    assert(gen_outcome(*self, s0) == Some(*e));
                },
            }
        }
        res
    }
}

/// One row of an explicitly given rule table: a distribution for each
/// column of this type's attractions, inner radii and outer radii.
pub struct TypeRuleset {
    pub attractions: Vec<Distribution>,
    pub min_r: Vec<Distribution>,
    pub max_r: Vec<Distribution>,
}

/// Values drawn one after another, each with its own descriptor.
pub open spec fn sample_each_spec(ds: Seq<Distribution>, s: RandomSource) -> (
    Seq<i64>,
    RandomSource,
)
    decreases ds.len(),
{
    if ds.len() == 0 {
        (Seq::empty(), s)
    } else {
        let prev = sample_each_spec(ds.drop_last(), s);
        (prev.0.push(sample_spec(ds.last(), prev.1.peek_spec())), src_after(ds.last(), prev.1))
    }
}

/// One value per descriptor, and a well-formed source left behind.
pub proof fn lemma_sample_each_len(ds: Seq<Distribution>, s: RandomSource)
    requires
        s.wf(),
    ensures
        sample_each_spec(ds, s).0.len() == ds.len(),
        sample_each_spec(ds, s).1.wf(),
    decreases ds.len(),
{
    if ds.len() > 0 {
        lemma_sample_each_len(ds.drop_last(), s);
        sample_each_spec(ds.drop_last(), s).1.lemma_step_spec();
    }
}

/// Rows of descriptors drawn row by row, flattened row-major.
pub open spec fn sample_rows_spec(rows: Seq<Seq<Distribution>>, s: RandomSource) -> (
    Seq<i64>,
    RandomSource,
)
    decreases rows.len(),
{
    if rows.len() == 0 {
        (Seq::empty(), s)
    } else {
        let prev = sample_rows_spec(rows.drop_last(), s);
        let row = sample_each_spec(rows.last(), prev.1);
        (prev.0 + row.0, row.1)
    }
}

/// Over square rows, the flattened draw has one value per cell.
#[verifier::spinoff_prover]
#[verifier::rlimit(50)]
pub proof fn lemma_sample_rows_len(rows: Seq<Seq<Distribution>>, s: RandomSource, n: int)
    requires
        s.wf(),
        0 <= n,
        forall|i: int| 0 <= i < rows.len() ==> #[trigger] rows[i].len() == n,
    ensures
        sample_rows_spec(rows, s).0.len() == rows.len() * n,
        sample_rows_spec(rows, s).1.wf(),
    decreases rows.len(),
{
    if rows.len() > 0 {
        assert forall|i: int| 0 <= i < rows.drop_last().len() implies #[trigger] rows.drop_last()[
        i].len() == n by {
            assert(rows.drop_last()[i] == rows[i]);
        }
        lemma_sample_rows_len(rows.drop_last(), s, n);
        lemma_sample_each_len(rows.last(), sample_rows_spec(rows.drop_last(), s).1);
        let k = rows.len() as int;
        let prev = sample_rows_spec(rows.drop_last(), s);
        let row = sample_each_spec(rows.last(), prev.1);
        assert(rows[k - 1].len() == n);
        assert(row.0.len() == n);
        assert(rows.drop_last().len() == k - 1);
        assert(prev.0.len() == (k - 1) * n);
        assert(sample_rows_spec(rows, s).0 == prev.0 + row.0);
        assert((k - 1) * n + n == k * n) by (nonlinear_arith);
    }
}

/// The rows of inner-radius descriptors of an explicit table.
pub open spec fn min_rows(ts: Seq<TypeRuleset>) -> Seq<Seq<Distribution>> {
    Seq::new(ts.len(), |i: int| ts[i].min_r@)
}

/// The rows of outer-radius descriptors of an explicit table.
pub open spec fn max_rows(ts: Seq<TypeRuleset>) -> Seq<Seq<Distribution>> {
    Seq::new(ts.len(), |i: int| ts[i].max_r@)
}

/// The rows of attraction descriptors of an explicit table.
pub open spec fn attr_rows(ts: Seq<TypeRuleset>) -> Seq<Seq<Distribution>> {
    Seq::new(ts.len(), |i: int| ts[i].attractions@)
}

/// Every row of an explicit table has one descriptor per type.
pub open spec fn precise_shape_ok(ts: Seq<TypeRuleset>) -> bool {
    forall|i: int|
        0 <= i < ts.len() ==> (#[trigger] ts[i]).min_r@.len() == ts.len() && ts[i].max_r@.len()
            == ts.len() && ts[i].attractions@.len() == ts.len()
}

/// Everything an explicit table draws: the three flattened parameter
/// tables, the friction, and the source left behind. Inner radii are drawn
/// first, row by row, then outer radii, then attractions, then friction.
pub open spec fn precise_draws(ts: Seq<TypeRuleset>, friction: Distribution, s: RandomSource) -> (
    Seq<i64>,
    Seq<i64>,
    Seq<i64>,
    i64,
    RandomSource,
) {
    let mins = sample_rows_spec(min_rows(ts), s);
    let maxs = sample_rows_spec(max_rows(ts), mins.1);
    let atts = sample_rows_spec(attr_rows(ts), maxs.1);
    let f = sample_spec(friction, atts.1.peek_spec());
    (mins.0, maxs.0, atts.0, f, src_after(friction, atts.1))
}

/// The outcome an explicit table owes: the first structural or drawn
/// defect, or nothing when the draws form a valid rule set.
pub open spec fn precise_outcome(ts: Seq<TypeRuleset>, friction: Distribution, s: RandomSource)
    -> Option<RulesetError> {
    let n = ts.len() as int;
    if !(1 <= n <= TYPE_LIMIT) {
        Some(RulesetError::BadTypeCount)
    } else if !precise_shape_ok(ts) {
        Some(RulesetError::BadShape)
    } else {
        let d = precise_draws(ts, friction, s);
        if !seq_radii_ok(d.0, d.1, n) {
            Some(RulesetError::BadRadius)
        } else if !seq_attr_ok(d.2, n) {
            Some(RulesetError::BadAttraction)
        } else if !(0 <= d.3 <= UNIT) {
            Some(RulesetError::BadFriction)
        } else {
            Option::None
        }
    }
}

/// The source an explicit table leaves behind: nothing is drawn when the
/// table's size or shape is already wrong.
pub open spec fn precise_src_after(ts: Seq<TypeRuleset>, friction: Distribution, s: RandomSource)
    -> RandomSource {
    let n = ts.len() as int;
    if !(1 <= n <= TYPE_LIMIT) || !precise_shape_ok(ts) {
        s
    } else {
        precise_draws(ts, friction, s).4
    }
}

/// Sample one row of descriptors, left to right.
fn sample_each(ds: &Vec<Distribution>, src: &mut RandomSource) -> (v: Vec<i64>)
    requires
        old(src).wf(),
    ensures
        final(src).wf(),
        v@.len() == ds@.len(),
        v@ == sample_each_spec(ds@, *old(src)).0,
        *final(src) == sample_each_spec(ds@, *old(src)).1,
{
    let mut v: Vec<i64> = Vec::new();
    let n = ds.len();
    let mut j: usize = 0;
    while j < n
        invariant
            old(src).wf(),
            j <= n,
            n == ds@.len(),
            src.wf(),
            v@.len() == j,
            v@ == sample_each_spec(ds@.take(j as int), *old(src)).0,
            *src == sample_each_spec(ds@.take(j as int), *old(src)).1,
        decreases n - j,
    {
        let r = ds[j].sample(src);
        v.push(r);
        proof {
            let jj = j as int;
            assert(ds@.take(jj + 1).drop_last() =~= ds@.take(jj));
            assert(ds@.take(jj + 1).last() == ds@[jj]);
            lemma_sample_each_len(ds@.take(jj), *old(src));
        }
        j = j + 1;
    }
    proof {
        assert(ds@.take(n as int) =~= ds@);
    }
    v
}

/// Draw a full rule set from an explicit table of descriptors.
#[verifier::rlimit(60)]
#[verifier::spinoff_prover]
fn precise_sample(types: &Vec<TypeRuleset>, friction: &Distribution, src: &mut RandomSource) -> (r:
    Result<Ruleset, RulesetError>)
    requires
        old(src).wf(),
    ensures
        final(src).wf(),
        *final(src) == precise_src_after(types@, *friction, *old(src)),
        match r {
            Ok(rs) => {
                let n = types@.len() as int;
                let d = precise_draws(types@, *friction, *old(src));
                &&& precise_outcome(types@, *friction, *old(src)) is None
                &&& rs.wf()
                &&& rs.num_types() == n
                &&& rs.friction_spec() == d.3
                &&& forall|i: int, j: int|
                    0 <= i < n && 0 <= j < n ==> {
                        &&& #[trigger] rs.min_at(i, j) == d.0[i * n + j]
                        &&& rs.max_at(i, j) == d.1[i * n + j]
                        &&& rs.attr_at(i, j) == d.2[i * n + j]
                    }
            },
            Err(e) => precise_outcome(types@, *friction, *old(src)) == Some(e),
        },
{
    let n = types.len();
    if n == 0 || n > TYPE_LIMIT as usize {
        return Err(RulesetError::BadTypeCount);
    }
    let mut i: usize = 0;
    while i < n
        invariant
            n == types@.len(),
            1 <= n <= TYPE_LIMIT,
            old(src).wf(),
            *src == *old(src),
            i <= n,
            forall|p: int|
                0 <= p < i ==> #[trigger] types@[p].min_r@.len() == n && types@[p].max_r@.len()
                    == n && types@[p].attractions@.len() == n,
        decreases n - i,
    {
        let row = &types[i];
        if row.min_r.len() != n || row.max_r.len() != n || row.attractions.len() != n {
            proof {
                assert(!precise_shape_ok(types@));
            }
            return Err(RulesetError::BadShape);
        }
        proof {
            assert(*row == types@[i as int]);
            assert(types@[i as int].min_r@.len() == n);
            assert(types@[i as int].max_r@.len() == n);
            assert(types@[i as int].attractions@.len() == n);
        }
        i = i + 1;
    }
    assert(precise_shape_ok(types@));
    let mins = sample_grid(types, GridPart::MinR, src);
    let maxs = sample_grid(types, GridPart::MaxR, src);
    let atts = sample_grid(types, GridPart::Attr, src);
    let f = friction.sample(src);
    proof {
        assert((n as int) * (n as int) <= 4096 * 4096) by (nonlinear_arith)
            requires
                0 <= n as int <= 4096,
        ;
    }
    let res = assemble(n as u32, mins, maxs, atts, f);
    proof {
        let s0 = *old(src);
        let d = precise_draws(types@, *friction, s0);
        assert(d.0 == mins@ && d.1 == maxs@ && d.2 == atts@ && d.3 == f);
        match &res {
            Ok(rs) => {
                assert(precise_outcome(types@, *friction, s0) is None);
            },
            Err(e) => {
                assert(precise_outcome(types@, *friction, s0) == Some(*e));
            },
        }
    }
    res
}

/// Which third of an explicit table a grid pass draws.
#[derive(Clone, Copy, Debug, PartialEq, Eq, Structural)]
enum GridPart {
    MinR,
    MaxR,
    Attr,
}

/// The rows a grid pass walks.
spec fn rows_of(ts: Seq<TypeRuleset>, part: GridPart) -> Seq<Seq<Distribution>> {
    match part {
        GridPart::MinR => min_rows(ts),
        GridPart::MaxR => max_rows(ts),
        GridPart::Attr => attr_rows(ts),
    }
}

/// Sample one third of an explicit table, row by row.
fn sample_grid(types: &Vec<TypeRuleset>, part: GridPart, src: &mut RandomSource) -> (v: Vec<i64>)
    requires
        old(src).wf(),
        1 <= types@.len() <= TYPE_LIMIT,
        precise_shape_ok(types@),
    ensures
        final(src).wf(),
        v@.len() == types@.len() * types@.len(),
        v@ == sample_rows_spec(rows_of(types@, part), *old(src)).0,
        *final(src) == sample_rows_spec(rows_of(types@, part), *old(src)).1,
{
    let ghost rows = rows_of(types@, part);
    let n = types.len();
    proof {
        assert forall|p: int| 0 <= p < n implies #[trigger] rows[p].len() == n by {
            assert(types@[p].min_r@.len() == n && types@[p].max_r@.len() == n
                && types@[p].attractions@.len() == n);
            match part {
                GridPart::MinR => {
                    assert(rows[p] == types@[p].min_r@);
                },
                GridPart::MaxR => {
                    assert(rows[p] == types@[p].max_r@);
                },
                GridPart::Attr => {
                    assert(rows[p] == types@[p].attractions@);
                },
            }
        }
    }
    let mut v: Vec<i64> = Vec::new();
    let mut i: usize = 0;
    while i < n
        invariant
            old(src).wf(),
            i <= n,
            n == types@.len(),
            precise_shape_ok(types@),
            rows == rows_of(types@, part),
            rows.len() == n,
            forall|p: int| 0 <= p < n ==> #[trigger] rows[p].len() == n,
            src.wf(),
            v@.len() == i * n,
            v@ == sample_rows_spec(rows.take(i as int), *old(src)).0,
            *src == sample_rows_spec(rows.take(i as int), *old(src)).1,
        decreases n - i,
    {
        let mut row = match part {
            GridPart::MinR => sample_each(&types[i].min_r, src),
            GridPart::MaxR => sample_each(&types[i].max_r, src),
            GridPart::Attr => sample_each(&types[i].attractions, src),
        };
        proof {
            assert(rows[i as int] == rows_of(types@, part)[i as int]);
            assert(row@ == sample_each_spec(rows[i as int], sample_rows_spec(
                rows.take(i as int), *old(src)).1).0);
        }
        v.append(&mut row);
        proof {
            let ii = i as int;
            assert(rows.take(ii + 1).drop_last() =~= rows.take(ii));
            assert(rows.take(ii + 1).last() == rows[ii]);
            assert(ii * n + n == (ii + 1) * n) by (nonlinear_arith);
            lemma_sample_rows_len(rows.take(ii), *old(src), n as int);
        }
        i = i + 1;
    }
    proof {
        assert(rows.take(n as int) =~= rows);
    }
    v
}

/// How the rule set is described: generated procedurally from one
/// distribution per parameter kind, or given as an explicit table with one
/// distribution per cell.
pub enum RulesetConfig {
    Procedural(RulesetGenerationConfig),
    Precise { types: Vec<TypeRuleset>, friction: Distribution },
}

/// The outcome a rule-set description owes from one source state.
pub open spec fn rc_outcome(rc: RulesetConfig, s: RandomSource) -> Option<RulesetError> {
    match rc {
        RulesetConfig::Procedural(g) => gen_outcome(g, s),
        RulesetConfig::Precise { types, friction } => precise_outcome(types@, friction, s),
    }
}

/// The source a rule-set description leaves behind.
pub open spec fn rc_src_after(rc: RulesetConfig, s: RandomSource) -> RandomSource {
    match rc {
        RulesetConfig::Procedural(g) => gen_src_after(g, s),
        RulesetConfig::Precise { types, friction } => precise_src_after(types@, friction, s),
    }
}

/// The rule set holds exactly the values its description drew from `s`.
pub open spec fn ruleset_matches_draws(rs: Ruleset, rc: RulesetConfig, s: RandomSource) -> bool {
    match rc {
        RulesetConfig::Procedural(g) => {
            let t = gen_type_count(g, s);
            let d = gen_draws(g, s, t);
            &&& rs.num_types() == t
            &&& rs.friction_spec() == d.3
            &&& forall|i: int, j: int|
                0 <= i < t && 0 <= j < t ==> {
                    &&& #[trigger] rs.min_at(i, j) == d.0[i * t + j]
                    &&& rs.max_at(i, j) == d.1[i * t + j]
                    &&& rs.attr_at(i, j) == d.2[i * t + j]
                }
        },
        RulesetConfig::Precise { types, friction } => {
            let n = types@.len() as int;
            let d = precise_draws(types@, friction, s);
            &&& rs.num_types() == n
            &&& rs.friction_spec() == d.3
            &&& forall|i: int, j: int|
                0 <= i < n && 0 <= j < n ==> {
                    &&& #[trigger] rs.min_at(i, j) == d.0[i * n + j]
                    &&& rs.max_at(i, j) == d.1[i * n + j]
                    &&& rs.attr_at(i, j) == d.2[i * n + j]
                }
        },
    }
}

impl RulesetConfig {
    /// Draw a concrete rule set as described, or report the first reason
    /// the description or its draws cannot form a valid one.
    pub fn sample(&self, src: &mut RandomSource) -> (r: Result<Ruleset, RulesetError>)
        requires
            old(src).wf(),
        ensures
            final(src).wf(),
            *final(src) == rc_src_after(*self, *old(src)),
            match r {
                Ok(rs) => {
                    &&& rc_outcome(*self, *old(src)) is None
                    &&& rs.wf()
                    &&& ruleset_matches_draws(rs, *self, *old(src))
                },
                Err(e) => rc_outcome(*self, *old(src)) == Some(e),
            },
    {
        match self {
            RulesetConfig::Procedural(g) => g.sample(src),
            RulesetConfig::Precise { types, friction } => precise_sample(types, friction, src),
        }
    }
}

/// Which boundary policy to use, with the extent of a bounded one drawn
/// from a distribution.
pub enum WallsConfig {
    Open,
    Reflective { dist: Distribution },
    Periodic { dist: Distribution },
}

/// The boundary policy a walls description yields from one source state.
pub open spec fn walls_sample_spec(w: WallsConfig, s: RandomSource) -> Walls {
    match w {
        WallsConfig::Open => Walls::Open,
        WallsConfig::Reflective { dist } => Walls::Reflective(sample_spec(dist, s.peek_spec())),
        WallsConfig::Periodic { dist } => Walls::Periodic(sample_spec(dist, s.peek_spec())),
    }
}

/// The source a walls description leaves behind.
pub open spec fn walls_src_after(w: WallsConfig, s: RandomSource) -> RandomSource {
    match w {
        WallsConfig::Open => s,
        WallsConfig::Reflective { dist } => src_after(dist, s),
        WallsConfig::Periodic { dist } => src_after(dist, s),
    }
}

impl WallsConfig {
    /// Draw the boundary policy. The extent is taken as drawn; whether it
    /// is a usable (positive, bounded) extent is judged at simulation
    /// construction.
    pub fn sample(&self, src: &mut RandomSource) -> (r: Walls)
        requires
            old(src).wf(),
        ensures
            final(src).wf(),
            r == walls_sample_spec(*self, *old(src)),
            *final(src) == walls_src_after(*self, *old(src)),
    {
        match self {
            WallsConfig::Open => Walls::Open,
            WallsConfig::Reflective { dist } => Walls::Reflective(dist.sample(src)),
            WallsConfig::Periodic { dist } => Walls::Periodic(dist.sample(src)),
        }
    }
}

/// One group of particles to spawn: how many, and the distributions of
/// their two coordinates.
pub struct PointSpawnConfig {
    pub num: Distribution,
    pub x: Distribution,
    pub y: Distribution,
}

/// How initial particle positions are described: a bare particle count
/// placed by the boundary policy's own distribution, or explicit groups
/// with their own placement.
pub enum PointsConfig {
    Simple(Distribution),
    Complex(Vec<PointSpawnConfig>),
}

/// The number of particles a count draw yields, capped at the population
/// limit and floored at zero.
pub open spec fn count_spec(c: i64) -> int {
    if c < 0 {
        0
    } else if c > POP_LIMIT {
        POP_LIMIT as int
    } else {
        c as int
    }
}

/// A sampled coordinate, saturated into the coordinate range.
pub open spec fn coord_of(d: Distribution, draw: int) -> i64 {
    clamp_spec(sample_spec(d, draw) as int, COORD_LIMIT as int) as i64
}

/// `k` positions drawn as alternating x and y samples.
pub open spec fn pairs_spec(dx: Distribution, dy: Distribution, s: RandomSource, k: nat) -> (
    Seq<(i64, i64)>,
    RandomSource,
)
    decreases k,
{
    if k == 0 {
        (Seq::empty(), s)
    } else {
        let prev = pairs_spec(dx, dy, s, (k - 1) as nat);
        let x = coord_of(dx, prev.1.peek_spec());
        let s1 = src_after(dx, prev.1);
        let y = coord_of(dy, s1.peek_spec());
        let s2 = src_after(dy, s1);
        (prev.0.push((x, y)), s2)
    }
}

/// One position per count, every coordinate within the coordinate range,
/// and a well-formed source left behind.
pub proof fn lemma_pairs_spec_len(dx: Distribution, dy: Distribution, s: RandomSource, k: nat)
    requires
        s.wf(),
    ensures
        pairs_spec(dx, dy, s, k).0.len() == k,
        pairs_spec(dx, dy, s, k).1.wf(),
        forall|i: int|
            0 <= i < k ==> crate::force::mag(#[trigger] pairs_spec(dx, dy, s, k).0[i].0 as int)
                <= COORD_LIMIT && crate::force::mag(pairs_spec(dx, dy, s, k).0[i].1 as int)
                <= COORD_LIMIT,
    decreases k,
{
    if k > 0 {
        lemma_pairs_spec_len(dx, dy, s, (k - 1) as nat);
        let prev = pairs_spec(dx, dy, s, (k - 1) as nat);
        prev.1.lemma_step_spec();
        src_after(dx, prev.1).lemma_step_spec();
        let cur = pairs_spec(dx, dy, s, k);
        let x = coord_of(dx, prev.1.peek_spec());
        let y = coord_of(dy, src_after(dx, prev.1).peek_spec());
        assert(cur.0 == prev.0.push((x, y)));
        assert(crate::force::mag(x as int) <= COORD_LIMIT);
        assert(crate::force::mag(y as int) <= COORD_LIMIT);
        assert forall|i: int|
            0 <= i < k implies crate::force::mag(#[trigger] cur.0[i].0 as int) <= COORD_LIMIT
            && crate::force::mag(cur.0[i].1 as int) <= COORD_LIMIT by {
            if i < k - 1 {
                assert(cur.0[i] == prev.0[i]);
                assert(crate::force::mag(prev.0[i].0 as int) <= COORD_LIMIT);
                assert(crate::force::mag(prev.0[i].1 as int) <= COORD_LIMIT);
            } else {
                assert(cur.0[i] == (x, y));
            }
        }
    }
}

/// The distribution initial positions are drawn from: normal around the
/// origin in an open domain, uniform across the domain otherwise (or the
/// degenerate constant for an unusable extent, judged later).
pub open spec fn spawn_dist_spec(w: Walls) -> Distribution {
    match w {
        Walls::Open => Distribution::Normal { mean: 0, std: 5000 },
        Walls::Reflective(e) => if e > 0 {
            Distribution::Uniform { min: (-e) as i64, max: e }
        } else {
            Distribution::Uniform { min: e, max: e }
        },
        Walls::Periodic(e) => if e > 0 {
            Distribution::Uniform { min: (-e) as i64, max: e }
        } else {
            Distribution::Uniform { min: e, max: e }
        },
    }
}

/// Pick the placement distribution of a boundary policy.
fn spawn_dist(w: &Walls) -> (d: Distribution)
    ensures
        d == spawn_dist_spec(*w),
{
    match w {
        Walls::Open => Distribution::Normal { mean: 0, std: 5 * UNIT },
        Walls::Reflective(e) => if *e > 0 {
            Distribution::Uniform { min: -*e, max: *e }
        } else {
            Distribution::Uniform { min: *e, max: *e }
        },
        Walls::Periodic(e) => if *e > 0 {
            Distribution::Uniform { min: -*e, max: *e }
        } else {
            Distribution::Uniform { min: *e, max: *e }
        },
    }
}

/// Cap a drawn particle count into `[0, POP_LIMIT]`.
fn cap_count(c: i64) -> (r: usize)
    ensures
        r == count_spec(c),
{
    if c < 0 {
        0
    } else if c > POP_LIMIT as i64 {
        POP_LIMIT
    } else {
        c as usize
    }
}

/// Sample `k` positions with the two coordinate distributions.
fn sample_pairs(dx: &Distribution, dy: &Distribution, k: usize, src: &mut RandomSource) -> (v: Vec<
    (i64, i64),
>)
    requires
        old(src).wf(),
    ensures
        final(src).wf(),
        v@.len() == k,
        v@ == pairs_spec(*dx, *dy, *old(src), k as nat).0,
        *final(src) == pairs_spec(*dx, *dy, *old(src), k as nat).1,
{
    let mut v: Vec<(i64, i64)> = Vec::new();
    let mut i: usize = 0;
    while i < k
        invariant
            old(src).wf(),
            i <= k,
            src.wf(),
            v@.len() == i,
            v@ == pairs_spec(*dx, *dy, *old(src), i as nat).0,
            *src == pairs_spec(*dx, *dy, *old(src), i as nat).1,
        decreases k - i,
    {
        let xr = dx.sample(src);
        let x = clamp_i128(xr as i128, COORD_LIMIT);
        let yr = dy.sample(src);
        let y = clamp_i128(yr as i128, COORD_LIMIT);
        v.push((x, y));
        proof {
            lemma_pairs_spec_len(*dx, *dy, *old(src), i as nat);
        }
        i = i + 1;
    }
    v
}

/// The positions one spawn group yields: its count draw, then that many
/// positions from its own coordinate distributions.
pub open spec fn spawn_points_spec(sp: PointSpawnConfig, s: RandomSource) -> (
    Seq<(i64, i64)>,
    RandomSource,
) {
    let c = sample_spec(sp.num, s.peek_spec());
    let s1 = src_after(sp.num, s);
    pairs_spec(sp.x, sp.y, s1, count_spec(c) as nat)
}

/// The positions a list of spawn groups yields, group after group.
pub open spec fn spawns_spec(sps: Seq<PointSpawnConfig>, s: RandomSource) -> (
    Seq<(i64, i64)>,
    RandomSource,
)
    decreases sps.len(),
{
    if sps.len() == 0 {
        (Seq::empty(), s)
    } else {
        let prev = spawns_spec(sps.drop_last(), s);
        let last = spawn_points_spec(sps.last(), prev.1);
        (prev.0 + last.0, last.1)
    }
}

/// The source side of a spawn list stays well formed.
pub proof fn lemma_spawns_spec_wf(sps: Seq<PointSpawnConfig>, s: RandomSource)
    requires
        s.wf(),
    ensures
        spawns_spec(sps, s).1.wf(),
    decreases sps.len(),
{
    if sps.len() > 0 {
        lemma_spawns_spec_wf(sps.drop_last(), s);
        let prev = spawns_spec(sps.drop_last(), s);
        prev.1.lemma_step_spec();
        let sp = sps.last();
        lemma_pairs_spec_len(sp.x, sp.y, src_after(sp.num, prev.1), count_spec(
            sample_spec(sp.num, prev.1.peek_spec())) as nat);
    }
}

/// Every position a pair draw yields is within the coordinate range,
/// whatever the source.
pub proof fn lemma_pairs_bounded(dx: Distribution, dy: Distribution, s: RandomSource, k: nat)
    ensures
        forall|i: int|
            0 <= i < pairs_spec(dx, dy, s, k).0.len() ==> mag(
                (#[trigger] pairs_spec(dx, dy, s, k).0[i]).0 as int) <= COORD_LIMIT && mag(
                pairs_spec(dx, dy, s, k).0[i].1 as int) <= COORD_LIMIT,
    decreases k,
{
    if k > 0 {
        lemma_pairs_bounded(dx, dy, s, (k - 1) as nat);
        let prev = pairs_spec(dx, dy, s, (k - 1) as nat);
        let cur = pairs_spec(dx, dy, s, k);
        let x = coord_of(dx, prev.1.peek_spec());
        let y = coord_of(dy, src_after(dx, prev.1).peek_spec());
        assert(cur.0 == prev.0.push((x, y)));
        assert forall|i: int| 0 <= i < cur.0.len() implies mag(
            (#[trigger] cur.0[i]).0 as int) <= COORD_LIMIT && mag(cur.0[i].1 as int)
            <= COORD_LIMIT by {
            if i < cur.0.len() - 1 {
                assert(cur.0[i] == prev.0[i]);
            } else {
                assert(cur.0[i] == (x, y));
            }
        }
    }
}

/// Every position a spawn list yields is within the coordinate range.
pub proof fn lemma_spawns_bounded(sps: Seq<PointSpawnConfig>, s: RandomSource)
    ensures
        forall|i: int|
            0 <= i < spawns_spec(sps, s).0.len() ==> mag(
                (#[trigger] spawns_spec(sps, s).0[i]).0 as int) <= COORD_LIMIT && mag(
                spawns_spec(sps, s).0[i].1 as int) <= COORD_LIMIT,
    decreases sps.len(),
{
    if sps.len() > 0 {
        lemma_spawns_bounded(sps.drop_last(), s);
        let prev = spawns_spec(sps.drop_last(), s);
        let sp = sps.last();
        let s1 = src_after(sp.num, prev.1);
        let k = count_spec(sample_spec(sp.num, prev.1.peek_spec())) as nat;
        lemma_pairs_bounded(sp.x, sp.y, s1, k);
        let last = pairs_spec(sp.x, sp.y, s1, k);
        let cur = spawns_spec(sps, s);
        assert(cur.0 == prev.0 + last.0);
        assert forall|i: int| 0 <= i < cur.0.len() implies mag(
            (#[trigger] cur.0[i]).0 as int) <= COORD_LIMIT && mag(cur.0[i].1 as int)
            <= COORD_LIMIT by {
            if i < prev.0.len() {
                assert(cur.0[i] == prev.0[i]);
            } else {
                assert(cur.0[i] == last.0[i - prev.0.len()]);
            }
        }
    }
}

/// Every position a points description yields is within the coordinate
/// range.
pub proof fn lemma_points_bounded(pc: PointsConfig, w: Walls, s: RandomSource)
    ensures
        forall|i: int|
            0 <= i < points_sample_spec(pc, w, s).0.len() ==> mag(
                (#[trigger] points_sample_spec(pc, w, s).0[i]).0 as int) <= COORD_LIMIT && mag(
                points_sample_spec(pc, w, s).0[i].1 as int) <= COORD_LIMIT,
{
    match pc {
        PointsConfig::Simple(d) => {
            let s1 = src_after(d, s);
            let k = count_spec(sample_spec(d, s.peek_spec())) as nat;
            lemma_pairs_bounded(spawn_dist_spec(w), spawn_dist_spec(w), s1, k);
        },
        PointsConfig::Complex(sps) => {
            lemma_spawns_bounded(sps@, s);
        },
    }
}

/// The positions a points description yields from one source state.
pub open spec fn points_sample_spec(pc: PointsConfig, w: Walls, s: RandomSource) -> (
    Seq<(i64, i64)>,
    RandomSource,
) {
    match pc {
        PointsConfig::Simple(d) => {
            let c = sample_spec(d, s.peek_spec());
            let s1 = src_after(d, s);
            pairs_spec(spawn_dist_spec(w), spawn_dist_spec(w), s1, count_spec(c) as nat)
        },
        PointsConfig::Complex(sps) => spawns_spec(sps@, s),
    }
}

impl PointsConfig {
    /// Draw the initial particle positions: a single capped count placed by
    /// the boundary policy's distribution, or each spawn group in turn.
    pub fn sample(&self, walls: &Walls, src: &mut RandomSource) -> (v: Vec<(i64, i64)>)
        requires
            old(src).wf(),
        ensures
            final(src).wf(),
            v@ == points_sample_spec(*self, *walls, *old(src)).0,
            *final(src) == points_sample_spec(*self, *walls, *old(src)).1,
    {
        match self {
            PointsConfig::Simple(d) => {
                let c = d.sample(src);
                let k = cap_count(c);
                let pd = spawn_dist(walls);
                sample_pairs(&pd, &pd, k, src)
            },
            PointsConfig::Complex(sps) => {
                let mut v: Vec<(i64, i64)> = Vec::new();
                let n = sps.len();
                let mut i: usize = 0;
                while i < n
                    invariant
                        old(src).wf(),
                        i <= n,
                        n == sps@.len(),
                        src.wf(),
                        v@ == spawns_spec(sps@.take(i as int), *old(src)).0,
                        *src == spawns_spec(sps@.take(i as int), *old(src)).1,
                    decreases n - i,
                {
                    let sp = &sps[i];
                    let c = sp.num.sample(src);
                    let k = cap_count(c);
                    let mut pts = sample_pairs(&sp.x, &sp.y, k, src);
                    v.append(&mut pts);
                    proof {
                        let ii = i as int;
                        assert(sps@.take(ii + 1).drop_last() =~= sps@.take(ii));
                        assert(sps@.take(ii + 1).last() == sps@[ii]);
                    }
                    i = i + 1;
                }
                proof {
                    assert(sps@.take(n as int) =~= sps@);
                }
                v
            },
        }
    }
}

/// Reproducibility of generation: one description and one random-source
/// state determine the outcome, the drawn values a rule set must hold, and
/// the source left behind. Together with `sample`'s contract, two sampling
/// runs from equal descriptions and equal sources yield identical rule
/// sets.
pub proof fn lemma_sampling_deterministic(
    c1: RulesetConfig,
    c2: RulesetConfig,
    s1: RandomSource,
    s2: RandomSource,
)
    requires
        c1 == c2,
        s1 == s2,
    ensures
        rc_outcome(c1, s1) == rc_outcome(c2, s2),
        rc_src_after(c1, s1) == rc_src_after(c2, s2),
        forall|rs: Ruleset|
            #[trigger] ruleset_matches_draws(rs, c1, s1) == ruleset_matches_draws(rs, c2, s2),
{
}

/// A whole simulation description: the rule set, the boundary policy, and
/// the initial particle placement.
pub struct Config {
    pub ruleset: RulesetConfig,
    pub walls: WallsConfig,
    pub points: PointsConfig,
}

/// The source left behind by a whole configuration draw: the rule set's
/// draws, then the walls', then the points' — or only the rule set's when
/// its draws were rejected.
pub open spec fn config_src_after(c: Config, s: RandomSource) -> RandomSource {
    let s1 = rc_src_after(c.ruleset, s);
    if rc_outcome(c.ruleset, s) is Some {
        s1
    } else {
        let w = walls_sample_spec(c.walls, s1);
        let s2 = walls_src_after(c.walls, s1);
        points_sample_spec(c.points, w, s2).1
    }
}

impl Config {
    /// Draw everything a simulation needs: the rule set, then the boundary
    /// policy, then the initial positions conditioned on that policy.
    /// Rejected rule-set draws end the sampling there.
    pub fn sample(&self, src: &mut RandomSource) -> (r: Result<
        (Ruleset, Walls, Vec<(i64, i64)>),
        RulesetError,
    >)
        requires
            old(src).wf(),
        ensures
            final(src).wf(),
            *final(src) == config_src_after(*self, *old(src)),
            match r {
                Ok(triple) => {
                    let s1 = rc_src_after(self.ruleset, *old(src));
                    let s2 = walls_src_after(self.walls, s1);
                    &&& rc_outcome(self.ruleset, *old(src)) is None
                    &&& triple.0.wf()
                    &&& ruleset_matches_draws(triple.0, self.ruleset, *old(src))
                    &&& triple.1 == walls_sample_spec(self.walls, s1)
                    &&& triple.2@ == points_sample_spec(self.points, triple.1, s2).0
                },
                Err(e) => rc_outcome(self.ruleset, *old(src)) == Some(e),
            },
    {
        let rs = match self.ruleset.sample(src) {
            Ok(rs) => rs,
            Err(e) => {
                return Err(e);
            },
        };
        let walls = self.walls.sample(src);
        let points = self.points.sample(&walls, src);
        Ok((rs, walls, points))
    }
}

} // verus!
