//! p-values from nonconformity scores.
use vstd::prelude::*;

verus! {

broadcast use vstd::seq_lib::group_seq_properties;

pub open spec fn at_least(t: u128) -> spec_fn(u128) -> bool {
    |a: u128| a >= t
}

pub open spec fn more_than(t: u128) -> spec_fn(u128) -> bool {
    |a: u128| a > t
}

pub open spec fn equal_to(t: u128) -> spec_fn(u128) -> bool {
    |a: u128| a == t
}

/// The number of scores in `s` that are at least `t`.
pub open spec fn num_ge(s: Seq<u128>, t: u128) -> nat {
    s.filter(at_least(t)).len()
}

/// The number of scores in `s` that are greater than `t`.
pub open spec fn num_gt(s: Seq<u128>, t: u128) -> nat {
    s.filter(more_than(t)).len()
}

/// The number of scores in `s` that are equal to `t`.
pub open spec fn num_eq(s: Seq<u128>, t: u128) -> nat {
    s.filter(equal_to(t)).len()
}

/// A uniform draw `u: u32` stands for the real number `u / DRAW_SCALE` in `[0, 1)`.
pub const DRAW_SCALE: u128 = 0x1_0000_0000;

/// The largest denominator a p-value of this library can have.
pub const MAX_DEN: u128 = 0x1_0000_0000_0000_0000_0000_0000;

/// A p-value, held exactly as the fraction `num / den`.
#[derive(Clone, Copy, Debug, PartialEq, Eq, Structural)]
pub struct PValue {
    pub num: u128,
    pub den: u128,
}

/// A significance level `num / den` in `[0, 1]`.
#[derive(Clone, Copy, Debug, PartialEq, Eq, Structural)]
pub struct Significance {
    pub num: u32,
    pub den: u32,
}

impl PValue {
    /// A fraction in `[0, 1]` whose denominator is small enough to be compared
    /// with any significance level without overflow.
    pub open spec fn valid(self) -> bool {
        0 < self.den <= MAX_DEN && self.num <= self.den
    }
}

impl Significance {
    pub open spec fn valid(self) -> bool {
        0 < self.den && self.num <= self.den
    }
}

/// `p > e`, as fractions.
pub open spec fn above(p: PValue, e: Significance) -> bool {
    p.num * e.den > e.num * p.den
}

/// The deterministic p-value of the last score among `n` scores:
/// the share of scores that are at least as large.
pub open spec fn rank_pvalue(scores: Seq<u128>) -> PValue {
    PValue { num: num_ge(scores, scores.last()) as u128, den: scores.len() as u128 }
}

/// The smoothed p-value of the last score: ties with it count `u / DRAW_SCALE` each.
pub open spec fn smooth_rank_pvalue(scores: Seq<u128>, u: u32) -> PValue {
    let t = scores.last();
    PValue {
        num: (num_gt(scores, t) * DRAW_SCALE + u * num_eq(scores, t)) as u128,
        den: (scores.len() * DRAW_SCALE) as u128,
    }
}

/// The deterministic p-value of test score `a` against calibration scores `cal`:
/// `(#{c >= a} + 1) / (|cal| + 1)`.
pub open spec fn calibrated_pvalue(cal: Seq<u128>, a: u128) -> PValue {
    PValue { num: (num_ge(cal, a) + 1) as u128, den: (cal.len() + 1) as u128 }
}

/// The smoothed p-value of test score `a` against calibration scores `cal`; the
/// test example ties with itself, so the tie count is `#{c == a} + 1`.
pub open spec fn smooth_calibrated_pvalue(cal: Seq<u128>, a: u128, u: u32) -> PValue {
    PValue {
        num: (num_gt(cal, a) * DRAW_SCALE + u * (num_eq(cal, a) + 1)) as u128,
        den: ((cal.len() + 1) * DRAW_SCALE) as u128,
    }
}

/// Filtering a sequence extended by `x` keeps what it kept and `x` if `p(x)`.
pub proof fn lemma_filter_push<A>(s: Seq<A>, x: A, p: spec_fn(A) -> bool)
    ensures
        s.push(x).filter(p) == (if p(x) { s.filter(p).push(x) } else { s.filter(p) }),
{
    reveal(Seq::filter);
    assert(s.push(x).drop_last() =~= s);
}

/// Counts the scores in `s` that are at least `t`, greater than `t`, and equal to `t`.
pub fn count_ties(s: &Vec<u128>, t: u128) -> (r: (usize, usize, usize))
    ensures
        r.0 == num_ge(s@, t),
        r.1 == num_gt(s@, t),
        r.2 == num_eq(s@, t),
{
    let mut ge: usize = 0;
    let mut gt: usize = 0;
    let mut eq: usize = 0;
    let mut i: usize = 0;
    while i < s.len()
        invariant
            i <= s@.len(),
            ge == num_ge(s@.take(i as int), t),
            gt == num_gt(s@.take(i as int), t),
            eq == num_eq(s@.take(i as int), t),
        decreases s@.len() - i,
    {
        proof {
            assert(s@.take(i as int + 1) =~= s@.take(i as int).push(s@[i as int]));
            lemma_filter_push(s@.take(i as int), s@[i as int], at_least(t));
            lemma_filter_push(s@.take(i as int), s@[i as int], more_than(t));
            lemma_filter_push(s@.take(i as int), s@[i as int], equal_to(t));
            let x = s@[i as int];
            assert(num_ge(s@.take(i + 1), t) == num_ge(s@.take(i as int), t) + if x >= t { 1int } else { 0 });
            assert(num_gt(s@.take(i + 1), t) == num_gt(s@.take(i as int), t) + if x > t { 1int } else { 0 });
            assert(num_eq(s@.take(i + 1), t) == num_eq(s@.take(i as int), t) + if x == t { 1int } else { 0 });
        }
        let v = s[i];
        if v >= t {
            ge = ge + 1;
        }
        if v > t {
            gt = gt + 1;
        }
        if v == t {
            eq = eq + 1;
        }
        i = i + 1;
    }
    assert(s@.take(s@.len() as int) =~= s@);
    (ge, gt, eq)
}

/// Every score that is at least `t` is either above it or equal to it.
pub proof fn lemma_ge_splits(s: Seq<u128>, t: u128)
    ensures
        num_gt(s, t) + num_eq(s, t) == num_ge(s, t),
        num_ge(s, t) <= s.len(),
    decreases s.len(),
{
    if s.len() > 0 {
        let pre = s.drop_last();
        lemma_ge_splits(pre, t);
        assert(s =~= pre.push(s.last()));
        lemma_filter_push(pre, s.last(), at_least(t));
        lemma_filter_push(pre, s.last(), more_than(t));
        lemma_filter_push(pre, s.last(), equal_to(t));
    }
}

proof fn lemma_smooth_bound(gt: nat, eq: nat, n: nat, u: u32)
    requires
        gt + eq <= n,
    ensures
        gt * DRAW_SCALE + u * eq <= n * DRAW_SCALE,
{
    assert(u * eq <= DRAW_SCALE * eq) by (nonlinear_arith)
        requires
            u < DRAW_SCALE,
    ;
    assert((gt + eq) * DRAW_SCALE <= n * DRAW_SCALE) by (nonlinear_arith)
        requires
            gt + eq <= n,
    ;
}

/// The deterministic p-value of the last of `scores`.
pub fn rank_pvalue_of(scores: &Vec<u128>) -> (p: PValue)
    requires
        scores@.len() > 0,
    ensures
        p == rank_pvalue(scores@),
        p.valid(),
{
    let n = scores.len();
    let (ge, _gt, _eq) = count_ties(scores, scores[n - 1]);
    proof {
        lemma_ge_splits(scores@, scores@.last());
    }
    PValue { num: ge as u128, den: n as u128 }
}

/// The smoothed p-value of the last of `scores`, with the uniform draw `u`.
pub fn smooth_rank_pvalue_of(scores: &Vec<u128>, u: u32) -> (p: PValue)
    requires
        scores@.len() > 0,
    ensures
        p == smooth_rank_pvalue(scores@, u),
        p.valid(),
{
    let n = scores.len();
    let (_ge, gt, eq) = count_ties(scores, scores[n - 1]);
    proof {
        lemma_ge_splits(scores@, scores@.last());
        lemma_smooth_bound(gt as nat, eq as nat, n as nat, u);
        assert(n * DRAW_SCALE <= MAX_DEN) by (nonlinear_arith)
            requires
                n <= usize::MAX,
        ;
    }
    PValue { num: gt as u128 * DRAW_SCALE + u as u128 * eq as u128, den: n as u128 * DRAW_SCALE }
}

/// The deterministic p-value of test score `a` against the calibration scores `cal`.
pub fn calibrated_pvalue_of(cal: &Vec<u128>, a: u128) -> (p: PValue)
    ensures
        p == calibrated_pvalue(cal@, a),
        p.valid(),
{
    let n = cal.len();
    let (ge, _gt, _eq) = count_ties(cal, a);
    proof {
        lemma_ge_splits(cal@, a);
    }
    PValue { num: ge as u128 + 1, den: n as u128 + 1 }
}

/// The smoothed p-value of test score `a` against the calibration scores `cal`,
/// with the uniform draw `u`.
pub fn smooth_calibrated_pvalue_of(cal: &Vec<u128>, a: u128, u: u32) -> (p: PValue)
    ensures
        p == smooth_calibrated_pvalue(cal@, a, u),
        p.valid(),
{
    let n = cal.len();
    let (_ge, gt, eq) = count_ties(cal, a);
    proof {
        lemma_ge_splits(cal@, a);
        lemma_smooth_bound(gt as nat, (eq + 1) as nat, (n + 1) as nat, u);
        assert((n + 1) * DRAW_SCALE <= MAX_DEN) by (nonlinear_arith)
            requires
                n <= usize::MAX,
        ;
    }
    PValue {
        num: gt as u128 * DRAW_SCALE + u as u128 * (eq as u128 + 1),
        den: (n as u128 + 1) * DRAW_SCALE,
    }
}

/// Whether the p-value `p` is above the significance level `e`, that is,
/// whether its label belongs to the prediction region at level `e`.
pub fn exceeds(p: PValue, e: Significance) -> (r: bool)
    requires
        p.valid(),
        e.valid(),
    ensures
        r == above(p, e),
{
    proof {
        assert(p.num * e.den <= MAX_DEN * u32::MAX) by (nonlinear_arith)
            requires
                p.num <= MAX_DEN,
                e.den <= u32::MAX,
        ;
        assert(e.num * p.den <= u32::MAX * MAX_DEN) by (nonlinear_arith)
            requires
                p.den <= MAX_DEN,
                e.num <= u32::MAX,
        ;
    }
    p.num * e.den as u128 > e.num as u128 * p.den
}

} // verus!
