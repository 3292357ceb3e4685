//! The distance kernel: Euclidean distance between fixed-point rows, rounded
//! down to an integer.
use vstd::prelude::*;

verus! {

/// The squared Euclidean distance between the first `u.len()` coordinates of `u` and `v`.
pub open spec fn sq_dist(u: Seq<i32>, v: Seq<i32>) -> nat
    decreases u.len(),
{
    if u.len() == 0 {
        0
    } else {
        let d = u.last() - v[u.len() - 1];
        sq_dist(u.drop_last(), v.take(u.len() - 1)) + (d * d) as nat
    }
}

/// `r` is the integer square root of `s`: the largest `r` with `r * r <= s`.
pub open spec fn is_floor_sqrt(s: nat, r: nat) -> bool {
    r * r <= s < (r + 1) * (r + 1)
}

/// The integer square root of `s`.
pub open spec fn floor_sqrt(s: nat) -> nat {
    choose|r: nat| is_floor_sqrt(s, r)
}

/// The distance between two rows: the integer square root of their squared
/// Euclidean distance. It is zero exactly when the rows are equal, and symmetric.
pub open spec fn dist(u: Seq<i32>, v: Seq<i32>) -> nat {
    floor_sqrt(sq_dist(u, v))
}

/// Every number has an integer square root.
pub proof fn lemma_floor_sqrt_exists(s: nat)
    ensures
        is_floor_sqrt(s, floor_sqrt(s)),
    decreases s,
{
    if s == 0 {
        assert(is_floor_sqrt(0, 0)) by (nonlinear_arith);
    } else {
        lemma_floor_sqrt_exists((s - 1) as nat);
        let r = floor_sqrt((s - 1) as nat);
        if (r + 1) * (r + 1) <= s {
            assert((r + 1) * (r + 1) <= s < (r + 2) * (r + 2)) by (nonlinear_arith)
                requires
                    r * r <= s - 1 < (r + 1) * (r + 1),
                    (r + 1) * (r + 1) <= s,
            ;
            assert(is_floor_sqrt(s, r + 1));
        } else {
            assert(is_floor_sqrt(s, r));
        }
    }
}

/// The squared distance is the same both ways.
pub proof fn lemma_sq_dist_symmetric(u: Seq<i32>, v: Seq<i32>)
    requires
        u.len() == v.len(),
    ensures
        sq_dist(u, v) == sq_dist(v, u),
    decreases u.len(),
{
    if u.len() > 0 {
        let n = u.len() - 1;
        assert(u.take(n) =~= u.drop_last());
        assert(v.take(n) =~= v.drop_last());
        lemma_sq_dist_symmetric(u.drop_last(), v.drop_last());
        let a = u.last() - v.last();
        assert(a * a == (-a) * (-a)) by (nonlinear_arith);
    }
}

/// The squared distance is zero exactly when the rows are equal.
pub proof fn lemma_sq_dist_zero(u: Seq<i32>, v: Seq<i32>)
    requires
        u.len() == v.len(),
    ensures
        sq_dist(u, v) == 0 <==> u == v,
    decreases u.len(),
{
    if u.len() == 0 {
        assert(u =~= v);
    } else {
        let n = u.len() - 1;
        assert(u.take(n) =~= u.drop_last());
        assert(v.take(n) =~= v.drop_last());
        lemma_sq_dist_zero(u.drop_last(), v.drop_last());
        let a = u.last() - v.last();
        assert(a * a >= 0) by (nonlinear_arith);
        assert(a * a == 0 <==> a == 0) by (nonlinear_arith);
        if u == v {
            assert(u.drop_last() == v.drop_last());
        }
        if u.drop_last() == v.drop_last() && a == 0 {
            assert(u =~= v.drop_last().push(v.last()));
            assert(v =~= v.drop_last().push(v.last()));
        }
    }
}

/// The distance between rows of one width is symmetric.
pub proof fn lemma_dist_symmetric(u: Seq<i32>, v: Seq<i32>)
    requires
        u.len() == v.len(),
    ensures
        dist(u, v) == dist(v, u),
{
    lemma_sq_dist_symmetric(u, v);
}

/// The distance between rows of one width is zero exactly when they are equal.
pub proof fn lemma_dist_zero(u: Seq<i32>, v: Seq<i32>)
    requires
        u.len() == v.len(),
    ensures
        dist(u, v) == 0 <==> u == v,
{
    lemma_sq_dist_zero(u, v);
    let s = sq_dist(u, v);
    lemma_floor_sqrt_exists(s);
    assert(is_floor_sqrt(0, 0)) by (nonlinear_arith);
    if s == 0 {
        lemma_floor_sqrt_unique(0, floor_sqrt(0), 0);
    } else {
        let r = floor_sqrt(s);
        if r == 0 {
            assert(s < 1) by (nonlinear_arith)
                requires
                    s < (r + 1) * (r + 1),
                    r == 0,
            ;
        }
    }
}

/// A number has one integer square root.
pub proof fn lemma_floor_sqrt_unique(s: nat, r: nat, q: nat)
    requires
        is_floor_sqrt(s, r),
        is_floor_sqrt(s, q),
    ensures
        r == q,
{
    if r < q {
        assert((r + 1) * (r + 1) <= q * q) by (nonlinear_arith)
            requires
                r + 1 <= q,
        ;
    } else if q < r {
        assert((q + 1) * (q + 1) <= r * r) by (nonlinear_arith)
            requires
                q + 1 <= r,
        ;
    }
}

/// The integer square root of `s`, by bisection.
pub fn isqrt(s: u128) -> (r: u64)
    ensures
        is_floor_sqrt(s as nat, r as nat),
        r == floor_sqrt(s as nat),
{
    let mut lo: u128 = 0;
    let mut hi: u128 = 0x1_0000_0000_0000_0000;
    assert(s < hi * hi) by (nonlinear_arith)
        requires
            hi == 0x1_0000_0000_0000_0000u128,
            s <= u128::MAX,
    ;
    while hi - lo > 1
        invariant
            lo < hi <= 0x1_0000_0000_0000_0000u128,
            lo * lo <= s,
            s < hi * hi,
        decreases hi - lo,
    {
        let mid = lo + (hi - lo) / 2;
        assert(mid * mid < 0x1_0000_0000_0000_0000_0000_0000_0000_0000) by (nonlinear_arith)
            requires
                mid < 0x1_0000_0000_0000_0000u128,
        ;
        if mid * mid <= s {
            lo = mid;
        } else {
            hi = mid;
        }
    }
    assert(hi == lo + 1);
    proof {
        let r = lo as nat;
        assert(is_floor_sqrt(s as nat, r));
        lemma_floor_sqrt_unique(s as nat, r, floor_sqrt(s as nat));
    }
    lo as u64
}

/// The squared Euclidean distance between two rows of equal width.
pub fn squared_distance(u: &Vec<i32>, v: &Vec<i32>) -> (r: u128)
    requires
        u@.len() == v@.len(),
    ensures
        r == sq_dist(u@, v@),
{
    let mut acc: u128 = 0;
    let mut i: usize = 0;
    while i < u.len()
        invariant
            i <= u@.len() == v@.len(),
            acc == sq_dist(u@.take(i as int), v@.take(i as int)),
            acc <= i * 0x1_0000_0000_0000_0000,
        decreases u@.len() - i,
    {
        let d: i64 = u[i] as i64 - v[i] as i64;
        assert(0 <= d * d < 0x1_0000_0000_0000_0000) by (nonlinear_arith)
            requires
                -0x1_0000_0000 < d < 0x1_0000_0000,
        ;
        let dd: i128 = d as i128 * d as i128;
        assert(i * 0x1_0000_0000_0000_0000 + 0x1_0000_0000_0000_0000
            <= 0x1_0000_0000_0000_0000_0000_0000_0000_0000) by (nonlinear_arith)
            requires
                i < 0x1_0000_0000_0000_0000,
        ;
        proof {
            let ui = u@.take(i + 1);
            let vi = v@.take(i + 1);
            assert(ui.drop_last() =~= u@.take(i as int));
            assert(vi.take(i as int) =~= v@.take(i as int));
        }
        acc = acc + dd as u128;
        i = i + 1;
    }
    assert(u@.take(i as int) =~= u@);
    assert(v@.take(i as int) =~= v@);
    acc
}

/// The distance between two rows of equal width.
pub fn distance(u: &Vec<i32>, v: &Vec<i32>) -> (r: u64)
    requires
        u@.len() == v@.len(),
    ensures
        r == dist(u@, v@),
{
    isqrt(squared_distance(u, v))
}

} // verus!
