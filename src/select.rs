//! Selection of the smallest distances: the partial sort behind the k-NN score.
use vstd::prelude::*;
use vstd::relations::{sorted_by, total_ordering};
use vstd::seq_lib::lemma_sorted_unique;

verus! {

broadcast use {
    vstd::seq_lib::group_to_multiset_ensures,
    vstd::seq_lib::lemma_multiset_commutative,
    vstd::multiset::group_multiset_axioms,
};

pub open spec fn le_u64() -> spec_fn(u64, u64) -> bool {
    |a: u64, b: u64| a <= b
}

/// `s` in ascending order.
pub open spec fn ascending(s: Seq<u64>) -> Seq<u64> {
    s.sort_by(le_u64())
}

/// The sum of a sequence of distances.
pub open spec fn sum(s: Seq<u64>) -> int
    decreases s.len(),
{
    if s.len() == 0 {
        0
    } else {
        sum(s.drop_last()) + s.last()
    }
}

pub open spec fn min_nat(a: nat, b: nat) -> nat {
    if a < b {
        a
    } else {
        b
    }
}

/// The `k` smallest values of `s` in ascending order (all of them if `s` has fewer).
pub open spec fn smallest(s: Seq<u64>, k: nat) -> Seq<u64> {
    ascending(s).take(min_nat(k, s.len()) as int)
}

/// The sum of the `k` smallest values of `s`.
pub open spec fn smallest_sum(s: Seq<u64>, k: nat) -> int {
    sum(smallest(s, k))
}

proof fn lemma_le_total()
    ensures
        total_ordering(le_u64()),
{
}

/// Inserting `x` where the entries before are at most `x` and those after are
/// above it keeps a sequence sorted.
proof fn lemma_insert_sorted(r: Seq<u64>, j: int, x: u64)
    requires
        sorted_by(r, le_u64()),
        0 <= j <= r.len(),
        forall|t: int| 0 <= t < j ==> r[t] <= x,
        forall|t: int| j <= t < r.len() ==> x < r[t],
    ensures
        sorted_by(r.insert(j, x), le_u64()),
{
    let q = r.insert(j, x);
    assert forall|a: int, b: int| 0 <= a < b < q.len() implies le_u64()(q[a], q[b]) by {
        if b < j {
            assert(le_u64()(r[a], r[b]));
        } else if b == j {
        } else if a < j {
            assert(le_u64()(r[a], r[b - 1]));
        } else if a == j {
        } else {
            assert(le_u64()(r[a - 1], r[b - 1]));
        }
    }
}

/// A sorted prefix followed by a sorted rest that is nowhere below it is the
/// ascending order of everything.
proof fn lemma_split_ascending(s: Seq<u64>, r: Seq<u64>, rest: Seq<u64>)
    requires
        sorted_by(r, le_u64()),
        forall|a: u64, b: u64| r.contains(a) && rest.contains(b) ==> a <= b,
        (r + rest).to_multiset() == s.to_multiset(),
    ensures
        ascending(s) == r + ascending(rest),
{
    lemma_le_total();
    rest.lemma_sort_by_ensures(le_u64());
    s.lemma_sort_by_ensures(le_u64());
    let q = ascending(rest);
    let whole = r + q;
    vstd::seq_lib::lemma_multiset_commutative(r, q);
    vstd::seq_lib::lemma_multiset_commutative(r, rest);
    assert forall|a: int, b: int| 0 <= a < b < whole.len() implies le_u64()(whole[a], whole[b]) by {
        if b < r.len() {
        } else if a >= r.len() {
            assert(le_u64()(q[a - r.len()], q[b - r.len()]));
        } else {
            assert(r.contains(whole[a]));
            assert(q.contains(whole[b]));
            assert(rest.contains(whole[b]));
        }
    }
    lemma_sorted_unique(whole, ascending(s), le_u64());
}

/// The `k` smallest entries of `values`, in ascending order.
pub fn smallest_k(values: &Vec<u64>, k: usize) -> (r: Vec<u64>)
    ensures
        r@ == smallest(values@, k as nat),
{
    let mut r: Vec<u64> = Vec::new();
    let ghost mut rest: Seq<u64> = Seq::empty();
    let mut i: usize = 0;
    while i < values.len()
        invariant
            i <= values@.len(),
            sorted_by(r@, le_u64()),
            r@.len() == min_nat(k as nat, i as nat),
            (r@ + rest).to_multiset() == values@.take(i as int).to_multiset(),
            forall|a: u64, b: u64| r@.contains(a) && rest.contains(b) ==> a <= b,
            r@.len() < k ==> rest.len() == 0,
        decreases values@.len() - i,
    {
        let x = values[i];
        let mut j: usize = 0;
        while j < r.len() && r[j] <= x
            invariant
                j <= r@.len(),
                forall|t: int| 0 <= t < j ==> r@[t] <= x,
            decreases r@.len() - j,
        {
            j = j + 1;
        }
        proof {
            assert(values@.take(i + 1) =~= values@.take(i as int).push(x));
            assert forall|t: int| j <= t < r@.len() implies x < r@[t] by {
                assert(le_u64()(r@[j as int], r@[t]));
            }
        }
        let ghost old_r = r@;
        let ghost old_rest = rest;
        if j < k {
            r.insert(j, x);
            proof {
                lemma_insert_sorted(old_r, j as int, x);
                assert((r@ + rest).to_multiset() =~= (old_r + rest).to_multiset().insert(x));
            }
            if r.len() > k {
                let z = r.pop().unwrap();
                proof {
                    let full = old_r.insert(j as int, x);
                    assert(full =~= r@.push(z));
                    assert forall|a: u64, b: u64| r@.contains(a) && rest.push(z).contains(b) implies a <= b by {
                        let ia = choose|ia: int| 0 <= ia < r@.len() && r@[ia] == a;
                        assert(le_u64()(full[ia], full[full.len() - 1]));
                        if b != z {
                            assert(rest.contains(b));
                            assert(old_r.contains(z) || z == x);
                            if z == x {
                                assert(j == old_r.len());
                                assert(false);
                            }
                            assert(old_r.contains(z));
                        }
                    }
                    rest = rest.push(z);
                    assert(full.to_multiset() =~= r@.to_multiset().insert(z));
                    assert((r@ + rest).to_multiset() =~= (old_r + old_rest).to_multiset().insert(x));
                }
            } else {
                proof {
                    assert(rest.len() == 0);
                }
            }
        } else {
            proof {
                assert forall|a: u64, b: u64| r@.contains(a) && rest.push(x).contains(b) implies a <= b by {
                    let ia = choose|ia: int| 0 <= ia < r@.len() && r@[ia] == a;
                    if b != x {
                        assert(rest.contains(b));
                    }
                }
                rest = rest.push(x);
                assert((r@ + rest).to_multiset() =~= (r@ + old_rest).to_multiset().insert(x));
            }
        }
        i = i + 1;
    }
    proof {
        assert(values@.take(i as int) =~= values@);
        lemma_split_ascending(values@, r@, rest);
        values@.lemma_sort_by_ensures(le_u64());
        assert(ascending(values@).take(r@.len() as int) =~= r@);
    }
    r
}

/// The sum of `s`; it fits in 128 bits since a vector has fewer than 2^64 entries.
pub fn sum_of(s: &Vec<u64>) -> (r: u128)
    ensures
        r == sum(s@),
{
    let mut acc: u128 = 0;
    let mut i: usize = 0;
    while i < s.len()
        invariant
            i <= s@.len(),
            acc == sum(s@.take(i as int)),
            acc <= i * 0x1_0000_0000_0000_0000,
        decreases s@.len() - i,
    {
        assert(s@.take(i + 1).drop_last() =~= s@.take(i as int));
        assert(i * 0x1_0000_0000_0000_0000 + 0x1_0000_0000_0000_0000
            <= 0x1_0000_0000_0000_0000_0000_0000_0000_0000) by (nonlinear_arith)
            requires
                i < 0x1_0000_0000_0000_0000,
        ;
        acc = acc + s[i] as u128;
        i = i + 1;
    }
    assert(s@.take(i as int) =~= s@);
    acc
}

/// The sum of the `k` smallest entries of `values`.
pub fn smallest_sum_of(values: &Vec<u64>, k: usize) -> (r: u128)
    ensures
        r == smallest_sum(values@, k as nat),
{
    let chosen = smallest_k(values, k);
    sum_of(&chosen)
}

} // verus!
