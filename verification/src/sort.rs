//! Sorting of latency samples.

use vstd::prelude::*;
use vstd::multiset::*;
use vstd::relations::{sorted_by, total_ordering};
use vstd::seq_lib::*;

verus! {

/// The order of samples: by their number.
pub open spec fn at_most() -> spec_fn(u64, u64) -> bool {
    |a: u64, b: u64| a <= b
}

/// The samples of `s` from the least to the greatest.
pub open spec fn ascending_order(s: Seq<u64>) -> Seq<u64> {
    s.sort_by(at_most())
}

/// `ascending_order(s)` is the one list that is in order and holds each
/// sample as often as `s` does.
pub proof fn lemma_ascending_order(s: Seq<u64>, t: Seq<u64>)
    ensures
        sorted_by(ascending_order(s), at_most()),
        ascending_order(s).to_multiset() == s.to_multiset(),
        ascending_order(s).len() == s.len(),
        sorted_by(t, at_most()) && t.to_multiset() == s.to_multiset() ==> t == ascending_order(s),
{
    assert(total_ordering(at_most()));
    s.lemma_sort_by_ensures(at_most());
    s.to_multiset_ensures();
    ascending_order(s).to_multiset_ensures();
    if sorted_by(t, at_most()) && t.to_multiset() == s.to_multiset() {
        lemma_sorted_unique(t, ascending_order(s), at_most());
    }
}

/// Merges two lists that are in order into one.
fn merge_runs(a: &Vec<u64>, b: &Vec<u64>) -> (r: Vec<u64>)
    requires
        sorted_by(a@, at_most()),
        sorted_by(b@, at_most()),
    ensures
        sorted_by(r@, at_most()),
        r@.to_multiset() == a@.to_multiset().add(b@.to_multiset()),
{
    broadcast use {group_to_multiset_ensures, group_multiset_axioms};

    let n = a.len();
    let m = b.len();
    let mut out: Vec<u64> = Vec::new();
    let mut i: usize = 0;
    let mut j: usize = 0;
    assert(a@.take(0) =~= Seq::<u64>::empty());
    assert(b@.take(0) =~= Seq::<u64>::empty());
    assert(out@.to_multiset() =~= a@.take(0).to_multiset().add(b@.take(0).to_multiset()));
    while i < n || j < m
        invariant
            i <= n,
            j <= m,
            n == a.len(),
            m == b.len(),
            sorted_by(a@, at_most()),
            sorted_by(b@, at_most()),
            sorted_by(out@, at_most()),
            forall|x: int| 0 <= x < out.len() && i < n ==> #[trigger] out@[x] <= a@[i as int],
            forall|x: int| 0 <= x < out.len() && j < m ==> #[trigger] out@[x] <= b@[j as int],
            out@.to_multiset() == a@.take(i as int).to_multiset().add(b@.take(j as int).to_multiset()),
        decreases (n - i) + (m - j),
    {
        let ghost prev = out@;
        if j >= m || (i < n && a[i] <= b[j]) {
            let x = a[i];
            out.push(x);
            proof {
                assert(out@ =~= prev.push(x));
                to_multiset_build(prev, x);
                to_multiset_build(a@.take(i as int), x);
                assert(a@.take(i + 1) =~= a@.take(i as int).push(x));
                assert(out@.to_multiset() =~= a@.take(i + 1).to_multiset().add(
                    b@.take(j as int).to_multiset(),
                ));
                if i + 1 < n {
                    assert(at_most()(a@[i as int], a@[i + 1]));
                }
            }
            i = i + 1;
        } else {
            let x = b[j];
            out.push(x);
            proof {
                assert(out@ =~= prev.push(x));
                to_multiset_build(prev, x);
                to_multiset_build(b@.take(j as int), x);
                assert(b@.take(j + 1) =~= b@.take(j as int).push(x));
                assert(out@.to_multiset() =~= a@.take(i as int).to_multiset().add(
                    b@.take(j + 1).to_multiset(),
                ));
                if j + 1 < m {
                    assert(at_most()(b@[j as int], b@[j + 1]));
                }
            }
            j = j + 1;
        }
        proof {
            assert forall|x: int, y: int| 0 <= x < y < out@.len() implies at_most()(
                out@[x],
                out@[y],
            ) by {
                if y < prev.len() {
                    assert(at_most()(prev[x], prev[y]));
                } else {
                    assert(out@[x] == prev[x]);
                }
            }
        }
    }
    assert(a@.take(n as int) =~= a@);
    assert(b@.take(m as int) =~= b@);
    out
}

/// Sorts the samples of `v` between `lo` and `hi`.
fn sort_range(v: &[u64], lo: usize, hi: usize) -> (r: Vec<u64>)
    requires
        lo <= hi <= v.len(),
    ensures
        sorted_by(r@, at_most()),
        r@.to_multiset() == v@.subrange(lo as int, hi as int).to_multiset(),
    decreases hi - lo,
{
    broadcast use {group_to_multiset_ensures, group_multiset_axioms};

    let mut r: Vec<u64> = Vec::new();
    if hi - lo == 0 {
        assert(v@.subrange(lo as int, hi as int) =~= r@);
        r
    } else if hi - lo == 1 {
        r.push(v[lo]);
        assert(v@.subrange(lo as int, hi as int) =~= r@);
        r
    } else {
        let mid = lo + (hi - lo) / 2;
        let left = sort_range(v, lo, mid);
        let right = sort_range(v, mid, hi);
        proof {
            let x = v@.subrange(lo as int, mid as int);
            let y = v@.subrange(mid as int, hi as int);
            assert(v@.subrange(lo as int, hi as int) =~= x + y);
            lemma_multiset_commutative(x, y);
        }
        merge_runs(&left, &right)
    }
}

/// The samples of `v` from the least to the greatest.
pub fn sorted_copy(v: &[u64]) -> (r: Vec<u64>)
    ensures
        r@ == ascending_order(v@),
{
    let r = sort_range(v, 0, v.len());
    proof {
        assert(v@.subrange(0, v.len() as int) =~= v@);
        lemma_ascending_order(v@, r@);
    }
    r
}

} // verus!
