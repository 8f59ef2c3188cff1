//! Merging statistics gives the same whatever the order of the drivers.

use vstd::multiset::Multiset;
use vstd::prelude::*;
use vstd::seq_lib::{commutative_foldl, lemma_fold_left_permutation, lemma_multiset_commutative};
use crate::order::{lemma_ascending_unique, lemma_count_below_at};
use crate::stats::{lemma_merge, max_nat, StatsView};

verus! {

/// The statistics of the drivers of `list`, merged one after the other
/// into statistics that hold nothing.
pub open spec fn merge_all(list: Seq<StatsView>) -> StatsView {
    list.fold_left(StatsView::empty(), |acc: StatsView, s: StatsView| acc.merge(s))
}

/// Each member of `list` is the statistics of at least one driver.
pub open spec fn per_driver(list: Seq<StatsView>) -> bool {
    forall|i: int| 0 <= i < list.len() ==> (#[trigger] list[i]).wf() && list[i].merged >= 1
}

/// Adds the drivers of one member to a count.
pub open spec fn add_merged() -> spec_fn(nat, StatsView) -> nat {
    |n: nat, s: StatsView| n + s.merged
}

/// Keeps the longer of a duration and that of one member.
pub open spec fn keep_longer() -> spec_fn(nat, StatsView) -> nat {
    |m: nat, s: StatsView| max_nat(m, s.total_us)
}

/// Adds the samples of one member under `label` to a bag of samples.
pub open spec fn add_bag(label: Seq<char>) -> spec_fn(Multiset<u64>, StatsView) -> Multiset<u64> {
    |m: Multiset<u64>, s: StatsView| m.add(s.samples(label).to_multiset())
}

/// The number of drivers in all members of `list`.
pub open spec fn sum_merged(list: Seq<StatsView>) -> nat {
    list.fold_left(0nat, add_merged())
}

/// The longest duration of the members of `list`; zero where there is none.
pub open spec fn max_total(list: Seq<StatsView>) -> nat {
    list.fold_left(0nat, keep_longer())
}

/// The samples under `label` of all members of `list`, as a bag.
pub open spec fn bag_of(list: Seq<StatsView>, label: Seq<char>) -> Multiset<u64> {
    list.fold_left(Multiset::empty(), add_bag(label))
}

/// Whether a member of `list` has samples under `label`.
pub open spec fn some_has(list: Seq<StatsView>, label: Seq<char>) -> bool {
    exists|i: int| 0 <= i < list.len() && (#[trigger] list[i]).labels.contains(label)
}

/// What the statistics of several drivers come to when they are merged one
/// after the other: the drivers are counted, the longest duration is kept,
/// and each label has the samples of all of them.
pub proof fn lemma_merge_all(list: Seq<StatsView>)
    requires
        per_driver(list),
    ensures
        merge_all(list).wf(),
        merge_all(list).merged == sum_merged(list),
        list.len() > 0 ==> merge_all(list).merged >= 1,
        merge_all(list).total_us == max_total(list),
        forall|l: Seq<char>| #[trigger] merge_all(list).labels.contains(l) <==> some_has(list, l),
        forall|l: Seq<char>| #[trigger]
            merge_all(list).samples(l).to_multiset() == bag_of(list, l),
    decreases list.len(),
{
    broadcast use {vstd::seq_lib::group_to_multiset_ensures, vstd::multiset::group_multiset_axioms};

    let all = merge_all(list);
    if list.len() == 0 {
        assert forall|l: Seq<char>| #[trigger] all.samples(l).to_multiset() == bag_of(list, l) by {
            assert(all.samples(l) =~= Seq::<u64>::empty());
            assert(all.samples(l).to_multiset() =~= Multiset::<u64>::empty());
        }
    } else {
        let front = list.drop_last();
        let last = list.last();
        let acc = merge_all(front);
        assert(per_driver(front)) by {
            assert forall|i: int| 0 <= i < front.len() implies (#[trigger] front[i]).wf()
                && front[i].merged >= 1 by {
                assert(front[i] == list[i]);
            }
        }
        lemma_merge_all(front);
        assert(all == acc.merge(last));
        assert(sum_merged(list) == sum_merged(front) + last.merged);
        assert(max_total(list) == max_nat(max_total(front), last.total_us));
        if front.len() > 0 {
            lemma_merge(acc, last);
        }
        assert forall|l: Seq<char>| #[trigger] all.labels.contains(l) <==> some_has(list, l) by {
            assert(acc.labels.contains(l) <==> some_has(front, l));
            if some_has(front, l) {
                let i = choose|i: int| 0 <= i < front.len() && (#[trigger] front[i]).labels.contains(l);
                assert(list[i].labels.contains(l));
            }
            if last.labels.contains(l) {
                assert(list[list.len() - 1].labels.contains(l));
            }
            if some_has(list, l) {
                let i = choose|i: int| 0 <= i < list.len() && (#[trigger] list[i]).labels.contains(l);
                if i < front.len() {
                    assert(front[i].labels.contains(l));
                }
            }
        }
        assert forall|l: Seq<char>| #[trigger] all.samples(l).to_multiset() == bag_of(list, l) by {
            assert(bag_of(list, l) == bag_of(front, l).add(last.samples(l).to_multiset()));
            assert(acc.samples(l).to_multiset() == bag_of(front, l));
            if front.len() > 0 {
                lemma_multiset_commutative(acc.samples(l), last.samples(l));
            } else {
                assert(bag_of(front, l) =~= Multiset::<u64>::empty());
                assert(bag_of(list, l) =~= last.samples(l).to_multiset());
            }
        }
    }
}

/// The statistics of several drivers, merged in any order, count the same
/// drivers, keep the same duration, which is the longest of them, and hold
/// under the same labels the same samples, each as often.
pub proof fn lemma_merge_any_order(a: Seq<StatsView>, b: Seq<StatsView>)
    requires
        per_driver(a),
        a.to_multiset() == b.to_multiset(),
    ensures
        merge_all(a).merged == merge_all(b).merged,
        merge_all(a).total_us == merge_all(b).total_us,
        merge_all(a).total_us == max_total(a),
        merge_all(a).labels == merge_all(b).labels,
        forall|l: Seq<char>|
            merge_all(a).samples(l).to_multiset() == merge_all(b).samples(l).to_multiset(),
{
    broadcast use {vstd::seq_lib::group_to_multiset_ensures, vstd::multiset::group_multiset_axioms};

    assert(per_driver(b)) by {
        assert forall|i: int| 0 <= i < b.len() implies (#[trigger] b[i]).wf() && b[i].merged >= 1 by {
            assert(b.contains(b[i]));
            assert(b.to_multiset().count(b[i]) > 0);
            assert(a.contains(b[i]));
        }
    }
    lemma_merge_all(a);
    lemma_merge_all(b);
    assert(commutative_foldl(add_merged()));
    lemma_fold_left_permutation(a, b, add_merged(), 0nat);
    assert(commutative_foldl(keep_longer()));
    lemma_fold_left_permutation(a, b, keep_longer(), 0nat);
    assert forall|l: Seq<char>|
        merge_all(a).samples(l).to_multiset() == merge_all(b).samples(l).to_multiset() by {
        assert(commutative_foldl(add_bag(l))) by {
            assert forall|x: StatsView, y: StatsView, v: Multiset<u64>| #[trigger]
                add_bag(l)(add_bag(l)(v, x), y) == add_bag(l)(add_bag(l)(v, y), x) by {
                assert(v.add(x.samples(l).to_multiset()).add(y.samples(l).to_multiset()) =~= v.add(
                    y.samples(l).to_multiset(),
                ).add(x.samples(l).to_multiset()));
            }
        }
        lemma_fold_left_permutation(a, b, add_bag(l), Multiset::empty());
        assert(merge_all(a).samples(l).to_multiset() == bag_of(a, l));
        assert(merge_all(b).samples(l).to_multiset() == bag_of(b, l));
    }
    assert forall|l: Seq<char>| merge_all(a).labels.contains(l) <==> merge_all(b).labels.contains(
        l,
    ) by {
        assert(merge_all(a).labels.contains(l) <==> some_has(a, l));
        assert(merge_all(b).labels.contains(l) <==> some_has(b, l));
        if some_has(a, l) {
            let i = choose|i: int| 0 <= i < a.len() && (#[trigger] a[i]).labels.contains(l);
            assert(a.contains(a[i]));
            assert(a.to_multiset().count(a[i]) > 0);
            assert(b.contains(a[i]));
            let j = choose|j: int| 0 <= j < b.len() && b[j] == a[i];
            assert(b[j].labels.contains(l));
        }
        if some_has(b, l) {
            let i = choose|i: int| 0 <= i < b.len() && (#[trigger] b[i]).labels.contains(l);
            assert(b.contains(b[i]));
            assert(b.to_multiset().count(b[i]) > 0);
            assert(a.contains(b[i]));
            let j = choose|j: int| 0 <= j < a.len() && a[j] == b[i];
            assert(a[j].labels.contains(l));
        }
    }
    lemma_ascending_unique(merge_all(a).labels, merge_all(b).labels);
}

/// Merging two sets of statistics in either order counts the same drivers,
/// keeps the same duration and the same labels, and holds under each label
/// the same samples, each as often.
pub proof fn lemma_merge_commutative(a: StatsView, b: StatsView)
    requires
        a.wf(),
        b.wf(),
        a.merged >= 1,
        b.merged >= 1,
    ensures
        a.merge(b).merged == b.merge(a).merged,
        a.merge(b).total_us == b.merge(a).total_us,
        a.merge(b).labels == b.merge(a).labels,
        forall|l: Seq<char>|
            a.merge(b).samples(l).to_multiset() == b.merge(a).samples(l).to_multiset(),
{
    broadcast use {vstd::seq_lib::group_to_multiset_ensures, vstd::multiset::group_multiset_axioms};

    lemma_merge(a, b);
    lemma_merge(b, a);
    assert forall|l: Seq<char>| a.merge(b).labels.contains(l) <==> b.merge(a).labels.contains(l) by {
        assert(a.merge(b).labels.contains(l) <==> (a.labels.contains(l) || b.labels.contains(l)));
        assert(b.merge(a).labels.contains(l) <==> (b.labels.contains(l) || a.labels.contains(l)));
    }
    lemma_ascending_unique(a.merge(b).labels, b.merge(a).labels);
    assert forall|l: Seq<char>|
        a.merge(b).samples(l).to_multiset() == b.merge(a).samples(l).to_multiset() by {
        assert(a.merge(b).samples(l) == a.samples(l) + b.samples(l));
        assert(b.merge(a).samples(l) == b.samples(l) + a.samples(l));
        lemma_multiset_commutative(a.samples(l), b.samples(l));
        lemma_multiset_commutative(b.samples(l), a.samples(l));
        assert(a.samples(l).to_multiset().add(b.samples(l).to_multiset()) =~= b.samples(
            l,
        ).to_multiset().add(a.samples(l).to_multiset()));
    }
}

/// Merging is associative: three sets of statistics come to the same
/// whether the first two or the last two are merged first.
pub proof fn lemma_merge_associative(a: StatsView, b: StatsView, c: StatsView)
    requires
        a.wf(),
        b.wf(),
        c.wf(),
        a.merged >= 1,
        b.merged >= 1,
    ensures
        a.merge(b).merge(c) == a.merge(b.merge(c)),
{
    lemma_merge(a, b);
    lemma_merge(b, c);
    let x = a.merge(b).merge(c);
    let y = a.merge(b.merge(c));
    lemma_merge(a.merge(b), c);
    lemma_merge(a, b.merge(c));
    assert forall|l: Seq<char>| x.labels.contains(l) <==> y.labels.contains(l) by {
        assert(x.labels.contains(l) <==> (a.merge(b).labels.contains(l) || c.labels.contains(l)));
        assert(y.labels.contains(l) <==> (a.labels.contains(l) || b.merge(c).labels.contains(l)));
        assert(a.merge(b).labels.contains(l) <==> (a.labels.contains(l) || b.labels.contains(l)));
        assert(b.merge(c).labels.contains(l) <==> (b.labels.contains(l) || c.labels.contains(l)));
    }
    lemma_ascending_unique(x.labels, y.labels);
    assert forall|i: int| 0 <= i < x.lists.len() implies x.lists[i] == y.lists[i] by {
        let l = x.labels[i];
        lemma_count_below_at(x.labels, i);
        assert(x.samples(l) == x.lists[i]);
        assert(y.samples(l) == y.lists[i]);
        assert(x.samples(l) == a.merge(b).samples(l) + c.samples(l));
        assert(a.merge(b).samples(l) == a.samples(l) + b.samples(l));
        assert(y.samples(l) == a.samples(l) + b.merge(c).samples(l));
        assert(b.merge(c).samples(l) == b.samples(l) + c.samples(l));
        assert((a.samples(l) + b.samples(l)) + c.samples(l) =~= a.samples(l) + (b.samples(l)
            + c.samples(l)));
    }
    assert(x.lists =~= y.lists);
}

} // verus!
