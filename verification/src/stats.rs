//! Latency statistics of one driver, and of many drivers merged.

use vstd::arithmetic::div_mod::{lemma_fundamental_div_mod, lemma_fundamental_div_mod_converse};
use vstd::prelude::*;
use crate::order::{
    ascending, contents, count_below, insert_key, lemma_ascending_unique, lemma_contains_at,
    lemma_count_below_ascending, lemma_count_below_at, lemma_index_unique, lemma_insert_key,
    lemma_union_keys, lower_bound, str_equal, union_keys,
};
use crate::sort::{ascending_order, lemma_ascending_order, sorted_copy};

verus! {

/// The statistics of a driver as a mathematical value: how many drivers
/// were merged into them, the microseconds between the start of the first
/// call and the end of the last, and for each label of an operation the
/// latencies of its calls, in microseconds and in the order in which they
/// were recorded. The labels are kept in ascending order, and `lists[i]`
/// holds the samples of `labels[i]`.
pub struct StatsView {
    pub merged: nat,
    pub total_us: nat,
    pub labels: Seq<Seq<char>>,
    pub lists: Seq<Seq<u64>>,
}

/// The number of samples in all of `lists`.
pub open spec fn sum_lens(lists: Seq<Seq<u64>>) -> nat
    decreases lists.len(),
{
    if lists.len() == 0 {
        0
    } else {
        sum_lens(lists.drop_last()) + lists.last().len()
    }
}

/// The greater of two numbers.
pub open spec fn max_nat(a: nat, b: nat) -> nat {
    if a >= b {
        a
    } else {
        b
    }
}

impl StatsView {
    /// The statistics before anything is recorded.
    pub open spec fn empty() -> StatsView {
        StatsView { merged: 0, total_us: 0, labels: Seq::empty(), lists: Seq::empty() }
    }

    /// Each label stands once, in ascending order, and has at least one
    /// sample.
    pub open spec fn wf(self) -> bool {
        &&& ascending(self.labels)
        &&& self.lists.len() == self.labels.len()
        &&& forall|i: int| 0 <= i < self.lists.len() ==> (#[trigger] self.lists[i]).len() > 0
    }

    /// The samples recorded under `label`; none where the label is unknown.
    pub open spec fn samples(self, label: Seq<char>) -> Seq<u64> {
        let i = count_below(self.labels, label) as int;
        if i < self.labels.len() && self.labels[i] == label {
            self.lists[i]
        } else {
            Seq::empty()
        }
    }

    /// The number of samples under all labels.
    pub open spec fn total_ops(self) -> nat {
        sum_lens(self.lists)
    }

    /// The statistics with `list` added at the end of the samples of `label`.
    pub open spec fn absorb(self, label: Seq<char>, list: Seq<u64>) -> StatsView {
        let i = count_below(self.labels, label) as int;
        if i < self.labels.len() && self.labels[i] == label {
            StatsView { lists: self.lists.update(i, self.lists[i] + list), ..self }
        } else {
            StatsView {
                labels: self.labels.insert(i, label),
                lists: self.lists.insert(i, list),
                ..self
            }
        }
    }

    /// The statistics with one more sample under `label`.
    pub open spec fn record(self, label: Seq<char>, latency_us: u64) -> StatsView {
        self.absorb(label, seq![latency_us])
    }

    /// The statistics of a driver that has ended after `span_us`
    /// microseconds between the start of its first call and the end of its
    /// last.
    pub open spec fn closed(self, span_us: nat) -> StatsView {
        StatsView { merged: 1, total_us: span_us, ..self }
    }

    /// The statistics of `self` and `other` together. Statistics into which
    /// nothing was merged become `other`. Otherwise the drivers of both are
    /// counted, the longer duration is kept (drivers run side by side, so
    /// the slower one bounds the phase), and under each label the samples
    /// of `other` follow those of `self`.
    pub open spec fn merge(self, other: StatsView) -> StatsView {
        if self.merged == 0 {
            other
        } else {
            let labels = union_keys(self.labels, other.labels);
            StatsView {
                merged: self.merged + other.merged,
                total_us: max_nat(self.total_us, other.total_us),
                labels,
                lists: Seq::new(
                    labels.len(),
                    |i: int| self.samples(labels[i]) + other.samples(labels[i]),
                ),
            }
        }
    }
}

/// Replacing one list changes the number of samples by the difference of
/// the lengths.
pub proof fn lemma_sum_lens_update(lists: Seq<Seq<u64>>, i: int, list: Seq<u64>)
    requires
        0 <= i < lists.len(),
    ensures
        sum_lens(lists.update(i, list)) == sum_lens(lists) - lists[i].len() + list.len(),
    decreases lists.len(),
{
    let r = lists.update(i, list);
    if i == lists.len() - 1 {
        assert(r.drop_last() =~= lists.drop_last());
    } else {
        assert(r.drop_last() =~= lists.drop_last().update(i, list));
        lemma_sum_lens_update(lists.drop_last(), i, list);
    }
}

/// Putting in one list adds its length to the number of samples.
pub proof fn lemma_sum_lens_insert(lists: Seq<Seq<u64>>, i: int, list: Seq<u64>)
    requires
        0 <= i <= lists.len(),
    ensures
        sum_lens(lists.insert(i, list)) == sum_lens(lists) + list.len(),
    decreases lists.len(),
{
    let r = lists.insert(i, list);
    if i == lists.len() {
        assert(r.drop_last() =~= lists);
    } else {
        assert(r.drop_last() =~= lists.drop_last().insert(i, list));
        assert(r.last() == lists.last());
        lemma_sum_lens_insert(lists.drop_last(), i, list);
    }
}

/// What adding samples under one label changes, and what it leaves alone.
pub proof fn lemma_absorb(s: StatsView, label: Seq<char>, list: Seq<u64>)
    requires
        s.wf(),
        list.len() > 0,
    ensures
        s.absorb(label, list).wf(),
        s.absorb(label, list).labels == insert_key(s.labels, label),
        s.absorb(label, list).total_ops() == s.total_ops() + list.len(),
        s.absorb(label, list).merged == s.merged,
        s.absorb(label, list).total_us == s.total_us,
        forall|l: Seq<char>| #[trigger]
            s.absorb(label, list).samples(l) == if l == label {
                s.samples(l) + list
            } else {
                s.samples(l)
            },
{
    let r = s.absorb(label, list);
    let i = count_below(s.labels, label) as int;
    lemma_count_below_ascending(s.labels, label);
    lemma_contains_at(s.labels, label);
    lemma_insert_key(s.labels, label);
    let present = i < s.labels.len() && s.labels[i] == label;
    if present {
        lemma_sum_lens_update(s.lists, i, s.lists[i] + list);
    } else {
        lemma_sum_lens_insert(s.lists, i, list);
    }
    assert forall|l: Seq<char>| #[trigger]
        r.samples(l) == if l == label {
            s.samples(l) + list
        } else {
            s.samples(l)
        } by {
        let p = count_below(s.labels, l) as int;
        let q = count_below(r.labels, l) as int;
        lemma_count_below_ascending(s.labels, l);
        lemma_contains_at(s.labels, l);
        lemma_contains_at(r.labels, l);
        if l == label {
            if !present {
                assert(r.labels[i] == label);
                lemma_index_unique(r.labels, q, i);
                assert(Seq::<u64>::empty() + list =~= list);
            }
        } else if s.labels.contains(l) {
            assert(r.labels.contains(l));
            if present {
                assert(p != i);
            } else {
                let p1 = if p < i {
                    p
                } else {
                    p + 1
                };
                assert(r.labels[p1] == l);
                lemma_index_unique(r.labels, q, p1);
            }
        }
    }
}

/// What merging two sets of statistics gives under each label, and that
/// the result is well formed.
pub proof fn lemma_merge(a: StatsView, b: StatsView)
    requires
        a.wf(),
        b.wf(),
        a.merged != 0,
    ensures
        a.merge(b).wf(),
        a.merge(b).merged == a.merged + b.merged,
        a.merge(b).total_us == max_nat(a.total_us, b.total_us),
        forall|l: Seq<char>| #[trigger]
            a.merge(b).labels.contains(l) <==> (a.labels.contains(l) || b.labels.contains(l)),
        forall|l: Seq<char>| #[trigger] a.merge(b).samples(l) == a.samples(l) + b.samples(l),
{
    let m = a.merge(b);
    lemma_union_keys(a.labels, b.labels);
    assert forall|i: int| 0 <= i < m.lists.len() implies (#[trigger] m.lists[i]).len() > 0 by {
        let l = m.labels[i];
        assert(m.labels.contains(l));
        lemma_contains_at(a.labels, l);
        lemma_contains_at(b.labels, l);
    }
    assert forall|l: Seq<char>| #[trigger] m.samples(l) == a.samples(l) + b.samples(l) by {
        lemma_contains_at(m.labels, l);
        lemma_contains_at(a.labels, l);
        lemma_contains_at(b.labels, l);
        if !m.labels.contains(l) {
            assert(a.samples(l) + b.samples(l) =~= Seq::<u64>::empty());
        }
    }
}

/// The sum of the samples of `s`.
pub open spec fn sum_of(s: Seq<u64>) -> nat
    decreases s.len(),
{
    if s.len() == 0 {
        0
    } else {
        sum_of(s.drop_last()) + s.last() as nat
    }
}

/// The rank, counted from one, of the sample that stands for the 99th
/// percentile of `n` samples: 0.99 times `n`, rounded up, and kept between
/// one and `n`.
pub open spec fn p99_rank(n: nat) -> nat {
    let r = (99 * n + 99) / 100;
    if r < 1 {
        1
    } else if r > n {
        n
    } else {
        r
    }
}

/// The rank of the 99th percentile is 0.99 times the number of samples,
/// rounded up: the least rank that covers 99 of a hundred samples.
pub proof fn lemma_p99_rank(n: nat)
    requires
        n >= 1,
    ensures
        1 <= p99_rank(n) <= n,
        (p99_rank(n) - 1) * 100 < 99 * n <= p99_rank(n) * 100,
{
}

/// Of a hundred samples the 99th percentile is the 99th smallest.
pub proof fn lemma_p99_of_hundred(s: Seq<u64>)
    requires
        s.len() == 100,
    ensures
        p99_rank(100) == 99,
        latency_summary(s) matches Some(st) && st.p99 == ascending_order(s)[98],
{
}

/// What a list of latencies comes to.
#[derive(Debug, Clone, Copy, PartialEq, Eq)]
pub struct LatencyStats {
    /// The number of samples.
    pub count: usize,
    /// The sum of the samples; the mean is `sum / count`.
    pub sum: u128,
    /// The least sample.
    pub min: u64,
    /// The greatest sample.
    pub max: u64,
    /// The sample of the 99th percentile, by nearest rank.
    pub p99: u64,
}

/// What the samples `s` come to; nothing where there is no sample.
pub open spec fn latency_summary(s: Seq<u64>) -> Option<LatencyStats> {
    if s.len() == 0 {
        None
    } else {
        let sorted = ascending_order(s);
        Some(
            LatencyStats {
                count: s.len() as usize,
                sum: sum_of(s) as u128,
                min: sorted[0],
                max: sorted[s.len() - 1],
                p99: sorted[p99_rank(s.len()) - 1],
            },
        )
    }
}

/// Calls per second, in hundredths: the calls divided by the duration,
/// rounded down; zero where the duration is zero.
pub open spec fn throughput_x100(total_ops: nat, total_us: nat) -> nat {
    if total_us == 0 {
        0
    } else {
        total_ops * 100_000_000 / total_us
    }
}

/// The mean of samples, in hundredths of a microsecond and rounded down.
pub open spec fn mean_x100(sum: nat, count: nat) -> nat {
    sum * 100 / count
}

/// The sum of samples is at most their number times the greatest value.
pub proof fn lemma_sum_of_bound(s: Seq<u64>)
    ensures
        sum_of(s) <= s.len() * u64::MAX,
    decreases s.len(),
{
    if s.len() > 0 {
        lemma_sum_of_bound(s.drop_last());
        assert((s.len() - 1) * u64::MAX + u64::MAX == s.len() * u64::MAX) by (nonlinear_arith);
    }
}

impl LatencyStats {
    /// The mean of the samples, in hundredths of a microsecond.
    pub fn mean_hundredths(&self) -> (r: u128)
        requires
            self.count > 0,
            self.sum <= self.count * u64::MAX,
        ensures
            r == mean_x100(self.sum as nat, self.count as nat),
    {
        let n: u128 = self.count as u128;
        let q: u128 = self.sum / n;
        let rem: u128 = self.sum % n;
        proof {
            let d = n as int;
            let x = rem as int * 100;
            lemma_fundamental_div_mod(self.sum as int, d);
            lemma_fundamental_div_mod(x, d);
            assert(q <= u64::MAX) by (nonlinear_arith)
                requires
                    self.sum == d * q + rem,
                    d > 0,
                    0 <= rem,
                    self.sum <= d * u64::MAX,
            ;
            assert(self.sum * 100 == (q * 100 + x / d) * d + x % d) by (nonlinear_arith)
                requires
                    self.sum == d * q + rem,
                    x == rem * 100,
                    x == d * (x / d) + x % d,
            ;
            lemma_fundamental_div_mod_converse(self.sum as int * 100, d, q * 100 + x / d, x % d);
        }
        q * 100 + rem * 100 / n
    }
}

/// One line of a report: an operation and what its latencies come to.
#[derive(Debug, Clone, PartialEq, Eq)]
pub struct ReportRow {
    pub label: String,
    pub stats: LatencyStats,
}

/// The figures that are printed of a phase.
#[derive(Debug, Clone, PartialEq, Eq)]
pub struct Report {
    /// The duration of the phase in microseconds.
    pub total_us: u64,
    /// The number of calls.
    pub total_ops: usize,
    /// Calls per second, in hundredths.
    pub throughput_x100: u128,
    /// One row for each operation, by ascending label.
    pub rows: Vec<ReportRow>,
}

/// The samples of each row of `v`.
pub open spec fn rows(v: Seq<Vec<u64>>) -> Seq<Seq<u64>> {
    Seq::new(v.len(), |i: int| v[i]@)
}

/// Statistics of the calls that a driver dispatched.
pub struct Stats {
    merged: usize,
    total_us: u64,
    labels: Vec<String>,
    lists: Vec<Vec<u64>>,
}

impl View for Stats {
    type V = StatsView;

    closed spec fn view(&self) -> StatsView {
        StatsView {
            merged: self.merged as nat,
            total_us: self.total_us as nat,
            labels: contents(self.labels@),
            lists: rows(self.lists@),
        }
    }
}

impl Stats {
    #[verifier::type_invariant]
    spec fn inv(self) -> bool {
        self@.wf() && self@.total_ops() <= usize::MAX
    }

    /// Statistics with nothing recorded.
    pub fn new() -> (r: Stats)
        ensures
            r@ == StatsView::empty(),
    {
        let r = Stats { merged: 0, total_us: 0, labels: Vec::new(), lists: Vec::new() };
        assert(r@.labels =~= Seq::<Seq<char>>::empty());
        assert(r@.lists =~= Seq::<Seq<u64>>::empty());
        r
    }

    /// The number of drivers merged into these statistics.
    pub fn merged(&self) -> (r: usize)
        ensures
            r == self@.merged,
            self@.wf(),
    {
        proof {
            use_type_invariant(self);
        }
        self.merged
    }

    /// The microseconds between the start of the first call and the end of
    /// the last.
    pub fn total_us(&self) -> (r: u64)
        ensures
            r == self@.total_us,
    {
        self.total_us
    }

    /// Adds `list` at the end of the samples of `label`.
    fn absorb(&mut self, label: String, list: Vec<u64>)
        requires
            list.len() > 0,
            old(self)@.total_ops() + list.len() <= usize::MAX,
        ensures
            final(self)@ == old(self)@.absorb(label@, list@),
    {
        proof {
            use_type_invariant(&*self);
            lemma_absorb(self@, label@, list@);
        }
        let mut taken = Stats::new();
        std::mem::swap(self, &mut taken);
        let Stats { merged, total_us, mut labels, mut lists } = taken;
        let ghost before = rows(lists@);
        let ghost names = contents(labels@);
        let ghost added = list@;
        let i = lower_bound(&labels, label.as_str());
        if i < labels.len() && str_equal(labels[i].as_str(), label.as_str()) {
            let mut list = list;
            let mut row = lists.remove(i);
            row.append(&mut list);
            lists.insert(i, row);
            assert(rows(lists@) =~= before.update(i as int, before[i as int] + added));
        } else {
            labels.insert(i, label);
            lists.insert(i, list);
            assert(contents(labels@) =~= names.insert(i as int, label@));
            assert(rows(lists@) =~= before.insert(i as int, list@));
        }
        *self = Stats { merged, total_us, labels, lists };
    }

    /// Whether one more sample can be recorded.
    pub fn has_room(&self) -> (r: bool)
        ensures
            r == (self@.total_ops() < usize::MAX),
    {
        self.total_ops() < usize::MAX
    }

    /// Whether `other` can be merged into these statistics: whether the
    /// drivers of both, and the samples of both, can still be counted.
    pub fn can_merge(&self, other: &Stats) -> (r: bool)
        ensures
            r == (self@.merged + other@.merged <= usize::MAX && self@.total_ops()
                + other@.total_ops() <= usize::MAX),
    {
        self.merged <= usize::MAX - other.merged && self.total_ops() <= usize::MAX
            - other.total_ops()
    }

    /// Records the latency of one call of the operation `op`.
    pub fn record_op(&mut self, op: &str, latency_us: u64)
        requires
            old(self)@.total_ops() < usize::MAX,
        ensures
            final(self)@ == old(self)@.record(op@, latency_us),
    {
        let mut list: Vec<u64> = Vec::new();
        list.push(latency_us);
        assert(list@ =~= seq![latency_us]);
        self.absorb(op.to_owned(), list);
    }

    /// The number of calls recorded: the sum of the lengths of all lists of
    /// samples.
    pub fn total_ops(&self) -> (r: usize)
        ensures
            r == self@.total_ops(),
    {
        proof {
            use_type_invariant(self);
        }
        let mut total: usize = 0;
        let mut i: usize = 0;
        while i < self.lists.len()
            invariant
                i <= self.lists.len(),
                total == sum_lens(rows(self.lists@).take(i as int)),
                sum_lens(rows(self.lists@)) <= usize::MAX,
            decreases self.lists.len() - i,
        {
            proof {
                let all = rows(self.lists@);
                assert(all.take(i + 1).drop_last() =~= all.take(i as int));
                lemma_sum_lens_prefix(all, i + 1);
            }
            total = total + self.lists[i].len();
            i = i + 1;
        }
        assert(rows(self.lists@).take(i as int) =~= rows(self.lists@));
        total
    }

    /// The labels under which samples were recorded, in ascending order.
    pub fn labels(&self) -> (v: Vec<String>)
        ensures
            contents(v@) == self@.labels,
    {
        let mut v: Vec<String> = Vec::new();
        let mut i: usize = 0;
        while i < self.labels.len()
            invariant
                i <= self.labels.len(),
                contents(v@) == contents(self.labels@).take(i as int),
            decreases self.labels.len() - i,
        {
            let ghost prev = contents(v@);
            let k = self.labels[i].clone();
            v.push(k);
            assert(contents(v@) =~= prev.push(k@));
            assert(contents(self.labels@).take(i + 1) =~= contents(self.labels@).take(
                i as int,
            ).push(self.labels[i as int]@));
            i = i + 1;
        }
        assert(contents(self.labels@).take(i as int) =~= contents(self.labels@));
        v
    }

    /// The samples recorded under `op`, in the order of their recording.
    pub fn samples(&self, op: &str) -> (v: Vec<u64>)
        ensures
            v@ == self@.samples(op@),
    {
        proof {
            use_type_invariant(self);
        }
        let i = lower_bound(&self.labels, op);
        if i < self.labels.len() && str_equal(self.labels[i].as_str(), op) {
            copy_of(self.lists[i].as_slice())
        } else {
            Vec::new()
        }
    }

    /// What the latencies `samples` come to: their number and sum, the
    /// least, the greatest, and the one of the 99th percentile. Nothing
    /// where there is no sample.
    pub fn latency_stats(samples: &[u64]) -> (r: Option<LatencyStats>)
        ensures
            r == latency_summary(samples@),
            r matches Some(st) ==> st.sum <= st.count * u64::MAX,
    {
        let n = samples.len();
        if n == 0 {
            return None;
        }
        let sorted = sorted_copy(samples);
        proof {
            lemma_ascending_order(samples@, sorted@);
            lemma_sum_of_bound(samples@);
        }
        let mut sum: u128 = 0;
        let mut i: usize = 0;
        while i < n
            invariant
                i <= n,
                n == samples.len(),
                sum == sum_of(samples@.take(i as int)),
            decreases n - i,
        {
            proof {
                assert(samples@.take(i + 1).drop_last() =~= samples@.take(i as int));
                lemma_sum_of_bound(samples@.take(i + 1));
                assert((i + 1) * u64::MAX <= usize::MAX * u64::MAX) by (nonlinear_arith)
                    requires
                        i + 1 <= usize::MAX,
                ;
                assert(usize::MAX * u64::MAX <= u128::MAX) by (nonlinear_arith)
                    requires
                        usize::MAX <= 0xffff_ffff_ffff_ffff,
                        u64::MAX == 0xffff_ffff_ffff_ffff,
                        u128::MAX == 0xffff_ffff_ffff_ffff_ffff_ffff_ffff_ffff,
                ;
            }
            sum = sum + samples[i] as u128;
            i = i + 1;
        }
        assert(samples@.take(n as int) =~= samples@);
        let wide: u128 = (99 * (n as u128) + 99) / 100;
        let rank: usize = if wide < 1 {
            1
        } else if wide > n as u128 {
            n
        } else {
            wide as usize
        };
        Some(
            LatencyStats {
                count: n,
                sum,
                min: sorted[0],
                max: sorted[n - 1],
                p99: sorted[rank - 1],
            },
        )
    }

    /// The figures of a phase: its duration, the number of calls, the
    /// calls per second, and for each operation, by ascending label, what
    /// its latencies come to.
    pub fn report(&self) -> (r: Report)
        ensures
            self@.wf(),
            r.total_us == self@.total_us,
            r.total_ops == self@.total_ops(),
            r.throughput_x100 == throughput_x100(self@.total_ops(), self@.total_us),
            self@.total_us == 0 ==> r.throughput_x100 == 0,
            r.rows.len() == self@.labels.len(),
            forall|i: int|
                0 <= i < r.rows.len() ==> (#[trigger] r.rows[i]).label@ == self@.labels[i] && Some(
                    r.rows[i].stats,
                ) == latency_summary(self@.lists[i]),
    {
        proof {
            use_type_invariant(self);
        }
        let total_ops = self.total_ops();
        let throughput: u128 = if self.total_us > 0 {
            (total_ops as u128) * 100_000_000 / (self.total_us as u128)
        } else {
            0
        };
        let mut out: Vec<ReportRow> = Vec::new();
        let mut i: usize = 0;
        while i < self.labels.len()
            invariant
                i <= self.labels.len(),
                self.labels.len() == self.lists.len(),
                self@.wf(),
                out.len() == i,
                forall|j: int|
                    0 <= j < i ==> (#[trigger] out[j]).label@ == self.labels[j]@ && Some(
                        out[j].stats,
                    ) == latency_summary(self.lists[j]@),
            decreases self.labels.len() - i,
        {
            let stats = match Stats::latency_stats(self.lists[i].as_slice()) {
                Some(st) => st,
                None => LatencyStats { count: 0, sum: 0, min: 0, max: 0, p99: 0 },
            };
            assert(self.lists[i as int]@ == rows(self.lists@)[i as int]);
            assert(self@.lists[i as int].len() > 0);
            out.push(ReportRow { label: self.labels[i].clone(), stats });
            i = i + 1;
        }
        Report { total_us: self.total_us, total_ops, throughput_x100: throughput, rows: out }
    }

    /// Merges the statistics of another driver into these. Statistics into
    /// which nothing was merged yet become `other`.
    pub fn merge(&mut self, other: Stats)
        requires
            old(self)@.merged + other@.merged <= usize::MAX,
            old(self)@.total_ops() + other@.total_ops() <= usize::MAX,
        ensures
            final(self)@ == old(self)@.merge(other@),
    {
        if self.merged == 0 {
            *self = other;
            return ;
        }
        proof {
            use_type_invariant(&*self);
            use_type_invariant(&other);
            lemma_merge(self@, other@);
        }
        let ghost a = self@;
        let ghost b = other@;
        let Stats { merged: other_merged, total_us: other_us, labels: mut names, lists: mut lists } =
            other;
        let mut k: usize = names.len();
        assert(b.labels.take(k as int) =~= b.labels);
        assert(b.lists.take(k as int) =~= b.lists);
        while k > 0
            invariant
                a.wf(),
                b.wf(),
                k <= b.labels.len(),
                k == names.len(),
                k == lists.len(),
                contents(names@) == b.labels.take(k as int),
                rows(lists@) == b.lists.take(k as int),
                self@.merged == a.merged,
                self@.total_us == a.total_us,
                self@.wf(),
                self@.total_ops() + sum_lens(b.lists.take(k as int)) == a.total_ops() + b.total_ops(),
                a.total_ops() + b.total_ops() <= usize::MAX,
                forall|l: Seq<char>| #[trigger]
                    self@.labels.contains(l) <==> (a.labels.contains(l) || b.labels.skip(
                        k as int,
                    ).contains(l)),
                forall|l: Seq<char>| #[trigger]
                    self@.samples(l) == a.samples(l) + if b.labels.skip(k as int).contains(l) {
                        b.samples(l)
                    } else {
                        Seq::<u64>::empty()
                    },
            decreases k,
        {
            let ghost before = self@;
            let ghost old_names = contents(names@);
            let ghost old_lists = rows(lists@);
            let name = names.pop().unwrap();
            let list = lists.pop().unwrap();
            proof {
                assert(old_names[k - 1] == name@);
                assert(old_lists[k - 1] == list@);
                assert(b.labels.take(k as int)[k - 1] == b.labels[k - 1]);
                assert(b.lists.take(k as int)[k - 1] == b.lists[k - 1]);
                lemma_insert_key(before.labels, name@);
                let front = b.lists.take(k as int);
                assert(front.drop_last() =~= b.lists.take(k - 1));
                assert(front.last() == list@);
                assert(contents(names@) =~= b.labels.take(k - 1));
                assert(rows(lists@) =~= b.lists.take(k - 1));
                lemma_absorb(before, name@, list@);
                lemma_count_below_at(b.labels, k - 1);
                assert(b.samples(name@) == list@);
            }
            self.absorb(name, list);
            proof {
                use_type_invariant(&*self);
                let now = self@;
                let done = b.labels.skip(k - 1);
                let was = b.labels.skip(k as int);
                assert(done =~= seq![b.labels[k - 1]] + was);
                assert forall|l: Seq<char>| done.contains(l) <==> (l == name@ || was.contains(l)) by {
                    if done.contains(l) {
                        let x = choose|x: int| 0 <= x < done.len() && done[x] == l;
                        if x > 0 {
                            assert(was[x - 1] == l);
                        }
                    }
                    if was.contains(l) {
                        let x = choose|x: int| 0 <= x < was.len() && was[x] == l;
                        assert(done[x + 1] == l);
                    }
                    if l == name@ {
                        assert(done[0] == l);
                    }
                }
                assert(!was.contains(name@)) by {
                    if was.contains(name@) {
                        let x = choose|x: int| 0 <= x < was.len() && was[x] == name@;
                        lemma_index_unique(b.labels, k - 1, k + x);
                    }
                }
                assert forall|l: Seq<char>| #[trigger]
                    now.samples(l) == a.samples(l) + if done.contains(l) {
                        b.samples(l)
                    } else {
                        Seq::<u64>::empty()
                    } by {
                    assert(before.samples(l) == a.samples(l) + if was.contains(l) {
                        b.samples(l)
                    } else {
                        Seq::<u64>::empty()
                    });
                    if l == name@ {
                        assert(a.samples(l) + Seq::<u64>::empty() + list@ =~= a.samples(l) + list@);
                    }
                }
                assert forall|l: Seq<char>| #[trigger]
                    now.labels.contains(l) <==> (a.labels.contains(l) || done.contains(l)) by {
                    assert(before.labels.contains(l) <==> (a.labels.contains(l) || was.contains(l)));
                    assert(insert_key(before.labels, name@).contains(l) <==> (before.labels.contains(l)
                        || l == name@));
                }
            }
            k = k - 1;
        }
        proof {
            use_type_invariant(&*self);
            assert(b.labels.skip(0) =~= b.labels);
            assert(b.lists.take(0) =~= Seq::<Seq<u64>>::empty());
        }
        let merged = self.merged + other_merged;
        let total_us = if self.total_us >= other_us {
            self.total_us
        } else {
            other_us
        };
        proof {
            let now = self@;
            let m = a.merge(b);
            assert forall|l: Seq<char>| now.labels.contains(l) <==> m.labels.contains(l) by {
                assert(now.labels.contains(l) <==> (a.labels.contains(l) || b.labels.contains(l)));
                assert(m.labels.contains(l) <==> (a.labels.contains(l) || b.labels.contains(l)));
            }
            lemma_ascending_unique(now.labels, m.labels);
            assert forall|i: int| 0 <= i < now.lists.len() implies now.lists[i] == m.lists[i] by {
                let l = now.labels[i];
                lemma_count_below_at(now.labels, i);
                assert(now.samples(l) == now.lists[i]);
                lemma_contains_at(b.labels, l);
                if !b.labels.contains(l) {
                    assert(b.samples(l) =~= Seq::<u64>::empty());
                }
                assert(m.lists[i] == a.samples(l) + b.samples(l));
            }
            assert(now.lists =~= m.lists);
        }
        self.merged = merged;
        self.total_us = total_us;
    }

    /// Marks the statistics as those of one driver that has ended, with the
    /// microseconds between the start of its first call and the end of its
    /// last.
    pub fn close(&mut self, span_us: u64)
        ensures
            final(self)@ == old(self)@.closed(span_us as nat),
    {
        proof {
            use_type_invariant(&*self);
        }
        self.merged = 1;
        self.total_us = span_us;
    }
}

/// A copy of `v`.
fn copy_of(v: &[u64]) -> (r: Vec<u64>)
    ensures
        r@ == v@,
{
    let mut r: Vec<u64> = Vec::new();
    let mut i: usize = 0;
    while i < v.len()
        invariant
            i <= v.len(),
            r@ == v@.take(i as int),
        decreases v.len() - i,
    {
        r.push(v[i]);
        assert(v@.take(i + 1) =~= v@.take(i as int).push(v@[i as int]));
        i = i + 1;
    }
    assert(v@.take(i as int) =~= v@);
    r
}

/// The first lists hold at most as many samples as all of them.
pub proof fn lemma_sum_lens_prefix(lists: Seq<Seq<u64>>, k: int)
    requires
        0 <= k <= lists.len(),
    ensures
        sum_lens(lists.take(k)) <= sum_lens(lists),
    decreases lists.len(),
{
    if k < lists.len() {
        assert(lists.drop_last().take(k) =~= lists.take(k));
        lemma_sum_lens_prefix(lists.drop_last(), k);
    } else {
        assert(lists.take(k) =~= lists);
    }
}

} // verus!
