//! The aggregation stage: pending batches per destination, and the rule
//! that decides when they are flushed.

use crate::metric::{AggregatedMetric, BatchView, Metric, MetricView};
use vstd::prelude::*;

verus! {

/// When pending batches are flushed.
#[derive(Clone, Copy, Debug, PartialEq, Eq, Structural)]
pub enum FlushPolicy {
    /// On every timer tick, and only then.
    TimeOnly,
    /// On every timer tick, and as soon as the records gathered since the
    /// last flush number `threshold`.
    TimeOrCount { threshold: usize },
}

/// What the aggregation stage can wake up to.
#[derive(Debug)]
pub enum AggregatorEvent {
    /// The flush timer elapsed.
    Tick,
    /// A record arrived.
    Record(Metric),
    /// The ingestion side reported that it is closed.
    Closed,
}

/// What an event holds.
pub enum EventView {
    Tick,
    Record(MetricView),
    Closed,
}

impl View for AggregatorEvent {
    type V = EventView;

    open spec fn view(&self) -> EventView {
        match self {
            AggregatorEvent::Tick => EventView::Tick,
            AggregatorEvent::Record(m) => EventView::Record(m@),
            AggregatorEvent::Closed => EventView::Closed,
        }
    }
}

/// What the batches of `v` hold.
pub open spec fn batch_views(v: Seq<AggregatedMetric>) -> Seq<BatchView> {
    v.map_values(|b: AggregatedMetric| b@)
}

/// Two entries gather for one destination: bucket and organization agree
/// exactly.
pub open spec fn same_destination(a: BatchView, b: BatchView) -> bool {
    a.bucket == b.bucket && a.org == b.org
}

/// Entry `i` of `pending` gathers for `(bucket, org)`.
pub open spec fn holds(pending: Seq<BatchView>, i: int, bucket: Seq<char>, org: Seq<char>) -> bool {
    0 <= i < pending.len() && pending[i].bucket == bucket && pending[i].org == org
}

/// Some entry of `pending` gathers for `(bucket, org)`.
pub open spec fn has_destination(pending: Seq<BatchView>, bucket: Seq<char>, org: Seq<char>) -> bool {
    exists|i: int| holds(pending, i, bucket, org)
}

/// The place of the entry for `(bucket, org)`, where there is one.
pub open spec fn index_of(pending: Seq<BatchView>, bucket: Seq<char>, org: Seq<char>) -> int {
    choose|i: int| holds(pending, i, bucket, org)
}

/// The payloads pending for `(bucket, org)`, in arrival order; none where
/// the destination has no entry.
pub open spec fn pending_for(pending: Seq<BatchView>, bucket: Seq<char>, org: Seq<char>) -> Seq<
    Seq<char>,
> {
    if has_destination(pending, bucket, org) {
        pending[index_of(pending, bucket, org)].data
    } else {
        Seq::empty()
    }
}

/// Every entry holds at least one payload, and no two entries share a
/// destination.
pub open spec fn well_formed(pending: Seq<BatchView>) -> bool {
    &&& forall|i: int| 0 <= i < pending.len() ==> (#[trigger] pending[i]).data.len() > 0
    &&& forall|i: int, j: int|
        0 <= i < j < pending.len() ==> !same_destination(#[trigger] pending[i], #[trigger] pending[j])
}

/// Number of payloads over all entries.
pub open spec fn total(pending: Seq<BatchView>) -> nat
    decreases pending.len(),
{
    if pending.len() == 0 {
        0
    } else {
        total(pending.drop_last()) + pending.last().data.len()
    }
}

/// `pending` after record `m` arrived: its payload stands last in the entry
/// of its destination, which is added at the end if it was missing.
pub open spec fn insert(pending: Seq<BatchView>, m: MetricView) -> Seq<BatchView> {
    if has_destination(pending, m.bucket, m.org) {
        let i = index_of(pending, m.bucket, m.org);
        pending.update(i, BatchView { data: pending[i].data.push(m.data), ..pending[i] })
    } else {
        pending.push(BatchView { org: m.org, bucket: m.bucket, data: seq![m.data] })
    }
}

/// Whether `count` gathered records call for a flush by themselves.
pub open spec fn reaches(policy: FlushPolicy, count: nat) -> bool {
    match policy {
        FlushPolicy::TimeOnly => false,
        FlushPolicy::TimeOrCount { threshold } => count >= threshold,
    }
}

/// `pending` with the record of `event`, if it brings one.
pub open spec fn gathered(pending: Seq<BatchView>, event: EventView) -> Seq<BatchView> {
    match event {
        EventView::Record(m) => insert(pending, m),
        _ => pending,
    }
}

/// Whether `event` ends in a flush.
pub open spec fn flushes(policy: FlushPolicy, pending: Seq<BatchView>, event: EventView) -> bool {
    match event {
        EventView::Tick => true,
        EventView::Record(_) => reaches(policy, total(pending) + 1),
        EventView::Closed => false,
    }
}

/// The batches handed on after `event`.
pub open spec fn emitted(policy: FlushPolicy, pending: Seq<BatchView>, event: EventView) -> Seq<
    BatchView,
> {
    if flushes(policy, pending, event) {
        gathered(pending, event)
    } else {
        Seq::empty()
    }
}

/// What stays pending after `event`.
pub open spec fn pending_after(
    policy: FlushPolicy,
    pending: Seq<BatchView>,
    event: EventView,
) -> Seq<BatchView> {
    if flushes(policy, pending, event) {
        Seq::empty()
    } else {
        gathered(pending, event)
    }
}

/// Among well-formed entries a destination has one place.
pub proof fn lemma_index_unique(pending: Seq<BatchView>, i: int, bucket: Seq<char>, org: Seq<char>)
    requires
        well_formed(pending),
        holds(pending, i, bucket, org),
    ensures
        has_destination(pending, bucket, org),
        index_of(pending, bucket, org) == i,
        pending_for(pending, bucket, org) == pending[i].data,
{
    let j = index_of(pending, bucket, org);
    assert(holds(pending, j, bucket, org));
    if i < j {
        assert(!same_destination(pending[i], pending[j]));
    } else if j < i {
        assert(!same_destination(pending[j], pending[i]));
    }
}

proof fn lemma_total_push(pending: Seq<BatchView>, b: BatchView)
    ensures
        total(pending.push(b)) == total(pending) + b.data.len(),
{
    assert(pending.push(b).drop_last() =~= pending);
}

proof fn lemma_total_update(pending: Seq<BatchView>, i: int, b: BatchView)
    requires
        0 <= i < pending.len(),
    ensures
        total(pending.update(i, b)) + pending[i].data.len() == total(pending) + b.data.len(),
    decreases pending.len(),
{
    let after = pending.update(i, b);
    if i == pending.len() - 1 {
        assert(after.drop_last() =~= pending.drop_last());
    } else {
        lemma_total_update(pending.drop_last(), i, b);
        assert(after.drop_last() =~= pending.drop_last().update(i, b));
    }
}

/// An arrival keeps the entries well formed and adds one payload.
pub proof fn lemma_insert_well_formed(pending: Seq<BatchView>, m: MetricView)
    requires
        well_formed(pending),
    ensures
        well_formed(insert(pending, m)),
        total(insert(pending, m)) == total(pending) + 1,
        insert(pending, m).len() > 0,
{
    let after = insert(pending, m);
    if has_destination(pending, m.bucket, m.org) {
        let i = index_of(pending, m.bucket, m.org);
        assert(holds(pending, i, m.bucket, m.org));
        lemma_total_update(pending, i, after[i]);
        assert forall|a: int, b: int| 0 <= a < b < after.len() implies !same_destination(
            #[trigger] after[a],
            #[trigger] after[b],
        ) by {
            assert(!same_destination(pending[a], pending[b]));
        }
    } else {
        lemma_total_push(pending, after.last());
        assert forall|a: int, b: int| 0 <= a < b < after.len() implies !same_destination(
            #[trigger] after[a],
            #[trigger] after[b],
        ) by {
            if b < pending.len() {
                assert(!same_destination(pending[a], pending[b]));
            } else {
                assert(!holds(pending, a, m.bucket, m.org));
            }
        }
    }
}

/// Whatever the event, well-formed entries stay well formed, and what is
/// handed on is well formed too: no batch is empty, no destination comes
/// twice.
pub proof fn lemma_emitted_well_formed(policy: FlushPolicy, pending: Seq<BatchView>, event: EventView)
    requires
        well_formed(pending),
    ensures
        well_formed(emitted(policy, pending, event)),
        well_formed(pending_after(policy, pending, event)),
{
    if let EventView::Record(m) = event {
        lemma_insert_well_formed(pending, m);
    }
}

/// An arrival for a destination lands behind what is pending for that
/// destination and leaves every other destination as it was.
pub proof fn lemma_insert_pending_for(
    pending: Seq<BatchView>,
    m: MetricView,
    bucket: Seq<char>,
    org: Seq<char>,
)
    requires
        well_formed(pending),
    ensures
        pending_for(insert(pending, m), bucket, org) == if bucket == m.bucket && org == m.org {
            pending_for(pending, bucket, org).push(m.data)
        } else {
            pending_for(pending, bucket, org)
        },
{
    let after = insert(pending, m);
    lemma_insert_well_formed(pending, m);
    let at = if has_destination(pending, m.bucket, m.org) {
        index_of(pending, m.bucket, m.org)
    } else {
        pending.len() as int
    };
    if has_destination(pending, m.bucket, m.org) {
        assert(holds(pending, at, m.bucket, m.org));
    }
    assert(holds(after, at, m.bucket, m.org));
    if bucket == m.bucket && org == m.org {
        lemma_index_unique(after, at, bucket, org);
    } else if has_destination(pending, bucket, org) {
        let j = index_of(pending, bucket, org);
        assert(holds(pending, j, bucket, org));
        assert(holds(after, j, bucket, org));
        lemma_index_unique(after, j, bucket, org);
    } else {
        if has_destination(after, bucket, org) {
            let j = index_of(after, bucket, org);
            assert(holds(after, j, bucket, org));
            assert(holds(pending, j, bucket, org));
        }
    }
}

/// `pending` after the records of `records` arrived in order, with no flush
/// in between.
pub open spec fn insert_all(pending: Seq<BatchView>, records: Seq<MetricView>) -> Seq<BatchView>
    decreases records.len(),
{
    if records.len() == 0 {
        pending
    } else {
        insert(insert_all(pending, records.drop_last()), records.last())
    }
}

/// The payloads of those of `records` that are bound for `(bucket, org)`,
/// in order.
pub open spec fn payloads_for(records: Seq<MetricView>, bucket: Seq<char>, org: Seq<char>) -> Seq<
    Seq<char>,
>
    decreases records.len(),
{
    if records.len() == 0 {
        Seq::empty()
    } else {
        let before = payloads_for(records.drop_last(), bucket, org);
        if records.last().bucket == bucket && records.last().org == org {
            before.push(records.last().data)
        } else {
            before
        }
    }
}

/// The payloads of `records`, in order.
pub open spec fn payloads(records: Seq<MetricView>) -> Seq<Seq<char>> {
    records.map_values(|m: MetricView| m.data)
}

/// The arrivals of `records`, in order, as events.
pub open spec fn arrivals(records: Seq<MetricView>) -> Seq<EventView> {
    records.map_values(|m: MetricView| EventView::Record(m))
}

/// Where a run of events ends: what is pending, and every batch handed on
/// along the way, in order.
pub struct Run {
    pub pending: Seq<BatchView>,
    pub batches: Seq<BatchView>,
}

/// The stage's run over `events`, begun with `pending`.
pub open spec fn run(policy: FlushPolicy, pending: Seq<BatchView>, events: Seq<EventView>) -> Run
    decreases events.len(),
{
    if events.len() == 0 {
        Run { pending, batches: Seq::empty() }
    } else {
        let before = run(policy, pending, events.drop_last());
        Run {
            pending: pending_after(policy, before.pending, events.last()),
            batches: before.batches + emitted(policy, before.pending, events.last()),
        }
    }
}

/// Grouping by destination: however the arrivals for different
/// destinations interleave, what is pending for one destination is what was
/// pending for it before, followed by the payloads bound for it, in arrival
/// order.
pub proof fn lemma_grouping(
    pending: Seq<BatchView>,
    records: Seq<MetricView>,
    bucket: Seq<char>,
    org: Seq<char>,
)
    requires
        well_formed(pending),
    ensures
        well_formed(insert_all(pending, records)),
        total(insert_all(pending, records)) == total(pending) + records.len(),
        pending_for(insert_all(pending, records), bucket, org) == pending_for(pending, bucket, org)
            + payloads_for(records, bucket, org),
    decreases records.len(),
{
    if records.len() == 0 {
        assert(pending_for(pending, bucket, org) + Seq::<Seq<char>>::empty() =~= pending_for(
            pending,
            bucket,
            org,
        ));
    } else {
        let before = insert_all(pending, records.drop_last());
        lemma_grouping(pending, records.drop_last(), bucket, org);
        lemma_insert_well_formed(before, records.last());
        lemma_insert_pending_for(before, records.last(), bucket, org);
        let kept = pending_for(pending, bucket, org);
        let earlier = payloads_for(records.drop_last(), bucket, org);
        assert((kept + earlier).push(records.last().data) =~= kept + earlier.push(
            records.last().data,
        ));
    }
}

/// Records that all go to one destination, arriving with nothing pending,
/// make one entry, which holds their payloads in arrival order.
pub proof fn lemma_single_destination(records: Seq<MetricView>, bucket: Seq<char>, org: Seq<char>)
    requires
        records.len() > 0,
        forall|i: int|
            0 <= i < records.len() ==> (#[trigger] records[i]).bucket == bucket && records[i].org
                == org,
    ensures
        insert_all(Seq::empty(), records) == seq![
            BatchView { org, bucket, data: payloads(records) },
        ],
    decreases records.len(),
{
    let nothing = Seq::<BatchView>::empty();
    let m = records.last();
    let earlier = records.drop_last();
    if records.len() == 1 {
        assert(insert_all(nothing, earlier) == nothing);
        assert(!has_destination(nothing, bucket, org));
        assert(payloads(records) =~= seq![m.data]);
        assert(insert(nothing, m) =~= seq![BatchView { org, bucket, data: payloads(records) }]);
    } else {
        lemma_single_destination(earlier, bucket, org);
        let before = insert_all(nothing, earlier);
        lemma_grouping(nothing, earlier, bucket, org);
        assert(holds(before, 0, bucket, org));
        lemma_index_unique(before, 0, bucket, org);
        assert(payloads(earlier).push(m.data) =~= payloads(records));
        assert(insert(before, m) =~= seq![BatchView { org, bucket, data: payloads(records) }]);
    }
}

/// The count trigger: with nothing pending at the start and no timer tick,
/// arrivals fewer than the threshold hand on nothing and all stay pending;
/// the arrival that makes the threshold hands on everything gathered, and
/// nothing stays pending.
pub proof fn lemma_count_flush(threshold: usize, records: Seq<MetricView>)
    requires
        0 < threshold,
        records.len() <= threshold,
    ensures
        ({
            let end = run(FlushPolicy::TimeOrCount { threshold }, Seq::empty(), arrivals(records));
            let gathered = insert_all(Seq::empty(), records);
            if records.len() < threshold {
                end.batches == Seq::<BatchView>::empty() && end.pending == gathered
            } else {
                end.batches == gathered && end.pending == Seq::<BatchView>::empty()
            }
        }),
        total(insert_all(Seq::empty(), records)) == records.len(),
    decreases records.len(),
{
    let nothing = Seq::<BatchView>::empty();
    lemma_grouping(nothing, records, Seq::empty(), Seq::empty());
    if records.len() > 0 {
        let earlier = records.drop_last();
        lemma_count_flush(threshold, earlier);
        lemma_grouping(nothing, earlier, Seq::empty(), Seq::empty());
        assert(arrivals(records).drop_last() =~= arrivals(earlier));
        assert(arrivals(records).last() == EventView::Record(records.last()));
        let policy = FlushPolicy::TimeOrCount { threshold };
        let before = run(policy, nothing, arrivals(earlier));
        assert(before.batches + emitted(policy, before.pending, arrivals(records).last())
            =~= emitted(policy, before.pending, arrivals(records).last()));
    }
}

/// Under the time-only policy arrivals alone hand on nothing, however many
/// they are: all stay pending.
pub proof fn lemma_time_only(pending: Seq<BatchView>, records: Seq<MetricView>)
    ensures
        run(FlushPolicy::TimeOnly, pending, arrivals(records)) == (Run {
            pending: insert_all(pending, records),
            batches: Seq::empty(),
        }),
    decreases records.len(),
{
    if records.len() > 0 {
        let earlier = records.drop_last();
        lemma_time_only(pending, earlier);
        assert(arrivals(records).drop_last() =~= arrivals(earlier));
        assert(arrivals(records).last() == EventView::Record(records.last()));
        assert(Seq::<BatchView>::empty() + Seq::<BatchView>::empty() =~= Seq::<BatchView>::empty());
    }
}

/// The time trigger: a tick hands on exactly what is pending, so with
/// nothing pending it hands on nothing, and it never hands on an empty
/// batch.
pub proof fn lemma_tick(policy: FlushPolicy, pending: Seq<BatchView>)
    requires
        well_formed(pending),
    ensures
        emitted(policy, pending, EventView::Tick) == pending,
        pending_after(policy, pending, EventView::Tick) == Seq::<BatchView>::empty(),
        pending.len() == 0 ==> emitted(policy, pending, EventView::Tick).len() == 0,
        forall|i: int|
            0 <= i < pending.len() ==> (#[trigger] emitted(
                policy,
                pending,
                EventView::Tick,
            )[i]).data.len() > 0,
{
}

/// The aggregation stage's state: the pending batches, one per destination
/// in order of first arrival, and the number of records gathered since the
/// last flush.
#[derive(Debug)]
pub struct Aggregator {
    policy: FlushPolicy,
    pending: Vec<AggregatedMetric>,
    count: usize,
}

impl View for Aggregator {
    type V = Seq<BatchView>;

    closed spec fn view(&self) -> Seq<BatchView> {
        batch_views(self.pending@)
    }
}

impl Aggregator {
    /// The policy the stage was made with.
    pub closed spec fn flush_policy(&self) -> FlushPolicy {
        self.policy
    }

    /// The pending entries are well formed, and the running count is the
    /// number of pending payloads, as far as a `usize` can hold it.
    pub closed spec fn wf(&self) -> bool {
        &&& well_formed(self@)
        &&& self.count == if total(self@) <= usize::MAX {
            total(self@)
        } else {
            usize::MAX as nat
        }
    }

    /// A valid stage keeps well-formed entries.
    pub proof fn lemma_wf(&self)
        requires
            self.wf(),
        ensures
            well_formed(self@),
    {
    }

    /// A stage with nothing pending.
    pub fn new(policy: FlushPolicy) -> (out: Aggregator)
        ensures
            out.wf(),
            out@ == Seq::<BatchView>::empty(),
            out.flush_policy() == policy,
    {
        let out = Aggregator { policy, pending: Vec::new(), count: 0 };
        assert(out@ =~= Seq::<BatchView>::empty());
        out
    }

    pub fn policy(&self) -> (out: FlushPolicy)
        ensures
            out == self.flush_policy(),
    {
        self.policy
    }

    /// Records gathered since the last flush, capped at `usize::MAX`.
    pub fn count(&self) -> (out: usize)
        requires
            self.wf(),
        ensures
            out == if total(self@) <= usize::MAX {
                total(self@)
            } else {
                usize::MAX as nat
            },
    {
        self.count
    }

    /// Number of destinations with pending payloads.
    pub fn destinations(&self) -> (out: usize)
        ensures
            out == self@.len(),
    {
        self.pending.len()
    }

    /// Where the entry for `(bucket, org)` stands, if there is one.
    fn find(&self, bucket: &String, org: &String) -> (out: Option<usize>)
        ensures
            match out {
                Some(i) => holds(self@, i as int, bucket@, org@),
                None => !has_destination(self@, bucket@, org@),
            },
    {
        let mut at: usize = 0;
        while at < self.pending.len()
            invariant
                at <= self.pending@.len(),
                forall|i: int| 0 <= i < at ==> !holds(self@, i, bucket@, org@),
            decreases self.pending@.len() - at,
        {
            if self.pending[at].is_for(bucket, org) {
                return Some(at);
            }
            at += 1;
        }
        None
    }

    /// Takes one record into the entry of its destination.
    fn gather(&mut self, metric: Metric)
        requires
            old(self).wf(),
        ensures
            final(self).wf(),
            final(self).flush_policy() == old(self).flush_policy(),
            final(self)@ == insert(old(self)@, metric@),
    {
        proof {
            lemma_insert_well_formed(self@, metric@);
        }
        let (data, org, bucket) = metric.into_parts();
        match self.find(&bucket, &org) {
            Some(i) => {
                proof {
                    lemma_index_unique(self@, i as int, bucket@, org@);
                }
                self.pending[i].push(data);
            },
            None => {
                let mut payloads: Vec<String> = Vec::new();
                payloads.push(data);
                assert(crate::text::texts(payloads@) =~= seq![data@]);
                self.pending.push(AggregatedMetric::new(org, bucket, payloads));
            },
        }
        if self.count < usize::MAX {
            self.count += 1;
        }
        assert(self@ =~= insert(old(self)@, metric@));
    }

    /// Whether the running count calls for a flush by itself.
    fn due(&self) -> (out: bool)
        requires
            self.wf(),
        ensures
            out == reaches(self.flush_policy(), total(self@)),
    {
        match self.policy {
            FlushPolicy::TimeOnly => false,
            FlushPolicy::TimeOrCount { threshold } => self.count >= threshold,
        }
    }

    /// Hands out everything that is pending and starts afresh.
    fn flush(&mut self) -> (out: Vec<AggregatedMetric>)
        ensures
            final(self).wf(),
            final(self).flush_policy() == old(self).flush_policy(),
            final(self)@ == Seq::<BatchView>::empty(),
            batch_views(out@) == old(self)@,
    {
        let mut out: Vec<AggregatedMetric> = Vec::new();
        std::mem::swap(&mut self.pending, &mut out);
        self.count = 0;
        assert(self@ =~= Seq::<BatchView>::empty());
        out
    }

    /// Reacts to one event. A record is appended to the entry of its
    /// destination. A timer tick, or a record with which the running count
    /// reaches the threshold, flushes: every pending entry is handed out as
    /// a completed batch, in order of first arrival, and nothing stays
    /// pending. A closed ingestion side changes nothing.
    pub fn step(&mut self, event: AggregatorEvent) -> (out: Vec<AggregatedMetric>)
        requires
            old(self).wf(),
        ensures
            final(self).wf(),
            final(self).flush_policy() == old(self).flush_policy(),
            final(self)@ == pending_after(old(self).flush_policy(), old(self)@, event@),
            batch_views(out@) == emitted(old(self).flush_policy(), old(self)@, event@),
            forall|i: int| 0 <= i < out@.len() ==> (#[trigger] out@[i])@.data.len() > 0,
    {
        let out = match event {
            AggregatorEvent::Tick => self.flush(),
            AggregatorEvent::Record(metric) => {
                proof {
                    lemma_insert_well_formed(self@, metric@);
                }
                self.gather(metric);
                if self.due() {
                    self.flush()
                } else {
                    Vec::new()
                }
            },
            AggregatorEvent::Closed => Vec::new(),
        };
        proof {
            assert(batch_views(out@) =~= emitted(old(self).flush_policy(), old(self)@, event@));
            lemma_emitted_well_formed(old(self).flush_policy(), old(self)@, event@);
            assert forall|i: int| 0 <= i < out@.len() implies (#[trigger] out@[i])@.data.len()
                > 0 by {
                assert(batch_views(out@)[i] == out@[i]@);
            }
        }
        out
    }
}

} // verus!
