//! Logging of the events of arrangements.
//!
//! The operators that maintain arrangements report what they do: that a
//! batch was made, that batches were merged, that a batch was dropped, that
//! the number of readers of a trace changed. The handler of this module
//! turns each such event into updates of three logs: the number of batches
//! of each operator, the number of records of each operator, and the number
//! of times the trace of each operator is shared.
use vstd::prelude::*;
use std::collections::BTreeMap;
use crate::repr::datum::{Diff, Timestamp};

verus! {

/// A batch was made.
#[derive(Clone, Copy, Debug, PartialEq, Eq, Structural)]
pub struct BatchEvent {
    /// The operator that made the batch.
    pub operator: usize,
    /// The number of records of the batch.
    pub length: usize,
}

/// Two batches are merged, or were merged.
#[derive(Clone, Copy, Debug, PartialEq, Eq, Structural)]
pub struct MergeEvent {
    /// The operator that merges.
    pub operator: usize,
    /// The layer at which the merge happens.
    pub scale: usize,
    /// The number of records of the first batch.
    pub length1: usize,
    /// The number of records of the second batch.
    pub length2: usize,
    /// The number of records of the merged batch, where the merge is done.
    pub complete: Option<usize>,
}

/// A batch was dropped.
#[derive(Clone, Copy, Debug, PartialEq, Eq, Structural)]
pub struct DropEvent {
    /// The operator that dropped the batch.
    pub operator: usize,
    /// The number of records of the batch.
    pub length: usize,
}

/// The number of readers of a trace changed.
#[derive(Clone, Copy, Debug, PartialEq, Eq, Structural)]
pub struct TraceShare {
    /// The operator whose trace is shared.
    pub operator: usize,
    /// The change of the number of readers.
    pub diff: isize,
}

/// An event of an arrangement.
#[derive(Clone, Copy, Debug, PartialEq, Eq, Structural)]
pub enum DifferentialEvent {
    /// A batch was made.
    Batch(BatchEvent),
    /// Two batches are merged, or were merged.
    Merge(MergeEvent),
    /// A batch was dropped.
    Drop(DropEvent),
    /// The number of readers of a trace changed.
    TraceShare(TraceShare),
    /// An event that the logs take no note of.
    Other,
}

/// An update of a log of operators.
pub type LogUpdate = (usize, Timestamp, Diff);

/// An update of the log of shared traces.
pub type ShareUpdate = ((usize, ()), Timestamp, Diff);

/// State maintained by the handler between events.
#[derive(Debug)]
pub struct DemuxState {
    /// The number of readers of the trace of each operator.
    sharing: BTreeMap<usize, usize>,
}

impl View for DemuxState {
    type V = Map<usize, usize>;

    closed spec fn view(&self) -> Map<usize, usize> {
        self.sharing@
    }
}

impl DemuxState {
    /// The number of readers that the trace of `operator` is counted with.
    pub fn readers(&self, operator: usize) -> (n: usize)
        ensures
            n == spec_readers(self@, operator),
    {
        match self.sharing.get(&operator) {
            Some(count) => *count,
            None => 0,
        }
    }

    /// Whether the state counts only operators whose trace has a reader.
    pub open spec fn spec_wf(&self) -> bool {
        forall|op: usize| self@.contains_key(op) ==> #[trigger] self@[op] > 0
    }
}

impl Default for DemuxState {
    fn default() -> (s: DemuxState)
        ensures
            s@ == Map::<usize, usize>::empty(),
            s.spec_wf(),
    {
        DemuxState { sharing: BTreeMap::new() }
    }
}

/// What the handler has given out.
#[derive(Debug)]
pub struct DemuxOutput {
    /// Updates of the number of batches of each operator.
    pub batches: Vec<LogUpdate>,
    /// Updates of the number of records of each operator.
    pub records: Vec<LogUpdate>,
    /// Updates of the number of readers of each trace.
    pub sharing: Vec<ShareUpdate>,
    /// The operators whose arrangement size is to be measured anew.
    pub notified: Vec<usize>,
    /// The operators whose trace has lost its last reader.
    pub dropped: Vec<usize>,
}

impl DemuxOutput {
    /// An output to which nothing has been given.
    pub fn new() -> (o: DemuxOutput)
        ensures
            o.batches@.len() == 0,
            o.records@.len() == 0,
            o.sharing@.len() == 0,
            o.notified@.len() == 0,
            o.dropped@.len() == 0,
    {
        DemuxOutput {
            batches: Vec::new(),
            records: Vec::new(),
            sharing: Vec::new(),
            notified: Vec::new(),
            dropped: Vec::new(),
        }
    }
}

/// The time at which an event that happened at `time_ms` is logged: the
/// first multiple of the logging interval after it.
pub open spec fn spec_ts(time_ms: u128, interval: u128) -> int {
    (time_ms / interval + 1) * interval
}

/// The time at which an event is logged is a multiple of the logging
/// interval, lies after the event, and lies at most one interval after it.
pub proof fn lemma_ts_is_next_multiple(time_ms: u128, interval: u128)
    requires
        interval >= 1,
    ensures
        spec_ts(time_ms, interval) % (interval as int) == 0,
        time_ms < spec_ts(time_ms, interval) <= time_ms + interval,
{
    let q = (time_ms / interval) as int;
    let n = interval as int;
    let t = time_ms as int;
    assert(t == q * n + t % n) by {
        vstd::arithmetic::div_mod::lemma_fundamental_div_mod(t, n);
        assert(n * q == q * n) by (nonlinear_arith);
    }
    assert(0 <= t % n < n);
    assert((q + 1) * n == q * n + n) by (nonlinear_arith);
    assert(((q + 1) * n) % n == 0) by {
        vstd::arithmetic::div_mod::lemma_mod_multiples_basic(q + 1, n);
    }
}

/// The number of readers that a trace has after a change of `diff`, where
/// it had `current`.
pub open spec fn spec_shared(current: usize, diff: isize) -> int {
    current + diff
}

/// The count of readers of each trace after the number of readers of the
/// trace of `operator` has changed by `diff`. A trace without readers is
/// not counted.
pub open spec fn spec_share(sharing: Map<usize, usize>, operator: usize, diff: isize) -> Map<
    usize,
    usize,
> {
    let current = if sharing.contains_key(operator) {
        sharing[operator]
    } else {
        0
    };
    if spec_shared(current, diff) == 0 {
        sharing.remove(operator)
    } else {
        sharing.insert(operator, spec_shared(current, diff) as usize)
    }
}

/// The number of readers that the trace of `operator` is counted with.
pub open spec fn spec_readers(sharing: Map<usize, usize>, operator: usize) -> usize {
    if sharing.contains_key(operator) {
        sharing[operator]
    } else {
        0
    }
}

/// Reports whether a length can be counted as a multiplicity.
pub fn counts(length: usize) -> (b: bool)
    ensures
        b == (length <= i64::MAX),
{
    length as u128 <= 0x7fff_ffff_ffff_ffff
}

/// Event handler of the demux operator.
pub struct DemuxHandler<'a> {
    /// State kept between events.
    pub state: &'a mut DemuxState,
    /// What the handler gives out.
    pub output: &'a mut DemuxOutput,
    /// The logging interval, which is the granularity of the times of the
    /// updates, in milliseconds.
    pub logging_interval_ms: u128,
    /// The time of the current event, in milliseconds.
    pub time_ms: u128,
    /// Whether the sharing of traces is reported to the compute logger.
    pub compute_logging: bool,
}

impl DemuxHandler<'_> {
    /// Whether the time of the current event can be logged: the logging
    /// interval is positive, and the first multiple of it after the event is
    /// a timestamp.
    pub open spec fn spec_timed(&self) -> bool {
        self.logging_interval_ms >= 1 && spec_ts(self.time_ms, self.logging_interval_ms)
            <= u64::MAX
    }

    /// Whether the handler can handle `event`. Where the event is logged,
    /// its time must be one that can be logged, and the lengths that it
    /// reports must be countable as multiplicities; where the readers of a
    /// trace are counted, their number must stay countable. A merge that is
    /// not done and an event that the logs take no note of can always be
    /// handled.
    pub open spec fn spec_handles(&self, event: DifferentialEvent) -> bool {
        match event {
            DifferentialEvent::Batch(e) => self.spec_timed() && e.length <= i64::MAX,
            DifferentialEvent::Merge(e) => e.complete matches Some(done) ==> self.spec_timed()
                && done <= i64::MAX && e.length1 + e.length2 <= i64::MAX && e.length1 + e.length2
                <= usize::MAX,
            DifferentialEvent::Drop(e) => self.spec_timed() && e.length <= i64::MAX,
            DifferentialEvent::TraceShare(e) => self.spec_timed() && (self.compute_logging ==> {
                &&& spec_readers(self.state@, e.operator) <= i64::MAX
                &&& 0 <= spec_shared(spec_readers(self.state@, e.operator), e.diff) <= usize::MAX
                &&& spec_shared(spec_readers(self.state@, e.operator), e.diff) <= i64::MAX
            }),
            DifferentialEvent::Other => true,
        }
    }

    /// Reports whether the time of the current event can be logged.
    pub fn timed(&self) -> (b: bool)
        ensures
            b == self.spec_timed(),
    {
        let interval = self.logging_interval_ms;
        if interval < 1 {
            return false;
        }
        let whole = self.time_ms / interval;
        if whole >= 0xffff_ffff_ffff_ffff {
            assert((whole + 1) * interval > u64::MAX) by (nonlinear_arith)
                requires
                    whole >= 0xffff_ffff_ffff_ffff,
                    interval >= 1,
            ;
            return false;
        }
        if interval > 0xffff_ffff_ffff_ffff {
            assert((whole + 1) * interval > u64::MAX) by (nonlinear_arith)
                requires
                    whole >= 0,
                    interval > 0xffff_ffff_ffff_ffff,
            ;
            return false;
        }
        assert((whole + 1) * interval <= 0xffff_ffff_ffff_fffe_0000_0000_0000_0001)
            by (nonlinear_arith)
            requires
                0 <= whole < 0xffff_ffff_ffff_ffff,
                1 <= interval <= 0xffff_ffff_ffff_ffff,
        ;
        (whole + 1) * interval <= 0xffff_ffff_ffff_ffff
    }

    /// Reports whether the handler can handle `event`: whether
    /// [`DemuxHandler::handle`] may be called with it.
    pub fn handles(&self, event: DifferentialEvent) -> (b: bool)
        ensures
            b == self.spec_handles(event),
    {
        match event {
            DifferentialEvent::Batch(e) => self.timed() && counts(e.length),
            DifferentialEvent::Merge(e) => match e.complete {
                None => true,
                Some(done) => self.timed() && counts(done) && match e.length1.checked_add(
                    e.length2,
                ) {
                    None => false,
                    Some(sum) => counts(sum),
                },
            },
            DifferentialEvent::Drop(e) => self.timed() && counts(e.length),
            DifferentialEvent::TraceShare(e) => {
                if !self.timed() {
                    return false;
                }
                if !self.compute_logging {
                    return true;
                }
                let readers = self.state.readers(e.operator);
                if !counts(readers) {
                    return false;
                }
                let shared: i128 = readers as i128 + e.diff as i128;
                0 <= shared && shared <= 0x7fff_ffff_ffff_ffff && shared <= usize::MAX as i128
            },
            DifferentialEvent::Other => true,
        }
    }

    /// Return the timestamp associated with the current event, based on the
    /// event time and the logging interval.
    pub fn ts(&self) -> (t: Timestamp)
        requires
            self.spec_timed(),
        ensures
            t == spec_ts(self.time_ms, self.logging_interval_ms),
    {
        let time_ms = self.time_ms;
        let interval = self.logging_interval_ms;
        proof {
            lemma_ts_is_next_multiple(time_ms, interval);
            assert((time_ms / interval + 1) >= 1);
            assert((time_ms / interval + 1) <= (time_ms / interval + 1) * interval)
                by (nonlinear_arith)
                requires
                    interval >= 1,
                    time_ms / interval + 1 >= 1,
            ;
        }
        let rounded: u128 = (time_ms / interval + 1) * interval;
        rounded as u64
    }

    /// Handle the given differential event.
    pub fn handle(&mut self, event: DifferentialEvent)
        requires
            old(self).spec_handles(event),
            old(self).state.spec_wf(),
        ensures
            final(self).logging_interval_ms == old(self).logging_interval_ms,
            final(self).time_ms == old(self).time_ms,
            final(self).compute_logging == old(self).compute_logging,
            final(self).state.spec_wf(),
            match event {
                DifferentialEvent::Batch(e) => spec_batch_handled(old(self), final(self), e),
                DifferentialEvent::Merge(e) => spec_merge_handled(old(self), final(self), e),
                DifferentialEvent::Drop(e) => spec_drop_handled(old(self), final(self), e),
                DifferentialEvent::TraceShare(e) => spec_share_handled(old(self), final(self), e),
                DifferentialEvent::Other => spec_untouched(old(self), final(self)),
            },
    {
        match event {
            DifferentialEvent::Batch(e) => self.handle_batch(e),
            DifferentialEvent::Merge(e) => self.handle_merge(e),
            DifferentialEvent::Drop(e) => self.handle_drop(e),
            DifferentialEvent::TraceShare(e) => self.handle_trace_share(e),
            DifferentialEvent::Other => (),
        }
    }

    /// Handles the making of a batch: the operator has one batch more, and
    /// as many records more as the batch has.
    pub fn handle_batch(&mut self, event: BatchEvent)
        requires
            old(self).spec_handles(DifferentialEvent::Batch(event)),
        ensures
            spec_batch_handled(old(self), final(self), event),
    {
        let ts = self.ts();
        let op = event.operator;
        self.output.batches.push((op, ts, 1));
        let diff = event.length as Diff;
        self.output.records.push((op, ts, diff));
        self.notify_arrangement_size(op);
    }

    /// Handles a merge. A merge that is not done is passed over. For one
    /// that is done, the operator has one batch less, and its number of
    /// records changes by what the merge saved.
    pub fn handle_merge(&mut self, event: MergeEvent)
        requires
            old(self).spec_handles(DifferentialEvent::Merge(event)),
        ensures
            spec_merge_handled(old(self), final(self), event),
    {
        let done = match event.complete {
            Some(done) => done,
            None => {
                return ;
            },
        };
        let ts = self.ts();
        let op = event.operator;
        self.output.batches.push((op, ts, -1));
        let diff = done as Diff - (event.length1 + event.length2) as Diff;
        if diff != 0 {
            self.output.records.push((op, ts, diff));
        }
        self.notify_arrangement_size(op);
    }

    /// Handles the drop of a batch: the operator has one batch less, and as
    /// many records less as the batch had.
    pub fn handle_drop(&mut self, event: DropEvent)
        requires
            old(self).spec_handles(DifferentialEvent::Drop(event)),
        ensures
            spec_drop_handled(old(self), final(self), event),
    {
        let ts = self.ts();
        let op = event.operator;
        self.output.batches.push((op, ts, -1));
        let diff = -(event.length as Diff);
        if diff != 0 {
            self.output.records.push((op, ts, diff));
        }
        self.notify_arrangement_size(op);
    }

    /// Handles a change of the number of readers of a trace. The change is
    /// logged. Where sharing is reported to the compute logger, the readers
    /// of the trace are counted, and a trace that has lost its last reader
    /// is reported as dropped.
    pub fn handle_trace_share(&mut self, event: TraceShare)
        requires
            old(self).spec_handles(DifferentialEvent::TraceShare(event)),
            old(self).state.spec_wf(),
        ensures
            spec_share_handled(old(self), final(self), event),
            final(self).state.spec_wf(),
    {
        let ts = self.ts();
        let op = event.operator;
        let diff = event.diff as Diff;
        self.output.sharing.push(((op, ()), ts, diff));
        if self.compute_logging {
            let current: usize = match self.state.sharing.get(&op) {
                Some(count) => *count,
                None => 0,
            };
            let sharing = (current as i64 + diff) as usize;
            if sharing == 0 {
                let _ = self.state.sharing.remove(&op);
                self.output.dropped.push(op);
            } else {
                let _ = self.state.sharing.insert(op, sharing);
            }
        }
    }

    /// Asks for the size of the arrangement of `operator` to be measured
    /// anew.
    pub fn notify_arrangement_size(&mut self, operator: usize)
        ensures
            final(self).state == old(self).state,
            final(self).logging_interval_ms == old(self).logging_interval_ms,
            final(self).time_ms == old(self).time_ms,
            final(self).compute_logging == old(self).compute_logging,
            final(self).output.batches == old(self).output.batches,
            final(self).output.records == old(self).output.records,
            final(self).output.sharing == old(self).output.sharing,
            final(self).output.dropped == old(self).output.dropped,
            final(self).output.notified@ == old(self).output.notified@.push(operator),
    {
        self.output.notified.push(operator);
    }
}

/// Whether the handler is after an event as it was before it.
pub open spec fn spec_untouched(before: &DemuxHandler, after: &DemuxHandler) -> bool {
    &&& after.state@ == before.state@
    &&& after.logging_interval_ms == before.logging_interval_ms
    &&& after.time_ms == before.time_ms
    &&& after.compute_logging == before.compute_logging
    &&& after.output.batches@ == before.output.batches@
    &&& after.output.records@ == before.output.records@
    &&& after.output.sharing@ == before.output.sharing@
    &&& after.output.notified@ == before.output.notified@
    &&& after.output.dropped@ == before.output.dropped@
}

/// Whether the handler is after an event as it was before it, but for what
/// it has given out.
pub open spec fn spec_same_but_output(before: &DemuxHandler, after: &DemuxHandler) -> bool {
    &&& after.logging_interval_ms == before.logging_interval_ms
    &&& after.time_ms == before.time_ms
    &&& after.compute_logging == before.compute_logging
}

/// What handling the making of a batch comes to.
pub open spec fn spec_batch_handled(
    before: &DemuxHandler,
    after: &DemuxHandler,
    event: BatchEvent,
) -> bool {
    let ts = spec_ts(before.time_ms, before.logging_interval_ms) as Timestamp;
    &&& spec_same_but_output(before, after)
    &&& after.state@ == before.state@
    &&& after.output.batches@ == before.output.batches@.push((event.operator, ts, 1i64))
    &&& after.output.records@ == before.output.records@.push(
        (event.operator, ts, event.length as Diff),
    )
    &&& after.output.sharing@ == before.output.sharing@
    &&& after.output.notified@ == before.output.notified@.push(event.operator)
    &&& after.output.dropped@ == before.output.dropped@
}

/// What handling a merge comes to.
pub open spec fn spec_merge_handled(
    before: &DemuxHandler,
    after: &DemuxHandler,
    event: MergeEvent,
) -> bool {
    let ts = spec_ts(before.time_ms, before.logging_interval_ms) as Timestamp;
    match event.complete {
        None => spec_untouched(before, after),
        Some(done) => {
            let diff = done - (event.length1 + event.length2);
            &&& spec_same_but_output(before, after)
            &&& after.state@ == before.state@
            &&& after.output.batches@ == before.output.batches@.push(
                (event.operator, ts, -1i64),
            )
            &&& after.output.records@ == if diff != 0 {
                before.output.records@.push((event.operator, ts, diff as Diff))
            } else {
                before.output.records@
            }
            &&& after.output.sharing@ == before.output.sharing@
            &&& after.output.notified@ == before.output.notified@.push(event.operator)
            &&& after.output.dropped@ == before.output.dropped@
        },
    }
}

/// What handling the drop of a batch comes to.
pub open spec fn spec_drop_handled(
    before: &DemuxHandler,
    after: &DemuxHandler,
    event: DropEvent,
) -> bool {
    let ts = spec_ts(before.time_ms, before.logging_interval_ms) as Timestamp;
    &&& spec_same_but_output(before, after)
    &&& after.state@ == before.state@
    &&& after.output.batches@ == before.output.batches@.push((event.operator, ts, -1i64))
    &&& after.output.records@ == if event.length != 0 {
        before.output.records@.push((event.operator, ts, (-event.length) as Diff))
    } else {
        before.output.records@
    }
    &&& after.output.sharing@ == before.output.sharing@
    &&& after.output.notified@ == before.output.notified@.push(event.operator)
    &&& after.output.dropped@ == before.output.dropped@
}

/// What handling a change of the number of readers of a trace comes to.
pub open spec fn spec_share_handled(
    before: &DemuxHandler,
    after: &DemuxHandler,
    event: TraceShare,
) -> bool {
    let ts = spec_ts(before.time_ms, before.logging_interval_ms) as Timestamp;
    let readers = spec_shared(spec_readers(before.state@, event.operator), event.diff);
    &&& spec_same_but_output(before, after)
    &&& after.output.batches@ == before.output.batches@
    &&& after.output.records@ == before.output.records@
    &&& after.output.sharing@ == before.output.sharing@.push(
        ((event.operator, ()), ts, event.diff as Diff),
    )
    &&& after.output.notified@ == before.output.notified@
    &&& after.state@ == if before.compute_logging {
        spec_share(before.state@, event.operator, event.diff)
    } else {
        before.state@
    }
    &&& after.output.dropped@ == if before.compute_logging && readers == 0 {
        before.output.dropped@.push(event.operator)
    } else {
        before.output.dropped@
    }
}

} // verus!
