use delta_render::logging::differential::{
    BatchEvent, DemuxHandler, DemuxOutput, DemuxState, DifferentialEvent, DropEvent, MergeEvent,
    TraceShare,
};
use delta_render::plan::tree::GlobalId;
use delta_render::repr::datum::Datum;
use delta_render::repr::row::Row;
use delta_render::sink::copy_to_s3_oneshot::{assign_batch, batch_of, CopyToResponse, ResponseProtocol};
use differential_dataflow::Hashable;

fn handle(
    state: &mut DemuxState,
    output: &mut DemuxOutput,
    time_ms: u128,
    compute_logging: bool,
    event: DifferentialEvent,
) {
    let mut handler = DemuxHandler { state, output, logging_interval_ms: 1000, time_ms, compute_logging };
    handler.handle(event);
}

#[test]
fn events_are_logged_at_the_next_multiple_of_the_interval() {
    let mut state = DemuxState::default();
    let mut output = DemuxOutput::new();
    let ts = |time_ms, interval, state: &mut DemuxState, output: &mut DemuxOutput| {
        DemuxHandler { state, output, logging_interval_ms: interval, time_ms, compute_logging: false }.ts()
    };
    assert_eq!(ts(0, 1000, &mut state, &mut output), 1000);
    assert_eq!(ts(1, 1000, &mut state, &mut output), 1000);
    assert_eq!(ts(999, 1000, &mut state, &mut output), 1000);
    assert_eq!(ts(1000, 1000, &mut state, &mut output), 2000);
    assert_eq!(ts(1001, 1000, &mut state, &mut output), 2000);
    assert_eq!(ts(12345, 1, &mut state, &mut output), 12346);
    assert_eq!(ts(7, 3, &mut state, &mut output), 9);
}

#[test]
fn a_batch_adds_a_batch_and_its_records() {
    let mut state = DemuxState::default();
    let mut output = DemuxOutput::new();
    handle(&mut state, &mut output, 1500, false, DifferentialEvent::Batch(BatchEvent { operator: 7, length: 12 }));
    assert_eq!(output.batches, vec![(7, 2000, 1)]);
    assert_eq!(output.records, vec![(7, 2000, 12)]);
    assert!(output.sharing.is_empty());
    assert_eq!(output.notified, vec![7]);
    assert!(output.dropped.is_empty());
    // An empty batch is a batch, with a change of zero records.
    handle(&mut state, &mut output, 1500, false, DifferentialEvent::Batch(BatchEvent { operator: 8, length: 0 }));
    assert_eq!(output.batches, vec![(7, 2000, 1), (8, 2000, 1)]);
    assert_eq!(output.records, vec![(7, 2000, 12), (8, 2000, 0)]);
}

#[test]
fn a_finished_merge_takes_a_batch_and_what_it_saved() {
    let mut state = DemuxState::default();
    let mut output = DemuxOutput::new();
    let merge = |complete| {
        DifferentialEvent::Merge(MergeEvent { operator: 3, scale: 1, length1: 10, length2: 5, complete })
    };
    // A merge that has only begun is passed over.
    handle(&mut state, &mut output, 10, false, merge(None));
    assert!(output.batches.is_empty());
    assert!(output.records.is_empty());
    assert!(output.notified.is_empty());
    // 15 records went in and 11 came out.
    handle(&mut state, &mut output, 10, false, merge(Some(11)));
    assert_eq!(output.batches, vec![(3, 1000, -1)]);
    assert_eq!(output.records, vec![(3, 1000, -4)]);
    assert_eq!(output.notified, vec![3]);
    // Nothing was saved: no update of the records.
    handle(&mut state, &mut output, 10, false, merge(Some(15)));
    assert_eq!(output.batches, vec![(3, 1000, -1), (3, 1000, -1)]);
    assert_eq!(output.records, vec![(3, 1000, -4)]);
    assert_eq!(output.notified, vec![3, 3]);
}

#[test]
fn a_drop_takes_a_batch_and_its_records() {
    let mut state = DemuxState::default();
    let mut output = DemuxOutput::new();
    handle(&mut state, &mut output, 2000, false, DifferentialEvent::Drop(DropEvent { operator: 4, length: 9 }));
    handle(&mut state, &mut output, 2000, false, DifferentialEvent::Drop(DropEvent { operator: 4, length: 0 }));
    assert_eq!(output.batches, vec![(4, 3000, -1), (4, 3000, -1)]);
    assert_eq!(output.records, vec![(4, 3000, -9)]);
    assert_eq!(output.notified, vec![4, 4]);
}

#[test]
fn sharing_is_counted_until_the_last_reader_is_gone() {
    let mut state = DemuxState::default();
    let mut output = DemuxOutput::new();
    let share = |diff| DifferentialEvent::TraceShare(TraceShare { operator: 5, diff });
    handle(&mut state, &mut output, 0, true, share(2));
    handle(&mut state, &mut output, 0, true, share(-1));
    assert!(output.dropped.is_empty());
    handle(&mut state, &mut output, 0, true, share(-1));
    assert_eq!(output.dropped, vec![5]);
    assert_eq!(output.sharing, vec![((5, ()), 1000, 2), ((5, ()), 1000, -1), ((5, ()), 1000, -1)]);
    assert!(output.batches.is_empty());
    assert!(output.notified.is_empty());
    // A new reader starts the count again.
    handle(&mut state, &mut output, 0, true, share(1));
    handle(&mut state, &mut output, 0, true, share(-1));
    assert_eq!(output.dropped, vec![5, 5]);
}

#[test]
fn sharing_is_not_counted_without_a_compute_logger() {
    let mut state = DemuxState::default();
    let mut output = DemuxOutput::new();
    let share = |diff| DifferentialEvent::TraceShare(TraceShare { operator: 5, diff });
    handle(&mut state, &mut output, 0, false, share(1));
    handle(&mut state, &mut output, 0, false, share(-1));
    assert_eq!(output.sharing.len(), 2);
    assert!(output.dropped.is_empty());
}

#[test]
fn other_events_leave_no_trace() {
    let mut state = DemuxState::default();
    let mut output = DemuxOutput::new();
    handle(&mut state, &mut output, 0, true, DifferentialEvent::Other);
    assert!(output.batches.is_empty());
    assert!(output.records.is_empty());
    assert!(output.sharing.is_empty());
    assert!(output.notified.is_empty());
    assert!(output.dropped.is_empty());
}

#[test]
fn the_response_protocol_answers_once() {
    let id = GlobalId::User(9);
    let mut p = ResponseProtocol::new(id);
    assert_eq!(p.sink_id(), id);
    let (sink, response) = p.send(Ok(42));
    assert_eq!(sink, id);
    assert!(matches!(response, CopyToResponse::RowCount(42)));
    // A protocol that has answered says nothing when it is dropped.
    assert!(p.drop_response().is_none());

    let mut p = ResponseProtocol::new(id);
    let (_, response) = p.send(Err("no space".to_string()));
    assert!(matches!(response, CopyToResponse::Error(e) if e == "no space"));

    // A protocol that is dropped before it answered says so, once.
    let mut p = ResponseProtocol::new(GlobalId::Transient(1));
    let dropped = p.drop_response();
    assert!(matches!(dropped, Some((GlobalId::Transient(1), CopyToResponse::Dropped))));
    assert!(p.drop_response().is_none());
}

#[test]
fn rows_are_spread_over_the_batches_by_their_hash() {
    assert_eq!(batch_of(17, 5), 2);
    assert_eq!(batch_of(0, 5), 0);
    assert_eq!(batch_of(u64::MAX, 1), 0);
    assert_eq!(batch_of(4, 5), 4);
    for i in 0..50 {
        let row = Row::pack_slice(&[Datum::Int32(i), Datum::Null]);
        let batch = assign_batch(&row, 7);
        assert!(batch < 7);
        assert_eq!(batch, row.hashed() % 7);
        assert_eq!(assign_batch(&row, 1), 0);
    }
}

#[test]
fn the_handler_says_what_it_can_handle() {
    let mut state = DemuxState::default();
    let mut output = DemuxOutput::new();
    let batch = DifferentialEvent::Batch(BatchEvent { operator: 1, length: 2 });
    let pending = DifferentialEvent::Merge(MergeEvent { operator: 1, scale: 0, length1: 1, length2: 1, complete: None });
    let done = DifferentialEvent::Merge(MergeEvent { operator: 1, scale: 0, length1: 1, length2: 1, complete: Some(2) });
    let leave = DifferentialEvent::TraceShare(TraceShare { operator: 1, diff: -1 });
    let join = DifferentialEvent::TraceShare(TraceShare { operator: 1, diff: 1 });
    {
        let h = DemuxHandler { state: &mut state, output: &mut output, logging_interval_ms: 1000, time_ms: 5, compute_logging: true };
        assert!(h.timed());
        assert!(h.handles(batch));
        assert!(h.handles(pending));
        assert!(h.handles(done));
        assert!(h.handles(join));
        // No trace can have fewer readers than none.
        assert!(!h.handles(leave));
        assert!(h.handles(DifferentialEvent::Other));
    }
    {
        // Where the readers are not counted, every change can be handled.
        let h = DemuxHandler { state: &mut state, output: &mut output, logging_interval_ms: 1000, time_ms: 5, compute_logging: false };
        assert!(h.handles(leave));
    }
    {
        // A time beyond the last timestamp cannot be logged; events that
        // are not logged can be handled all the same.
        let mut h = DemuxHandler { state: &mut state, output: &mut output, logging_interval_ms: 1000, time_ms: u128::MAX, compute_logging: true };
        assert!(!h.timed());
        assert!(!h.handles(batch));
        assert!(!h.handles(done));
        assert!(!h.handles(join));
        assert!(h.handles(pending));
        assert!(h.handles(DifferentialEvent::Other));
        h.handle(pending);
        h.handle(DifferentialEvent::Other);
    }
    {
        let h = DemuxHandler { state: &mut state, output: &mut output, logging_interval_ms: 0, time_ms: 5, compute_logging: true };
        assert!(!h.timed());
    }
    {
        let h = DemuxHandler { state: &mut state, output: &mut output, logging_interval_ms: 1, time_ms: u64::MAX as u128 - 1, compute_logging: true };
        assert!(h.timed());
        assert_eq!(h.ts(), u64::MAX);
    }
    {
        let h = DemuxHandler { state: &mut state, output: &mut output, logging_interval_ms: 1, time_ms: u64::MAX as u128, compute_logging: true };
        assert!(!h.timed());
    }
    assert!(output.batches.is_empty());
    assert_eq!(state.readers(1), 0);
}
