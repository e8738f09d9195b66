use actraild::finalization::{
    after_drain, before_drain, pending_finalizations_error, FinalizationQueue, FinalizationWait,
    QueuedTraceDisposition,
};

const MS: u128 = 1_000_000;

#[test]
fn queued_traces_settle_then_proceed_and_leave_once_finalized() {
    let mut q = FinalizationQueue::new();
    q.enqueue_if_terminal(7, true, 0);
    q.enqueue_if_terminal(3, true, 10 * MS);
    q.enqueue_if_terminal(5, false, 0);
    q.queue_terminal_finalization(7, 99 * MS);
    assert_eq!(q.pending(), &[3, 7]);
    assert_eq!(q.queued_at(7), Some(0));
    assert_eq!(q.disposition(7, true, 50 * MS, 100 * MS), QueuedTraceDisposition::Settle);
    assert_eq!(q.disposition(7, true, 100 * MS, 100 * MS), QueuedTraceDisposition::Proceed);
    assert_eq!(q.disposition(7, false, 100 * MS, 100 * MS), QueuedTraceDisposition::Drop);
    q.complete_trace(7);
    assert!(q.is_finalized(7));
    assert_eq!(q.pending(), &[3]);
    assert_eq!(q.queued_at(7), None);
    assert_eq!(q.disposition(7, true, 200 * MS, 100 * MS), QueuedTraceDisposition::Drop);
    q.enqueue_if_terminal(7, true, 300 * MS);
    assert_eq!(q.pending(), &[3]);
    q.drop_trace(3);
    assert!(q.pending().is_empty());
    assert!(!q.is_finalized(3));
}

#[test]
fn giving_up_names_every_pending_trace() {
    let e = pending_finalizations_error(&[3, 12], 5_001);
    assert_eq!(e.code, "trace_finalization_shutdown_timeout");
    assert_eq!(e.message, "daemon shutdown left 2 terminal trace(s) pending after 5001ms: 3,12");
}

#[test]
fn shutdown_wait_polls_until_done_or_timed_out() {
    assert_eq!(before_drain(0, 0, 0, 10 * MS), FinalizationWait::Done);
    assert_eq!(before_drain(0, 1, 0, 10 * MS), FinalizationWait::Drain);
    assert_eq!(before_drain(2, 0, 10 * MS, 10 * MS), FinalizationWait::TimedOut);
    assert_eq!(after_drain(0, usize::MAX, 0, 10 * MS, 2 * MS), (FinalizationWait::Done, usize::MAX));
    assert_eq!(after_drain(2, usize::MAX, 0, 10 * MS, 2 * MS), (FinalizationWait::Retry, 2));
    assert_eq!(after_drain(2, 2, 0, 10 * MS, 2 * MS), (FinalizationWait::Sleep(2 * MS), 2));
    assert_eq!(after_drain(2, 2, 9 * MS, 10 * MS, 2 * MS), (FinalizationWait::Sleep(MS), 2));
    assert_eq!(after_drain(2, 2, 11 * MS, 10 * MS, 2 * MS), (FinalizationWait::TimedOut, 2));
}
