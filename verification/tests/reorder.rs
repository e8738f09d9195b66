use actraild::payload::{
    PayloadContentState, PayloadDirection, PayloadOperationCompletionState,
    PayloadSourceBoundary, PayloadTruncationState, RawPayloadSegment,
};
use actraild::reorder::{PayloadSegmentReorderer, REORDER_WINDOW_NS};

const SECOND_NS: u128 = 1_000_000_000;

fn segment(
    sequence: u64,
    observed_at: u128,
    stream_key: &str,
    direction: PayloadDirection,
) -> RawPayloadSegment {
    RawPayloadSegment {
        trace_id: 1,
        observed_at,
        process: 42,
        source_boundary: PayloadSourceBoundary::Syscall,
        content_state: PayloadContentState::Plaintext,
        direction,
        stream_key: stream_key.to_string(),
        sequence,
        original_size: 1,
        captured_size: 1,
        operation_id: sequence,
        operation_offset: 0,
        operation_original_size: 1,
        operation_captured_size: 1,
        operation_completion_state: PayloadOperationCompletionState::Success,
        truncation: PayloadTruncationState::Complete,
        library: "test".to_string(),
        symbol: "test".to_string(),
        protocol_hint: None,
        bytes: vec![b'x'],
    }
}

/// Matches the `now` used by the tests below so a segment is fresh
/// (within the reorder window) rather than already expired.
fn fresh(sequence: u64) -> RawPayloadSegment {
    segment(
        sequence,
        1_000_000 * SECOND_NS,
        "socket:42:3:0",
        PayloadDirection::Inbound,
    )
}

#[test]
fn in_order_segments_emit_without_delay() {
    let mut reorderer = PayloadSegmentReorderer::new();
    let now = 1_000_000 * SECOND_NS;
    let first = reorderer.admit_segments(now, vec![fresh(1)]);
    assert_eq!(first.len(), 1);
    assert_eq!(first[0].segment.sequence, 1);
    let second = reorderer.admit_segments(now, vec![fresh(2)]);
    assert_eq!(second.len(), 1);
    assert_eq!(second[0].segment.sequence, 2);
    assert_eq!(reorderer.pending_segment_count(), 0);
}

#[test]
fn out_of_order_chunks_are_held_and_emitted_in_capture_order() {
    let mut reorderer = PayloadSegmentReorderer::new();
    let now = 1_000_000 * SECOND_NS;
    // Chunk 2 arrives first; it must be held, not emitted out of order.
    assert!(reorderer.admit_segments(now, vec![fresh(2)]).is_empty());
    assert_eq!(reorderer.pending_segment_count(), 1);
    // Chunk 1 arrives one window later; both now emit in capture order.
    let ready = reorderer.admit_segments(now + REORDER_WINDOW_NS, vec![fresh(1)]);
    let sequences = ready
        .iter()
        .map(|segment| segment.segment.sequence)
        .collect::<Vec<_>>();
    assert_eq!(sequences, vec![1, 2]);
    assert_eq!(reorderer.pending_segment_count(), 0);
}

#[test]
fn gap_in_sequence_emits_after_window_elapses() {
    let mut reorderer = PayloadSegmentReorderer::new();
    let now = 1_000_000 * SECOND_NS;
    // Chunk 3 arrives alone; sequences 1 and 2 are permanently missing.
    assert!(reorderer.admit_segments(now, vec![fresh(3)]).is_empty());
    // After the reorder window elapses the gap is concluded lost.
    let ready = reorderer.admit_segments(now + REORDER_WINDOW_NS * 2, Vec::new());
    let sequences = ready
        .iter()
        .map(|segment| segment.segment.sequence)
        .collect::<Vec<_>>();
    assert_eq!(sequences, vec![3]);
    assert_eq!(reorderer.pending_segment_count(), 0);
}

#[test]
fn empty_admit_flushes_expired_pending() {
    let mut reorderer = PayloadSegmentReorderer::new();
    let now = 1_000_000 * SECOND_NS;
    assert!(reorderer.admit_segments(now, vec![fresh(5)]).is_empty());
    // A later call (even with no new segments) flushes the expired chunk.
    let ready = reorderer.admit_segments(now + REORDER_WINDOW_NS * 2, Vec::new());
    assert_eq!(ready.len(), 1);
    assert_eq!(ready[0].segment.sequence, 5);
}

#[test]
fn same_sequence_chunks_keep_arrival_order() {
    let mut reorderer = PayloadSegmentReorderer::new();
    let now = 1_000_000 * SECOND_NS;
    let mut first = fresh(1);
    first.bytes = vec![b'a'];
    let mut second = fresh(1);
    second.bytes = vec![b'b'];
    let ready = reorderer.admit_segments(now, vec![first, second]);
    assert_eq!(ready.len(), 2);
    assert_eq!(ready[0].segment.bytes, vec![b'a']);
    assert_eq!(ready[1].segment.bytes, vec![b'b']);
}

#[test]
fn tls_sync_segments_bypass_reordering() {
    let mut reorderer = PayloadSegmentReorderer::new();
    let now = 1_000_000 * SECOND_NS;
    let mut tls = segment(7, now, "tls-sync:9", PayloadDirection::Outbound);
    tls.source_boundary = PayloadSourceBoundary::TlsUserSpace;
    let ready = reorderer.admit_segments(now, vec![fresh(2), tls]);
    assert_eq!(ready.len(), 1);
    assert_eq!(ready[0].segment.sequence, 7);
    assert!(!ready[0].discontinuity_before);
    assert_eq!(reorderer.pending_segment_count(), 1);
}

#[test]
fn late_chunk_behind_emitted_prefix_is_dropped() {
    let mut reorderer = PayloadSegmentReorderer::new();
    let now = 1_000_000 * SECOND_NS;
    assert_eq!(reorderer.admit_segments(now, vec![fresh(1), fresh(2), fresh(3)]).len(), 3);
    assert!(reorderer.admit_segments(now, vec![fresh(2)]).is_empty());
    assert_eq!(reorderer.pending_segment_count(), 0);
}

#[test]
fn socket_gap_is_flagged_as_discontinuity() {
    let mut reorderer = PayloadSegmentReorderer::new();
    let now = 1_000_000 * SECOND_NS;
    let mut seg = fresh(4);
    seg.library = "socket-syscall".to_string();
    assert!(reorderer.admit_segments(now, vec![seg]).is_empty());
    let ready = reorderer.admit_segments(now + REORDER_WINDOW_NS, Vec::new());
    assert_eq!(ready.len(), 1);
    assert!(ready[0].discontinuity_before);
}

#[test]
fn streams_drain_in_key_order_and_idle_streams_expire() {
    let mut reorderer = PayloadSegmentReorderer::new();
    let now = 1_000_000 * SECOND_NS;
    let b = segment(1, now, "b", PayloadDirection::Inbound);
    let a = segment(1, now, "a", PayloadDirection::Inbound);
    let ready = reorderer.admit_segments(now, vec![b, a]);
    let keys = ready.iter().map(|s| s.segment.stream_key.clone()).collect::<Vec<_>>();
    assert_eq!(keys, vec!["a".to_string(), "b".to_string()]);
    // Sixty seconds later the idle streams' state is dropped, so sequence 1
    // is taken as a fresh start again.
    let again = reorderer.admit_segments(now + 61 * SECOND_NS, vec![segment(1, now, "a", PayloadDirection::Inbound)]);
    assert_eq!(again.len(), 1);
}

#[test]
fn forget_trace_drops_held_segments() {
    let mut reorderer = PayloadSegmentReorderer::new();
    let now = 1_000_000 * SECOND_NS;
    assert!(reorderer.admit_segments(now, vec![fresh(3)]).is_empty());
    reorderer.forget_trace(2);
    assert_eq!(reorderer.pending_segment_count(), 1);
    reorderer.forget_trace(1);
    assert_eq!(reorderer.pending_segment_count(), 0);
}
