use actraild::payload::{
    PayloadContentState, PayloadDirection, PayloadOperationCompletionState,
    PayloadSourceBoundary, PayloadTruncationState, RawPayloadSegment,
};
use actraild::payload_policy::{
    check_retention_budget, next_event_id, next_payload_segment_id, operation_incomplete,
    PayloadPolicyConfig, PayloadProcessingPolicy, PayloadStdioStorageMode,
    RetainedPayloadTransaction, TraceBytes,
};
use actraild::redaction::PayloadRedactionPolicy;

fn raw(boundary: PayloadSourceBoundary, hint: Option<&str>) -> RawPayloadSegment {
    RawPayloadSegment {
        trace_id: 7,
        observed_at: 1,
        process: 3,
        source_boundary: boundary,
        content_state: PayloadContentState::Plaintext,
        direction: PayloadDirection::Outbound,
        stream_key: "s".to_string(),
        sequence: 1,
        original_size: 4,
        captured_size: 4,
        operation_id: 1,
        operation_offset: 0,
        operation_original_size: 4,
        operation_captured_size: 4,
        operation_completion_state: PayloadOperationCompletionState::Success,
        truncation: PayloadTruncationState::Complete,
        library: "lib".to_string(),
        symbol: "sym".to_string(),
        protocol_hint: hint.map(str::to_string),
        bytes: b"data".to_vec(),
    }
}

fn config() -> PayloadPolicyConfig {
    PayloadPolicyConfig {
        tls_enabled: true,
        tls_redaction_policy: PayloadRedactionPolicy::AuthorizationHeader,
        tls_retention_max_bytes_per_trace: 100,
        stdio_enabled: true,
        stdio_redaction_policy: PayloadRedactionPolicy::Disabled,
        stdio_retention_max_bytes_per_trace: 200,
        stdio_stdin_storage_mode: PayloadStdioStorageMode::Drop,
        stdio_stdout_storage_mode: PayloadStdioStorageMode::Full,
        stdio_stderr_storage_mode: PayloadStdioStorageMode::Drop,
        socket_enabled: false,
        socket_redaction_policy: PayloadRedactionPolicy::Disabled,
        socket_retention_max_bytes_per_trace: 300,
    }
}

#[test]
fn policy_per_source_boundary() {
    let c = config();
    assert_eq!(
        c.for_segment(&raw(PayloadSourceBoundary::TlsUserSpace, None)).ok(),
        Some(PayloadProcessingPolicy {
            redaction: PayloadRedactionPolicy::AuthorizationHeader,
            retention_max_bytes_per_trace: 100,
            stdio_storage_mode: PayloadStdioStorageMode::Full,
        })
    );
    assert_eq!(
        c.for_segment(&raw(PayloadSourceBoundary::Stdio, Some("stdin"))).ok(),
        Some(PayloadProcessingPolicy {
            redaction: PayloadRedactionPolicy::Disabled,
            retention_max_bytes_per_trace: 200,
            stdio_storage_mode: PayloadStdioStorageMode::Drop,
        })
    );
    let error = c
        .for_segment(&raw(PayloadSourceBoundary::Syscall, None))
        .unwrap_err();
    assert_eq!(error.code, "payload_policy");
    assert_eq!(
        error.message,
        "socket payload segment received while payload_socket_enabled=false"
    );
}

#[test]
fn disabled_tls_and_stdio_are_refused() {
    let mut c = config();
    c.tls_enabled = false;
    c.stdio_enabled = false;
    assert_eq!(
        c.for_segment(&raw(PayloadSourceBoundary::TlsUserSpace, None)).unwrap_err().message,
        "TLS payload segment received while payload_tls_enabled=false"
    );
    assert_eq!(
        c.for_segment(&raw(PayloadSourceBoundary::Stdio, Some("stdout"))).unwrap_err().message,
        "stdio payload segment received while payload_stdio_enabled=false"
    );
}

#[test]
fn stdio_stream_names() {
    let c = config();
    assert_eq!(
        c.stdio_storage_mode(&raw(PayloadSourceBoundary::Stdio, Some("stdout"))).ok(),
        Some(PayloadStdioStorageMode::Full)
    );
    assert_eq!(
        c.stdio_storage_mode(&raw(PayloadSourceBoundary::Stdio, Some("stderr"))).ok(),
        Some(PayloadStdioStorageMode::Drop)
    );
    assert_eq!(
        c.stdio_storage_mode(&raw(PayloadSourceBoundary::Stdio, Some("tty"))).unwrap_err().message,
        "unsupported stdio payload stream tty"
    );
    assert_eq!(
        c.stdio_storage_mode(&raw(PayloadSourceBoundary::Stdio, None)).unwrap_err().message,
        "stdio payload segment missing protocol_hint"
    );
}

#[test]
fn retention_budget_per_trace() {
    assert_eq!(check_retention_budget(7, 60, 40, 100).ok(), Some(100));
    let error = check_retention_budget(7, 60, 41, 100).unwrap_err();
    assert_eq!(error.code, "payload_retention");
    assert_eq!(
        error.message,
        "trace 7 payload retention would exceed configured maximum 100 bytes"
    );
    assert_eq!(
        check_retention_budget(7, u64::MAX, 1, u64::MAX).unwrap_err().message,
        "payload retention overflow"
    );
}

#[test]
fn id_counters_advance_until_exhausted() {
    let mut next = 5;
    assert_eq!(next_payload_segment_id(&mut next).ok(), Some(5));
    assert_eq!(next, 6);
    let mut full = u64::MAX;
    let error = next_payload_segment_id(&mut full).unwrap_err();
    assert_eq!(error.code, "payload_segment_id_overflow");
    assert_eq!(full, u64::MAX);
    let error = next_event_id(&mut full).unwrap_err();
    assert_eq!(error.message, "event id overflow");
    let mut events = 0;
    assert_eq!(next_event_id(&mut events).ok(), Some(0));
    assert_eq!(events, 1);
}

#[test]
fn operation_incompleteness() {
    let mut segment = raw(PayloadSourceBoundary::Syscall, None);
    assert!(!operation_incomplete(&segment));
    segment.truncation = PayloadTruncationState::Truncated;
    assert!(operation_incomplete(&segment));
    segment.truncation = PayloadTruncationState::Complete;
    segment.operation_completion_state = PayloadOperationCompletionState::Failed;
    assert!(operation_incomplete(&segment));
    segment.operation_captured_size = 8;
    assert!(!operation_incomplete(&segment));
    segment.operation_completion_state = PayloadOperationCompletionState::Success;
    segment.operation_offset = 4;
    segment.operation_original_size = 9;
    assert!(operation_incomplete(&segment));
}

#[test]
fn retained_bytes_commit_and_rollback() {
    let mut cache = TraceBytes::new();
    cache.insert(1, 10);
    let mut tx = RetainedPayloadTransaction::new();
    assert_eq!(tx.known_bytes(&cache, 1), Some(10));
    assert_eq!(tx.known_bytes(&cache, 2), None);
    tx.loaded_bytes(&mut cache, 2, 20);
    assert_eq!(tx.known_bytes(&cache, 2), Some(20));
    tx.record_persisted(1, 15);
    tx.record_persisted(2, 25);
    assert_eq!(tx.known_bytes(&cache, 1), Some(15));
    tx.apply_result(&mut cache, false);
    assert_eq!(cache.get(1), None);
    assert_eq!(cache.get(2), None);

    let mut cache = TraceBytes::new();
    cache.insert(1, 10);
    cache.insert(3, 30);
    let mut tx = RetainedPayloadTransaction::new();
    assert_eq!(tx.known_bytes(&cache, 1), Some(10));
    tx.record_persisted(1, 12);
    tx.apply_result(&mut cache, true);
    assert_eq!(cache.get(1), Some(12));
    assert_eq!(cache.get(3), Some(30));
}
