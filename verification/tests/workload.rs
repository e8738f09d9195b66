use actraild::workload::{
    duration_micros, elapsed_us, Counter, PayloadSegmentStage, PayloadTransactionPhase,
    WorkloadDiagnostics,
};

const NAMES: [&str; 45] = [
    "ready_cycles", "listener_ready", "control_ready", "event_source_ready", "background_ready",
    "event_fds_sampled", "event_fds_max", "drain_calls", "drain_active_path", "drain_idle_path",
    "drain_errors", "drain_elapsed_max_us", "active_binding_samples", "active_binding_max",
    "collector_batches", "collector_empty_batches", "collector_observations",
    "collector_payload_segments", "tls_sync_segments", "seccomp_tls_segments",
    "seccomp_socket_segments", "projected_input_events", "retained_events", "semantic_actions",
    "semantic_links", "storage_batches", "storage_events", "storage_payload_segments",
    "storage_diagnostics", "storage_semantic_actions", "storage_semantic_links",
    "storage_trace_states", "storage_errors", "storage_elapsed_max_us",
    "payload_retention_checks", "payload_retention_check_max_us", "payload_semantic_observes",
    "payload_semantic_observe_max_us", "payload_segment_persists",
    "payload_segment_persist_max_us", "payload_application_analyzes",
    "payload_application_analyze_outputs", "payload_application_analyze_max_us",
    "payload_application_persists", "payload_application_persist_max_us",
];

fn line(values: &[u64; 45]) -> String {
    NAMES
        .iter()
        .zip(values.iter())
        .map(|(name, value)| format!("{name}={value}"))
        .collect::<Vec<_>>()
        .join(" ")
}

#[test]
fn counter_add_wraps_max_keeps_largest_take_resets() {
    let mut counter = Counter::new();
    counter.add(5);
    counter.add(u64::MAX);
    assert_eq!(counter.get(), 4);
    counter.max(3);
    assert_eq!(counter.get(), 4);
    counter.max(10);
    assert_eq!(counter.get(), 10);
    assert_eq!(counter.take(), 10);
    assert_eq!(counter.get(), 0);
}

#[test]
fn disabled_diagnostics_record_nothing() {
    let mut diagnostics = WorkloadDiagnostics::new(false);
    diagnostics.record_ready_cycle(true, 3, true, true, 7);
    diagnostics.record_drain_call(2, true);
    assert!(diagnostics.snapshot_and_reset().is_none());
}

#[test]
fn zero_snapshot_line_lists_every_counter() {
    let mut diagnostics = WorkloadDiagnostics::new(true);
    let snapshot = diagnostics.snapshot_and_reset().unwrap();
    assert_eq!(snapshot.format(), line(&[0; 45]));
}

#[test]
fn records_accumulate_and_reset() {
    let mut diagnostics = WorkloadDiagnostics::new(true);
    diagnostics.record_ready_cycle(true, 3, false, true, 7);
    diagnostics.record_ready_cycle(false, 1, true, false, 2);
    diagnostics.record_drain_call(4, true);
    diagnostics.record_drain_call(1, false);
    diagnostics.record_drain_result(2_500_000, false);
    diagnostics.record_drain_result(1_000, true);
    diagnostics.record_collector_batch(0, 0);
    diagnostics.record_collector_batch(5, 2);
    diagnostics.record_payload_segments(PayloadSegmentStage::TlsSync, 3);
    diagnostics.record_payload_segments(PayloadSegmentStage::SeccompTls, 4);
    diagnostics.record_payload_segments(PayloadSegmentStage::SeccompSocket, 6);
    diagnostics.record_event_projection(10, 8, 2, 1);
    diagnostics.record_storage_batch(9_999, 1, 2, 3, 4, 5, 6, false);
    diagnostics.record_payload_transaction_phase(PayloadTransactionPhase::RetentionCheck, 7_000, 0);
    diagnostics.record_payload_transaction_phase(PayloadTransactionPhase::SemanticObserve, 8_000, 0);
    diagnostics.record_payload_transaction_phase(PayloadTransactionPhase::SegmentPersist, 9_000, 0);
    diagnostics.record_payload_transaction_phase(PayloadTransactionPhase::ApplicationAnalyze, 10_000, 3);
    diagnostics.record_payload_transaction_phase(PayloadTransactionPhase::ApplicationPersist, 11_000, 2);
    let snapshot = diagnostics.snapshot_and_reset().unwrap();
    assert_eq!(snapshot.ready_cycles, 2);
    assert_eq!(snapshot.listener_ready, 1);
    assert_eq!(snapshot.control_ready, 4);
    assert_eq!(snapshot.event_source_ready, 1);
    assert_eq!(snapshot.background_ready, 1);
    assert_eq!(snapshot.event_fds_sampled, 9);
    assert_eq!(snapshot.event_fds_max, 7);
    assert_eq!(snapshot.drain_calls, 2);
    assert_eq!(snapshot.drain_active_path, 1);
    assert_eq!(snapshot.drain_idle_path, 1);
    assert_eq!(snapshot.drain_errors, 1);
    assert_eq!(snapshot.drain_elapsed_max_us, 2_500);
    assert_eq!(snapshot.active_binding_samples, 5);
    assert_eq!(snapshot.active_binding_max, 4);
    assert_eq!(snapshot.collector_batches, 2);
    assert_eq!(snapshot.collector_empty_batches, 1);
    assert_eq!(snapshot.collector_observations, 5);
    assert_eq!(snapshot.collector_payload_segments, 2);
    assert_eq!(snapshot.tls_sync_segments, 3);
    assert_eq!(snapshot.seccomp_tls_segments, 4);
    assert_eq!(snapshot.seccomp_socket_segments, 6);
    assert_eq!(snapshot.projected_input_events, 10);
    assert_eq!(snapshot.retained_events, 8);
    assert_eq!(snapshot.semantic_actions, 2);
    assert_eq!(snapshot.semantic_links, 1);
    assert_eq!(snapshot.storage_batches, 1);
    assert_eq!(snapshot.storage_errors, 1);
    assert_eq!(snapshot.storage_elapsed_max_us, 9);
    assert_eq!(snapshot.payload_retention_checks, 1);
    assert_eq!(snapshot.payload_retention_check_max_us, 7);
    assert_eq!(snapshot.payload_application_analyzes, 1);
    assert_eq!(snapshot.payload_application_analyze_outputs, 3);
    assert_eq!(snapshot.payload_application_persists, 2);
    assert_eq!(snapshot.payload_application_persist_max_us, 11);
    let text = snapshot.format();
    assert!(text.starts_with("ready_cycles=2 listener_ready=1 control_ready=4 "));
    assert!(text.ends_with("payload_application_persists=2 payload_application_persist_max_us=11"));
    let again = diagnostics.snapshot_and_reset().unwrap();
    assert_eq!(again.format(), line(&[0; 45]));
}

#[test]
fn durations_in_microseconds_saturate() {
    assert_eq!(duration_micros(0), 0);
    assert_eq!(duration_micros(1_999), 1);
    assert_eq!(duration_micros(u128::MAX), u64::MAX);
    assert_eq!(elapsed_us(1_000, 5_000), 4);
    assert_eq!(elapsed_us(5_000, 1_000), 0);
}

#[test]
fn drain_calls_split_into_active_and_idle_paths() {
    let mut diagnostics = WorkloadDiagnostics::new(true);
    let calls = [(3usize, true), (0, false), (5, true), (2, false), (1, false)];
    for (bindings, active) in calls {
        diagnostics.record_drain_call(bindings, active);
    }
    let s = diagnostics.snapshot_and_reset().unwrap();
    assert_eq!(s.drain_calls, 5);
    assert_eq!(s.drain_active_path, 2);
    assert_eq!(s.drain_idle_path, 3);
    assert_eq!(s.drain_active_path + s.drain_idle_path, s.drain_calls);
    assert_eq!(s.active_binding_samples, 11);
    assert_eq!(s.active_binding_max, 5);
    diagnostics.record_drain_call(4, false);
    let s = diagnostics.snapshot_and_reset().unwrap();
    assert_eq!((s.drain_calls, s.drain_active_path, s.drain_idle_path), (1, 0, 1));
}
