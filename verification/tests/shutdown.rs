use actraild::shutdown::{
    begin_shutdown_stage_probe, finish_shutdown_stage_probe, shutdown_alert_remaining_count,
    shutdown_deadline_exhausted, shutdown_outcome, DiagnosticSeverity, ShutdownDeadline,
    ShutdownDrainStage, ShutdownStageProbe, ShutdownStageStatus,
};

const MS: u128 = 1_000_000;

#[test]
fn deadline_budget_is_capped_by_stage_limit_and_time_left() {
    let deadline = ShutdownDeadline::new(1_000 * MS, 500 * MS);
    assert_eq!(deadline.deadline, Some(1_500 * MS));
    assert_eq!(deadline.remaining_budget(1_100 * MS, 100 * MS), 100 * MS);
    assert_eq!(deadline.remaining_budget(1_450 * MS, 100 * MS), 50 * MS);
    assert_eq!(deadline.remaining_budget(1_600 * MS, 100 * MS), 0);
    assert!(!deadline.is_expired(1_499 * MS));
    assert!(deadline.is_expired(1_500 * MS));
}

#[test]
fn deadline_that_overflows_the_clock_is_always_expired() {
    let deadline = ShutdownDeadline::new(u128::MAX, 1);
    assert_eq!(deadline.deadline, None);
    assert!(deadline.is_expired(0));
    assert_eq!(deadline.remaining_budget(0, 100 * MS), 0);
}

#[test]
fn exhausted_deadline_error_names_the_stage() {
    let error = shutdown_deadline_exhausted(ShutdownDrainStage::PostTrace);
    assert_eq!(error.code, "daemon_shutdown_deadline");
    assert_eq!(
        error.message,
        "global shutdown deadline exhausted before post_trace completed"
    );
}

#[test]
fn stage_names_units_and_statuses() {
    assert_eq!(ShutdownDrainStage::TerminalFinalization.as_str(), "terminal_finalization");
    assert_eq!(ShutdownDrainStage::UnsettledSemantics.remaining_unit(), "traces");
    assert_eq!(ShutdownDrainStage::PostTrace.remaining_unit(), "plugin_instances");
    assert_eq!(ShutdownDrainStage::Export.remaining_unit(), "observation_consumers");
    assert_eq!(ShutdownDrainStage::Alert.remaining_unit(), "has_outstanding_writes");
    assert_eq!(ShutdownStageStatus::Started.code(), "daemon_shutdown_stage_started");
    assert_eq!(ShutdownStageStatus::Failed.as_str(), "failed");
    assert_eq!(
        ShutdownStageStatus::Completed.message(),
        "daemon shutdown drain stage completed"
    );
    assert_eq!(ShutdownStageStatus::Started.severity(true), DiagnosticSeverity::Info);
    assert_eq!(ShutdownStageStatus::Completed.severity(true), DiagnosticSeverity::Warning);
    assert_eq!(ShutdownStageStatus::Completed.severity(false), DiagnosticSeverity::Info);
    assert_eq!(ShutdownStageStatus::Failed.severity(false), DiagnosticSeverity::Error);
}

#[test]
fn probe_times_and_slow_threshold() {
    let mut probe = ShutdownStageProbe::new(ShutdownDrainStage::Export, 1_000 * MS, 10 * MS, 20 * MS);
    assert_eq!(probe.stage_elapsed(220 * MS), 200 * MS);
    assert_eq!(probe.shutdown_elapsed(220 * MS), 210 * MS);
    assert_eq!(probe.stage_elapsed(0), 0);
    assert_eq!(probe.slow_threshold(), 200 * MS);
    probe.mark_stage_started(300 * MS);
    assert_eq!(probe.stage_elapsed(350 * MS), 50 * MS);
    assert_eq!(ShutdownStageProbe::duration_millis(1_999_999), 1);
    assert_eq!(ShutdownStageProbe::duration_millis(u128::MAX), u64::MAX);
}

#[test]
fn stage_diagnostics_carry_metadata() {
    let (mut probe, started) =
        begin_shutdown_stage_probe(ShutdownDrainStage::Alert, 500 * MS, 1, 100 * MS, 150 * MS);
    assert_eq!(probe.stage_started_at, 150 * MS);
    assert_eq!(started.severity, DiagnosticSeverity::Info);
    assert_eq!(started.message, "daemon shutdown drain stage entered");
    let m = &started.metadata;
    assert_eq!(m.get("component").map(String::as_str), Some("daemon_shutdown"));
    assert_eq!(m.get("code").map(String::as_str), Some("daemon_shutdown_stage_started"));
    assert_eq!(m.get("stage").map(String::as_str), Some("alert"));
    assert_eq!(m.get("status").map(String::as_str), Some("started"));
    assert_eq!(m.get("slow").map(String::as_str), Some("false"));
    assert_eq!(m.get("remaining_unit").map(String::as_str), Some("has_outstanding_writes"));
    assert_eq!(m.get("elapsed_ms").map(String::as_str), Some("0"));
    assert_eq!(m.get("shutdown_elapsed_ms").map(String::as_str), Some("50"));
    assert_eq!(m.get("budget_ms").map(String::as_str), Some("500"));
    assert_eq!(m.get("remaining_count").map(String::as_str), Some("1"));
    assert_eq!(m.len(), 10);

    // The stage clock restarts once the started diagnostic is written.
    probe.mark_stage_started(152 * MS);
    let finished = finish_shutdown_stage_probe(probe, 0, false, 160 * MS);
    assert_eq!(finished.severity, DiagnosticSeverity::Info);
    assert_eq!(finished.metadata.get("slow").map(String::as_str), Some("false"));
    assert_eq!(finished.metadata.get("elapsed_ms").map(String::as_str), Some("8"));
    assert_eq!(finished.metadata.get("remaining_count").map(String::as_str), Some("0"));
}

#[test]
fn slow_or_failed_stages_raise_severity() {
    let probe = ShutdownStageProbe::new(ShutdownDrainStage::Export, 100 * MS, 0, 0);
    let slow = finish_shutdown_stage_probe(probe, 2, false, 20 * MS);
    assert_eq!(slow.severity, DiagnosticSeverity::Warning);
    assert_eq!(
        slow.metadata.get("code").map(String::as_str),
        Some("daemon_shutdown_stage_completed")
    );
    let probe = ShutdownStageProbe::new(ShutdownDrainStage::Export, 100 * MS, 0, 0);
    let failed = finish_shutdown_stage_probe(probe, 2, true, 1 * MS);
    assert_eq!(failed.severity, DiagnosticSeverity::Error);
    assert_eq!(failed.message, "daemon shutdown drain stage failed");
    assert_eq!(failed.metadata.get("status").map(String::as_str), Some("failed"));
}

#[test]
fn alert_remaining_count_assumes_outstanding_when_unknown() {
    assert_eq!(shutdown_alert_remaining_count(Some(false)), 0);
    assert_eq!(shutdown_alert_remaining_count(Some(true)), 1);
    assert_eq!(shutdown_alert_remaining_count(None), 1);
}

#[test]
fn shutdown_outcome_joins_stage_failures() {
    assert!(shutdown_outcome(&[]).is_ok());
    let error = shutdown_outcome(&[
        "alert drain: a: b".to_string(),
        "post-trace drain: c: d".to_string(),
    ])
    .unwrap_err();
    assert_eq!(error.code, "daemon_shutdown");
    assert_eq!(error.message, "alert drain: a: b; post-trace drain: c: d");
}
