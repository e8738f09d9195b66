use actraild::shutdown::{ControlError, ShutdownDrainStage};
use actraild::shutdown_drain::{ShutdownDrain, ShutdownStageLimits};

const MS: u128 = 1_000_000;

fn err(code: &str, message: &str) -> ControlError {
    ControlError { code: code.to_string(), message: message.to_string() }
}

fn limits() -> ShutdownStageLimits {
    ShutdownStageLimits { finalization: 100 * MS, post_trace: 50 * MS, alert: 20 * MS }
}

#[test]
fn stages_run_in_order_with_their_budgets() {
    let mut drain = ShutdownDrain::start(0, 1_000 * MS, limits());
    let expected = [
        (ShutdownDrainStage::TerminalFinalization, 100 * MS),
        (ShutdownDrainStage::UnsettledSemantics, 100 * MS),
        (ShutdownDrainStage::PostTrace, 50 * MS),
        (ShutdownDrainStage::Export, 100 * MS),
        (ShutdownDrainStage::Alert, 20 * MS),
    ];
    let mut now = 10 * MS;
    for (stage, budget) in expected {
        assert_eq!(drain.stage, Some(stage));
        let (mut probe, started) = drain.begin_stage(3, now);
        assert_eq!(probe.stage, stage);
        assert_eq!(probe.budget, budget);
        assert_eq!(started.metadata.get("status").map(String::as_str), Some("started"));
        probe.mark_stage_started(now + 1);
        now += 5 * MS;
        let finished = drain.finish_stage(probe, 2, Ok(()), now);
        let count = if stage == ShutdownDrainStage::Export { "0" } else { "2" };
        assert_eq!(finished.metadata.get("remaining_count").map(String::as_str), Some(count));
        assert_eq!(finished.metadata.get("status").map(String::as_str), Some("completed"));
    }
    assert_eq!(drain.stage, None);
    assert!(drain.outcome().is_ok());
}

#[test]
fn failures_are_recorded_under_stage_names_and_joined() {
    let mut drain = ShutdownDrain::start(0, 1_000 * MS, limits());
    let (probe, _) = drain.begin_stage(1, 0);
    let d = drain.finish_stage(probe, 1, Err(err("trace_finalization", "stuck")), MS);
    assert_eq!(d.metadata.get("status").map(String::as_str), Some("failed"));
    let (probe, _) = drain.begin_stage(0, MS);
    drain.finish_stage(probe, 0, Ok(()), MS);
    let (probe, _) = drain.begin_stage(2, MS);
    drain.finish_stage(probe, 2, Err(err("post_trace", "timeout")), MS);
    let e = drain.outcome().unwrap_err();
    assert_eq!(e.code, "daemon_shutdown");
    assert_eq!(
        e.message,
        "terminal finalization: trace_finalization: stuck; post-trace drain: post_trace: timeout"
    );
}

#[test]
fn export_stage_needs_budget_and_time() {
    let drain = ShutdownDrain::start(0, 100 * MS, limits());
    let e = drain.export_result(0, None, 50 * MS).unwrap_err();
    assert_eq!(e.code, "daemon_shutdown_deadline");
    assert_eq!(e.message, "global shutdown deadline exhausted before export completed");
    let e = drain.export_result(10 * MS, Some(Ok(())), 100 * MS).unwrap_err();
    assert_eq!(e.code, "daemon_shutdown_deadline");
    assert!(drain.export_result(10 * MS, Some(Ok(())), 99 * MS).is_ok());
    let e = drain.export_result(10 * MS, Some(Err(err("export", "dropped"))), 99 * MS).unwrap_err();
    assert_eq!((e.code.as_str(), e.message.as_str()), ("export", "dropped"));
    let late = ShutdownDrain::start(0, 30 * MS, limits());
    let (probe, _) = late.begin_stage(0, 25 * MS);
    assert_eq!(probe.budget, 5 * MS);
}
