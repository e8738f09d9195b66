use actraild::post_trace_coordinator::{capacity_error, PostTraceCoordinator, TaskAdmission};

const MS: u128 = 1_000_000;

fn coordinator(max: u64) -> PostTraceCoordinator<u64> {
    PostTraceCoordinator::new(5_000, 1_000, max, 100, 60_000).unwrap()
}

#[test]
fn drain_timeout_must_exceed_broker_reply_timeout() {
    let e = PostTraceCoordinator::<u64>::new(1_000, 1_000, 4, 100, 60_000).err().unwrap();
    assert_eq!(e.code, "post_trace_config");
    assert_eq!(e.message, "shutdown drain timeout must exceed broker reply timeout");
    let c = coordinator(4);
    assert_eq!(c.shutdown_drain_timeout_ms(), 5_000);
    assert_eq!(c.cancellation_grace_ms(), 1_000);
    assert!(!c.has_running_tasks());
}

#[test]
fn admitted_task_runs_until_completed() {
    let mut c = coordinator(4);
    assert_eq!(c.begin_task_admission(1, "a", 0), TaskAdmission::Enqueue);
    assert!(c.finish_task_admission(1, "a", Ok(10), 0).is_none());
    assert!(c.has_running_tasks());
    assert!(c.has_running_tasks_for("a"));
    assert!(!c.has_running_tasks_for("b"));
    assert!(c.has_running_tasks_for_trace(1));
    assert!(!c.has_running_tasks_for_trace(2));
    assert_eq!(c.begin_task_admission(1, "a", 5), TaskAdmission::AlreadyAdmitted);
    assert!(c.all_admitted(1, &["a".to_string()]));
    assert!(!c.all_admitted(1, &["a".to_string(), "b".to_string()]));
    assert_eq!(c.completion_lease(1, "a").ok(), Some(&10));
    let e = c.completion_lease(9, "z").err().unwrap();
    assert_eq!(e.code, "post_trace_completion");
    assert_eq!(e.message, "completion for untracked task trace=9 instance=z");
    c.finish_completion(1, "a");
    assert!(!c.has_running_tasks());
}

#[test]
fn running_instances_are_listed_once_in_order() {
    let mut c = coordinator(4);
    for (trace, inst, lease) in [(2, "zeta", 1), (1, "alpha", 2), (3, "alpha", 3)] {
        assert_eq!(c.begin_task_admission(trace, inst, 0), TaskAdmission::Enqueue);
        c.finish_task_admission(trace, inst, Ok(lease), 0);
    }
    assert_eq!(c.running_instance_ids(), vec!["alpha".to_string(), "zeta".to_string()]);
}

#[test]
fn capacity_refusals_are_reported_once_after_the_admission_timeout() {
    let mut c = coordinator(1);
    assert_eq!(c.begin_task_admission(1, "a", 0), TaskAdmission::Enqueue);
    c.finish_task_admission(1, "a", Ok(10), 0);
    assert_eq!(c.begin_task_admission(2, "b", 0), TaskAdmission::AtCapacity);
    assert!(c.finish_task_admission(2, "b", Err(capacity_error()), 0).is_none());
    assert_eq!(c.begin_task_admission(2, "b", 50 * MS), TaskAdmission::AtCapacity);
    assert!(c.finish_task_admission(2, "b", Err(capacity_error()), 50 * MS).is_none());
    assert_eq!(c.begin_task_admission(2, "b", 150 * MS), TaskAdmission::AtCapacity);
    let issue = c.finish_task_admission(2, "b", Err(capacity_error()), 150 * MS).unwrap();
    assert_eq!(issue.trace_id, 2);
    assert_eq!(issue.instance_id, "b");
    assert_eq!(issue.code, "post_trace_admission_timeout");
    assert_eq!(
        issue.message,
        "post-trace task admission exceeded 100ms: post_trace_capacity: post-trace in-flight task capacity is full"
    );
    assert_eq!(c.begin_task_admission(2, "b", 200 * MS), TaskAdmission::AtCapacity);
    assert!(c.finish_task_admission(2, "b", Err(capacity_error()), 200 * MS).is_none());
}

#[test]
fn overdue_tasks_are_diagnosed_once() {
    let mut c = coordinator(4);
    for (trace, inst) in [(2, "b"), (1, "a")] {
        c.begin_task_admission(trace, inst, 0);
        c.finish_task_admission(trace, inst, Ok(0), 0);
    }
    let only_b = c.diagnose_drain_timeout(Some("b"));
    assert_eq!(only_b.len(), 1);
    assert_eq!(only_b[0].instance_id, "b");
    let all = c.diagnose_drain_timeout(None);
    assert_eq!(all.len(), 1);
    assert_eq!(all[0].trace_id, 1);
    assert_eq!(all[0].code, "post_trace_drain_timeout");
    assert_eq!(all[0].message, "post-trace task did not stop within configured drain timeout 5000ms");
    assert!(c.diagnose_drain_timeout(None).is_empty());
}

#[test]
fn unloading_instance_is_refused_while_its_task_runs() {
    let mut c = coordinator(4);
    c.begin_task_admission(1, "a", 0);
    c.finish_task_admission(1, "a", Ok(0), 0);
    let e = c.forget_instance("a").err().unwrap();
    assert_eq!(e.code, "post_trace_unload");
    assert_eq!(e.message, "plugin instance a still has running post-trace tasks");
    c.finish_completion(1, "a");
    assert!(c.forget_instance("a").is_ok());
    assert!(!c.all_admitted(1, &["a".to_string()]));
}

#[test]
fn closed_admission_refuses_new_tasks_and_barriers_are_forgotten() {
    let mut c = coordinator(4);
    c.close_admission();
    let e = c.check_admission_open(&["a".to_string()]).err().unwrap();
    assert_eq!(e.code, "post_trace_closed");
    assert_eq!(e.message, "post-trace task admission is closed during daemon shutdown");
    assert!(c.check_admission_open(&[]).is_ok());
    c.mark_barrier_ready(3);
    c.mark_barrier_ready(3);
    assert!(c.barrier_ready(3));
    c.mark_trace_finalized(3);
    assert!(!c.barrier_ready(3));
}
