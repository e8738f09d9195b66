use actraild::post_trace::{
    post_trace_cancel_after, post_trace_drain_step, PostTraceDrainStep, PostTraceDrainTarget,
};

const MS: u128 = 1_000_000;

fn running() -> Vec<String> {
    vec!["alpha".to_string(), "beta".to_string()]
}

#[test]
fn drain_targets_select_running_instances() {
    let beta = PostTraceDrainTarget::Instance("beta");
    assert!(beta.has_running_tasks(&running()));
    assert_eq!(beta.running_instance_ids(&running()), vec!["beta".to_string()]);
    assert_eq!(beta.instance_id(), Some("beta"));
    assert_eq!(beta.label(), "beta");
    let gamma = PostTraceDrainTarget::Instance("gamma");
    assert!(!gamma.has_running_tasks(&running()));
    assert!(gamma.running_instance_ids(&running()).is_empty());
    let all = PostTraceDrainTarget::All;
    assert!(all.has_running_tasks(&running()));
    assert!(!all.has_running_tasks(&[]));
    assert_eq!(all.running_instance_ids(&running()), running());
    assert_eq!(all.instance_id(), None);
    assert_eq!(all.label(), "daemon shutdown");
}

#[test]
fn cancellation_point_reserves_the_grace() {
    assert_eq!(post_trace_cancel_after(5_000 * MS, 1_000 * MS).ok(), Some(4_000 * MS));
    let error = post_trace_cancel_after(500 * MS, 1_000 * MS).unwrap_err();
    assert_eq!(error.code, "post_trace_config");
    assert_eq!(
        error.message,
        "post-trace drain timeout does not reserve cancellation time"
    );
}

#[test]
fn drain_steps_wait_cancel_and_time_out() {
    let target = PostTraceDrainTarget::Instance("beta");
    assert!(matches!(
        post_trace_drain_step(target, false, 0, 5_000 * MS, 4_000 * MS, 100 * MS),
        PostTraceDrainStep::Done
    ));
    match post_trace_drain_step(target, true, 3_950 * MS, 5_000 * MS, 4_000 * MS, 100 * MS) {
        PostTraceDrainStep::Wait { cancel, sleep_for } => {
            assert!(!cancel);
            assert_eq!(sleep_for, 50 * MS);
        }
        _ => panic!("expected a wait"),
    }
    match post_trace_drain_step(target, true, 4_950 * MS, 5_000 * MS, 4_000 * MS, 100 * MS) {
        PostTraceDrainStep::Wait { cancel, sleep_for } => {
            assert!(cancel);
            assert_eq!(sleep_for, 50 * MS);
        }
        _ => panic!("expected a wait"),
    }
    match post_trace_drain_step(target, true, 10 * MS, 5_000 * MS, 4_000 * MS, 100 * MS) {
        PostTraceDrainStep::Wait { cancel, sleep_for } => {
            assert!(!cancel);
            assert_eq!(sleep_for, 100 * MS);
        }
        _ => panic!("expected a wait"),
    }
    match post_trace_drain_step(PostTraceDrainTarget::All, true, 5_000 * MS, 5_000 * MS, 4_000 * MS, 100 * MS) {
        PostTraceDrainStep::TimedOut { cancel, error } => {
            assert!(cancel);
            assert_eq!(error.code, "post_trace_drain_timeout");
            assert_eq!(
                error.message,
                "daemon shutdown still has running post-trace tasks after 5000ms"
            );
        }
        _ => panic!("expected a timeout"),
    }
}
