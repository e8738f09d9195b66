use actraild::identity::{
    active_process_to_confirm, capturable_preparation, check_parent_membership, classify_process_event,
    confirm_start_time, exit_code, foreign_process_error, insert_child_outcome, match_process,
    match_process_in_trace, metadata_parent_pid, parse_i32_bytes, resolve_control_actor, stat_read_error,
    stat_start_time, HostCoordinates, InsertChildError, IngestMatch, MembershipState, ProcessEventKind,
    ProcessMembership, ProcessRecord, ResolvedTraceProcess,
};
use actraild::strmap::StringMap;

fn membership(capture: bool, propagate: bool, state: MembershipState) -> ProcessMembership {
    ProcessMembership { identity: 77, capture_enabled: capture, propagation_enabled: propagate, state }
}

fn stat_text(start: &str) -> String {
    format!("123 (my (odd) cmd) S 1 123 123 0 -1 4194560 100 0 0 0 5 3 0 0 20 0 1 0 {start} 1000 200 18446744073709551615")
}

#[test]
fn capturable_states_are_starting_and_active() {
    let r = ResolvedTraceProcess { trace_id: 5, process: 9, capture_enabled: true, state: MembershipState::Active };
    assert!(r.is_capturable());
    assert!(ResolvedTraceProcess { state: MembershipState::Starting, ..r }.is_capturable());
    assert!(!ResolvedTraceProcess { state: MembershipState::IdentityStale, ..r }.is_capturable());
    assert!(!ResolvedTraceProcess { capture_enabled: false, ..r }.is_capturable());
    assert_eq!(r.into_ingest_match(), IngestMatch { trace_id: 5, process: 9, parent: None });
}

#[test]
fn preparation_refuses_uncapturable_process() {
    let r = ResolvedTraceProcess { trace_id: 5, process: 9, capture_enabled: false, state: MembershipState::Active };
    let e = capturable_preparation(r).unwrap_err();
    assert_eq!(e.code, "command_control_identity");
    assert_eq!(e.message, "process 9 is not capturable in trace 5");
    let ok = ResolvedTraceProcess { capture_enabled: true, ..r };
    assert_eq!(capturable_preparation(ok).unwrap().resolved, ok);
}

#[test]
fn memberships_resolve_to_their_trace() {
    let m = membership(true, false, MembershipState::Starting);
    let r = match_process_in_trace(3, Some(m)).unwrap();
    assert_eq!(r, ResolvedTraceProcess { trace_id: 3, process: 77, capture_enabled: true, state: MembershipState::Starting });
    assert_eq!(match_process(Some((4, m))).unwrap().trace_id, 4);
    assert!(match_process(None).is_none());
}

#[test]
fn parent_must_be_in_trace_and_propagate() {
    let e = check_parent_membership(8, 41, None).unwrap_err();
    assert_eq!(e.code, "command_control_parent_identity");
    assert_eq!(e.message, "parent pid 41 is not part of listener trace 8");
    let e = check_parent_membership(8, 41, Some(membership(true, false, MembershipState::Active))).unwrap_err();
    assert_eq!(e.message, "parent pid 41 cannot propagate trace membership");
    let e = check_parent_membership(8, 41, Some(membership(true, true, MembershipState::IdentityStale))).unwrap_err();
    assert_eq!(e.message, "parent pid 41 cannot propagate trace membership");
    let m = membership(true, true, MembershipState::Active);
    assert_eq!(check_parent_membership(8, 41, Some(m)).unwrap(), m);
}

#[test]
fn foreign_process_is_named() {
    let e = foreign_process_error(2, 100, 99, 7);
    assert_eq!(e.message, "listener trace 2 received task 100 from process 99 owned by trace 7");
}

#[test]
fn control_actor_identity_prefers_boottime() {
    let host = HostCoordinates { pid: 10, task_id: 11, start_time_ticks: 500, start_boottime_ns: Some(9000) };
    let rec = ProcessRecord { host: Some(host), pid_namespaces: vec!["pid:[4026531836]".to_string(), "other".to_string()] };
    let id = resolve_control_actor(3, Some(&rec)).unwrap();
    assert_eq!((id.pid, id.task_id, id.generation), (10, 11, 9000));
    assert_eq!(id.namespace.as_deref(), Some("pid:[4026531836]"));
    let rec = ProcessRecord { host: Some(HostCoordinates { start_boottime_ns: None, ..host }), pid_namespaces: vec![] };
    let id = resolve_control_actor(3, Some(&rec)).unwrap();
    assert_eq!(id.generation, 500);
    assert!(id.namespace.is_none());
    let e = resolve_control_actor(3, Some(&ProcessRecord { host: None, pid_namespaces: vec![] })).unwrap_err();
    assert_eq!(e.code, "control_process_identity");
    assert_eq!(e.message, "process 3 has no host coordinates");
    assert_eq!(resolve_control_actor(3, None).unwrap_err().message, "process record 3 is missing");
}

#[test]
fn i32_parse_matches_std() {
    for text in ["0", "-1", "+17", "2147483647", "-2147483648", "2147483648", "-2147483649", "", "-", "+", "-+1", "1a", "--2"] {
        let expected = text.parse::<i32>().map_err(|e| e.to_string());
        let got = parse_i32_bytes(text.as_bytes()).map_err(|e| e.to_string());
        assert_eq!(got, expected, "{text}");
    }
}

#[test]
fn exit_code_reads_metadata() {
    let mut m = StringMap::new();
    assert_eq!(exit_code(&m).unwrap(), None);
    m.insert("exit_code".to_string(), "-9".to_string());
    assert_eq!(exit_code(&m).unwrap(), Some(-9));
    m.insert("exit_code".to_string(), "-99999999999".to_string());
    let e = exit_code(&m).unwrap_err();
    assert_eq!(e.code, "exit_code");
    assert_eq!(e.message, "number too small to fit in target type");
}

#[test]
fn exec_parent_pid_comes_from_ppid_entry() {
    let mut m = StringMap::new();
    assert_eq!(metadata_parent_pid(&m), None);
    m.insert("ppid".to_string(), "314".to_string());
    assert_eq!(metadata_parent_pid(&m), Some(314));
    m.insert("ppid".to_string(), "x".to_string());
    assert_eq!(metadata_parent_pid(&m), None);
}

#[test]
fn process_events_are_classified_by_operation() {
    assert_eq!(classify_process_event(Some("fork")), ProcessEventKind::Fork);
    assert_eq!(classify_process_event(Some("exec")), ProcessEventKind::Exec);
    assert_eq!(classify_process_event(Some("command_control")), ProcessEventKind::Exec);
    assert_eq!(classify_process_event(Some("exit")), ProcessEventKind::Exit);
    assert_eq!(classify_process_event(Some("open")), ProcessEventKind::Other);
    assert_eq!(classify_process_event(None), ProcessEventKind::Other);
}

#[test]
fn observed_child_outcomes() {
    assert_eq!(insert_child_outcome(1, 2, 3, Ok(())).unwrap(), Some(IngestMatch { trace_id: 1, process: 3, parent: Some(2) }));
    assert_eq!(insert_child_outcome(1, 2, 3, Err(InsertChildError::PropagationDisabled)).unwrap(), None);
    let e = insert_child_outcome(1, 2, 3, Err(InsertChildError::Refused("UnknownTrace".to_string()))).unwrap_err();
    assert_eq!((e.code.as_str(), e.message.as_str()), ("insert_observed_child", "UnknownTrace"));
}

#[test]
fn stat_start_time_is_twentieth_field_after_command() {
    assert_eq!(stat_start_time(123, &stat_text("8812")).unwrap(), 8812);
    let e = stat_start_time(123, "123 (cmd) S 1 2").unwrap_err();
    assert_eq!(e.message, "missing start time for process 123");
    assert_eq!(stat_start_time(5, "no paren").unwrap_err().message, "missing start time for process 5");
    let e = stat_start_time(123, &stat_text("12x")).unwrap_err();
    assert_eq!(e.message, "parse start time for process 123: invalid digit found in string");
}

#[test]
fn active_process_is_confirmed_by_start_time() {
    let host = HostCoordinates { pid: 123, task_id: 123, start_time_ticks: 8812, start_boottime_ns: None };
    assert_eq!(active_process_to_confirm(123, Some(6), Some(host)), Some((6, 8812)));
    assert_eq!(active_process_to_confirm(124, Some(6), Some(host)), None);
    assert_eq!(active_process_to_confirm(123, None, Some(host)), None);
    assert_eq!(active_process_to_confirm(123, Some(6), Some(HostCoordinates { start_time_ticks: 0, ..host })), None);
    assert_eq!(confirm_start_time(6, 123, 8812, &stat_text("8812")).unwrap(), Some(6));
    assert_eq!(confirm_start_time(6, 123, 8812, &stat_text("8813")).unwrap(), None);
    let e = stat_read_error(123, "No such file or directory (os error 2)");
    assert_eq!(e.message, "cannot read stat for process 123: No such file or directory (os error 2)");
}
