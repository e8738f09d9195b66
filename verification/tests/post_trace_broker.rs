use actraild::post_trace_broker::{
    check_segment_row, file_state_path, file_state_timeout_ms, missing_action, payload_chunk, take_page, FileStateAction,
    PayloadReadResult, PostTraceRegistry, SegmentLookup,
};

#[test]
fn instances_register_once_and_must_match_their_plugin() {
    let mut registry = PostTraceRegistry::new();
    registry.register_plugin("inst-1", "analyzer", Some(64)).unwrap();
    let e = registry.register_plugin("inst-1", "analyzer", None).unwrap_err();
    assert_eq!(e.code, "post_trace_registration");
    assert_eq!(e.message, "post-trace plugin instance inst-1 is already registered");
    let reg = registry.registration("inst-1", "analyzer").unwrap();
    assert_eq!(reg.payload_read_max_bytes, Some(64));
    assert_eq!(registry.registration("inst-1", "other").unwrap_err().message, "plugin identity does not match the registered instance");
    assert_eq!(registry.registration("inst-2", "analyzer").unwrap_err().message, "plugin instance inst-2 is not registered");
    registry.unregister_plugin("inst-1");
    assert!(registry.registration("inst-1", "analyzer").is_err());
}

#[test]
fn file_state_timeout_never_exceeds_the_reply_timeout() {
    assert_eq!(file_state_timeout_ms(Some(100), 5000), 100);
    assert_eq!(file_state_timeout_ms(Some(9000), 5000), 5000);
    assert_eq!(file_state_timeout_ms(None, 5000), 5000);
}

#[test]
fn payload_reads_are_bounded() {
    let bytes: Vec<u8> = (0u8..10).collect();
    match payload_chunk(&bytes, 2, 5, Some(3)) {
        PayloadReadResult::Chunk { bytes, total_bytes, truncated } => {
            assert_eq!(bytes, vec![2, 3, 4]);
            assert_eq!(total_bytes, 10);
            assert!(truncated);
        }
        _ => panic!("a chunk"),
    }
    match payload_chunk(&bytes, 8, 5, None) {
        PayloadReadResult::Chunk { bytes, truncated, .. } => {
            assert_eq!(bytes, vec![8, 9]);
            assert!(!truncated);
        }
        _ => panic!("a chunk"),
    }
    match payload_chunk(&bytes, 50, 5, None) {
        PayloadReadResult::Chunk { bytes, truncated, .. } => {
            assert!(bytes.is_empty());
            assert!(!truncated);
        }
        _ => panic!("a chunk"),
    }
    assert!(matches!(check_segment_row(&SegmentLookup::Failed, 1, 2), Some(PayloadReadResult::Failed)));
    assert!(matches!(check_segment_row(&SegmentLookup::Missing, 1, 2), Some(PayloadReadResult::NotFound)));
    assert!(matches!(
        check_segment_row(&SegmentLookup::Found { trace_id: 1, segment_id: 3, source_granted: true }, 1, 2),
        Some(PayloadReadResult::Denied)
    ));
    assert!(matches!(
        check_segment_row(&SegmentLookup::Found { trace_id: 1, segment_id: 2, source_granted: false }, 1, 2),
        Some(PayloadReadResult::Denied)
    ));
    assert!(check_segment_row(&SegmentLookup::Found { trace_id: 1, segment_id: 2, source_granted: true }, 1, 2).is_none());
}

#[test]
fn pages_carry_the_next_offset() {
    let (page, next) = take_page(vec![1, 2, 3, 4, 5], 1, 2);
    assert_eq!(page, vec![2, 3]);
    assert_eq!(next, Some(3));
    let (page, next) = take_page(vec![1, 2, 3, 4, 5], 3, 10);
    assert_eq!(page, vec![4, 5]);
    assert_eq!(next, None);
    let (page, next) = take_page(vec![1, 2, 3], 7, 2);
    assert!(page.is_empty());
    assert_eq!(next, None);
}

#[test]
fn file_state_reads_name_one_path() {
    let one = vec!["/work/a.txt".to_string()];
    assert_eq!(file_state_path(FileStateAction::Modify, true, &one, None).unwrap(), "/work/a.txt");
    let two = vec!["/a".to_string(), "/b".to_string()];
    assert_eq!(
        file_state_path(FileStateAction::Modify, true, &two, None).unwrap_err().message,
        "file.modify state reads require exactly one complete observed path"
    );
    assert_eq!(file_state_path(FileStateAction::Write, true, &[], Some("/w")).unwrap(), "/w");
    assert_eq!(
        file_state_path(FileStateAction::Write, true, &[], None).unwrap_err().message,
        "file.write state reads require a complete observed path"
    );
    assert_eq!(
        file_state_path(FileStateAction::Write, false, &[], Some("/w")).unwrap_err().message,
        "file-state reads require a successful file.modify or file.write action"
    );
    let e = missing_action("act-9", 12);
    assert_eq!(e.code, "trace_file_state");
    assert_eq!(e.message, "semantic action act-9 was not found in trace 12");
}
