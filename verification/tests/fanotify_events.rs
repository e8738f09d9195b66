use actraild::fanotify_events::{parse_buffer, PermissionMetadata};

fn record(event_len: u32, vers: u8, mask: u64, fd: i32, pid: i32) -> Vec<u8> {
    let mut r = Vec::new();
    r.extend_from_slice(&event_len.to_le_bytes());
    r.push(vers);
    r.push(0);
    r.extend_from_slice(&24u16.to_le_bytes());
    r.extend_from_slice(&mask.to_le_bytes());
    r.extend_from_slice(&fd.to_le_bytes());
    r.extend_from_slice(&pid.to_le_bytes());
    r
}

#[test]
fn permission_records_decode_in_order_skipping_fileless_ones() {
    let mut buf = record(24, 3, 0x0001_0000, 7, 1234);
    buf.extend(record(24, 3, 0x0002_0000, -1, 99));
    buf.extend(record(24, 3, 0x8000_0000_0000_0001, 9, -5));
    buf.extend_from_slice(&[1, 2, 3]);
    let (events, result) = parse_buffer(&buf);
    assert!(result.is_ok());
    assert_eq!(
        events,
        vec![
            PermissionMetadata { fd: 7, pid: 1234, mask: 0x0001_0000 },
            PermissionMetadata { fd: 9, pid: -5, mask: 0x8000_0000_0000_0001 },
        ]
    );
}

#[test]
fn a_record_of_another_version_stops_decoding() {
    let mut buf = record(24, 3, 1, 7, 1);
    buf.extend(record(24, 2, 1, 8, 1));
    let (events, result) = parse_buffer(&buf);
    assert_eq!(events.len(), 1);
    assert_eq!(result, Err("fanotify metadata version 2 does not match expected 3".to_string()));
}

#[test]
fn a_record_longer_than_the_buffer_is_refused() {
    let buf = record(30, 3, 1, 7, 1);
    let (events, result) = parse_buffer(&buf);
    assert!(events.is_empty());
    assert_eq!(result, Err("fanotify invalid event length 30".to_string()));
    let (_, short) = parse_buffer(&record(20, 3, 1, 7, 1));
    assert_eq!(short, Err("fanotify invalid event length 20".to_string()));
}
