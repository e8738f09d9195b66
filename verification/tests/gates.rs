use actraild::body_retention::{
    PayloadBodyRetention, PayloadBodyRetentionDecision, PayloadBodyRetentionGate,
};
use actraild::payload::{
    PayloadContentState, PayloadDirection, PayloadOperationCompletionState, PayloadSegment,
    PayloadSourceBoundary, PayloadTruncationState, RawPayloadSegment,
};
use actraild::socket::{
    sniff_http_protocol, socket_payload_prefix_is_http_candidate,
    socket_payload_prefix_is_tls_hello, truncate_to_http_prefix, SniffingSocketStream,
    SocketHttpPayloadGate, SocketSniffOutcome,
};

fn stored(direction: PayloadDirection, stream_key: &str, bytes: &[u8]) -> PayloadSegment {
    PayloadSegment {
        trace_id: 1,
        process: 2,
        source_boundary: PayloadSourceBoundary::TlsUserSpace,
        content_state: PayloadContentState::Plaintext,
        direction,
        stream_key: stream_key.to_string(),
        captured_size: bytes.len() as u64,
        bytes: bytes.to_vec(),
    }
}

fn frame(frame_type: u8, flags: u8, stream_id: u32, payload: &[u8]) -> Vec<u8> {
    let len = payload.len();
    let mut out = vec![(len >> 16) as u8, (len >> 8) as u8, len as u8, frame_type, flags];
    out.extend_from_slice(&stream_id.to_be_bytes());
    out.extend_from_slice(payload);
    out
}

fn socket_segment(trace_id: u64, stream_key: &str, library: &str, bytes: &[u8]) -> RawPayloadSegment {
    RawPayloadSegment {
        trace_id,
        observed_at: 1,
        process: 9,
        source_boundary: PayloadSourceBoundary::Syscall,
        content_state: PayloadContentState::Plaintext,
        direction: PayloadDirection::Outbound,
        stream_key: stream_key.to_string(),
        sequence: 1,
        original_size: bytes.len() as u64,
        captured_size: bytes.len() as u64,
        operation_id: 1,
        operation_offset: 0,
        operation_original_size: bytes.len() as u64,
        operation_captured_size: bytes.len() as u64,
        operation_completion_state: PayloadOperationCompletionState::Success,
        truncation: PayloadTruncationState::Complete,
        library: library.to_string(),
        symbol: "write".to_string(),
        protocol_hint: None,
        bytes: bytes.to_vec(),
    }
}

#[test]
fn llm_request_is_remembered_for_the_stream() {
    let mut gate = PayloadBodyRetentionGate::new(64);
    let request = stored(
        PayloadDirection::Outbound,
        "tls:1",
        b"POST / HTTP/1.1\r\nContent-Length: 27\r\n\r\n{\"model\":\"x\",\"messages\":[]}",
    );
    let decision = gate.decide(&request);
    assert_eq!(
        decision,
        PayloadBodyRetentionDecision::remember(PayloadBodyRetention::Full, None)
    );
    gate.apply(&request, decision);
    assert_eq!(gate.lookup_exact(&request, None), Some(PayloadBodyRetention::Full));
    let later = stored(PayloadDirection::Inbound, "tls:1", b"opaque continuation");
    assert_eq!(
        gate.decide(&later),
        PayloadBodyRetentionDecision::transient(PayloadBodyRetention::Full)
    );
    gate.forget_trace(1);
    assert_eq!(gate.lookup_exact(&request, None), None);
}

#[test]
fn non_llm_response_is_summary_only_by_default() {
    let mut gate = PayloadBodyRetentionGate::new(64);
    let response = stored(
        PayloadDirection::Inbound,
        "tls:2",
        b"HTTP/1.1 200 OK\r\nContent-Length: 2\r\n\r\nok",
    );
    assert_eq!(
        gate.decide(&response),
        PayloadBodyRetentionDecision::transient(PayloadBodyRetention::SummaryOnly)
    );
    let mut undecoded = stored(PayloadDirection::Inbound, "tls:2", b"anything");
    undecoded.content_state = PayloadContentState::Undecoded;
    assert_eq!(
        gate.decide(&undecoded),
        PayloadBodyRetentionDecision::transient(PayloadBodyRetention::Full)
    );
}

#[test]
fn http2_probe_budget_turns_summary_only() {
    let mut gate = PayloadBodyRetentionGate::new(64);
    let first = stored(PayloadDirection::Outbound, "tls:3", &frame(0, 0, 1, b"plain body"));
    assert_eq!(
        gate.decide(&first),
        PayloadBodyRetentionDecision::transient(PayloadBodyRetention::Full)
    );
    let second = stored(PayloadDirection::Outbound, "tls:3", &frame(0, 0, 1, &[b'z'; 50]));
    let decision = gate.decide(&second);
    assert_eq!(
        decision,
        PayloadBodyRetentionDecision::remember(PayloadBodyRetention::SummaryOnly, Some(1))
    );
    gate.apply(&second, decision);
    assert_eq!(
        gate.lookup_exact(&second, Some(1)),
        Some(PayloadBodyRetention::SummaryOnly)
    );
}

#[test]
fn socket_sniffing_outcomes() {
    assert!(matches!(sniff_http_protocol(b"GET / HTTP/1.1\r\n"), SocketSniffOutcome::Accept(p) if p.protocol_hint == "http/1.x" && !p.client_connect));
    assert!(matches!(sniff_http_protocol(b"CONNECT h:443 HTTP/1.1\r\n"), SocketSniffOutcome::Accept(p) if p.client_connect));
    assert!(matches!(sniff_http_protocol(b"HTTP/1.1 200 OK\r\n"), SocketSniffOutcome::Accept(_)));
    assert!(matches!(sniff_http_protocol(b"PRI * HTTP/2.0\r\n\r\nSM\r\n\r\n"), SocketSniffOutcome::Accept(p) if p.protocol_hint == "http/2"));
    assert!(matches!(sniff_http_protocol(b"PRI * HT"), SocketSniffOutcome::NeedMore));
    assert!(matches!(sniff_http_protocol(b"GET / HTTP/1.1"), SocketSniffOutcome::NeedMore));
    assert!(matches!(sniff_http_protocol(b"SSH-2.0-OpenSSH\r\n"), SocketSniffOutcome::Reject));
    assert!(socket_payload_prefix_is_http_candidate(b"GET", false));
    assert!(!socket_payload_prefix_is_http_candidate(b"GET", true));
    assert!(!socket_payload_prefix_is_http_candidate(b"\x16\x03\x01\n", false));
}

#[test]
fn tls_hello_records_are_recognised() {
    let mut hello = vec![22, 3, 1, 0, 60, 1, 0, 0, 56];
    hello.extend(vec![0; 56]);
    assert!(socket_payload_prefix_is_tls_hello(&hello));
    hello[5] = 3;
    assert!(!socket_payload_prefix_is_tls_hello(&hello));
    assert!(!socket_payload_prefix_is_tls_hello(&[22, 3, 1]));
}

#[test]
fn sniffing_stream_holds_until_verdict() {
    let mut stream = SniffingSocketStream::new(64);
    let held = stream.admit_segment(socket_segment(1, "s", "socket-syscall", b"GE")).unwrap();
    assert!(held.is_empty());
    let released = stream
        .admit_segment(socket_segment(1, "s", "socket-syscall", b"T / HTTP/1.1\r\n"))
        .unwrap();
    assert_eq!(released.len(), 2);
    assert_eq!(released[0].bytes, b"GE".to_vec());
    assert_eq!(released[1].protocol_hint.as_deref(), Some("http/1.x"));
    let after = stream.admit_segment(socket_segment(1, "s", "socket-syscall", b"body")).unwrap();
    assert_eq!(after.len(), 1);
    assert_eq!(after[0].protocol_hint.as_deref(), Some("http/1.x"));
}

#[test]
fn socket_gate_keeps_http_streams_within_limit() {
    let mut gate = SocketHttpPayloadGate::new(64, 2);
    let http = gate.admit_segment(socket_segment(1, "a", "socket-syscall", b"GET / HTTP/1.1\r\n")).unwrap();
    assert_eq!(http.len(), 1);
    assert_eq!(http[0].protocol_hint.as_deref(), Some("http/1.x"));
    let ssh = gate.admit_segment(socket_segment(1, "b", "socket-syscall", b"SSH-2.0\r\n")).unwrap();
    assert!(ssh.is_empty());
    let again = gate.admit_segment(socket_segment(1, "b", "socket-syscall", b"GET / HTTP/1.1\r\n")).unwrap();
    assert!(again.is_empty());
    let refused = gate.admit_segment(socket_segment(1, "c", "socket-syscall", b"GET / HTTP/1.1\r\n"));
    assert_eq!(
        refused.err(),
        Some("socket HTTP payload stream count would exceed configured maximum 2".to_string())
    );
    let other = gate.admit_segment(socket_segment(1, "c", "openssl", b"anything")).unwrap();
    assert_eq!(other.len(), 1);
    assert_eq!(other[0].protocol_hint, None);
    gate.forget_stream(1, 9, "b");
    let fresh = gate.admit_segment(socket_segment(1, "c", "socket-syscall", b"GET / HTTP/1.1\r\n")).unwrap();
    assert_eq!(fresh.len(), 1);
    gate.forget_trace(1);
    let new_trace = gate.admit_segment(socket_segment(1, "d", "socket-syscall", b"HTTP/1.1 200 OK\r\n")).unwrap();
    assert_eq!(new_trace.len(), 1);
}

#[test]
fn truncation_to_http_prefix() {
    let mut segment = socket_segment(1, "s", "socket-syscall", b"HTTP/1.1 200 OK\r\n\r\nTLSDATA");
    assert_eq!(truncate_to_http_prefix(&mut segment, 19), Ok(()));
    assert_eq!(segment.bytes, b"HTTP/1.1 200 OK\r\n\r\n".to_vec());
    assert_eq!(segment.captured_size, 19);
    assert_eq!(segment.operation_captured_size, 19);
    assert_eq!(segment.truncation, PayloadTruncationState::Truncated);
    assert_eq!(
        segment.operation_completion_state,
        PayloadOperationCompletionState::Partial
    );
    let mut whole = socket_segment(1, "s", "socket-syscall", b"abc");
    assert_eq!(truncate_to_http_prefix(&mut whole, 3), Ok(()));
    assert_eq!(whole.truncation, PayloadTruncationState::Complete);
    assert_eq!(
        truncate_to_http_prefix(&mut whole, 4),
        Err("CONNECT response prefix 4 exceeds captured segment size 3".to_string())
    );
    let mut short = socket_segment(1, "s", "socket-syscall", b"abcdef");
    short.operation_captured_size = 1;
    assert_eq!(
        truncate_to_http_prefix(&mut short, 2),
        Err("CONNECT response captured size underflow".to_string())
    );
    assert_eq!(short.bytes, b"ab".to_vec());
}
