use actraild::body_retention::{
    classify_http1_request, classify_http1_response, http1_body, http1_content_length,
};
use actraild::connect::{ConnectRequestLine, ConnectRequestOutcome, ConnectResponseHead, ConnectResponseOutcome};
use actraild::http2::{
    body_looks_like_llm_request, body_looks_like_llm_response, candidate_stream_id,
    classify_request, classify_response, connection_preface, data_payload, decode_frame,
    frames, known_frame_stream_id, stream_id_is_valid,
};

fn frame(frame_type: u8, flags: u8, stream_id: u32, payload: &[u8]) -> Vec<u8> {
    let len = payload.len();
    let mut out = vec![(len >> 16) as u8, (len >> 8) as u8, len as u8, frame_type, flags];
    out.extend_from_slice(&stream_id.to_be_bytes());
    out.extend_from_slice(payload);
    out
}

const LLM_REQUEST: &[u8] = br#"{"model":"x","messages":[]}"#;

#[test]
fn stream_id_validity_by_frame_type() {
    assert!(stream_id_is_valid(0, 1));
    assert!(!stream_id_is_valid(0, 0));
    assert!(stream_id_is_valid(4, 0));
    assert!(!stream_id_is_valid(4, 3));
    assert!(stream_id_is_valid(8, 0));
    assert!(stream_id_is_valid(8, 9));
    assert!(!stream_id_is_valid(10, 1));
}

#[test]
fn frame_headers_decode_with_reserved_bit_ignored() {
    let headers = frame(1, 4, 0x8000_0005, b"abc");
    assert_eq!(known_frame_stream_id(&headers), Some(5));
    let decoded = decode_frame(&headers).unwrap();
    assert_eq!(decoded.frame_type, 1);
    assert_eq!(decoded.flags, 4);
    assert_eq!(decoded.stream_id, 5);
    assert_eq!(decoded.encoded_len, 12);
    assert!(decode_frame(&headers[..10]).is_none());
    assert_eq!(known_frame_stream_id(&frame(4, 0, 7, b"")), None);
    assert_eq!(known_frame_stream_id(b"short"), None);
}

#[test]
fn padded_data_payload_drops_padding() {
    assert_eq!(data_payload(0x8, &[2, b'a', b'b', 0, 0]), Some(&b"ab"[..]));
    assert_eq!(data_payload(0x0, b"xy"), Some(&b"xy"[..]));
    assert_eq!(data_payload(0x8, &[5, b'a']), None);
    assert_eq!(data_payload(0x8, &[]), None);
}

#[test]
fn frames_collect_stream_and_data_bodies() {
    let mut bytes = connection_preface().to_vec();
    bytes.extend(frame(4, 0, 0, b""));
    bytes.extend(frame(1, 4, 3, b"hdrs"));
    bytes.extend(frame(0, 0, 3, b"hello "));
    bytes.extend(frame(0, 1, 3, b"world"));
    let collected = frames(&bytes).unwrap();
    assert_eq!(collected.stream_id, Some(3));
    assert_eq!(collected.body, b"hello world".to_vec());
    assert!(collected.saw_http_frame);
    assert!(frames(b"").is_none());
    let mut bad = frame(0, 0, 0, b"x");
    bad.extend(frame(1, 0, 1, b""));
    assert!(frames(&bad).is_none());
}

#[test]
fn http2_llm_classification() {
    let request = frame(0, 1, 1, LLM_REQUEST);
    let classified = classify_request(&request).unwrap();
    assert_eq!(classified.stream_id, Some(1));
    assert!(classified.llm);
    assert!(classify_request(&frame(1, 4, 1, b"hdrs")).is_none());
    let response = frame(0, 0, 1, b"event: message_stop");
    assert!(classify_response(&response).unwrap().llm);
    let headers_only = classify_response(&frame(1, 4, 9, b"hdrs")).unwrap();
    assert_eq!(headers_only.stream_id, Some(9));
    assert!(!headers_only.llm);
}

#[test]
fn llm_body_heuristics_ignore_ascii_case() {
    assert!(body_looks_like_llm_request(br#"{"MODEL":"m","Prompt":"p"}"#));
    assert!(body_looks_like_llm_request(br#"{"model":"m","input":"p"}"#));
    assert!(!body_looks_like_llm_request(br#"{"model":"m"}"#));
    assert!(body_looks_like_llm_response(b"data: [DONE]"));
    assert!(body_looks_like_llm_response(br#"{"model":"m","choices":[]}"#));
    assert!(!body_looks_like_llm_response(br#"{"choices":[]}"#));
}

#[test]
fn candidate_stream_ids_of_fragments() {
    assert_eq!(candidate_stream_id(&connection_preface()), Some(None));
    assert_eq!(candidate_stream_id(&frame(4, 0, 0, b"")), Some(None));
    assert_eq!(candidate_stream_id(&frame(1, 0, 5, b"")), Some(Some(5)));
    assert_eq!(candidate_stream_id(b"GET / HTTP/1.1\r\n"), None);
}

#[test]
fn http1_content_length_lines() {
    assert_eq!(http1_content_length(b"POST / HTTP/1.1\r\nHost: x\r\ncontent-length:  12 "), Some(Some(12)));
    assert_eq!(http1_content_length(b"POST / HTTP/1.1\r\nContent-Length: abc"), None);
    assert_eq!(http1_content_length(b"GET / HTTP/1.1\r\nHost: x"), Some(None));
}

#[test]
fn http1_body_bounds() {
    let bytes = b"POST / HTTP/1.1\r\nContent-Length: 5\r\n\r\nabcdefg";
    let header = &bytes[..34];
    let body = http1_body(bytes, header, 38).unwrap();
    assert_eq!((body.start, body.end, body.complete), (38, 43, true));
    let short = b"POST / HTTP/1.1\r\nContent-Length: 5\r\n\r\nab";
    let body = http1_body(short, header, 38).unwrap();
    assert_eq!((body.start, body.end, body.complete), (38, 40, false));
}

#[test]
fn http1_body_start_past_bytes_is_empty() {
    let bytes = b"POST / HTTP/1.1\r\nContent-Length: 5\r\n\r\nabcdefg";
    let header = &bytes[..34];
    let body = http1_body(bytes, header, 60).unwrap();
    assert_eq!((body.start, body.end, body.complete), (45, 45, false));
    let no_length = b"GET / HTTP/1.1\r\nHost: x";
    let body = http1_body(bytes, no_length, 60).unwrap();
    assert_eq!((body.start, body.end, body.complete), (45, 45, true));
}

#[test]
fn http1_request_classification() {
    let mut llm = b"POST /v1/chat HTTP/1.1\r\nContent-Length: 27\r\n\r\n".to_vec();
    llm.extend_from_slice(LLM_REQUEST);
    let classified = classify_http1_request(&llm).unwrap();
    assert!(classified.llm);
    assert!(classified.summary_only_safe);
    assert_eq!(classified.stream_id, None);

    let connect = classify_http1_request(b"CONNECT host:443 HTTP/1.1\r\n\r\n").unwrap();
    assert!(!connect.llm && connect.summary_only_safe);

    assert!(classify_http1_request(b"POST / HTTP/1.1\r\nContent-Length: 10\r\n\r\n").is_none());
    let get = classify_http1_request(b"GET / HTTP/1.1\r\nHost: x\r\n\r\n").unwrap();
    assert!(!get.llm && get.summary_only_safe);
    assert!(classify_http1_request(b"FOO / HTTP/1.1\r\n\r\n").is_none());
    assert!(classify_http1_request(b"GET / HTTP/1.1\r\nHost: x\r\n").is_none());
}

#[test]
fn http1_response_classification() {
    let sse = classify_http1_response(b"HTTP/1.1 200 OK\r\n\r\ndata: [DONE]").unwrap();
    assert!(sse.llm);
    assert!(!sse.summary_only_safe);
    let plain = classify_http1_response(b"HTTP/1.1 404 Not Found\r\nContent-Length: 0\r\n\r\n").unwrap();
    assert!(!plain.llm);
    assert!(classify_http1_response(b"GET / HTTP/1.1\r\n\r\n").is_none());
}

#[test]
fn connect_response_status_codes() {
    assert_eq!(ConnectResponseHead::status_code(b"HTTP/1.1 200 Connection established\r\n\r\n"), Some(200));
    assert_eq!(ConnectResponseHead::status_code(b"HTTP/1.0 407 Proxy\r\n"), Some(407));
    assert_eq!(ConnectResponseHead::status_code(b"HTTP/2 200\r\n"), None);
    assert_eq!(ConnectResponseHead::status_code(b"HTTP/1.1 20x\r\n"), None);
    assert_eq!(ConnectResponseHead::status_code(b"HTTP/1.1 200"), None);
}

#[test]
fn connect_response_heads_settle_the_tunnel() {
    let mut buffer = Vec::new();
    assert!(matches!(
        ConnectResponseHead::observe(&mut buffer, b"HTTP/1.1 200 OK\r\n", 64),
        ConnectResponseOutcome::NeedMore
    ));
    assert!(matches!(
        ConnectResponseHead::observe(&mut buffer, b"\r\nTLS", 64),
        ConnectResponseOutcome::Established { admitted_prefix_len: 2 }
    ));
    let mut buffer = Vec::new();
    assert!(matches!(
        ConnectResponseHead::observe(&mut buffer, b"HTTP/1.1 100 Continue\r\n\r\nHTTP/1.1 204 No\r\n\r\nrest", 128),
        ConnectResponseOutcome::Established { admitted_prefix_len: 44 }
    ));
    let mut buffer = Vec::new();
    assert!(matches!(
        ConnectResponseHead::observe(&mut buffer, b"HTTP/1.1 407 Auth\r\n\r\n", 64),
        ConnectResponseOutcome::Retry
    ));
    let mut buffer = Vec::new();
    assert!(matches!(
        ConnectResponseHead::observe(&mut buffer, b"garbage without end", 8),
        ConnectResponseOutcome::StopTracking
    ));
}

#[test]
fn connect_request_lines_after_refusal() {
    let mut buffer = Vec::new();
    assert!(matches!(
        ConnectRequestLine::observe(&mut buffer, b"CONNECT host:443 HTTP/1.1", 64),
        ConnectRequestOutcome::NeedMore
    ));
    assert!(matches!(
        ConnectRequestLine::observe(&mut buffer, b"\r\n", 64),
        ConnectRequestOutcome::Connect
    ));
    let mut buffer = Vec::new();
    assert!(matches!(
        ConnectRequestLine::observe(&mut buffer, b"GET / HTTP/1.1\r\n", 64),
        ConnectRequestOutcome::Other
    ));
}
