use actraild::redaction::{
    redact_authorization_header, redact_payload_bytes, PayloadRedactionPolicy,
    PayloadRedactionState,
};

fn redact(bytes: &[u8]) -> (Vec<u8>, PayloadRedactionState) {
    redact_payload_bytes(PayloadRedactionPolicy::AuthorizationHeader, bytes.to_vec())
}

#[test]
fn disabled_policy_keeps_bytes() {
    let input = b"Authorization: Bearer secret\r\n".to_vec();
    assert_eq!(
        redact_payload_bytes(PayloadRedactionPolicy::Disabled, input.clone()),
        (input, PayloadRedactionState::Unredacted)
    );
}

#[test]
fn authorization_lines_are_replaced_keeping_line_endings() {
    let input = b"GET / HTTP/1.1\r\nAuthorization: Bearer secret\r\nHost: x\r\n\r\n";
    assert_eq!(
        redact(input),
        (
            b"GET / HTTP/1.1\r\nAuthorization: <redacted>\r\nHost: x\r\n\r\n".to_vec(),
            PayloadRedactionState::Redacted
        )
    );
    assert_eq!(
        redact(b"AUTHORIZATION: basic abc\nnext\n"),
        (
            b"Authorization: <redacted>\nnext\n".to_vec(),
            PayloadRedactionState::Redacted
        )
    );
    assert_eq!(
        redact(b"x\nauthorization:tail"),
        (
            b"x\nAuthorization: <redacted>".to_vec(),
            PayloadRedactionState::Redacted
        )
    );
}

#[test]
fn other_lines_pass_unchanged() {
    let input = b"Host: example\r\nX-Authorization: keep\r\n authorization: indented\n";
    assert_eq!(redact(input), (input.to_vec(), PayloadRedactionState::Unredacted));
    assert_eq!(redact(b""), (Vec::new(), PayloadRedactionState::Unredacted));
    assert_eq!(
        redact_authorization_header(b"\n\n".to_vec()),
        (b"\n\n".to_vec(), PayloadRedactionState::Unredacted)
    );
}

#[test]
fn redaction_is_idempotent() {
    let (once, state) = redact(b"authorization: a\r\nAuthorization: b\nok");
    assert_eq!(state, PayloadRedactionState::Redacted);
    let (twice, _) = redact(&once);
    assert_eq!(twice, once);
}
