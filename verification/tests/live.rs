use actraild::live::{
    event_transport_loss_message, parse_tls_summary_hint, publish_outcome,
    remove_if_matches_path, tls_diag_reason, tls_direction, tls_library, tls_symbol,
    writer_health, LiveOtelPublishResult, SpanSendOutcome,
};
use actraild::strmap::StringMap;

#[test]
fn loss_message_of_none_one_and_many_reports() {
    assert_eq!(event_transport_loss_message(&[]), "");
    assert_eq!(
        event_transport_loss_message(&["ring buffer lost 3".to_string()]),
        "ring buffer lost 3"
    );
    assert_eq!(
        event_transport_loss_message(&[
            "cpu0 lost 1".to_string(),
            "cpu1 lost 2".to_string(),
            "cpu2 lost 4".to_string(),
        ]),
        "3 kernel event transport loss reports: cpu0 lost 1; cpu1 lost 2; cpu2 lost 4"
    );
}

#[test]
fn metadata_path_is_removed_only_when_it_matches() {
    let mut metadata = StringMap::new();
    metadata.insert("raw_path".to_string(), "/tmp/x".to_string());
    metadata.insert("fd_target".to_string(), "/tmp/y".to_string());
    remove_if_matches_path(&mut metadata, "raw_path", Some("/tmp/x"));
    assert!(metadata.get("raw_path").is_none());
    remove_if_matches_path(&mut metadata, "fd_target", Some("/tmp/x"));
    assert_eq!(metadata.get("fd_target").map(String::as_str), Some("/tmp/y"));
    remove_if_matches_path(&mut metadata, "fd_target", None);
    assert_eq!(metadata.len(), 1);
    remove_if_matches_path(&mut metadata, "missing", Some("/tmp/y"));
    assert_eq!(metadata.len(), 1);
}

#[test]
fn tls_summary_hint_fields() {
    let fields = parse_tls_summary_hint("tls-summary;reason=too_large;protocol=h2").unwrap();
    assert_eq!(fields.len(), 2);
    assert_eq!(fields.get("reason").map(String::as_str), Some("too_large"));
    assert_eq!(fields.get("protocol").map(String::as_str), Some("h2"));
}

#[test]
fn tls_summary_hint_edge_cases() {
    assert!(parse_tls_summary_hint("tls-sum").is_none());
    assert!(parse_tls_summary_hint("http/1.x").is_none());
    let empty = parse_tls_summary_hint("tls-summary;").unwrap();
    assert_eq!(empty.len(), 0);
    let fields = parse_tls_summary_hint("tls-summary;a=1;noequals;;a=2;b=x=y;=v").unwrap();
    assert_eq!(fields.get("a").map(String::as_str), Some("2"));
    assert_eq!(fields.get("b").map(String::as_str), Some("x=y"));
    assert_eq!(fields.get("").map(String::as_str), Some("v"));
    assert!(fields.get("noequals").is_none());
    assert_eq!(fields.len(), 3);
    let unicode = parse_tls_summary_hint("tls-summary;原因=过大").unwrap();
    assert_eq!(unicode.get("原因").map(String::as_str), Some("过大"));
}

#[test]
fn tls_diagnostic_names() {
    assert_eq!(tls_diag_reason(1), "trace_lookup_miss");
    assert_eq!(tls_diag_reason(2), "trace_lookup_host_fallback");
    assert_eq!(tls_diag_reason(3), "empty_buffer");
    assert_eq!(tls_diag_reason(4), "pending_update_fail");
    assert_eq!(tls_diag_reason(5), "pending_namespace_update_fail");
    assert_eq!(tls_diag_reason(6), "completion_missing_pending");
    assert_eq!(tls_diag_reason(0), "unknown");
    assert_eq!(tls_direction(1), "outbound");
    assert_eq!(tls_direction(2), "inbound");
    assert_eq!(tls_direction(9), "unknown");
    assert_eq!(tls_symbol(1), "SSL_write");
    assert_eq!(tls_symbol(4), "SSL_read_ex");
    assert_eq!(tls_symbol(6), "rustls_write_vectored");
    assert_eq!(tls_symbol(7), "unknown");
    assert_eq!(tls_library(1), "openssl");
    assert_eq!(tls_library(2), "boringssl");
    assert_eq!(tls_library(3), "rustls");
    assert_eq!(tls_library(0), "unknown");
}

#[test]
fn live_otel_publish_outcomes() {
    assert_eq!(
        publish_outcome(SpanSendOutcome::Full).ok(),
        Some(LiveOtelPublishResult { dropped_spans: 1 })
    );
    assert_eq!(
        publish_outcome(SpanSendOutcome::Queued).ok().map(|r| r.dropped_spans()),
        Some(0)
    );
    assert_eq!(
        publish_outcome(SpanSendOutcome::Disabled).ok().map(|r| r.dropped_spans()),
        Some(0)
    );
    let error = publish_outcome(SpanSendOutcome::Disconnected).unwrap_err();
    assert_eq!(error.code, "otel_live_export");
    assert_eq!(error.message, "writer channel disconnected");
}

#[test]
fn writer_health_reports_recorded_error() {
    assert!(writer_health(&None).is_ok());
    let error = writer_health(&Some("disk full".to_string())).unwrap_err();
    assert_eq!(error.code, "otel_live_export");
    assert_eq!(error.message, "disk full");
}
