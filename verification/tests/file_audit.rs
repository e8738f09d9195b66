use actraild::file_audit::{
    audit_draft, boundary_alert, insert_decision_source_metadata, outcome_draft, Decision, DecisionSource,
    FileAccessDenySource, FileKey,
};
use actraild::file_policy::{EnforcementRule, FilePolicyOperation, RuleDecision};
use actraild::rules::{EnforcementDecision, SyncPluginFallbackReason};
use actraild::strmap::StringMap;

fn rule() -> EnforcementRule {
    EnforcementRule {
        owner_instance_id: "p1".to_string(),
        rule_id: "fp-1".to_string(),
        decision: RuleDecision::Local(EnforcementDecision::Deny),
        operation: "open".to_string(),
        path: "/home/u/secret".to_string(),
    }
}

fn get(m: &StringMap, k: &str) -> Option<String> {
    m.get(k).cloned()
}

#[test]
fn fallback_source_metadata_records_limits_and_verdict() {
    let mut m = StringMap::new();
    insert_decision_source_metadata(
        &mut m,
        &DecisionSource::SyncPluginFallback {
            instance_id: "7".to_string(),
            timeout_ms: 250,
            concurrency_limit: 4,
            reason: SyncPluginFallbackReason::ConcurrencyLimit,
            error: None,
            in_flight: Some(4),
            instance_concurrency_limit: None,
            instance_in_flight: Some(2),
            fallback: EnforcementDecision::Deny,
        },
    );
    assert_eq!(get(&m, "decision_source"), Some("sync-plugin-fallback".to_string()));
    assert_eq!(get(&m, "plugin_instance"), Some("7".to_string()));
    assert_eq!(get(&m, "plugin_timeout_ms"), Some("250".to_string()));
    assert_eq!(get(&m, "plugin_concurrency_limit"), Some("4".to_string()));
    assert_eq!(get(&m, "fallback_reason"), Some("concurrency_limit".to_string()));
    assert_eq!(get(&m, "plugin_error"), None);
    assert_eq!(get(&m, "plugin_inflight"), Some("4".to_string()));
    assert_eq!(get(&m, "plugin_instance_concurrency_limit"), None);
    assert_eq!(get(&m, "plugin_instance_inflight"), Some("2".to_string()));
    assert_eq!(get(&m, "fallback_decision"), Some("deny".to_string()));
    assert_eq!(m.len(), 8);
}

#[test]
fn sync_plugin_source_metadata_names_scope_and_reason() {
    let mut m = StringMap::new();
    insert_decision_source_metadata(
        &mut m,
        &DecisionSource::SyncPlugin {
            instance_id: "7".to_string(),
            timeout_ms: 30_000,
            concurrency_limit: 32,
            scope: "trace".to_string(),
            reason: Some("secret file".to_string()),
        },
    );
    assert_eq!(get(&m, "decision_source"), Some("sync-plugin".to_string()));
    assert_eq!(get(&m, "decision_scope"), Some("trace".to_string()));
    assert_eq!(get(&m, "plugin_reason"), Some("secret file".to_string()));
    assert_eq!(get(&m, "plugin_timeout_ms"), Some("30000".to_string()));
    assert_eq!(m.len(), 6);
}

#[test]
fn audit_record_of_a_rule_denial() {
    let r = rule();
    let d = Decision { decision: EnforcementDecision::Deny, rule: Some(&r), source: DecisionSource::Rule };
    let a = audit_draft(&d, FilePolicyOperation::Open, Some(FileKey { dev: 8, ino: 42 }), Some("/other".to_string()), None);
    assert!(!a.metadata_partial);
    assert_eq!(a.payload.backend, "fanotify");
    assert_eq!(a.payload.operation, "open");
    assert_eq!(a.payload.decision, "deny");
    assert_eq!(a.payload.path, Some("/home/u/secret".to_string()));
    assert_eq!(a.payload.rule_id, Some("fp-1".to_string()));
    assert_eq!(a.payload.result, "denied");
    assert_eq!(get(&a.payload.metadata, "scope"), Some("trace".to_string()));
    assert_eq!(get(&a.payload.metadata, "file_dev"), Some("8".to_string()));
    assert_eq!(get(&a.payload.metadata, "file_ino"), Some("42".to_string()));
    assert_eq!(get(&a.payload.metadata, "decision_source"), Some("rule".to_string()));
    assert_eq!(a.payload.metadata.len(), 4);
}

#[test]
fn audit_record_without_rule_uses_the_observed_path() {
    let d = Decision { decision: EnforcementDecision::Allow, rule: None, source: DecisionSource::Default };
    let a = audit_draft(&d, FilePolicyOperation::Mkdir, None, Some("/tmp/x".to_string()), Some("no inode".to_string()));
    assert!(a.metadata_partial);
    assert_eq!(a.payload.path, Some("/tmp/x".to_string()));
    assert_eq!(a.payload.rule_id, None);
    assert_eq!(a.payload.result, "allowed");
    assert_eq!(a.payload.operation, "mkdir");
    assert_eq!(get(&a.payload.metadata, "audit_metadata_error"), Some("no inode".to_string()));
    assert_eq!(get(&a.payload.metadata, "decision_source"), Some("default".to_string()));
}

#[test]
fn only_denials_by_rules_or_their_plugins_raise_alerts() {
    let r = rule();
    let by_rule = Decision { decision: EnforcementDecision::Deny, rule: Some(&r), source: DecisionSource::Rule };
    let a = boundary_alert(&by_rule, FilePolicyOperation::Open, 77, Some("/home/u/./secret")).unwrap();
    assert_eq!(a.source, FileAccessDenySource::FastPathDeny);
    assert_eq!(a.observed_path, "/home/u/./secret");
    assert_eq!(a.rule_path, "/home/u/secret");
    assert_eq!(a.owner_instance_id, "p1");
    assert_eq!(a.process_id, 77);
    assert_eq!(a.decider_plugin_instance_id, None);

    let cached = Decision {
        decision: EnforcementDecision::Deny,
        rule: Some(&r),
        source: DecisionSource::SyncPluginCache { instance_id: "7".to_string() },
    };
    let a = boundary_alert(&cached, FilePolicyOperation::Open, 77, None).unwrap();
    assert_eq!(a.source, FileAccessDenySource::GrayPluginCacheDeny);
    assert_eq!(a.observed_path, "/home/u/secret");
    assert_eq!(a.decider_plugin_instance_id, Some("7".to_string()));

    let allowed = Decision { decision: EnforcementDecision::Allow, rule: Some(&r), source: DecisionSource::Rule };
    assert!(boundary_alert(&allowed, FilePolicyOperation::Open, 77, None).is_none());
    let default_deny = Decision { decision: EnforcementDecision::Deny, rule: None, source: DecisionSource::Default };
    assert!(boundary_alert(&default_deny, FilePolicyOperation::Open, 77, None).is_none());
    let fallback = Decision {
        decision: EnforcementDecision::Deny,
        rule: Some(&r),
        source: DecisionSource::SyncPluginFallback {
            instance_id: "7".to_string(),
            timeout_ms: 1,
            concurrency_limit: 1,
            reason: SyncPluginFallbackReason::PluginError,
            error: Some("boom".to_string()),
            in_flight: None,
            instance_concurrency_limit: None,
            instance_in_flight: None,
            fallback: EnforcementDecision::Deny,
        },
    };
    assert!(boundary_alert(&fallback, FilePolicyOperation::Open, 77, None).is_none());
}

#[test]
fn outcome_is_left_only_when_audited_or_alerted() {
    let r = rule();
    let allowed = Decision { decision: EnforcementDecision::Allow, rule: Some(&r), source: DecisionSource::Rule };
    assert!(outcome_draft(1, 77, &allowed, false, FilePolicyOperation::Open, None, None, None, 5).is_none());
    let denied = Decision { decision: EnforcementDecision::Deny, rule: Some(&r), source: DecisionSource::Rule };
    let o = outcome_draft(1, 77, &denied, false, FilePolicyOperation::Open, None, None, None, 5).unwrap();
    assert!(o.audit.is_none());
    assert!(o.boundary_alert.is_some());
    assert_eq!(o.observed_at, 5);
    let o = outcome_draft(1, 77, &allowed, true, FilePolicyOperation::Open, None, None, None, 5).unwrap();
    assert!(o.audit.is_some());
    assert!(o.boundary_alert.is_none());
    assert_eq!(o.trace_id, 1);
}
