use actraild::decision::NetworkDecisionAccounting;
use actraild::net_connect::{
    completion_decision, connect_event_metadata, connect_step, concurrency_limited_outcome, gray_admission,
    network_audit_metadata, network_control_decision, network_control_metadata, network_failure_metadata,
    plugin_failure_reason, policy_decision, response_outcome, sync_plugin_outcome, try_reserve_rule, release_rule,
    ConnectStep, ControlDecisionResponse, GrayStep, NetworkControlOutcome, NetworkDecisionSource,
    PluginDecisionOutcome, PluginRuntimeError, PluginScope, SyncPluginEndpointRule,
};
use actraild::counts::InFlightCounts;
use actraild::net_gray::{ReusableDecisionCache, ReusableDecisionKey};
use actraild::net_policy::{ControlVerdict, NetworkPolicyDecision, NetworkRemoteSelector, RemoteSelector};
use actraild::net_rules::StoredNetworkRule;
use actraild::rules::EnforcementDecision;
use actraild::sockaddr::{IpAddress, SocketEndpoint};

fn endpoint() -> SocketEndpoint {
    SocketEndpoint { ip: IpAddress::V4([10, 0, 0, 1]), port: 443 }
}

fn rule(decision: NetworkPolicyDecision) -> StoredNetworkRule {
    StoredNetworkRule {
        owner_instance_id: "owner".to_string(),
        rule_id: "r1".to_string(),
        decision,
        remote: NetworkRemoteSelector {
            selector: RemoteSelector::Endpoint(endpoint()),
            text: "10.0.0.1:443".to_string(),
            endpoint_text: "10.0.0.1:443".to_string(),
        },
        gray_target: Some("decider".to_string()),
        timeout_ms: Some(100),
        concurrency_limit: Some(1),
        fallback: Some(EnforcementDecision::Allow),
        rule_revision: 4,
        updated_sequence: 9,
    }
}

#[test]
fn unmatched_connects_get_the_default() {
    match connect_step(None, EnforcementDecision::Allow, true, false).unwrap() {
        ConnectStep::Respond { decision, audit } => {
            assert_eq!(decision, EnforcementDecision::Allow);
            assert!(audit.is_none());
        }
        ConnectStep::Gray => panic!("no rule is not gray"),
    }
    match connect_step(None, EnforcementDecision::Deny, true, false).unwrap() {
        ConnectStep::Respond { decision, audit } => {
            assert_eq!(decision, EnforcementDecision::Deny);
            assert!(matches!(audit, Some(NetworkDecisionSource::Default)));
        }
        ConnectStep::Gray => panic!("no rule is not gray"),
    }
}

#[test]
fn local_rules_answer_and_gray_rules_defer() {
    let deny = rule(NetworkPolicyDecision::Deny);
    match connect_step(Some(&deny), EnforcementDecision::Allow, true, true).unwrap() {
        ConnectStep::Respond { decision, audit } => {
            assert_eq!(decision, EnforcementDecision::Deny);
            assert!(matches!(audit, Some(NetworkDecisionSource::Rule)));
        }
        ConnectStep::Gray => panic!("deny rule answers locally"),
    }
    assert!(matches!(connect_step(Some(&rule(NetworkPolicyDecision::Gray)), EnforcementDecision::Allow, true, true).unwrap(), ConnectStep::Gray));
    let e = connect_step(Some(&rule(NetworkPolicyDecision::Default)), EnforcementDecision::Allow, true, true).unwrap_err();
    assert_eq!(e.message, "stored network rule has default decision");
    assert_eq!(policy_decision(NetworkPolicyDecision::Gray).unwrap_err().message, "gray is not a local network decision");
}

#[test]
fn failure_reasons_follow_the_error() {
    assert_eq!(plugin_failure_reason("plugin_timeout", "x"), "plugin_timeout");
    assert_eq!(plugin_failure_reason("plugin_error", "call timeout after 5ms"), "plugin_timeout");
    assert_eq!(plugin_failure_reason("plugin_panic", "boom"), "plugin_panic");
    assert_eq!(plugin_failure_reason("plugin_error", "boom"), "plugin_error");
}

#[test]
fn worker_outcomes() {
    let answered = response_outcome(
        Ok(ControlDecisionResponse {
            verdict: ControlVerdict::Deny,
            scope: PluginScope { name: "reusable".to_string(), reusable: true },
            reason: Some("blocked".to_string()),
        }),
        true,
        EnforcementDecision::Allow,
    );
    assert!(matches!(answered, PluginDecisionOutcome::Plugin { decision: EnforcementDecision::Deny, .. }));
    let failed = response_outcome(
        Err(PluginRuntimeError { code: "plugin_error".to_string(), message: "timeout".to_string() }),
        true,
        EnforcementDecision::Allow,
    );
    match failed {
        PluginDecisionOutcome::Fallback { decision, reason, error } => {
            assert_eq!(decision, EnforcementDecision::Allow);
            assert_eq!(reason, "plugin_timeout");
            assert_eq!(error.as_deref(), Some("plugin_error: timeout"));
        }
        _ => panic!("a failure falls back"),
    }
    let unloaded = response_outcome(
        Err(PluginRuntimeError { code: "x".to_string(), message: "y".to_string() }),
        false,
        EnforcementDecision::Allow,
    );
    assert!(matches!(unloaded, PluginDecisionOutcome::Fallback { decision: EnforcementDecision::Deny, .. }));
}

#[test]
fn completions_keep_reusable_answers() {
    let c = completion_decision(
        PluginDecisionOutcome::Plugin {
            decision: EnforcementDecision::Allow,
            scope: PluginScope { name: "reusable".to_string(), reusable: true },
            reason: None,
        },
        "decider",
        true,
    );
    assert_eq!(c.decision, EnforcementDecision::Allow);
    let (d, instance, _) = c.cache.expect("reusable answer is kept");
    assert_eq!(d, EnforcementDecision::Allow);
    assert_eq!(instance, "decider");
    let gone = completion_decision(
        PluginDecisionOutcome::Plugin {
            decision: EnforcementDecision::Allow,
            scope: PluginScope { name: "reusable".to_string(), reusable: true },
            reason: None,
        },
        "decider",
        false,
    );
    assert_eq!(gone.decision, EnforcementDecision::Deny);
    assert!(gone.cache.is_none());
    match gone.source {
        NetworkDecisionSource::GrayFallback { reason, .. } => assert_eq!(reason, "plugin_unloaded"),
        _ => panic!("an unloaded plugin falls back"),
    }
}

#[test]
fn gray_admission_paths() {
    let gray = rule(NetworkPolicyDecision::Gray);
    let key = ReusableDecisionKey::new(7, 1, &gray, endpoint());
    let mut cache = ReusableDecisionCache::new(4);
    let mut accounting = NetworkDecisionAccounting::new(8);
    assert!(matches!(
        gray_admission(&cache, &mut accounting, &key, &gray, None).unwrap(),
        GrayStep::Fallback { decision: EnforcementDecision::Deny, reason: "plugin_unloaded" }
    ));
    assert!(matches!(gray_admission(&cache, &mut accounting, &key, &gray, Some(4)).unwrap(), GrayStep::Dispatch));
    assert_eq!(accounting.global_pending, 1);
    match gray_admission(&cache, &mut accounting, &key, &gray, Some(4)).unwrap() {
        GrayStep::Fallback { decision, reason } => {
            assert_eq!(decision, EnforcementDecision::Allow);
            assert_eq!(reason, "rule_concurrency_limit");
        }
        _ => panic!("the rule's limit is reached"),
    }
    cache.cache_decision(key.duplicate(), EnforcementDecision::Deny, "decider".to_string(), None).unwrap();
    match gray_admission(&cache, &mut accounting, &key, &gray, Some(4)).unwrap() {
        GrayStep::Cached { decision, instance_id, .. } => {
            assert_eq!(decision, EnforcementDecision::Deny);
            assert_eq!(instance_id, "decider");
        }
        _ => panic!("the cached decision is reused"),
    }
    let mut no_target = rule(NetworkPolicyDecision::Gray);
    no_target.gray_target = None;
    assert_eq!(
        gray_admission(&cache, &mut accounting, &key, &no_target, Some(4)).unwrap_err().message,
        "gray rule has no target"
    );
}

#[test]
fn gray_admission_without_limit_before_the_limit_check() {
    let mut unlimited = rule(NetworkPolicyDecision::Gray);
    unlimited.concurrency_limit = None;
    let key = ReusableDecisionKey::new(7, 1, &unlimited, endpoint());
    let mut cache = ReusableDecisionCache::new(4);
    let mut accounting = NetworkDecisionAccounting::new(8);
    assert!(matches!(
        gray_admission(&cache, &mut accounting, &key, &unlimited, None).unwrap(),
        GrayStep::Fallback { decision: EnforcementDecision::Deny, reason: "plugin_unloaded" }
    ));
    cache.cache_decision(key.duplicate(), EnforcementDecision::Allow, "decider".to_string(), None).unwrap();
    assert!(matches!(
        gray_admission(&cache, &mut accounting, &key, &unlimited, Some(4)).unwrap(),
        GrayStep::Cached { decision: EnforcementDecision::Allow, .. }
    ));
    let cache = ReusableDecisionCache::new(4);
    let mut full = NetworkDecisionAccounting::new(0);
    match gray_admission(&cache, &mut full, &key, &unlimited, Some(4)).unwrap() {
        GrayStep::Fallback { reason, .. } => assert_eq!(reason, "global_pending_limit"),
        _ => panic!("the global limit is reached"),
    }
}

#[test]
fn audit_metadata_names_rule_source_and_remote() {
    let gray = rule(NetworkPolicyDecision::Gray);
    let source = NetworkDecisionSource::GrayFallback {
        instance_id: Some("decider".to_string()),
        reason: "plugin_timeout".to_string(),
        error: Some("plugin_error: timeout".to_string()),
    };
    let m = network_audit_metadata(EnforcementDecision::Allow, 1500, Some(&gray), &source, "[fe80::1]:53", "ipv6", 7, 3);
    assert_eq!(m.get("subject").unwrap(), "network-action");
    assert_eq!(m.get("decision").unwrap(), "allow");
    assert_eq!(m.get("decision_latency_us").unwrap(), "1500");
    assert_eq!(m.get("rule_id").unwrap(), "r1");
    assert_eq!(m.get("policy_remote_scope").unwrap(), "10.0.0.1:443");
    assert_eq!(m.get("rule_revision").unwrap(), "4");
    assert_eq!(m.get("plugin_timeout_ms").unwrap(), "100");
    assert_eq!(m.get("rule_concurrency_limit").unwrap(), "1");
    assert_eq!(m.get("fallback_decision").unwrap(), "allow");
    assert_eq!(m.get("decision_source").unwrap(), "fallback");
    assert_eq!(m.get("fallback_reason").unwrap(), "plugin_timeout");
    assert_eq!(m.get("plugin_error").unwrap(), "plugin_error: timeout");
    assert_eq!(m.get("remote").unwrap(), "[fe80::1]:53");
    assert_eq!(m.get("fd").unwrap(), "7");
    assert_eq!(m.get("ipv6_scope_id").unwrap(), "3");
    let f = network_failure_metadata(EnforcementDecision::Deny, "capture failed".to_string(), "10.0.0.1:443", "ipv4", 4, 0);
    assert_eq!(f.get("decision_source").unwrap(), "failure");
    assert_eq!(f.get("failure_error").unwrap(), "capture failed");
    assert!(f.get("ipv6_scope_id").is_none());
}

#[test]
fn sync_plugin_endpoint_outcomes() {
    let r = SyncPluginEndpointRule {
        rule_id: "net-1".to_string(),
        instance_id: "decider".to_string(),
        timeout_ms: 50,
        concurrency_limit: 1,
        fallback: EnforcementDecision::Deny,
    };
    let mut in_flight = InFlightCounts::new();
    assert!(try_reserve_rule(&mut in_flight, "net-1", 1));
    assert!(!try_reserve_rule(&mut in_flight, "net-1", 1));
    let limited = concurrency_limited_outcome(&r);
    let m = network_control_metadata(&limited);
    assert_eq!(m.get("fallback_reason").unwrap(), "concurrency_limit");
    assert_eq!(m.get("plugin_error").unwrap(), "concurrency_limit");
    assert_eq!(network_control_decision(&limited), EnforcementDecision::Deny);
    release_rule(&mut in_flight, "net-1");
    assert!(try_reserve_rule(&mut in_flight, "net-1", 1));
    let ok = sync_plugin_outcome(&r, Ok(ControlVerdict::Allow));
    assert!(matches!(ok, NetworkControlOutcome::Decision { decision: EnforcementDecision::Allow, .. }));
    let failed = sync_plugin_outcome(&r, Err(PluginRuntimeError { code: "plugin_error".to_string(), message: "down".to_string() }));
    let m = connect_event_metadata(&failed, "10.0.0.1:443", "inet", 5);
    assert_eq!(m.get("decision").unwrap(), "deny");
    assert_eq!(m.get("plugin_error").unwrap(), "plugin_error: down");
    assert_eq!(m.get("fallback_reason").unwrap(), "plugin_error");
    assert_eq!(m.get("plugin_timeout_ms").unwrap(), "50");
    assert_eq!(m.get("operation").unwrap(), "connect");
    assert_eq!(m.get("fd").unwrap(), "5");
}
