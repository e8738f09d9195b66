use actraild::net_gray::{ReusableDecisionCache, ReusableDecisionKey};
use actraild::net_policy::{NetworkPolicyDecision, NetworkRemoteSelector, RemoteSelector};
use actraild::net_rules::StoredNetworkRule;
use actraild::rules::EnforcementDecision;
use actraild::sockaddr::{IpAddress, SocketEndpoint};

fn rule(id: &str) -> StoredNetworkRule {
    let e = SocketEndpoint { ip: IpAddress::V4([10, 0, 0, 1]), port: 443 };
    StoredNetworkRule {
        owner_instance_id: "owner".to_string(),
        rule_id: id.to_string(),
        decision: NetworkPolicyDecision::Gray,
        remote: NetworkRemoteSelector { selector: RemoteSelector::Endpoint(e), text: "10.0.0.1:443".to_string(), endpoint_text: "10.0.0.1:443".to_string() },
        gray_target: Some("decider".to_string()),
        timeout_ms: Some(10),
        concurrency_limit: Some(1),
        fallback: Some(EnforcementDecision::Deny),
        rule_revision: 1,
        updated_sequence: 1,
    }
}

fn key(trace: u64, id: &str) -> ReusableDecisionKey {
    ReusableDecisionKey::new(trace, 1, &rule(id), SocketEndpoint { ip: IpAddress::V4([10, 0, 0, 1]), port: 443 })
}

#[test]
fn stored_decisions_are_read_back() {
    let mut cache = ReusableDecisionCache::new(8);
    cache.cache_decision(key(1, "a"), EnforcementDecision::Allow, "decider".to_string(), Some("ok".to_string())).unwrap();
    let got = cache.get(&key(1, "a")).unwrap();
    assert_eq!(got.decision, EnforcementDecision::Allow);
    assert_eq!(got.instance_id, "decider");
    assert_eq!(got.reason.as_deref(), Some("ok"));
    assert_eq!(got.inserted_sequence, 1);
    assert!(cache.get(&key(2, "a")).is_none());
    cache.cache_decision(key(1, "a"), EnforcementDecision::Deny, "decider".to_string(), None).unwrap();
    assert_eq!(cache.len(), 1);
    assert_eq!(cache.get(&key(1, "a")).unwrap().decision, EnforcementDecision::Deny);
    assert_eq!(cache.get(&key(1, "a")).unwrap().inserted_sequence, 2);
}

#[test]
fn the_oldest_decision_leaves_first() {
    let mut cache = ReusableDecisionCache::new(2);
    cache.cache_decision(key(1, "a"), EnforcementDecision::Allow, "p".to_string(), None).unwrap();
    cache.cache_decision(key(1, "b"), EnforcementDecision::Allow, "p".to_string(), None).unwrap();
    cache.cache_decision(key(1, "c"), EnforcementDecision::Allow, "p".to_string(), None).unwrap();
    assert_eq!(cache.len(), 2);
    assert!(cache.get(&key(1, "a")).is_none());
    assert!(cache.get(&key(1, "b")).is_some());
    assert!(cache.get(&key(1, "c")).is_some());
}

#[test]
fn forgetting_a_trace_or_an_instance() {
    let mut cache = ReusableDecisionCache::new(8);
    cache.cache_decision(key(1, "a"), EnforcementDecision::Allow, "p".to_string(), None).unwrap();
    cache.cache_decision(key(2, "a"), EnforcementDecision::Allow, "q".to_string(), None).unwrap();
    cache.cache_decision(key(2, "b"), EnforcementDecision::Allow, "p".to_string(), None).unwrap();
    cache.forget_trace(2);
    assert_eq!(cache.len(), 1);
    assert!(cache.get(&key(1, "a")).is_some());
    cache.cache_decision(key(3, "a"), EnforcementDecision::Allow, "q".to_string(), None).unwrap();
    cache.remove_by_instance("p");
    assert_eq!(cache.len(), 1);
    assert!(cache.get(&key(3, "a")).is_some());
    cache.clear();
    assert_eq!(cache.len(), 0);
}
