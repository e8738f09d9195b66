use actraild::net_policy::{
    ControlVerdict, NetworkPolicyApplyRequest, NetworkPolicyDecision, NetworkPolicyPatchItem, NetworkPolicyPatchOp,
    NetworkPolicyRuleDraft, NetworkPolicyRulesApplyGrant, NetworkRemoteSelector, RemoteSelector,
};
use actraild::net_rules::{
    NetworkEndpoint, NetworkPolicyApplyResult, NetworkPolicyApplyStatus, NetworkPolicyListFilter, NetworkPolicyStore,
};
use actraild::rules::EnforcementDecision;
use actraild::sockaddr::{IpAddress, SocketEndpoint};

fn v4(a: u8, b: u8, c: u8, d: u8, port: u16) -> SocketEndpoint {
    SocketEndpoint { ip: IpAddress::V4([a, b, c, d]), port }
}

fn endpoint_selector(e: SocketEndpoint, text: &str) -> NetworkRemoteSelector {
    NetworkRemoteSelector { selector: RemoteSelector::Endpoint(e), text: text.to_string(), endpoint_text: text.to_string() }
}

fn any_port_selector(ip: IpAddress, text: &str) -> NetworkRemoteSelector {
    NetworkRemoteSelector { selector: RemoteSelector::AnyPort(ip), text: text.to_string(), endpoint_text: String::new() }
}

fn local_draft(rule_id: Option<&str>, decision: NetworkPolicyDecision, remote: NetworkRemoteSelector) -> NetworkPolicyRuleDraft {
    NetworkPolicyRuleDraft {
        rule_id: rule_id.map(str::to_string),
        decision,
        remote: Ok(remote),
        gray_target: None,
        timeout_ms: None,
        concurrency_limit: None,
        fallback: None,
    }
}

fn gray_draft(rule_id: &str, target: &str, remote: NetworkRemoteSelector) -> NetworkPolicyRuleDraft {
    NetworkPolicyRuleDraft {
        rule_id: Some(rule_id.to_string()),
        decision: NetworkPolicyDecision::Gray,
        remote: Ok(remote),
        gray_target: Some(target.to_string()),
        timeout_ms: Some(250),
        concurrency_limit: Some(2),
        fallback: Some(ControlVerdict::Deny),
    }
}

fn upsert(d: NetworkPolicyRuleDraft) -> NetworkPolicyPatchItem {
    NetworkPolicyPatchItem { op: NetworkPolicyPatchOp::Upsert, rule_id: None, rule: Some(d) }
}

fn delete(rule_id: &str) -> NetworkPolicyPatchItem {
    NetworkPolicyPatchItem { op: NetworkPolicyPatchOp::Delete, rule_id: Some(rule_id.to_string()), rule: None }
}

fn request(base: u64, items: Vec<NetworkPolicyPatchItem>) -> NetworkPolicyApplyRequest {
    NetworkPolicyApplyRequest { base_revision: base, mutation_id: "m-1".to_string(), items }
}

fn grant(decision: NetworkPolicyDecision, covered: Vec<RemoteSelector>) -> NetworkPolicyRulesApplyGrant {
    NetworkPolicyRulesApplyGrant { decision, covered }
}

fn errors(r: &NetworkPolicyApplyResult) -> Vec<(u32, String, String)> {
    r.errors.iter().map(|e| (e.item_index, e.code.clone(), e.message.clone())).collect()
}

#[test]
fn upserted_allow_rule_is_found_and_listed() {
    let mut store = NetworkPolicyStore::empty();
    let e = v4(10, 0, 0, 1, 443);
    let grants = vec![grant(NetworkPolicyDecision::Allow, vec![RemoteSelector::Endpoint(e)])];
    let r = store.apply(
        "plugin-a",
        &grants,
        request(0, vec![upsert(local_draft(Some("r1"), NetworkPolicyDecision::Allow, endpoint_selector(e, "10.0.0.1:443")))]),
        &[],
    );
    assert_eq!(r.status, NetworkPolicyApplyStatus::Accepted);
    assert_eq!(r.new_revision, 1);
    assert_eq!(r.applied_count, 1);
    assert_eq!(r.rejected_count, 0);
    assert_eq!(store.revision(), 1);
    let found = store.find(&e).expect("rule for the endpoint");
    assert_eq!(found.rule_id, "r1");
    assert_eq!(found.owner_instance_id, "plugin-a");
    assert_eq!(found.decision, NetworkPolicyDecision::Allow);
    assert_eq!(found.rule_revision, 1);
    assert_eq!(found.updated_sequence, 1);
    assert!(store.find(&v4(10, 0, 0, 1, 80)).is_none());
    assert!(store.is_rule_current(found));

    let listed = store.list(NetworkPolicyListFilter { decision: None, remote: None }, None, 10).unwrap();
    assert_eq!(listed.rules.len(), 1);
    assert_eq!(listed.rules[0].remote, "10.0.0.1:443");
    assert_eq!(listed.next_cursor, None);
    assert_eq!(listed.source_revision, 1);
}

#[test]
fn any_port_rule_matches_every_port_of_its_address() {
    let mut store = NetworkPolicyStore::empty();
    let ip = IpAddress::V4([192, 168, 1, 9]);
    let grants = vec![grant(NetworkPolicyDecision::Deny, vec![RemoteSelector::AnyPort(ip)])];
    let r = store.apply(
        "plugin-a",
        &grants,
        request(0, vec![upsert(local_draft(Some("block"), NetworkPolicyDecision::Deny, any_port_selector(ip, "192.168.1.9:*")))]),
        &[],
    );
    assert_eq!(r.status, NetworkPolicyApplyStatus::Accepted);
    assert_eq!(store.find(&v4(192, 168, 1, 9, 22)).unwrap().rule_id, "block");
    assert_eq!(store.find(&v4(192, 168, 1, 9, 8080)).unwrap().rule_id, "block");
    assert!(store.find(&v4(192, 168, 1, 10, 22)).is_none());
}

#[test]
fn request_errors_name_every_precondition() {
    let mut store = NetworkPolicyStore::empty();
    let req = NetworkPolicyApplyRequest { base_revision: 3, mutation_id: "  ".to_string(), items: vec![] };
    let r = store.apply("actrail.static", &[], req, &[]);
    assert_eq!(r.status, NetworkPolicyApplyStatus::Rejected);
    assert_eq!(r.new_revision, 0);
    assert_eq!(r.rejected_count, 4);
    assert_eq!(
        errors(&r),
        vec![
            (0, "invalid-owner".to_string(), "network policy owner must be a non-static plugin instance id".to_string()),
            (0, "revision-conflict".to_string(), "network policy base revision 3 does not match current revision 0".to_string()),
            (0, "invalid-mutation-id".to_string(), "network policy mutation_id must not be empty".to_string()),
            (0, "empty-mutation".to_string(), "network policy apply requires at least one item".to_string()),
        ]
    );
    assert_eq!(store.revision(), 0);
}

#[test]
fn item_errors_are_reported_by_index_and_nothing_is_applied() {
    let mut store = NetworkPolicyStore::empty();
    let e = v4(10, 0, 0, 2, 53);
    let grants = vec![grant(NetworkPolicyDecision::Allow, vec![RemoteSelector::Endpoint(e)])];
    let r = store.apply(
        "plugin-a",
        &grants,
        request(
            0,
            vec![
                upsert(local_draft(Some("ok"), NetworkPolicyDecision::Allow, endpoint_selector(e, "10.0.0.2:53"))),
                delete("missing"),
                upsert(local_draft(Some("nogrant"), NetworkPolicyDecision::Deny, endpoint_selector(e, "10.0.0.2:53"))),
                upsert(local_draft(Some("dflt"), NetworkPolicyDecision::Default, endpoint_selector(e, "10.0.0.2:53"))),
            ],
        ),
        &[],
    );
    assert_eq!(r.status, NetworkPolicyApplyStatus::Rejected);
    assert_eq!(
        errors(&r),
        vec![
            (1, "invalid-rule".to_string(), "network rule missing not found for owner".to_string()),
            (2, "invalid-rule".to_string(), "missing network-policy.rules.apply grant for deny 10.0.0.2:53".to_string()),
            (3, "invalid-rule".to_string(), "network rule decision cannot be default".to_string()),
        ]
    );
    assert!(store.find(&e).is_none());
    assert_eq!(store.revision(), 0);
}

#[test]
fn two_owners_cannot_claim_one_endpoint() {
    let mut store = NetworkPolicyStore::empty();
    let e = v4(10, 1, 1, 1, 443);
    let grants = vec![grant(NetworkPolicyDecision::Allow, vec![RemoteSelector::Endpoint(e)])];
    let first = store.apply(
        "plugin-a",
        &grants,
        request(0, vec![upsert(local_draft(Some("a"), NetworkPolicyDecision::Allow, endpoint_selector(e, "10.1.1.1:443")))]),
        &[],
    );
    assert_eq!(first.status, NetworkPolicyApplyStatus::Accepted);
    let second = store.apply(
        "plugin-b",
        &grants,
        request(1, vec![upsert(local_draft(Some("b"), NetworkPolicyDecision::Allow, endpoint_selector(e, "10.1.1.1:443")))]),
        &[],
    );
    assert_eq!(second.status, NetworkPolicyApplyStatus::Rejected);
    assert_eq!(
        errors(&second),
        vec![(0, "endpoint-conflict".to_string(), "network remote 10.1.1.1:443 is already owned by plugin-a".to_string())]
    );
    assert_eq!(store.revision(), 1);
    assert_eq!(store.find(&e).unwrap().owner_instance_id, "plugin-a");
}

#[test]
fn one_owner_cannot_claim_an_endpoint_and_its_address() {
    let mut store = NetworkPolicyStore::empty();
    let ip = IpAddress::V4([10, 2, 2, 2]);
    let e = SocketEndpoint { ip, port: 80 };
    let grants = vec![grant(NetworkPolicyDecision::Deny, vec![RemoteSelector::Endpoint(e), RemoteSelector::AnyPort(ip)])];
    let r = store.apply(
        "plugin-a",
        &grants,
        request(
            0,
            vec![
                upsert(local_draft(Some("a-endpoint"), NetworkPolicyDecision::Deny, endpoint_selector(e, "10.2.2.2:80"))),
                upsert(local_draft(Some("b-any"), NetworkPolicyDecision::Deny, any_port_selector(ip, "10.2.2.2:*"))),
            ],
        ),
        &[],
    );
    assert_eq!(r.status, NetworkPolicyApplyStatus::Rejected);
    assert_eq!(
        errors(&r),
        vec![(0, "duplicate-scope".to_string(), "network remote 10.2.2.2:* overlaps 10.2.2.2:80 owned by plugin-a".to_string())]
    );
}

#[test]
fn gray_rules_check_their_target() {
    let mut store = NetworkPolicyStore::empty();
    let e = v4(10, 3, 3, 3, 443);
    let grants = vec![grant(NetworkPolicyDecision::Gray, vec![RemoteSelector::Endpoint(e)])];
    let own = store.validate_apply(
        "plugin-a",
        &grants,
        &request(0, vec![upsert(gray_draft("g", "plugin-a", endpoint_selector(e, "10.3.3.3:443")))]),
        &["plugin-a".to_string()],
    );
    assert_eq!(errors(&own), vec![(0, "invalid-rule".to_string(), "gray network rule cannot target its policy owner".to_string())]);
    let inactive = store.validate_apply(
        "plugin-a",
        &grants,
        &request(0, vec![upsert(gray_draft("g", "decider", endpoint_selector(e, "10.3.3.3:443")))]),
        &[],
    );
    assert_eq!(errors(&inactive), vec![(0, "invalid-rule".to_string(), "gray_target decider is not an active control decider".to_string())]);
    let ok = store.validate_apply(
        "plugin-a",
        &grants,
        &request(0, vec![upsert(gray_draft("g", "decider", endpoint_selector(e, "10.3.3.3:443")))]),
        &["decider".to_string()],
    );
    assert_eq!(ok.status, NetworkPolicyApplyStatus::Accepted);
    assert_eq!(ok.new_revision, 0);
    assert_eq!(store.revision(), 0);
    let applied = store.apply(
        "plugin-a",
        &grants,
        request(0, vec![upsert(gray_draft("g", "decider", endpoint_selector(e, "10.3.3.3:443")))]),
        &["decider".to_string()],
    );
    assert_eq!(applied.status, NetworkPolicyApplyStatus::Accepted);
    assert_eq!(applied.new_revision, 1);
    let rule = store.find(&e).unwrap();
    assert_eq!(rule.gray_target.as_deref(), Some("decider"));
    assert_eq!(rule.fallback, Some(EnforcementDecision::Deny));
    assert_eq!(rule.concurrency_limit, Some(2));
}

#[test]
fn gray_settings_belong_to_gray_rules() {
    let store = NetworkPolicyStore::empty();
    let e = v4(10, 4, 4, 4, 1);
    let grants = vec![grant(NetworkPolicyDecision::Allow, vec![RemoteSelector::Endpoint(e)])];
    let mut d = local_draft(Some("x"), NetworkPolicyDecision::Allow, endpoint_selector(e, "10.4.4.4:1"));
    d.timeout_ms = Some(5);
    let r = store.validate_apply("plugin-a", &grants, &request(0, vec![upsert(d)]), &[]);
    assert_eq!(errors(&r), vec![(0, "invalid-rule".to_string(), "allow and deny network rules cannot include gray settings".to_string())]);
    let mut g = gray_draft("g", "decider", endpoint_selector(e, "10.4.4.4:1"));
    g.timeout_ms = Some(0);
    let r = store.validate_apply("plugin-a", &grants, &request(0, vec![upsert(g)]), &[]);
    assert_eq!(errors(&r), vec![(0, "invalid-rule".to_string(), "gray network rule timeout_ms must be positive".to_string())]);
    let mut bad_remote = local_draft(Some("y"), NetworkPolicyDecision::Allow, endpoint_selector(e, "10.4.4.4:1"));
    bad_remote.remote = Err("invalid remote selector".to_string());
    let r = store.validate_apply("plugin-a", &grants, &request(0, vec![upsert(bad_remote)]), &[]);
    assert_eq!(errors(&r), vec![(0, "invalid-rule".to_string(), "invalid remote selector".to_string())]);
}

#[test]
fn generated_rule_ids_count_up() {
    let mut store = NetworkPolicyStore::empty();
    let e1 = v4(10, 5, 5, 5, 1);
    let e2 = v4(10, 5, 5, 5, 2);
    let grants = vec![grant(NetworkPolicyDecision::Allow, vec![RemoteSelector::Endpoint(e1), RemoteSelector::Endpoint(e2)])];
    let r = store.apply(
        "plugin-a",
        &grants,
        request(
            0,
            vec![
                upsert(local_draft(None, NetworkPolicyDecision::Allow, endpoint_selector(e1, "10.5.5.5:1"))),
                upsert(local_draft(None, NetworkPolicyDecision::Allow, endpoint_selector(e2, "10.5.5.5:2"))),
            ],
        ),
        &[],
    );
    assert_eq!(r.status, NetworkPolicyApplyStatus::Accepted);
    assert_eq!(store.find(&e1).unwrap().rule_id, "network-rule-1");
    assert_eq!(store.find(&e2).unwrap().rule_id, "network-rule-2");
    assert_eq!(store.find(&e2).unwrap().updated_sequence, 2);
}

#[test]
fn removing_an_owner_drops_its_rules() {
    let mut store = NetworkPolicyStore::empty();
    let e = v4(10, 6, 6, 6, 9);
    let grants = vec![grant(NetworkPolicyDecision::Allow, vec![RemoteSelector::Endpoint(e)])];
    store.apply(
        "plugin-a",
        &grants,
        request(0, vec![upsert(local_draft(Some("r"), NetworkPolicyDecision::Allow, endpoint_selector(e, "10.6.6.6:9")))]),
        &[],
    );
    assert_eq!(store.remove_owner("actrail.static"), Err("static network policy owner cannot be removed".to_string()));
    assert_eq!(store.remove_owner("plugin-b"), Ok(false));
    assert_eq!(store.revision(), 1);
    assert_eq!(store.remove_owner("plugin-a"), Ok(true));
    assert_eq!(store.revision(), 2);
    assert!(store.find(&e).is_none());
}

#[test]
fn delete_items_are_checked() {
    let mut store = NetworkPolicyStore::empty();
    let mut with_rule = delete("r");
    with_rule.rule = Some(local_draft(Some("r"), NetworkPolicyDecision::Allow, endpoint_selector(v4(1, 1, 1, 1, 1), "1.1.1.1:1")));
    let without_id = NetworkPolicyPatchItem { op: NetworkPolicyPatchOp::Delete, rule_id: None, rule: None };
    let r = store.apply("plugin-a", &[], request(0, vec![with_rule, without_id]), &[]);
    assert_eq!(
        errors(&r),
        vec![
            (0, "invalid-rule".to_string(), "delete item must not include rule".to_string()),
            (1, "invalid-rule".to_string(), "delete item requires rule_id".to_string()),
        ]
    );
}

#[test]
fn mismatched_item_and_draft_ids_are_refused() {
    let store = NetworkPolicyStore::empty();
    let e = v4(1, 2, 3, 4, 5);
    let mut item = upsert(local_draft(Some("b"), NetworkPolicyDecision::Allow, endpoint_selector(e, "1.2.3.4:5")));
    item.rule_id = Some("a".to_string());
    let r = store.validate_apply("plugin-a", &[], &request(0, vec![item]), &[]);
    assert_eq!(errors(&r), vec![(0, "invalid-rule".to_string(), "item rule_id a does not match draft rule_id b".to_string())]);
}

#[test]
fn listing_pages_and_filters() {
    let mut store = NetworkPolicyStore::empty();
    let e1 = v4(10, 7, 7, 7, 1);
    let e2 = v4(10, 7, 7, 7, 2);
    let e3 = v4(10, 7, 7, 7, 3);
    let grants = vec![
        grant(NetworkPolicyDecision::Allow, vec![RemoteSelector::Endpoint(e1), RemoteSelector::Endpoint(e2)]),
        grant(NetworkPolicyDecision::Deny, vec![RemoteSelector::Endpoint(e3)]),
    ];
    store.apply(
        "plugin-a",
        &grants,
        request(
            0,
            vec![
                upsert(local_draft(Some("c"), NetworkPolicyDecision::Allow, endpoint_selector(e1, "10.7.7.7:1"))),
                upsert(local_draft(Some("a"), NetworkPolicyDecision::Allow, endpoint_selector(e2, "10.7.7.7:2"))),
                upsert(local_draft(Some("b"), NetworkPolicyDecision::Deny, endpoint_selector(e3, "10.7.7.7:3"))),
            ],
        ),
        &[],
    );
    let page = store.list(NetworkPolicyListFilter { decision: None, remote: None }, None, 2).unwrap();
    let ids: Vec<&str> = page.rules.iter().map(|r| r.rule_id.as_str()).collect();
    assert_eq!(ids, vec!["a", "b"]);
    assert_eq!(page.next_cursor.as_deref(), Some("2"));
    let rest = store.list(NetworkPolicyListFilter { decision: None, remote: None }, Some("2"), 2).unwrap();
    assert_eq!(rest.rules.len(), 1);
    assert_eq!(rest.rules[0].rule_id, "c");
    assert_eq!(rest.next_cursor, None);
    let allows = store
        .list(NetworkPolicyListFilter { decision: Some(NetworkPolicyDecision::Allow), remote: Some(Ok(RemoteSelector::Endpoint(e1))) }, None, 10)
        .unwrap();
    assert_eq!(allows.rules.len(), 1);
    assert_eq!(allows.rules[0].rule_id, "c");
    assert_eq!(
        store.list(NetworkPolicyListFilter { decision: None, remote: None }, None, 0).unwrap_err(),
        "network policy list limit must be positive"
    );
    assert_eq!(
        store.list(NetworkPolicyListFilter { decision: None, remote: None }, Some("x"), 1).unwrap_err(),
        "invalid network policy cursor x: invalid digit found in string"
    );
}

#[test]
fn dry_run_reports_the_matching_rule_or_the_default() {
    let mut store = NetworkPolicyStore::empty();
    let e = v4(10, 8, 8, 8, 8);
    let grants = vec![grant(NetworkPolicyDecision::Deny, vec![RemoteSelector::Endpoint(e)])];
    store.apply(
        "plugin-a",
        &grants,
        request(0, vec![upsert(local_draft(Some("d"), NetworkPolicyDecision::Deny, endpoint_selector(e, "10.8.8.8:8")))]),
        &[],
    );
    let hit = store
        .match_dry_run(Ok(NetworkEndpoint { endpoint: e, text: "10.8.8.8:8".to_string() }), NetworkPolicyDecision::Allow)
        .unwrap();
    assert!(hit.matched);
    assert_eq!(hit.decision, NetworkPolicyDecision::Deny);
    assert_eq!(hit.rule_id.as_deref(), Some("d"));
    assert_eq!(hit.owner_instance_id.as_deref(), Some("plugin-a"));
    assert_eq!(hit.rule_revision, Some(1));
    assert_eq!(hit.source_revision, 1);
    let miss = store
        .match_dry_run(Ok(NetworkEndpoint { endpoint: v4(10, 8, 8, 9, 8), text: "10.8.8.9:8".to_string() }), NetworkPolicyDecision::Allow)
        .unwrap();
    assert!(!miss.matched);
    assert_eq!(miss.decision, NetworkPolicyDecision::Allow);
    assert_eq!(miss.resolved_remote, "10.8.8.9:8");
    assert_eq!(
        store.match_dry_run(Err("invalid socket address syntax".to_string()), NetworkPolicyDecision::Allow).unwrap_err(),
        "network remote must be a numeric IP endpoint: invalid socket address syntax"
    );
}

#[test]
fn a_deleted_rule_is_no_longer_found() {
    let mut store = NetworkPolicyStore::empty();
    let e = v4(10, 9, 9, 9, 9);
    let grants = vec![grant(NetworkPolicyDecision::Allow, vec![RemoteSelector::Endpoint(e)])];
    store.apply(
        "plugin-a",
        &grants,
        request(0, vec![upsert(local_draft(Some("r"), NetworkPolicyDecision::Allow, endpoint_selector(e, "10.9.9.9:9")))]),
        &[],
    );
    let old = store.find(&e).unwrap().duplicate();
    let r = store.apply("plugin-a", &grants, request(1, vec![delete("r")]), &[]);
    assert_eq!(r.status, NetworkPolicyApplyStatus::Accepted);
    assert_eq!(r.new_revision, 2);
    assert!(store.find(&e).is_none());
    assert!(!store.is_rule_current(&old));
}
