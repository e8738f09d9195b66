use actraild::net_connect::{apply_policy_request, remove_plugin_policy_owner};
use actraild::net_gray::{ReusableDecisionCache, ReusableDecisionKey};
use actraild::net_policy::{
    NetworkPolicyApplyRequest, NetworkPolicyDecision, NetworkPolicyPatchItem, NetworkPolicyPatchOp, NetworkPolicyRuleDraft,
    NetworkPolicyRulesApplyGrant, NetworkRemoteSelector, RemoteSelector,
};
use actraild::net_rules::NetworkPolicyApplyStatus;
use actraild::net_static::{load_static, parse_rule, EndpointRuleLine, NetworkControlRules, StaticPolicyLine};
use actraild::rules::{EnforcementDecision, StaticRuleParser};
use actraild::sockaddr::{IpAddress, SocketEndpoint};

fn ep(last: u8, port: u16) -> SocketEndpoint {
    SocketEndpoint { ip: IpAddress::V4([10, 0, 0, last]), port }
}

fn sel(e: SocketEndpoint, text: &str) -> NetworkRemoteSelector {
    NetworkRemoteSelector { selector: RemoteSelector::Endpoint(e), text: text.to_string(), endpoint_text: text.to_string() }
}

fn line(text: &str, remote: Result<NetworkRemoteSelector, String>) -> StaticPolicyLine {
    StaticPolicyLine { text: text.to_string(), remote }
}

#[test]
fn static_lines_give_local_and_gray_rules() {
    let allow = StaticRuleParser::parse("web allow connect 10.0.0.1:443", 3, Ok(sel(ep(1, 443), "10.0.0.1:443"))).unwrap();
    assert_eq!(allow.owner_instance_id, "actrail.static");
    assert_eq!(allow.rule_id, "web");
    assert_eq!(allow.decision, NetworkPolicyDecision::Allow);
    assert_eq!(allow.updated_sequence, 3);
    let gray = StaticRuleParser::parse(
        "db sync-plugin decider timeout-ms 250 concurrency 4 fallback deny connect 10.0.0.2:5432",
        1,
        Ok(sel(ep(2, 5432), "10.0.0.2:5432")),
    )
    .unwrap();
    assert_eq!(gray.decision, NetworkPolicyDecision::Gray);
    assert_eq!(gray.gray_target.as_deref(), Some("decider"));
    assert_eq!(gray.timeout_ms, Some(250));
    assert_eq!(gray.concurrency_limit, Some(4));
    assert_eq!(gray.fallback, Some(EnforcementDecision::Deny));
}

#[test]
fn static_lines_report_their_faults() {
    assert_eq!(
        StaticRuleParser::parse("web permit connect 10.0.0.1:443", 1, Ok(sel(ep(1, 443), "x"))).unwrap_err(),
        "expected: <rule-id> <allow|deny> connect <ip:port>, or <rule-id> sync-plugin <instance> timeout-ms <positive-ms> concurrency <positive-limit> fallback <allow|deny> connect <ip:port>"
    );
    assert_eq!(
        StaticRuleParser::parse("web allow connect host:443", 1, Err("invalid socket address syntax".to_string())).unwrap_err(),
        "network remote must be a numeric IP endpoint: invalid socket address syntax"
    );
    assert_eq!(
        StaticRuleParser::parse(
            "db sync-plugin decider timeout-ms 0 concurrency 4 fallback deny connect 10.0.0.2:5432",
            1,
            Ok(sel(ep(2, 5432), "10.0.0.2:5432")),
        )
        .unwrap_err(),
        "timeout-ms must be greater than zero"
    );
    assert_eq!(
        StaticRuleParser::parse(
            "db sync-plugin decider timeout-ms 5 concurrency 4 fallback maybe connect 10.0.0.2:5432",
            1,
            Ok(sel(ep(2, 5432), "10.0.0.2:5432")),
        )
        .unwrap_err(),
        "fallback must be allow or deny"
    );
}

#[test]
fn static_file_loads_at_revision_one() {
    let lines = vec![
        line("# static policy", Err("unused".to_string())),
        line("", Err("unused".to_string())),
        line("web allow connect 10.0.0.1:443", Ok(sel(ep(1, 443), "10.0.0.1:443"))),
        line("  api deny connect 10.0.0.3:80  ", Ok(sel(ep(3, 80), "10.0.0.3:80"))),
    ];
    let store = load_static("/etc/actrail/net.rules", &lines).unwrap();
    assert_eq!(store.revision(), 1);
    let web = store.find(&ep(1, 443)).unwrap();
    assert_eq!(web.rule_revision, 1);
    assert_eq!(web.updated_sequence, 1);
    assert_eq!(store.find(&ep(3, 80)).unwrap().rule_id, "api");
    let empty = load_static("/etc/actrail/net.rules", &vec![line("# nothing", Err("unused".to_string()))]).unwrap();
    assert_eq!(empty.revision(), 0);
}

#[test]
fn static_file_faults_name_the_line() {
    let dup = vec![
        line("web allow connect 10.0.0.1:443", Ok(sel(ep(1, 443), "10.0.0.1:443"))),
        line("web deny connect 10.0.0.4:443", Ok(sel(ep(4, 443), "10.0.0.4:443"))),
    ];
    assert_eq!(load_static("net.rules", &dup).unwrap_err(), "net.rules:2: duplicate network rule id");
    let bad = vec![line("# c", Err("unused".to_string())), line("web allow", Err("unused".to_string()))];
    assert!(load_static("net.rules", &bad).unwrap_err().starts_with("net.rules:2: expected: "));
    let clash = vec![
        line("a allow connect 10.0.0.1:443", Ok(sel(ep(1, 443), "10.0.0.1:443"))),
        line("b deny connect 10.0.0.1:443", Ok(sel(ep(1, 443), "10.0.0.1:443"))),
    ];
    assert_eq!(
        load_static("net.rules", &clash).unwrap_err(),
        "network remote 10.0.0.1:443 is already owned by actrail.static"
    );
}

#[test]
fn endpoint_rule_files() {
    let rule = parse_rule(
        "net-1 sync-plugin decider timeout-ms 100 concurrency 2 fallback allow connect 10.0.0.9:8443",
        Ok(ep(9, 8443)),
    )
    .unwrap();
    assert_eq!(rule.rule.rule_id, "net-1");
    assert_eq!(rule.rule.instance_id, "decider");
    assert_eq!(rule.rule.timeout_ms, 100);
    assert_eq!(rule.rule.concurrency_limit, 2);
    assert_eq!(rule.rule.fallback, EnforcementDecision::Allow);
    assert_eq!(
        parse_rule("net-1 allow connect 10.0.0.9:8443", Ok(ep(9, 8443))).unwrap_err(),
        "expected: <rule_id> sync-plugin <instance> timeout-ms <positive-ms> concurrency <positive-limit> fallback <allow|deny> connect <ip:port>"
    );
    assert_eq!(
        parse_rule(
            "net-1 sync-plugin decider timeout-ms 100 concurrency 2 fallback allow connect nowhere",
            Err("invalid socket address syntax".to_string()),
        )
        .unwrap_err(),
        "connect endpoint must be ip:port: invalid socket address syntax"
    );
    let lines = vec![
        EndpointRuleLine { text: "# rules".to_string(), endpoint: Err("unused".to_string()) },
        EndpointRuleLine {
            text: "a sync-plugin d timeout-ms 1 concurrency 1 fallback deny connect 10.0.0.9:1".to_string(),
            endpoint: Ok(ep(9, 1)),
        },
        EndpointRuleLine {
            text: "b sync-plugin d timeout-ms 1 concurrency 1 fallback deny connect 10.0.0.9:1".to_string(),
            endpoint: Ok(ep(9, 1)),
        },
    ];
    assert_eq!(NetworkControlRules::load("ep.rules", &lines).unwrap_err(), "ep.rules:3: duplicate network endpoint");
    let rules = NetworkControlRules::load("ep.rules", &lines[..2].to_vec_owned()).unwrap();
    assert_eq!(rules.find_endpoint(&ep(9, 1)).unwrap().rule.rule_id, "a");
    assert!(rules.find_endpoint(&ep(9, 2)).is_none());
}

trait OwnedLines {
    fn to_vec_owned(&self) -> Vec<EndpointRuleLine>;
}

impl OwnedLines for [EndpointRuleLine] {
    fn to_vec_owned(&self) -> Vec<EndpointRuleLine> {
        self.iter()
            .map(|l| EndpointRuleLine {
                text: l.text.clone(),
                endpoint: match &l.endpoint {
                    Ok(e) => Ok(*e),
                    Err(m) => Err(m.clone()),
                },
            })
            .collect()
    }
}

#[test]
fn policy_changes_make_reusable_decisions_stale() {
    let lines = vec![line("web allow connect 10.0.0.1:443", Ok(sel(ep(1, 443), "10.0.0.1:443")))];
    let mut store = load_static("net.rules", &lines).unwrap();
    let mut cache = ReusableDecisionCache::new(4);
    let rule = store.find(&ep(1, 443)).unwrap().duplicate();
    cache.cache_decision(ReusableDecisionKey::new(1, 1, &rule, ep(1, 443)), EnforcementDecision::Allow, "p".to_string(), None).unwrap();
    let grants = vec![NetworkPolicyRulesApplyGrant { decision: NetworkPolicyDecision::Deny, covered: vec![RemoteSelector::Endpoint(ep(5, 22))] }];
    let item = NetworkPolicyPatchItem {
        op: NetworkPolicyPatchOp::Upsert,
        rule_id: None,
        rule: Some(NetworkPolicyRuleDraft {
            rule_id: Some("ssh".to_string()),
            decision: NetworkPolicyDecision::Deny,
            remote: Ok(sel(ep(5, 22), "10.0.0.5:22")),
            gray_target: None,
            timeout_ms: None,
            concurrency_limit: None,
            fallback: None,
        }),
    };
    let r = apply_policy_request(
        &mut store,
        &mut cache,
        "plugin-a",
        &grants,
        NetworkPolicyApplyRequest { base_revision: 1, mutation_id: "m".to_string(), items: vec![item] },
        &[],
    );
    assert_eq!(r.status, NetworkPolicyApplyStatus::Accepted);
    assert_eq!(r.new_revision, 2);
    assert_eq!(cache.len(), 0);
    cache.cache_decision(ReusableDecisionKey::new(1, 1, &rule, ep(1, 443)), EnforcementDecision::Allow, "q".to_string(), None).unwrap();
    remove_plugin_policy_owner(&mut store, &mut cache, "q").unwrap();
    assert_eq!(cache.len(), 0);
    assert_eq!(store.revision(), 2);
    assert_eq!(remove_plugin_policy_owner(&mut store, &mut cache, "actrail.static").unwrap_err().message, "static network policy owner cannot be removed");
    remove_plugin_policy_owner(&mut store, &mut cache, "plugin-a").unwrap();
    assert_eq!(store.revision(), 3);
    assert!(store.find(&ep(5, 22)).is_none());
}
