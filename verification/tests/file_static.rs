use actraild::file_policy::{FilePolicyDecision, FilePolicyOperation, RuleDecision};
use actraild::file_rules::EnforcementRules;
use actraild::file_static::{parse_rule, StaticFileLine};
use actraild::rules::EnforcementDecision;

fn line(text: &str, decision: Result<EnforcementDecision, &str>, op: Result<FilePolicyOperation, &str>, canonical: Result<&str, &str>) -> StaticFileLine {
    StaticFileLine {
        text: text.to_string(),
        decision: decision.map_err(str::to_string),
        operation: op.map_err(str::to_string),
        canonical_path: canonical.map(str::to_string).map_err(str::to_string),
    }
}

#[test]
fn local_and_sync_plugin_lines() {
    let local = parse_rule(&line(
        "r1 deny open /etc/shadow",
        Ok(EnforcementDecision::Deny),
        Ok(FilePolicyOperation::Open),
        Ok("/etc/shadow"),
    ))
    .unwrap();
    assert_eq!(local.owner_instance_id, "actrail.static");
    assert_eq!(local.rule_id, "r1");
    assert_eq!(local.operation, "open");
    assert_eq!(local.path, "/etc/shadow");
    assert!(matches!(local.decision, RuleDecision::Local(EnforcementDecision::Deny)));
    let gray = parse_rule(&line(
        "r2 gray sync-plugin 7 timeout-ms 500 concurrency 3 fallback allow any /srv/data",
        Ok(EnforcementDecision::Allow),
        Ok(FilePolicyOperation::Any),
        Ok("/srv/data"),
    ))
    .unwrap();
    match gray.decision {
        RuleDecision::SyncPlugin { instance_id, timeout_ms, concurrency_limit, fallback } => {
            assert_eq!(instance_id, "7");
            assert_eq!(timeout_ms, 500);
            assert_eq!(concurrency_limit, 3);
            assert_eq!(fallback, EnforcementDecision::Allow);
        }
        _ => panic!("a sync-plugin line gives a sync-plugin rule"),
    }
    assert_eq!(gray.operation, "any");
}

#[test]
fn faulty_lines_are_explained() {
    assert_eq!(
        parse_rule(&line("r1 deny open", Ok(EnforcementDecision::Deny), Ok(FilePolicyOperation::Open), Ok("/x"))).unwrap_err(),
        "expected: <rule_id> <allow|deny> <any|open|mkdir|rmdir> <absolute-path> or <rule_id> gray sync-plugin <instance> timeout-ms <positive-ms> concurrency <positive-limit> fallback <allow|deny> <any|open|mkdir|rmdir> <absolute-path>"
    );
    assert_eq!(
        parse_rule(&line("r1 deny open etc/shadow", Ok(EnforcementDecision::Deny), Ok(FilePolicyOperation::Open), Ok("/x"))).unwrap_err(),
        "path etc/shadow must be absolute"
    );
    assert_eq!(
        parse_rule(&line("r1 deny open /nope", Ok(EnforcementDecision::Deny), Ok(FilePolicyOperation::Open), Err("No such file or directory (os error 2)"))).unwrap_err(),
        "canonicalize /nope: No such file or directory (os error 2)"
    );
    assert_eq!(
        parse_rule(&line("r1 deny write /x", Ok(EnforcementDecision::Deny), Err("unknown operation write"), Ok("/x"))).unwrap_err(),
        "unknown operation write"
    );
    assert_eq!(
        parse_rule(&line(
            "r2 gray sync-plugin 7 timeout-ms 500 concurrency 0 fallback allow any /srv",
            Ok(EnforcementDecision::Allow),
            Ok(FilePolicyOperation::Any),
            Ok("/srv"),
        ))
        .unwrap_err(),
        "concurrency must be greater than zero"
    );
}

#[test]
fn static_file_loads_into_the_store() {
    let lines = vec![
        line("# file policy", Err("-"), Err("-"), Err("-")),
        line("r1 deny open /etc/shadow", Ok(EnforcementDecision::Deny), Ok(FilePolicyOperation::Open), Ok("/etc/shadow")),
        line("   ", Err("-"), Err("-"), Err("-")),
        line("r2 allow open /etc/hosts", Ok(EnforcementDecision::Allow), Ok(FilePolicyOperation::Open), Ok("/etc/hosts")),
    ];
    let store = EnforcementRules::parse(&lines).unwrap();
    assert!(!store.is_empty());
    let hit = store.find_path(FilePolicyOperation::Open, "/etc/shadow").unwrap();
    assert_eq!(hit.rule_id, "r1");
    assert_eq!(store.find_path(FilePolicyOperation::Open, "/etc/hosts").unwrap().rule_id, "r2");
    assert!(store.find_path(FilePolicyOperation::Open, "/etc/passwd").is_none());
    let _ = FilePolicyDecision::Deny;
}

#[test]
fn static_file_policy_faults_name_the_line() {
    let dup = vec![
        line("r1 deny open /a", Ok(EnforcementDecision::Deny), Ok(FilePolicyOperation::Open), Ok("/a")),
        line("r1 deny open /b", Ok(EnforcementDecision::Deny), Ok(FilePolicyOperation::Open), Ok("/b")),
    ];
    assert_eq!(EnforcementRules::parse(&dup).unwrap_err(), "enforcement rule line 2 duplicates rule id r1");
    let bad = vec![line("r1 deny open a", Ok(EnforcementDecision::Deny), Ok(FilePolicyOperation::Open), Ok("/a"))];
    assert_eq!(EnforcementRules::parse(&bad).unwrap_err(), "enforcement rule line 1: path a must be absolute");
}
