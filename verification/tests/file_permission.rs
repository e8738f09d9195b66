use actraild::file_audit::DecisionSource;
use actraild::file_permission::{decision_id, matched_rule_context, mutation_step, permission_step, target_summary, MutationStep, PermissionStep};
use actraild::file_policy::{EnforcementRule, RuleDecision};
use actraild::rules::EnforcementDecision;

fn local(decision: EnforcementDecision) -> EnforcementRule {
    EnforcementRule {
        owner_instance_id: "actrail.static".to_string(),
        rule_id: "r1".to_string(),
        decision: RuleDecision::Local(decision),
        operation: "open".to_string(),
        path: "/etc/shadow".to_string(),
    }
}

fn gray() -> EnforcementRule {
    EnforcementRule {
        owner_instance_id: "plugin".to_string(),
        rule_id: "g1".to_string(),
        decision: RuleDecision::SyncPlugin {
            instance_id: "7".to_string(),
            timeout_ms: 30000,
            concurrency_limit: 32,
            fallback: EnforcementDecision::Deny,
        },
        operation: "open".to_string(),
        path: "/srv".to_string(),
    }
}

const OPEN_PERM: u64 = 0x0001_0000;

#[test]
fn permission_events_follow_trace_and_rule() {
    assert!(matches!(permission_step(0x20, false, true, true, None, EnforcementDecision::Deny), PermissionStep::Ignore));
    assert!(matches!(permission_step(OPEN_PERM, true, true, true, None, EnforcementDecision::Deny), PermissionStep::Allow));
    assert!(matches!(permission_step(OPEN_PERM, false, false, true, None, EnforcementDecision::Deny), PermissionStep::Allow));
    assert!(matches!(permission_step(OPEN_PERM, false, true, false, None, EnforcementDecision::Deny), PermissionStep::Allow));
    match permission_step(OPEN_PERM, false, true, true, None, EnforcementDecision::Deny) {
        PermissionStep::Respond(d) => {
            assert_eq!(d.decision, EnforcementDecision::Deny);
            assert!(matches!(d.source, DecisionSource::Default));
        }
        _ => panic!("no rule gives the default"),
    }
    let rule = local(EnforcementDecision::Allow);
    match permission_step(OPEN_PERM, false, true, true, Some(&rule), EnforcementDecision::Deny) {
        PermissionStep::Respond(d) => {
            assert_eq!(d.decision, EnforcementDecision::Allow);
            assert_eq!(d.rule.unwrap().rule_id, "r1");
            assert!(matches!(d.source, DecisionSource::Rule));
        }
        _ => panic!("a local rule answers"),
    }
    let g = gray();
    assert!(matches!(permission_step(OPEN_PERM, false, true, true, Some(&g), EnforcementDecision::Deny), PermissionStep::SyncPlugin(_)));
}

#[test]
fn mutations_follow_default_trace_and_rule() {
    assert!(matches!(mutation_step(EnforcementDecision::Allow, false, false, true, true, None), MutationStep::Skip));
    assert!(matches!(mutation_step(EnforcementDecision::Deny, false, false, true, true, None), MutationStep::DenyUnresolved));
    assert!(matches!(mutation_step(EnforcementDecision::Deny, false, true, false, true, None), MutationStep::Skip));
    let rule = local(EnforcementDecision::Deny);
    match mutation_step(EnforcementDecision::Allow, true, true, true, true, Some(&rule)) {
        MutationStep::Respond(d) => assert_eq!(d.decision, EnforcementDecision::Deny),
        _ => panic!("a local rule answers"),
    }
}

#[test]
fn plugins_see_the_gray_rule() {
    assert!(matched_rule_context(&local(EnforcementDecision::Deny)).is_none());
    let c = matched_rule_context(&gray()).unwrap();
    assert_eq!(c.rule_id, "g1");
    assert_eq!(c.decision, "gray");
    assert_eq!(c.path, "/srv");
    assert_eq!(c.plugin_instance.as_deref(), Some("7"));
    assert_eq!(c.timeout_ms, Some(30000));
    assert_eq!(c.concurrency_limit, Some(32));
    assert_eq!(c.fallback.as_deref(), Some("deny"));
    assert_eq!(decision_id("g1", 42), "g1:42");
    assert_eq!(target_summary(&gray(), Some("/srv/a")), "/srv/a");
    assert_eq!(target_summary(&gray(), None), "/srv");
}
