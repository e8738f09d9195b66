use actraild::file_policy::{
    FilePolicyDecision, FilePolicyListFilter, FilePolicyOperation, FilePolicyRuleDraft, FilePolicyRulesApplyGrant,
    RuleDecision,
};
use actraild::file_rules::{
    EnforcementRules, FilePolicyApplyMode, FilePolicyApplyPrecondition, FilePolicyApplyRequest, FilePolicyApplyResult,
    FilePolicyApplyStatus, FilePolicyMatchDryRunRequest, FilePolicyPatchItem, FilePolicyPatchOp,
};
use actraild::rules::EnforcementDecision;
use actraild::scope::PathScope;

fn grant(decision: FilePolicyDecision, scope: &str) -> FilePolicyRulesApplyGrant {
    FilePolicyRulesApplyGrant { decision, path_scope: scope.to_string() }
}

fn draft(rule_id: Option<&str>, decision: FilePolicyDecision, path: &str, priority: i32) -> FilePolicyRuleDraft {
    FilePolicyRuleDraft {
        rule_id: rule_id.map(str::to_string),
        decision,
        operation: FilePolicyOperation::Open,
        path: path.to_string(),
        gray_target: None,
        priority,
    }
}

fn upsert(d: FilePolicyRuleDraft) -> FilePolicyPatchItem {
    FilePolicyPatchItem { op: FilePolicyPatchOp::Upsert, rule_id: None, rule: Some(d) }
}

fn by_id(op: FilePolicyPatchOp, id: &str) -> FilePolicyPatchItem {
    FilePolicyPatchItem { op, rule_id: Some(id.to_string()), rule: None }
}

fn request(base_revision: u64, items: Vec<FilePolicyPatchItem>) -> FilePolicyApplyRequest {
    FilePolicyApplyRequest {
        precondition: FilePolicyApplyPrecondition { base_revision, apply_mode: FilePolicyApplyMode::BestEffort },
        items,
    }
}

fn all() -> FilePolicyListFilter {
    FilePolicyListFilter { decision: None, operation: None, path_prefix: None }
}

fn home_deny() -> Vec<FilePolicyRulesApplyGrant> {
    vec![grant(FilePolicyDecision::Deny, "/home/**"), grant(FilePolicyDecision::Gray, "/home/**")]
}

fn errors_of(r: &FilePolicyApplyResult) -> Vec<(u32, String, String)> {
    r.errors.iter().map(|e| (e.item_index, e.code.clone(), e.message.clone())).collect()
}

fn store_with_secret() -> EnforcementRules {
    let mut store = EnforcementRules::empty();
    let r = store
        .apply("p1", &home_deny(), request(0, vec![upsert(draft(None, FilePolicyDecision::Deny, "/home/u/secret", 5))]), &[])
        .unwrap();
    assert_eq!(r.status, FilePolicyApplyStatus::Accepted);
    store
}

#[test]
fn empty_store_starts_at_revision_zero() {
    let store = EnforcementRules::empty();
    assert_eq!(store.revision(), 0);
    assert!(store.is_empty());
    assert!(store.find_path(FilePolicyOperation::Open, "/etc/passwd").is_none());
    assert!(store.list(all(), None, 10).rules.is_empty());
}

#[test]
fn host_assigned_upsert_is_stored_and_enforced() {
    let store = store_with_secret();
    assert_eq!(store.revision(), 1);
    let page = store.list(all(), None, 10);
    assert_eq!(page.rules.len(), 1);
    let rule = &page.rules[0];
    assert_eq!(rule.rule_id, "fp-1");
    assert_eq!(rule.owner_instance_id, "p1");
    assert_eq!(rule.decision, FilePolicyDecision::Deny);
    assert_eq!(rule.path, "/home/u/secret");
    assert_eq!(rule.priority, 5);
    assert!(rule.enabled);
    assert_eq!(rule.updated_sequence, 1);
    assert_eq!(page.next_cursor, None);
    assert_eq!(page.source_revision, 1);

    let found = store.find_path(FilePolicyOperation::Open, "/home/u/secret").unwrap();
    assert_eq!(found.rule_id, "fp-1");
    assert_eq!(found.owner_instance_id, "p1");
    assert_eq!(found.operation, "open");
    assert_eq!(found.path, "/home/u/secret");
    assert!(matches!(found.decision, RuleDecision::Local(EnforcementDecision::Deny)));
    assert!(store.find_path(FilePolicyOperation::Mkdir, "/home/u/secret").is_none());
    assert!(store.find_path(FilePolicyOperation::Open, "/home/u/other").is_none());

    let scopes = store.mark_scopes();
    assert_eq!(scopes.len(), 1);
    assert!(matches!(&scopes[0], PathScope::Exact(p) if p == "/home/u/secret"));
}

#[test]
fn host_assigned_upsert_of_same_scope_supersedes_the_older_rule() {
    let mut store = store_with_secret();
    let r = store
        .apply("p1", &home_deny(), request(1, vec![upsert(draft(None, FilePolicyDecision::Deny, "/home/u/./secret", 7))]), &[])
        .unwrap();
    assert_eq!(r.applied_count, 1);
    assert_eq!(r.new_revision, 2);
    let page = store.list(all(), None, 10);
    assert_eq!(page.rules.len(), 1);
    assert_eq!(page.rules[0].rule_id, "fp-2");
    assert_eq!(page.rules[0].priority, 7);
}

#[test]
fn all_or_nothing_mode_is_refused() {
    let mut store = store_with_secret();
    let mut req = request(1, vec![by_id(FilePolicyPatchOp::Delete, "fp-1")]);
    req.precondition.apply_mode = FilePolicyApplyMode::Aon;
    let r = store.apply("p1", &home_deny(), req, &[]).unwrap();
    assert_eq!(r.status, FilePolicyApplyStatus::Rejected);
    assert_eq!(r.new_revision, 1);
    assert_eq!(r.applied_count, 0);
    assert_eq!(r.rejected_count, 1);
    assert_eq!(
        errors_of(&r),
        vec![(0, "unsupported-apply-mode".to_string(), "file policy apply_mode aon is temporarily disabled".to_string())]
    );
    assert_eq!(store.list(all(), None, 10).rules.len(), 1);
}

#[test]
fn base_revision_ahead_of_the_store_is_refused() {
    let mut store = store_with_secret();
    let r = store.apply("p1", &home_deny(), request(5, vec![by_id(FilePolicyPatchOp::Delete, "fp-1")]), &[]).unwrap();
    assert_eq!(
        errors_of(&r),
        vec![(0, "invalid-precondition".to_string(), "base_revision 5 is newer than current revision 1".to_string())]
    );
    assert_eq!(store.revision(), 1);
}

#[test]
fn invalid_items_are_reported_and_valid_ones_applied() {
    let mut store = store_with_secret();
    let mut gray = draft(Some("g"), FilePolicyDecision::Gray, "/home/u/gray", 0);
    gray.gray_target = Some(7);
    let items = vec![
        upsert(draft(None, FilePolicyDecision::Deny, "/etc/passwd", 0)),
        upsert(gray),
        FilePolicyPatchItem { op: FilePolicyPatchOp::Upsert, rule_id: None, rule: None },
        by_id(FilePolicyPatchOp::Enable, "nope"),
        upsert(draft(Some("ok"), FilePolicyDecision::Deny, "/home/u/ok", 1)),
    ];
    let expected = vec![
        (0, "invalid-rule".to_string(), "missing file-policy.rules.apply grant for deny /etc/passwd".to_string()),
        (1, "invalid-rule".to_string(), "gray_target 7 is not an active control decider".to_string()),
        (2, "invalid-rule".to_string(), "upsert requires rule".to_string()),
        (3, "invalid-rule".to_string(), "rule nope not found for owner".to_string()),
    ];
    let dry = store.validate_apply("p1", &home_deny(), &request(1, items_clone(&items)), &[]);
    assert_eq!(errors_of(&dry), expected);
    assert_eq!(dry.status, FilePolicyApplyStatus::Rejected);
    assert_eq!(dry.new_revision, 1);
    let r = store.apply("p1", &home_deny(), request(1, items), &[]).unwrap();
    assert_eq!(errors_of(&r), expected);
    assert_eq!(r.status, FilePolicyApplyStatus::Accepted);
    assert_eq!(r.applied_count, 1);
    assert_eq!(r.rejected_count, 4);
    assert_eq!(r.new_revision, 2);
    let ids: Vec<String> = store.list(all(), None, 10).rules.iter().map(|v| v.rule_id.clone()).collect();
    assert_eq!(ids, vec!["fp-1".to_string(), "ok".to_string()]);
}

fn items_clone(items: &[FilePolicyPatchItem]) -> Vec<FilePolicyPatchItem> {
    items
        .iter()
        .map(|i| FilePolicyPatchItem {
            op: i.op,
            rule_id: i.rule_id.clone(),
            rule: i.rule.as_ref().map(|d| FilePolicyRuleDraft {
                rule_id: d.rule_id.clone(),
                decision: d.decision,
                operation: d.operation,
                path: d.path.clone(),
                gray_target: d.gray_target,
                priority: d.priority,
            }),
        })
        .collect()
}

#[test]
fn gray_rule_with_active_decider_asks_it_with_defaults() {
    let mut store = EnforcementRules::empty();
    let mut gray = draft(Some("g"), FilePolicyDecision::Gray, "/home/u/gray", 0);
    gray.gray_target = Some(7);
    let r = store.apply("p1", &home_deny(), request(0, vec![upsert(gray)]), &[7]).unwrap();
    assert_eq!(r.applied_count, 1);
    let found = store.find_path(FilePolicyOperation::Open, "/home/u/gray").unwrap();
    match &found.decision {
        RuleDecision::SyncPlugin { instance_id, timeout_ms, concurrency_limit, fallback } => {
            assert_eq!(instance_id, "7");
            assert_eq!(*timeout_ms, 30_000);
            assert_eq!(*concurrency_limit, 32);
            assert_eq!(*fallback, EnforcementDecision::Deny);
        }
        RuleDecision::Local(_) => panic!("gray rule compiled to a local decision"),
    }
}

#[test]
fn stale_requests_are_refused_and_current_ones_disable() {
    let mut store = store_with_secret();
    let r = store.apply("p1", &home_deny(), request(0, vec![by_id(FilePolicyPatchOp::Disable, "fp-1")]), &[]).unwrap();
    assert_eq!(
        errors_of(&r),
        vec![(
            0,
            "invalid-rule".to_string(),
            "stale file policy request for rule fp-1: base_revision 0 is older than rule revision 1".to_string()
        )]
    );
    assert_eq!(r.status, FilePolicyApplyStatus::Rejected);
    assert_eq!(store.revision(), 1);
    let r = store.apply("p1", &home_deny(), request(1, vec![by_id(FilePolicyPatchOp::Disable, "fp-1")]), &[]).unwrap();
    assert_eq!(r.applied_count, 1);
    assert_eq!(store.revision(), 2);
    assert!(store.find_path(FilePolicyOperation::Open, "/home/u/secret").is_none());
    assert!(store.is_empty());
    let page = store.list(all(), None, 10);
    assert!(!page.rules[0].enabled);
    assert_eq!(page.rules[0].updated_sequence, 2);
}

#[test]
fn deleting_then_enabling_in_one_request_fails_midway() {
    let mut store = store_with_secret();
    let r = store.apply(
        "p1",
        &home_deny(),
        request(1, vec![by_id(FilePolicyPatchOp::Delete, "fp-1"), by_id(FilePolicyPatchOp::Enable, "fp-1")]),
        &[],
    );
    assert_eq!(r.err(), Some("rule fp-1 not found for owner".to_string()));
    assert_eq!(store.revision(), 1);
    assert!(store.list(all(), None, 10).rules.is_empty());
}

#[test]
fn dry_run_lookup_reports_the_deciding_rule() {
    let store = store_with_secret();
    let hit = store
        .match_dry_run(
            FilePolicyMatchDryRunRequest { operation: FilePolicyOperation::Open, path: "/home/u/./secret".to_string() },
            FilePolicyDecision::Allow,
        )
        .unwrap();
    assert!(hit.matched);
    assert_eq!(hit.decision, FilePolicyDecision::Deny);
    assert_eq!(hit.rule_id, Some("fp-1".to_string()));
    assert_eq!(hit.canonical_path, "/home/u/secret");
    assert_eq!(hit.source_revision, 1);
    let miss = store
        .match_dry_run(
            FilePolicyMatchDryRunRequest { operation: FilePolicyOperation::Mkdir, path: "/home/u/secret".to_string() },
            FilePolicyDecision::Allow,
        )
        .unwrap();
    assert!(!miss.matched);
    assert_eq!(miss.decision, FilePolicyDecision::Allow);
    assert_eq!(miss.rule_id, None);
    let bad = store.match_dry_run(
        FilePolicyMatchDryRunRequest { operation: FilePolicyOperation::Open, path: "home".to_string() },
        FilePolicyDecision::Allow,
    );
    assert_eq!(bad.err(), Some("path home must be absolute".to_string()));
}

#[test]
fn removing_an_owner_drops_its_rules_once() {
    let mut store = store_with_secret();
    assert!(store.remove_owner("p1"));
    assert_eq!(store.revision(), 2);
    assert!(store.list(all(), None, 10).rules.is_empty());
    assert!(store.is_empty());
    assert!(!store.remove_owner("p1"));
    assert_eq!(store.revision(), 2);
}

#[test]
fn listing_is_by_rule_id_in_pages() {
    let mut store = EnforcementRules::empty();
    let items = vec![
        upsert(draft(Some("b"), FilePolicyDecision::Deny, "/home/b", 0)),
        upsert(draft(Some("a"), FilePolicyDecision::Deny, "/home/a", 0)),
        upsert(draft(Some("c"), FilePolicyDecision::Deny, "/home/c/**", 0)),
    ];
    let r = store.apply("p1", &home_deny(), request(0, items), &[]).unwrap();
    assert_eq!(r.applied_count, 3);
    let first = store.list(all(), None, 2);
    let ids: Vec<&str> = first.rules.iter().map(|v| v.rule_id.as_str()).collect();
    assert_eq!(ids, vec!["a", "b"]);
    assert_eq!(first.next_cursor, Some("2".to_string()));
    let second = store.list(all(), Some("2"), 2);
    assert_eq!(second.rules.len(), 1);
    assert_eq!(second.rules[0].rule_id, "c");
    assert_eq!(second.rules[0].path, "/home/c/**");
    assert_eq!(second.next_cursor, None);
    assert_eq!(store.list(all(), Some("x"), 0).rules[0].rule_id, "a");
    let filtered = store.list(
        FilePolicyListFilter { decision: None, operation: None, path_prefix: Some("/home/c".to_string()) },
        None,
        10,
    );
    assert_eq!(filtered.rules.len(), 1);
}

#[test]
fn builtin_allow_rules_are_evaluated_first() {
    let mut store = store_with_secret();
    store.install_builtin_allow_rules(&[("self".to_string(), "/home/u/**".to_string())]).unwrap();
    let found = store.find_path(FilePolicyOperation::Open, "/home/u/secret").unwrap();
    assert_eq!(found.rule_id, "self");
    assert_eq!(found.owner_instance_id, "actrail.builtin");
    assert!(matches!(found.decision, RuleDecision::Local(EnforcementDecision::Allow)));
    assert_eq!(store.find_builtin_allow("/home/u/x").unwrap().rule_id, "self");
    assert!(store.find_builtin_allow("/tmp/x").is_none());
    let marks = store.builtin_ignore_marks();
    assert_eq!(marks.len(), 1);
    assert_eq!(marks[0].path, "/home/u");
    assert!(marks[0].recursive);
    assert_eq!(store.mark_scopes().len(), 1);
    assert_eq!(
        store.install_builtin_allow_rules(&[("self".to_string(), "/x".to_string())]),
        Err("duplicate builtin file policy rule id self".to_string())
    );
    assert_eq!(
        store.install_builtin_allow_rules(&[(" ".to_string(), "/x".to_string())]),
        Err("builtin file policy rule_id must not be empty".to_string())
    );
    assert_eq!(
        store.install_builtin_allow_rules(&[("rel".to_string(), "x/y".to_string())]),
        Err("path x/y must be absolute".to_string())
    );
}
