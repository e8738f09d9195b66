use actraild::counts::InFlightCounts;
use actraild::decision::{
    admit_sync_plugin_decision, cache_after_response, resolve_mutation_decision, resolve_plugin_decision,
    MutationCallOutcome, NetworkDecisionAccounting, PluginCallOutcome, SyncPluginAdmission,
};
use actraild::rules::{EnforcementDecision, SyncPluginFallbackReason};

#[test]
fn cached_verdict_wins_without_taking_slots() {
    let mut by_rule: InFlightCounts<String> = InFlightCounts::new();
    let mut by_instance: InFlightCounts<String> = InFlightCounts::new();
    let admission = admit_sync_plugin_decision(
        Some(EnforcementDecision::Allow),
        &mut by_rule,
        &mut by_instance,
        "rule",
        "plugin",
        1,
        None,
    );
    assert_eq!(admission, Ok(SyncPluginAdmission::Cached(EnforcementDecision::Allow)));
    assert_eq!(by_rule.get(&"rule".to_string()), 0);
}

#[test]
fn limits_fall_back_and_dispatch_takes_slots() {
    let mut by_rule: InFlightCounts<String> = InFlightCounts::new();
    let mut by_instance: InFlightCounts<String> = InFlightCounts::new();
    let dispatch = admit_sync_plugin_decision(None, &mut by_rule, &mut by_instance, "rule", "plugin", 1, Some(5));
    assert_eq!(dispatch, Ok(SyncPluginAdmission::Dispatch));
    assert_eq!(by_rule.get(&"rule".to_string()), 1);
    assert_eq!(by_instance.get(&"plugin".to_string()), 1);
    let limited = admit_sync_plugin_decision(None, &mut by_rule, &mut by_instance, "rule", "plugin", 1, Some(5));
    assert_eq!(
        limited,
        Ok(SyncPluginAdmission::Fallback {
            reason: SyncPluginFallbackReason::ConcurrencyLimit,
            in_flight: Some(1),
            instance_concurrency_limit: None,
            instance_in_flight: None,
        })
    );
    let instance_limited =
        admit_sync_plugin_decision(None, &mut by_rule, &mut by_instance, "other", "plugin", 4, Some(1));
    assert_eq!(
        instance_limited,
        Ok(SyncPluginAdmission::Fallback {
            reason: SyncPluginFallbackReason::PluginInstanceConcurrencyLimit,
            in_flight: None,
            instance_concurrency_limit: Some(1),
            instance_in_flight: Some(1),
        })
    );
    assert_eq!(by_rule.get(&"other".to_string()), 0);
    assert_eq!(by_instance.get(&"plugin".to_string()), 1);
}

#[test]
fn plugin_outcomes_become_verdicts() {
    let answered = resolve_plugin_decision(
        PluginCallOutcome::Answered { verdict: EnforcementDecision::Allow, reusable: true },
        EnforcementDecision::Deny,
    );
    assert_eq!(answered.decision, EnforcementDecision::Allow);
    assert!(answered.cache && answered.error.is_none() && answered.fallback_reason.is_none());
    assert!(cache_after_response(&answered, true));
    assert!(!cache_after_response(&answered, false));

    let unloaded = resolve_plugin_decision(PluginCallOutcome::Unavailable, EnforcementDecision::Allow);
    assert_eq!(unloaded.decision, EnforcementDecision::Deny);
    assert_eq!(unloaded.fallback_reason, Some(SyncPluginFallbackReason::PluginError));
    assert_eq!(
        unloaded.error.as_deref(),
        Some("control plugin unloaded during file-policy decision")
    );

    let failed = resolve_plugin_decision(
        PluginCallOutcome::Failed { code: "timeout".to_string(), message: "slow".to_string() },
        EnforcementDecision::Allow,
    );
    assert_eq!(failed.decision, EnforcementDecision::Allow);
    assert_eq!(failed.error.as_deref(), Some("timeout: slow"));
    assert!(!failed.cache);

    let panicked = resolve_plugin_decision(PluginCallOutcome::Panicked, EnforcementDecision::Deny);
    assert_eq!(panicked.fallback_reason, Some(SyncPluginFallbackReason::PluginPanic));
    assert_eq!(panicked.error.as_deref(), Some("control plugin panicked"));
}

#[test]
fn network_accounting_admission_reserve_release() {
    let mut accounting = NetworkDecisionAccounting::new(2);
    assert_eq!(accounting.admission_rejection("owner", "rule", 1, "plugin", None), Some("plugin_instance_concurrency_limit"));
    assert_eq!(accounting.admission_rejection("owner", "rule", 1, "plugin", Some(1)), None);
    assert!(accounting.reserve("owner", "rule", "plugin").is_ok());
    assert_eq!(accounting.global_pending, 1);
    assert_eq!(accounting.admission_rejection("owner", "rule", 1, "plugin", Some(5)), Some("rule_concurrency_limit"));
    assert_eq!(accounting.admission_rejection("owner", "other", 1, "plugin", Some(1)), Some("plugin_instance_concurrency_limit"));
    assert!(accounting.reserve("owner", "other", "plugin2").is_ok());
    assert_eq!(accounting.admission_rejection("x", "y", 9, "z", Some(9)), Some("global_pending_limit"));
    assert!(accounting.release("owner", "rule", "plugin").is_ok());
    assert!(accounting.release("owner", "other", "plugin2").is_ok());
    assert_eq!(accounting.global_pending, 0);
    let error = accounting.release("owner", "rule", "plugin").unwrap_err();
    assert_eq!(error.message, "global pending underflow");
    accounting.global_pending = 1;
    let error = accounting.release("owner", "rule", "plugin").unwrap_err();
    assert_eq!(error.message, "rule in-flight underflow");
    assert_eq!(accounting.global_pending, 0);
}

#[test]
fn mutation_path_failures_all_fall_back_as_plugin_errors() {
    let panicked = resolve_mutation_decision(MutationCallOutcome::Panicked, EnforcementDecision::Allow);
    assert_eq!(panicked.decision, EnforcementDecision::Allow);
    assert_eq!(panicked.fallback_reason, Some(SyncPluginFallbackReason::PluginError));
    assert_eq!(panicked.error.as_deref(), Some("control plugin panicked"));
    assert!(!panicked.cache);

    let refused = resolve_mutation_decision(
        MutationCallOutcome::RequestRefused("process record 4 is missing".to_string()),
        EnforcementDecision::Deny,
    );
    assert_eq!(refused.decision, EnforcementDecision::Deny);
    assert_eq!(refused.fallback_reason, Some(SyncPluginFallbackReason::PluginError));
    assert_eq!(refused.error.as_deref(), Some("process record 4 is missing"));

    let failed = resolve_mutation_decision(
        MutationCallOutcome::Failed { code: "plugin_timeout".to_string(), message: "late".to_string() },
        EnforcementDecision::Allow,
    );
    assert_eq!(failed.error.as_deref(), Some("plugin_timeout: late"));

    let unloaded = resolve_mutation_decision(MutationCallOutcome::Unavailable, EnforcementDecision::Allow);
    assert_eq!(unloaded.decision, EnforcementDecision::Deny);
    assert_eq!(unloaded.error.as_deref(), Some("control plugin unloaded during file-policy decision"));

    let answered = resolve_mutation_decision(
        MutationCallOutcome::Answered { verdict: EnforcementDecision::Deny, reusable: true },
        EnforcementDecision::Allow,
    );
    assert_eq!(answered.decision, EnforcementDecision::Deny);
    assert!(answered.cache && answered.error.is_none());
}
