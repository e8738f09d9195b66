//! Deciding a traced process's file access: an open-permission event from
//! fanotify or a directory mutation trapped by seccomp. What the rule that
//! matched, or the default, gives; when the rule's plugin is consulted; and
//! the rule context a plugin is shown.
//!
//! The caller reads the event, resolves the process and its trace, answers
//! the kernel and runs the plugin call; the decisions are taken here.

use vstd::prelude::*;
use crate::file_audit::{Decision, DecisionSource};
use crate::file_policy::{EnforcementRule, RuleDecision, RuleDecisionView};
use crate::rules::{verdict_text, EnforcementDecision};
use crate::text::{decimal, u64_to_decimal};

verus! {

/// The fanotify mask bit of an open-permission event.
pub open spec fn fan_open_perm() -> u64 {
    0x0001_0000
}

/// What a fanotify permission event gets.
#[derive(Debug)]
pub enum PermissionStep<'a> {
    /// Not an open-permission event: it is left unanswered here.
    Ignore,
    /// Allowed without a record: a built-in allow rule covers the path, or
    /// the process is not traced, or its trace does not ask for
    /// enforcement.
    Allow,
    /// Answered with this decision, which is recorded.
    Respond(Decision<'a>),
    /// The matched rule asks its plugin.
    SyncPlugin(&'a EnforcementRule),
}

/// Decides a fanotify permission event from its mask, whether a built-in
/// allow rule covers its path, whether its process is traced by a trace
/// that asks for enforcement, and the rule its path matched.
pub fn permission_step<'a>(
    mask: u64,
    builtin_allowed: bool,
    traced: bool,
    enforced: bool,
    rule: Option<&'a EnforcementRule>,
    default_decision: EnforcementDecision,
) -> (r: PermissionStep<'a>)
    ensures
        (mask & fan_open_perm()) == 0 ==> r is Ignore,
        (mask & fan_open_perm()) != 0 && (builtin_allowed || !traced || !enforced) ==> r is Allow,
        (mask & fan_open_perm()) != 0 && !builtin_allowed && traced && enforced ==> match rule {
            None => r matches PermissionStep::Respond(d) && d.decision == default_decision && d.rule is None
                && d.source is Default,
            Some(x) => match x@.decision {
                RuleDecisionView::Local(v) => r matches PermissionStep::Respond(d) && d.decision == v && d.rule == Some(x)
                    && d.source is Rule,
                RuleDecisionView::SyncPlugin(..) => r matches PermissionStep::SyncPlugin(y) && y == x,
            },
        },
{
    if mask & 0x0001_0000 == 0 {
        return PermissionStep::Ignore;
    }
    if builtin_allowed || !traced || !enforced {
        return PermissionStep::Allow;
    }
    match rule {
        None => PermissionStep::Respond(Decision { decision: default_decision, rule: None, source: DecisionSource::Default }),
        Some(x) => match &x.decision {
            RuleDecision::Local(v) => PermissionStep::Respond(Decision { decision: *v, rule: Some(x), source: DecisionSource::Rule }),
            RuleDecision::SyncPlugin { .. } => PermissionStep::SyncPlugin(x),
        },
    }
}

/// What a trapped directory mutation gets.
#[derive(Debug)]
pub enum MutationStep<'a> {
    /// Let through untouched: nothing can deny it, or its process is not
    /// traced, or its trace does not ask for enforcement.
    Skip,
    /// Denied without a record: its target path could not be resolved.
    DenyUnresolved,
    /// Answered with this decision, which is recorded.
    Respond(Decision<'a>),
    /// The matched rule asks its plugin.
    SyncPlugin(&'a EnforcementRule),
}

/// Decides a trapped mutation: with an allowing default and no rule for the
/// operation it passes; an unresolvable target is denied; an untraced or
/// unenforced process passes; else the matched rule or the default decides.
pub fn mutation_step<'a>(
    default_decision: EnforcementDecision,
    operation_has_rules: bool,
    path_resolved: bool,
    traced: bool,
    enforced: bool,
    rule: Option<&'a EnforcementRule>,
) -> (r: MutationStep<'a>)
    ensures
        default_decision == EnforcementDecision::Allow && !operation_has_rules ==> r is Skip,
        !(default_decision == EnforcementDecision::Allow && !operation_has_rules) && !path_resolved ==> r is DenyUnresolved,
        !(default_decision == EnforcementDecision::Allow && !operation_has_rules) && path_resolved && (!traced || !enforced)
            ==> r is Skip,
        !(default_decision == EnforcementDecision::Allow && !operation_has_rules) && path_resolved && traced && enforced ==> match rule {
            None => r matches MutationStep::Respond(d) && d.decision == default_decision && d.rule is None && d.source is Default,
            Some(x) => match x@.decision {
                RuleDecisionView::Local(v) => r matches MutationStep::Respond(d) && d.decision == v && d.rule == Some(x)
                    && d.source is Rule,
                RuleDecisionView::SyncPlugin(..) => r matches MutationStep::SyncPlugin(y) && y == x,
            },
        },
{
    if default_decision == EnforcementDecision::Allow && !operation_has_rules {
        return MutationStep::Skip;
    }
    if !path_resolved {
        return MutationStep::DenyUnresolved;
    }
    if !traced || !enforced {
        return MutationStep::Skip;
    }
    match rule {
        None => MutationStep::Respond(Decision { decision: default_decision, rule: None, source: DecisionSource::Default }),
        Some(x) => match &x.decision {
            RuleDecision::Local(v) => MutationStep::Respond(Decision { decision: *v, rule: Some(x), source: DecisionSource::Rule }),
            RuleDecision::SyncPlugin { .. } => MutationStep::SyncPlugin(x),
        },
    }
}

/// The matched gray rule as a plugin is shown it.
#[derive(Debug)]
pub struct FilePolicyMatchedRule {
    pub rule_id: String,
    pub decision: String,
    pub operation: String,
    pub path: String,
    pub plugin_instance: Option<String>,
    pub timeout_ms: Option<u64>,
    pub concurrency_limit: Option<u32>,
    pub fallback: Option<String>,
}

/// The context of a rule that asks its plugin: its id, "gray", its
/// operation and path, and its plugin settings; none for a local rule.
pub fn matched_rule_context(rule: &EnforcementRule) -> (r: Option<FilePolicyMatchedRule>)
    ensures
        match rule@.decision {
            RuleDecisionView::Local(_) => r is None,
            RuleDecisionView::SyncPlugin(instance, timeout, limit, fallback) => r matches Some(c) && c.rule_id@ == rule@.rule_id
                && c.decision@ == "gray"@ && c.operation@ == rule@.operation && c.path@ == rule.path@
                && (c.plugin_instance matches Some(i) && i@ == instance) && c.timeout_ms == Some(timeout)
                && c.concurrency_limit == Some(limit) && (c.fallback matches Some(f) && f@ == verdict_text(fallback)),
        },
{
    match &rule.decision {
        RuleDecision::Local(_) => None,
        RuleDecision::SyncPlugin { instance_id, timeout_ms, concurrency_limit, fallback } => Some(FilePolicyMatchedRule {
            rule_id: rule.rule_id.clone(),
            decision: String::from_str("gray"),
            operation: rule.operation.clone(),
            path: rule.path.clone(),
            plugin_instance: Some(instance_id.clone()),
            timeout_ms: Some(*timeout_ms),
            concurrency_limit: Some(*concurrency_limit),
            fallback: Some(String::from_str(fallback.as_str())),
        }),
    }
}

/// The id of a plugin decision request: the rule's id and the trace's.
pub fn decision_id(rule_id: &str, trace_id: u64) -> (r: String)
    ensures
        r@ == rule_id@ + ":"@ + decimal(trace_id as nat),
{
    let mut r = String::from_str(rule_id);
    r.append(":");
    r.append(u64_to_decimal(trace_id).as_str());
    r
}

/// What a plugin decision request names as its target: the observed path,
/// else the rule's path.
pub fn target_summary(rule: &EnforcementRule, observed_path: Option<&str>) -> (r: String)
    ensures
        r@ == match observed_path {
            Some(p) => p@,
            None => rule.path@,
        },
{
    match observed_path {
        Some(p) => String::from_str(p),
        None => rule.path.clone(),
    }
}

} // verus!
