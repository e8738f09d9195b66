//! What a file-access enforcement decision leaves behind: the audit record
//! of the decision, with where the decision came from, and the boundary
//! alert a denial by a rule raises.

use vstd::prelude::*;
use crate::file_policy::{operation_text, EnforcementRule, FilePolicyOperation};
use crate::rules::{fallback_reason_text, verdict_text, EnforcementDecision, SyncPluginFallbackReason};
use crate::strmap::StringMap;
use crate::text::{decimal, u64_to_decimal};

verus! {

/// Where an enforcement decision came from.
#[derive(Debug)]
pub enum DecisionSource {
    Default,
    Rule,
    SyncPlugin { instance_id: String, timeout_ms: u64, concurrency_limit: u32, scope: String, reason: Option<String> },
    SyncPluginCache { instance_id: String },
    SyncPluginFallback {
        instance_id: String,
        timeout_ms: u64,
        concurrency_limit: u32,
        reason: SyncPluginFallbackReason,
        error: Option<String>,
        in_flight: Option<u32>,
        instance_concurrency_limit: Option<u32>,
        instance_in_flight: Option<u32>,
        fallback: EnforcementDecision,
    },
}

/// A decision: the verdict, the rule that matched, and its source.
#[derive(Debug)]
pub struct Decision<'a> {
    pub decision: EnforcementDecision,
    pub rule: Option<&'a EnforcementRule>,
    pub source: DecisionSource,
}

pub open spec fn put(m: Map<Seq<char>, Seq<char>>, k: Seq<char>, v: Seq<char>) -> Map<Seq<char>, Seq<char>> {
    m.insert(k, v)
}

pub open spec fn put_opt(m: Map<Seq<char>, Seq<char>>, k: Seq<char>, v: Option<String>) -> Map<Seq<char>, Seq<char>> {
    match v {
        Some(x) => m.insert(k, x@),
        None => m,
    }
}

pub open spec fn put_opt_num(m: Map<Seq<char>, Seq<char>>, k: Seq<char>, v: Option<u32>) -> Map<Seq<char>, Seq<char>> {
    match v {
        Some(x) => m.insert(k, decimal(x as nat)),
        None => m,
    }
}

/// The audit metadata that records the decision's source.
pub open spec fn source_metadata(m: Map<Seq<char>, Seq<char>>, source: DecisionSource) -> Map<Seq<char>, Seq<char>> {
    match source {
        DecisionSource::Default => put(m, "decision_source"@, "default"@),
        DecisionSource::Rule => put(m, "decision_source"@, "rule"@),
        DecisionSource::SyncPlugin { instance_id, timeout_ms, concurrency_limit, scope, reason } => put_opt(
            put(
                put(
                    put(put(put(m, "decision_source"@, "sync-plugin"@), "plugin_instance"@, instance_id@), "plugin_timeout_ms"@, decimal(timeout_ms as nat)),
                    "plugin_concurrency_limit"@,
                    decimal(concurrency_limit as nat),
                ),
                "decision_scope"@,
                scope@,
            ),
            "plugin_reason"@,
            reason,
        ),
        DecisionSource::SyncPluginCache { instance_id } => put(
            put(m, "decision_source"@, "sync-plugin-cache"@),
            "plugin_instance"@,
            instance_id@,
        ),
        DecisionSource::SyncPluginFallback {
            instance_id,
            timeout_ms,
            concurrency_limit,
            reason,
            error,
            in_flight,
            instance_concurrency_limit,
            instance_in_flight,
            fallback,
        } => put(
            put_opt_num(
                put_opt_num(
                    put_opt_num(
                        put_opt(
                            put(
                                put(
                                    put(
                                        put(put(m, "decision_source"@, "sync-plugin-fallback"@), "plugin_instance"@, instance_id@),
                                        "plugin_timeout_ms"@,
                                        decimal(timeout_ms as nat),
                                    ),
                                    "plugin_concurrency_limit"@,
                                    decimal(concurrency_limit as nat),
                                ),
                                "fallback_reason"@,
                                fallback_reason_text(reason),
                            ),
                            "plugin_error"@,
                            error,
                        ),
                        "plugin_inflight"@,
                        in_flight,
                    ),
                    "plugin_instance_concurrency_limit"@,
                    instance_concurrency_limit,
                ),
                "plugin_instance_inflight"@,
                instance_in_flight,
            ),
            "fallback_decision"@,
            verdict_text(fallback),
        ),
    }
}

pub fn put_text(m: &mut StringMap, k: &str, v: String)
    requires
        old(m).wf(),
    ensures
        final(m).wf(),
        final(m)@ == put(old(m)@, k@, v@),
{
    m.insert(String::from_str(k), v);
}

pub fn put_opt_text(m: &mut StringMap, k: &str, v: &Option<String>)
    requires
        old(m).wf(),
    ensures
        final(m).wf(),
        final(m)@ == put_opt(old(m)@, k@, *v),
{
    match v {
        Some(x) => m.insert(String::from_str(k), x.clone()),
        None => {},
    }
}

fn set_opt_num(m: &mut StringMap, k: &str, v: Option<u32>)
    requires
        old(m).wf(),
    ensures
        final(m).wf(),
        final(m)@ == put_opt_num(old(m)@, k@, v),
{
    match v {
        Some(x) => m.insert(String::from_str(k), u64_to_decimal(x as u64)),
        None => {},
    }
}

/// Records the decision's source in the audit metadata.
pub fn insert_decision_source_metadata(metadata: &mut StringMap, source: &DecisionSource)
    requires
        old(metadata).wf(),
    ensures
        final(metadata).wf(),
        final(metadata)@ == source_metadata(old(metadata)@, *source),
{
    match source {
        DecisionSource::Default => {
            put_text(metadata, "decision_source", String::from_str("default"));
        },
        DecisionSource::Rule => {
            put_text(metadata, "decision_source", String::from_str("rule"));
        },
        DecisionSource::SyncPlugin { instance_id, timeout_ms, concurrency_limit, scope, reason } => {
            put_text(metadata, "decision_source", String::from_str("sync-plugin"));
            put_text(metadata, "plugin_instance", instance_id.clone());
            put_text(metadata, "plugin_timeout_ms", u64_to_decimal(*timeout_ms));
            put_text(metadata, "plugin_concurrency_limit", u64_to_decimal(*concurrency_limit as u64));
            put_text(metadata, "decision_scope", scope.clone());
            put_opt_text(metadata, "plugin_reason", reason);
        },
        DecisionSource::SyncPluginCache { instance_id } => {
            put_text(metadata, "decision_source", String::from_str("sync-plugin-cache"));
            put_text(metadata, "plugin_instance", instance_id.clone());
        },
        DecisionSource::SyncPluginFallback {
            instance_id,
            timeout_ms,
            concurrency_limit,
            reason,
            error,
            in_flight,
            instance_concurrency_limit,
            instance_in_flight,
            fallback,
        } => {
            put_text(metadata, "decision_source", String::from_str("sync-plugin-fallback"));
            put_text(metadata, "plugin_instance", instance_id.clone());
            put_text(metadata, "plugin_timeout_ms", u64_to_decimal(*timeout_ms));
            put_text(metadata, "plugin_concurrency_limit", u64_to_decimal(*concurrency_limit as u64));
            put_text(metadata, "fallback_reason", String::from_str(reason.as_str()));
            put_opt_text(metadata, "plugin_error", error);
            set_opt_num(metadata, "plugin_inflight", *in_flight);
            set_opt_num(metadata, "plugin_instance_concurrency_limit", *instance_concurrency_limit);
            set_opt_num(metadata, "plugin_instance_inflight", *instance_in_flight);
            put_text(metadata, "fallback_decision", String::from_str(fallback.as_str()));
        },
    }
}

/// A file by device and inode.
#[derive(Clone, Copy, Debug, PartialEq, Eq, Structural)]
pub struct FileKey {
    pub dev: u64,
    pub ino: u64,
}

/// The enforcement record of a decision.
pub struct EnforcementPayload {
    pub backend: String,
    pub operation: String,
    pub decision: String,
    pub path: Option<String>,
    pub rule_id: Option<String>,
    pub result: String,
    pub metadata: StringMap,
}

/// An audit record, partial when its metadata could not all be read.
pub struct EnforcementAuditDraft {
    pub metadata_partial: bool,
    pub payload: EnforcementPayload,
}

pub open spec fn opt_view(s: Option<String>) -> Option<Seq<char>> {
    match s {
        Some(x) => Some(x@),
        None => None,
    }
}

/// The audit metadata of a decision: the trace scope, the file's device and
/// inode when known, the error that made it partial, and the source.
pub open spec fn audit_metadata(source: DecisionSource, file_key: Option<FileKey>, audit_metadata_error: Option<String>) -> Map<
    Seq<char>,
    Seq<char>,
> {
    let m0 = Map::<Seq<char>, Seq<char>>::empty().insert("scope"@, "trace"@);
    let m1 = match file_key {
        Some(k) => m0.insert("file_dev"@, decimal(k.dev as nat)).insert("file_ino"@, decimal(k.ino as nat)),
        None => m0,
    };
    let m2 = put_opt(m1, "audit_metadata_error"@, audit_metadata_error);
    source_metadata(m2, source)
}

pub open spec fn result_text(d: EnforcementDecision) -> Seq<char> {
    match d {
        EnforcementDecision::Allow => "allowed"@,
        EnforcementDecision::Deny => "denied"@,
    }
}

/// The audit draft holds what `audit_draft` records of the decision.
pub open spec fn audit_draft_holds(
    r: EnforcementAuditDraft,
    decision: EnforcementDecision,
    rule: Option<&EnforcementRule>,
    source: DecisionSource,
    operation: FilePolicyOperation,
    file_key: Option<FileKey>,
    fallback_path: Option<String>,
    audit_metadata_error: Option<String>,
) -> bool {
    &&& r.metadata_partial == (audit_metadata_error is Some)
    &&& r.payload.backend@ == "fanotify"@
    &&& r.payload.operation@ == operation_text(operation)
    &&& r.payload.decision@ == verdict_text(decision)
    &&& opt_view(r.payload.path) == match rule {
        Some(x) => Some(x.path@),
        None => opt_view(fallback_path),
    }
    &&& opt_view(r.payload.rule_id) == match rule {
        Some(x) => Some(x.rule_id@),
        None => None,
    }
    &&& r.payload.result@ == result_text(decision)
    &&& r.payload.metadata.wf()
    &&& r.payload.metadata@ == audit_metadata(source, file_key, audit_metadata_error)
}

/// The audit record of a decision on `operation`.
pub fn audit_draft(
    decision: &Decision,
    operation: FilePolicyOperation,
    file_key: Option<FileKey>,
    fallback_path: Option<String>,
    audit_metadata_error: Option<String>,
) -> (r: EnforcementAuditDraft)
    ensures
        audit_draft_holds(
            r,
            decision.decision,
            decision.rule,
            decision.source,
            operation,
            file_key,
            fallback_path,
            audit_metadata_error,
        ),
{
    let metadata_partial = audit_metadata_error.is_some();
    let mut metadata = StringMap::new();
    put_text(&mut metadata, "scope", String::from_str("trace"));
    match file_key {
        Some(k) => {
            put_text(&mut metadata, "file_dev", u64_to_decimal(k.dev));
            put_text(&mut metadata, "file_ino", u64_to_decimal(k.ino));
        },
        None => {},
    }
    put_opt_text(&mut metadata, "audit_metadata_error", &audit_metadata_error);
    insert_decision_source_metadata(&mut metadata, &decision.source);
    let path = match decision.rule {
        Some(rule) => Some(rule.path.clone()),
        None => fallback_path,
    };
    let rule_id = match decision.rule {
        Some(rule) => Some(rule.rule_id.clone()),
        None => None,
    };
    let result = match decision.decision {
        EnforcementDecision::Allow => "allowed",
        EnforcementDecision::Deny => "denied",
    };
    EnforcementAuditDraft {
        metadata_partial,
        payload: EnforcementPayload {
            backend: String::from_str("fanotify"),
            operation: String::from_str(operation.as_str()),
            decision: String::from_str(decision.decision.as_str()),
            path,
            rule_id,
            result: String::from_str(result),
            metadata,
        },
    }
}

/// What kind of denial raised a boundary alert.
#[derive(Clone, Copy, Debug, PartialEq, Eq, Structural)]
pub enum FileAccessDenySource {
    FastPathDeny,
    GrayPluginDeny,
    GrayPluginCacheDeny,
}

/// The alert a denial by a rule, or by the plugin a gray rule asked,
/// raises.
pub struct FileAccessBoundaryAlert {
    pub operation: String,
    pub observed_path: String,
    pub rule_path: String,
    pub rule_id: String,
    pub owner_instance_id: String,
    pub process_id: u64,
    pub source: FileAccessDenySource,
    pub decider_plugin_instance_id: Option<String>,
    pub plugin_reason: Option<String>,
}

/// Denials raise an alert when a rule matched and the rule itself, the
/// plugin it asked, or that plugin's cached answer denied; defaults and
/// fallbacks raise none.
pub open spec fn alert_raised(decision: EnforcementDecision, rule: Option<&EnforcementRule>, source: DecisionSource) -> bool {
    decision is Deny && rule is Some && (source is Rule || source is SyncPlugin || source is SyncPluginCache)
}

/// The alert holds the operation, the observed path (the rule's path when
/// none was observed), the rule, the process, and who denied.
pub open spec fn alert_holds(
    a: FileAccessBoundaryAlert,
    rule: &EnforcementRule,
    source: DecisionSource,
    operation: FilePolicyOperation,
    process_id: u64,
    observed_path: Option<Seq<char>>,
) -> bool {
    &&& a.operation@ == operation_text(operation)
    &&& a.observed_path@ == match observed_path {
        Some(p) => p,
        None => rule.path@,
    }
    &&& a.rule_path@ == rule.path@
    &&& a.rule_id@ == rule.rule_id@
    &&& a.owner_instance_id@ == rule.owner_instance_id@
    &&& a.process_id == process_id
    &&& match source {
        DecisionSource::Rule => a.source == FileAccessDenySource::FastPathDeny && a.decider_plugin_instance_id is None
            && a.plugin_reason is None,
        DecisionSource::SyncPlugin { instance_id, reason, .. } => a.source == FileAccessDenySource::GrayPluginDeny
            && opt_view(a.decider_plugin_instance_id) == Some(instance_id@) && opt_view(a.plugin_reason) == opt_view(reason),
        DecisionSource::SyncPluginCache { instance_id } => a.source == FileAccessDenySource::GrayPluginCacheDeny
            && opt_view(a.decider_plugin_instance_id) == Some(instance_id@) && a.plugin_reason is None,
        _ => false,
    }
}

/// The boundary alert a decision raises, if any.
pub fn boundary_alert(decision: &Decision, operation: FilePolicyOperation, process_id: u64, observed_path: Option<&str>) -> (r: Option<
    FileAccessBoundaryAlert,
>)
    ensures
        r is Some == alert_raised(decision.decision, decision.rule, decision.source),
        r matches Some(a) ==> alert_holds(
            a,
            decision.rule->0,
            decision.source,
            operation,
            process_id,
            crate::file_policy::opt_str_text(observed_path),
        ),
{
    if decision.decision != EnforcementDecision::Deny {
        return None;
    }
    let rule = match decision.rule {
        Some(r) => r,
        None => {
            return None;
        },
    };
    let (source, decider, reason) = match &decision.source {
        DecisionSource::Rule => (FileAccessDenySource::FastPathDeny, None, None),
        DecisionSource::SyncPlugin { instance_id, reason, .. } => (
            FileAccessDenySource::GrayPluginDeny,
            Some(instance_id.clone()),
            match reason {
                Some(x) => Some(x.clone()),
                None => None,
            },
        ),
        DecisionSource::SyncPluginCache { instance_id } => (FileAccessDenySource::GrayPluginCacheDeny, Some(instance_id.clone()), None),
        _ => {
            return None;
        },
    };
    let observed = match observed_path {
        Some(p) => String::from_str(p),
        None => rule.path.clone(),
    };
    Some(
        FileAccessBoundaryAlert {
            operation: String::from_str(operation.as_str()),
            observed_path: observed,
            rule_path: rule.path.clone(),
            rule_id: rule.rule_id.clone(),
            owner_instance_id: rule.owner_instance_id.clone(),
            process_id,
            source,
            decider_plugin_instance_id: decider,
            plugin_reason: reason,
        },
    )
}

/// What an enforcement decision leaves behind.
pub struct EnforcementOutcomeDraft {
    pub trace_id: u64,
    pub observed_at: u128,
    pub process_id: u64,
    pub audit: Option<EnforcementAuditDraft>,
    pub boundary_alert: Option<FileAccessBoundaryAlert>,
}

/// The outcome of a decision: nothing when auditing is off and no alert is
/// raised; otherwise the audit record when auditing is on and the alert
/// when one is raised, stamped with the time the caller read.
pub fn outcome_draft(
    trace_id: u64,
    process_id: u64,
    decision: &Decision,
    audit_enabled: bool,
    operation: FilePolicyOperation,
    file_key: Option<FileKey>,
    fallback_path: Option<String>,
    audit_metadata_error: Option<String>,
    observed_at: u128,
) -> (r: Option<EnforcementOutcomeDraft>)
    ensures
        r is Some == (audit_enabled || alert_raised(decision.decision, decision.rule, decision.source)),
        r matches Some(o) ==> {
            &&& o.trace_id == trace_id
            &&& o.process_id == process_id
            &&& o.observed_at == observed_at
            &&& o.audit is Some == audit_enabled
            &&& (o.audit matches Some(a) ==> audit_draft_holds(
                a,
                decision.decision,
                decision.rule,
                decision.source,
                operation,
                file_key,
                fallback_path,
                audit_metadata_error,
            ))
            &&& o.boundary_alert is Some == alert_raised(decision.decision, decision.rule, decision.source)
            &&& (o.boundary_alert matches Some(al) ==> alert_holds(
                al,
                decision.rule->0,
                decision.source,
                operation,
                process_id,
                opt_view(fallback_path),
            ))
        },
{
    let observed: Option<&str> = match &fallback_path {
        Some(p) => Some(p.as_str()),
        None => None,
    };
    let alert = boundary_alert(decision, operation, process_id, observed);
    if !audit_enabled && alert.is_none() {
        return None;
    }
    let audit = if audit_enabled {
        Some(audit_draft(decision, operation, file_key, fallback_path, audit_metadata_error))
    } else {
        None
    };
    Some(EnforcementOutcomeDraft { trace_id, observed_at, process_id, audit, boundary_alert: alert })
}

} // verus!
