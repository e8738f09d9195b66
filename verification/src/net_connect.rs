//! Deciding a traced process's `connect`: the verdict a matched rule or the
//! default gives, when a gray rule's plugin is consulted, what its answer
//! or failure comes to, and the audit metadata recorded for the decision.
//!
//! The caller captures the connect, answers the kernel, runs the plugin
//! call on its worker and reports each outcome back here.

use vstd::prelude::*;
use vstd::string::StringSliceAdditionalSpecFns;
use crate::decision::{rejection, rule_key, NetworkDecisionAccounting};
use crate::counts::{count_of, text_key, CounterKey};
use crate::file_audit::{put, put_opt, put_opt_text, put_text};
use crate::net_gray::{cache_get_spec, CacheEntryView, ReusableDecisionCache, ReusableDecisionKey};
use crate::net_policy::{net_decision_text, opt_text, verdict_decision, verdict_to_decision, ControlVerdict, NetworkPolicyDecision};
use crate::net_rules::{NetRuleView, StoredNetworkRule};
use crate::rules::{verdict_text, EnforcementDecision};
use crate::shutdown::ControlError;
use crate::strmap::StringMap;
use crate::text::{decimal, find_bytes, first_occurrence, u64_to_decimal};
use crate::payload::str_eq;

verus! {

/// The verdict a rule's decision gives without a plugin.
pub open spec fn local_decision(d: NetworkPolicyDecision) -> Option<EnforcementDecision> {
    match d {
        NetworkPolicyDecision::Allow => Some(EnforcementDecision::Allow),
        NetworkPolicyDecision::Deny => Some(EnforcementDecision::Deny),
        _ => None,
    }
}

fn policy_error(message: String) -> (e: ControlError)
    ensures
        e.code@ == "network_control_policy"@,
        e.message@ == message@,
{
    ControlError { code: String::from_str("network_control_policy"), message }
}

/// The verdict of an allow or deny rule; a default or gray decision is no
/// local verdict.
pub fn policy_decision(decision: NetworkPolicyDecision) -> (r: Result<EnforcementDecision, ControlError>)
    ensures
        match local_decision(decision) {
            Some(d) => r == Ok::<EnforcementDecision, ControlError>(d),
            None => r matches Err(e) && e.code@ == "network_control_policy"@ && e.message@ == net_decision_text(decision)
                + " is not a local network decision"@,
        },
{
    match decision {
        NetworkPolicyDecision::Allow => Ok(EnforcementDecision::Allow),
        NetworkPolicyDecision::Deny => Ok(EnforcementDecision::Deny),
        _ => {
            let mut m = String::from_str(decision.as_str());
            m.append(" is not a local network decision");
            Err(policy_error(m))
        },
    }
}

/// The policy decision the configured default verdict is reported as.
pub fn default_policy_decision(decision: EnforcementDecision) -> (d: NetworkPolicyDecision)
    ensures
        local_decision(d) == Some(decision),
{
    match decision {
        EnforcementDecision::Allow => NetworkPolicyDecision::Allow,
        EnforcementDecision::Deny => NetworkPolicyDecision::Deny,
    }
}

/// The scope a plugin gave its answer: its wire name, and whether the
/// answer may be reused for later connects of the same kind.
#[derive(Debug)]
pub struct PluginScope {
    pub name: String,
    pub reusable: bool,
}

impl PluginScope {
    pub fn duplicate(&self) -> (r: PluginScope)
        ensures
            r.name@ == self.name@,
            r.reusable == self.reusable,
    {
        PluginScope { name: self.name.clone(), reusable: self.reusable }
    }
}

/// Where a connect's verdict came from.
#[derive(Debug)]
pub enum NetworkDecisionSource {
    Default,
    Rule,
    GrayPlugin { instance_id: String, scope: PluginScope, reason: Option<String> },
    GrayPluginCache { instance_id: String, reason: Option<String> },
    GrayFallback { instance_id: Option<String>, reason: String, error: Option<String> },
}

/// What to do with a captured connect.
#[derive(Debug)]
pub enum ConnectStep {
    /// Answer with `decision`; record an audit event with `audit` as its
    /// source when there is one.
    Respond { decision: EnforcementDecision, audit: Option<NetworkDecisionSource> },
    /// The rule is gray: its plugin decides.
    Gray,
}

/// Decides a connect from the rule it matched, if any: no rule gives the
/// default verdict (audited when auditing is on, and for a default allow
/// only when default allows are audited); an allow or deny rule gives its
/// verdict (audited when auditing is on); a gray rule goes to its plugin.
/// A stored rule with the default decision is an error.
pub fn connect_step(
    rule: Option<&StoredNetworkRule>,
    default_decision: EnforcementDecision,
    audit_enabled: bool,
    audit_default_allow: bool,
) -> (r: Result<ConnectStep, ControlError>)
    ensures
        match rule {
            None => r matches Ok(ConnectStep::Respond { decision, audit }) && decision == default_decision
                && (audit is Some <==> (audit_enabled && (default_decision == EnforcementDecision::Deny || audit_default_allow)))
                && (audit matches Some(s) ==> s is Default),
            Some(x) => match x.decision {
                NetworkPolicyDecision::Gray => r matches Ok(ConnectStep::Gray),
                NetworkPolicyDecision::Default => r matches Err(e) && e.code@ == "network_control_policy"@ && e.message@
                    == "stored network rule has default decision"@,
                _ => r matches Ok(ConnectStep::Respond { decision, audit }) && Some(decision) == local_decision(x.decision)
                    && (audit is Some <==> audit_enabled) && (audit matches Some(s) ==> s is Rule),
            },
        },
{
    match rule {
        None => {
            let audited = audit_enabled && !(default_decision == EnforcementDecision::Allow && !audit_default_allow);
            Ok(ConnectStep::Respond {
                decision: default_decision,
                audit: if audited {
                    Some(NetworkDecisionSource::Default)
                } else {
                    None
                },
            })
        },
        Some(x) => match x.decision {
            NetworkPolicyDecision::Allow | NetworkPolicyDecision::Deny => {
                let decision = match policy_decision(x.decision) {
                    Ok(d) => d,
                    Err(e) => {
                        return Err(e);
                    },
                };
                Ok(ConnectStep::Respond {
                    decision,
                    audit: if audit_enabled {
                        Some(NetworkDecisionSource::Rule)
                    } else {
                        None
                    },
                })
            },
            NetworkPolicyDecision::Gray => Ok(ConnectStep::Gray),
            NetworkPolicyDecision::Default => Err(policy_error(String::from_str("stored network rule has default decision"))),
        },
    }
}

/// What a gray connect gets before its plugin is called.
#[derive(Debug)]
pub enum GrayStep {
    /// The decision the plugin gave earlier for the same key.
    Cached { decision: EnforcementDecision, instance_id: String, reason: Option<String> },
    /// An immediate verdict, because the plugin is gone or a limit is reached.
    Fallback { decision: EnforcementDecision, reason: &'static str },
    /// Slots are taken; the plugin decides on a worker.
    Dispatch,
}

pub open spec fn gray_target_of(r: NetRuleView) -> Option<Seq<char>> {
    r.gray_target
}

/// Admits a gray connect under `rule`, whose plugin's registration (its
/// instance limit) the caller looked up: a cached decision for `key` is
/// reused; an unregistered plugin denies; a reached limit gives the rule's
/// fallback; otherwise slots are reserved and the plugin decides. A rule
/// without a concurrency limit is accepted as long as the admission check
/// does not need its limit (the request is refused, cached or unregistered
/// first, or the global pending limit is reached).
pub fn gray_admission(
    cache: &ReusableDecisionCache,
    accounting: &mut NetworkDecisionAccounting,
    key: &ReusableDecisionKey,
    rule: &StoredNetworkRule,
    registration: Option<u32>,
) -> (r: Result<GrayStep, ControlError>)
    requires
        cache.wf(),
        old(accounting).wf(),
        rule.concurrency_limit is None ==> !(rule@.gray_target is Some && cache_get_spec(cache@, key@) is None
            && registration is Some && old(accounting).global_pending < old(accounting).pending_decision_max),
    ensures
        final(accounting).wf(),
        final(accounting).pending_decision_max == old(accounting).pending_decision_max,
        match rule@.gray_target {
            None => r matches Err(e) && e.code@ == "network_control_policy"@ && e.message@ == "gray rule has no target"@
                && *final(accounting) == *old(accounting),
            Some(target) => match cache_get_spec(cache@, key@) {
                Some(c) => r matches Ok(GrayStep::Cached { decision, instance_id, reason }) && decision == c.decision
                    && instance_id@ == c.instance_id && opt_text(reason) == c.reason && *final(accounting) == *old(accounting),
                None => match registration {
                    None => r matches Ok(GrayStep::Fallback { decision, reason }) && decision == EnforcementDecision::Deny
                        && reason@ == "plugin_unloaded"@ && *final(accounting) == *old(accounting),
                    Some(limit) => {
                        let rejected = rejection(
                            old(accounting).global_pending,
                            old(accounting).pending_decision_max,
                            count_of(old(accounting).in_flight_by_rule@, rule_key(rule@.owner, rule@.rule_id)),
                            rule.concurrency_limit.unwrap(),
                            count_of(old(accounting).in_flight_by_instance@, text_key(target)),
                            Some(limit),
                        );
                        match rejected {
                            Some(why) => *final(accounting) == *old(accounting) && match rule.fallback {
                                None => r matches Err(e) && e.code@ == "network_control_policy"@ && e.message@
                                    == "gray rule has no fallback"@,
                                Some(f) => r matches Ok(GrayStep::Fallback { decision, reason }) && decision == f
                                    && reason@ == why,
                            },
                            None => {
                                &&& r matches Ok(GrayStep::Dispatch)
                                &&& final(accounting).global_pending == old(accounting).global_pending + 1
                                &&& final(accounting).in_flight_by_rule@ == old(accounting).in_flight_by_rule@.insert(
                                    rule_key(rule@.owner, rule@.rule_id),
                                    (count_of(old(accounting).in_flight_by_rule@, rule_key(rule@.owner, rule@.rule_id)) + 1) as u32,
                                )
                                &&& final(accounting).in_flight_by_instance@ == old(accounting).in_flight_by_instance@.insert(
                                    text_key(target),
                                    (count_of(old(accounting).in_flight_by_instance@, text_key(target)) + 1) as u32,
                                )
                            },
                        }
                    },
                },
            },
        },
{
    let target = match &rule.gray_target {
        Some(t) => t,
        None => {
            return Err(policy_error(String::from_str("gray rule has no target")));
        },
    };
    match cache.get(key) {
        Some(c) => {
            return Ok(GrayStep::Cached {
                decision: c.decision,
                instance_id: c.instance_id.clone(),
                reason: match &c.reason {
                    Some(x) => Some(x.clone()),
                    None => None,
                },
            });
        },
        None => {},
    }
    let limit = match registration {
        None => {
            return Ok(GrayStep::Fallback { decision: EnforcementDecision::Deny, reason: "plugin_unloaded" });
        },
        Some(l) => l,
    };
    let concurrency_limit = match rule.concurrency_limit {
        Some(l) => l,
        None => 0,
    };
    match accounting.admission_rejection(
        rule.owner_instance_id.as_str(),
        rule.rule_id.as_str(),
        concurrency_limit,
        target.as_str(),
        Some(limit),
    ) {
        Some(why) => {
            return match rule.fallback {
                None => Err(policy_error(String::from_str("gray rule has no fallback"))),
                Some(f) => Ok(GrayStep::Fallback { decision: f, reason: why }),
            };
        },
        None => {},
    }
    proof {
        crate::decision::law_unrejected_decision_reserves_within_limits(
            accounting.global_pending,
            accounting.pending_decision_max,
            count_of(accounting.in_flight_by_rule@, rule_key(rule@.owner, rule@.rule_id)),
            concurrency_limit,
            count_of(accounting.in_flight_by_instance@, text_key(target@)),
            Some(limit),
        );
    }
    match accounting.reserve(rule.owner_instance_id.as_str(), rule.rule_id.as_str(), target.as_str()) {
        Ok(_) => Ok(GrayStep::Dispatch),
        Err(e) => Err(e),
    }
}


/// Whether `needle` occurs in `hay`.
pub open spec fn mentions(hay: Seq<u8>, needle: Seq<u8>) -> bool {
    first_occurrence(hay, needle) is Some
}

/// Why a failed plugin call falls back: it timed out (its code or message
/// says "timeout"), it panicked, or it erred.
pub open spec fn failure_reason_spec(code: Seq<char>, message: Seq<char>) -> Seq<char> {
    if mentions(vstd::utf8::encode_utf8(code), "timeout"@.map_values(|c: char| c as u8)) || mentions(
        vstd::utf8::encode_utf8(message),
        "timeout"@.map_values(|c: char| c as u8),
    ) {
        "plugin_timeout"@
    } else if code == "plugin_panic"@ {
        "plugin_panic"@
    } else {
        "plugin_error"@
    }
}

/// The reason a plugin runtime error is reported under.
pub fn plugin_failure_reason(code: &str, message: &str) -> (r: &'static str)
    ensures
        r@ == failure_reason_spec(code@, message@),
{
    let needle: [u8; 7] = [116, 105, 109, 101, 111, 117, 116];
    proof {
        reveal_strlit("timeout");
        assert(needle@ =~= "timeout"@.map_values(|c: char| c as u8));
    }
    let in_code = find_bytes(code.as_bytes(), needle.as_slice()).is_some();
    let in_message = find_bytes(message.as_bytes(), needle.as_slice()).is_some();
    if in_code || in_message {
        "plugin_timeout"
    } else if str_eq(code, "plugin_panic") {
        "plugin_panic"
    } else {
        "plugin_error"
    }
}

/// A plugin's answer to a decision request.
#[derive(Debug)]
pub struct ControlDecisionResponse {
    pub verdict: ControlVerdict,
    pub scope: PluginScope,
    pub reason: Option<String>,
}

/// A plugin runtime failure: its code and message.
#[derive(Debug)]
pub struct PluginRuntimeError {
    pub code: String,
    pub message: String,
}

/// What a gray decision worker reports.
#[derive(Debug)]
pub enum PluginDecisionOutcome {
    Plugin { decision: EnforcementDecision, scope: PluginScope, reason: Option<String> },
    Fallback { decision: EnforcementDecision, reason: String, error: Option<String> },
}

/// The outcome when the deciding instance is not active when the worker
/// starts: deny, the plugin being unloaded.
pub fn unloaded_outcome() -> (o: PluginDecisionOutcome)
    ensures
        o matches PluginDecisionOutcome::Fallback { decision, reason, error } && decision == EnforcementDecision::Deny
            && reason@ == "plugin_unloaded"@ && error is None,
{
    PluginDecisionOutcome::Fallback {
        decision: EnforcementDecision::Deny,
        reason: String::from_str("plugin_unloaded"),
        error: None,
    }
}

/// The outcome of a plugin call, given whether the instance was still
/// active when it returned: an answer from an active instance is the
/// plugin's decision; anything from an unloaded instance denies; a failure
/// gives the rule's fallback with its reason and error.
pub fn response_outcome(
    response: Result<ControlDecisionResponse, PluginRuntimeError>,
    still_active: bool,
    fallback: EnforcementDecision,
) -> (o: PluginDecisionOutcome)
    ensures
        match response {
            Ok(resp) => if still_active {
                o matches PluginDecisionOutcome::Plugin { decision, scope, reason } && decision == verdict_to_decision(resp.verdict)
                    && scope.name@ == resp.scope.name@ && scope.reusable == resp.scope.reusable && opt_text(reason) == opt_text(resp.reason)
            } else {
                o matches PluginDecisionOutcome::Fallback { decision, reason, error } && decision == EnforcementDecision::Deny
                    && reason@ == "plugin_unloaded"@ && error is None
            },
            Err(err) => if still_active {
                o matches PluginDecisionOutcome::Fallback { decision, reason, error } && decision == fallback
                    && reason@ == failure_reason_spec(err.code@, err.message@)
                    && (error matches Some(t) && t@ == err.code@ + ": "@ + err.message@)
            } else {
                o matches PluginDecisionOutcome::Fallback { decision, reason, error } && decision == EnforcementDecision::Deny
                    && reason@ == "plugin_unloaded"@ && error is None
            },
        },
{
    match response {
        Ok(resp) => {
            if still_active {
                PluginDecisionOutcome::Plugin { decision: verdict_decision(resp.verdict), scope: resp.scope, reason: resp.reason }
            } else {
                unloaded_outcome()
            }
        },
        Err(err) => {
            if !still_active {
                return unloaded_outcome();
            }
            let reason = String::from_str(plugin_failure_reason(err.code.as_str(), err.message.as_str()));
            let mut error = err.code.clone();
            error.append(": ");
            error.append(err.message.as_str());
            PluginDecisionOutcome::Fallback { decision: fallback, reason, error: Some(error) }
        },
    }
}

/// What a completed gray decision comes to.
#[derive(Debug)]
pub struct CompletionDecision {
    pub decision: EnforcementDecision,
    pub source: NetworkDecisionSource,
    /// The decision, instance and reason to keep for reuse, if reusable.
    pub cache: Option<(EnforcementDecision, String, Option<String>)>,
}

/// The verdict of a completed gray decision by plugin `target`, given
/// whether the instance is still active: an answer from an active instance
/// stands (kept for reuse when its scope is reusable); an answer from an
/// unloaded one denies; a fallback stands as reported.
pub fn completion_decision(outcome: PluginDecisionOutcome, target: &str, target_active: bool) -> (c: CompletionDecision)
    ensures
        match outcome {
            PluginDecisionOutcome::Plugin { decision, scope, reason } => if target_active {
                &&& c.decision == decision
                &&& c.source matches NetworkDecisionSource::GrayPlugin { instance_id, scope: s, reason: r }
                    && instance_id@ == target@ && s.name@ == scope.name@ && s.reusable == scope.reusable && opt_text(r) == opt_text(reason)
                &&& (c.cache is Some <==> scope.reusable)
                &&& (c.cache matches Some((d, i, r)) ==> d == decision && i@ == target@ && opt_text(r) == opt_text(reason))
            } else {
                &&& c.decision == EnforcementDecision::Deny
                &&& c.source matches NetworkDecisionSource::GrayFallback { instance_id, reason: r, error }
                    && (instance_id matches Some(i) && i@ == target@) && r@ == "plugin_unloaded"@ && error is None
                &&& c.cache is None
            },
            PluginDecisionOutcome::Fallback { decision, reason, error } => {
                &&& c.decision == decision
                &&& c.source matches NetworkDecisionSource::GrayFallback { instance_id, reason: r, error: e }
                    && (instance_id matches Some(i) && i@ == target@) && r@ == reason@ && opt_text(e) == opt_text(error)
                &&& c.cache is None
            },
        },
{
    match outcome {
        PluginDecisionOutcome::Plugin { decision, scope, reason } => {
            if target_active {
                let cache = if scope.reusable {
                    Some((decision, String::from_str(target), match &reason {
                        Some(x) => Some(x.clone()),
                        None => None,
                    }))
                } else {
                    None
                };
                CompletionDecision {
                    decision,
                    source: NetworkDecisionSource::GrayPlugin { instance_id: String::from_str(target), scope, reason },
                    cache,
                }
            } else {
                CompletionDecision {
                    decision: EnforcementDecision::Deny,
                    source: NetworkDecisionSource::GrayFallback {
                        instance_id: Some(String::from_str(target)),
                        reason: String::from_str("plugin_unloaded"),
                        error: None,
                    },
                    cache: None,
                }
            }
        },
        PluginDecisionOutcome::Fallback { decision, reason, error } => CompletionDecision {
            decision,
            source: NetworkDecisionSource::GrayFallback { instance_id: Some(String::from_str(target)), reason, error },
            cache: None,
        },
    }
}

/// Whether a completed decision is kept for reuse: it is reusable, its
/// rule is still current, and its trace is still running.
pub fn keeps_for_reuse(completion: &CompletionDecision, rule_current: bool, trace_running: bool) -> (r: bool)
    ensures
        r == (completion.cache is Some && rule_current && trace_running),
{
    completion.cache.is_some() && rule_current && trace_running
}


// ---------------------------------------------------------------------------
// Audit metadata

pub open spec fn put_opt_seq(m: Map<Seq<char>, Seq<char>>, k: Seq<char>, v: Option<Seq<char>>) -> Map<Seq<char>, Seq<char>> {
    match v {
        Some(x) => m.insert(k, x),
        None => m,
    }
}

/// The metadata that records where a connect's verdict came from.
pub open spec fn net_source_metadata(m: Map<Seq<char>, Seq<char>>, source: NetworkDecisionSource) -> Map<Seq<char>, Seq<char>> {
    match source {
        NetworkDecisionSource::Default => put(m, "decision_source"@, "default"@),
        NetworkDecisionSource::Rule => put(m, "decision_source"@, "rule"@),
        NetworkDecisionSource::GrayPlugin { instance_id, scope, reason } => put_opt(
            put(put(put(m, "decision_source"@, "gray-plugin"@), "plugin_instance"@, instance_id@), "plugin_scope"@, scope.name@),
            "plugin_reason"@,
            reason,
        ),
        NetworkDecisionSource::GrayPluginCache { instance_id, reason } => put_opt(
            put(put(m, "decision_source"@, "gray-plugin-cache"@), "plugin_instance"@, instance_id@),
            "plugin_reason"@,
            reason,
        ),
        NetworkDecisionSource::GrayFallback { instance_id, reason, error } => put_opt(
            put_opt(put(put(m, "decision_source"@, "fallback"@), "fallback_reason"@, reason@), "plugin_instance"@, instance_id),
            "plugin_error"@,
            error,
        ),
    }
}

/// Records where a connect's verdict came from.
pub fn insert_network_source_metadata(metadata: &mut StringMap, source: &NetworkDecisionSource)
    requires
        old(metadata).wf(),
    ensures
        final(metadata).wf(),
        final(metadata)@ == net_source_metadata(old(metadata)@, *source),
{
    match source {
        NetworkDecisionSource::Default => {
            put_text(metadata, "decision_source", String::from_str("default"));
        },
        NetworkDecisionSource::Rule => {
            put_text(metadata, "decision_source", String::from_str("rule"));
        },
        NetworkDecisionSource::GrayPlugin { instance_id, scope, reason } => {
            put_text(metadata, "decision_source", String::from_str("gray-plugin"));
            put_text(metadata, "plugin_instance", instance_id.clone());
            put_text(metadata, "plugin_scope", scope.name.clone());
            put_opt_text(metadata, "plugin_reason", reason);
        },
        NetworkDecisionSource::GrayPluginCache { instance_id, reason } => {
            put_text(metadata, "decision_source", String::from_str("gray-plugin-cache"));
            put_text(metadata, "plugin_instance", instance_id.clone());
            put_opt_text(metadata, "plugin_reason", reason);
        },
        NetworkDecisionSource::GrayFallback { instance_id, reason, error } => {
            put_text(metadata, "decision_source", String::from_str("fallback"));
            put_text(metadata, "fallback_reason", reason.clone());
            put_opt_text(metadata, "plugin_instance", instance_id);
            put_opt_text(metadata, "plugin_error", error);
        },
    }
}

/// The metadata that names the rule a connect matched.
pub open spec fn net_rule_metadata(m: Map<Seq<char>, Seq<char>>, r: NetRuleView) -> Map<Seq<char>, Seq<char>> {
    let m1 = put(
        put(put(put(m, "rule_id"@, r.rule_id), "policy_remote_scope"@, r.remote.text), "policy_owner_instance_id"@, r.owner),
        "rule_revision"@,
        decimal(r.rule_revision as nat),
    );
    let m2 = put_opt_seq(m1, "gray_target"@, r.gray_target);
    let m3 = match r.timeout_ms {
        Some(t) => put(m2, "plugin_timeout_ms"@, decimal(t as nat)),
        None => m2,
    };
    let m4 = match r.concurrency_limit {
        Some(l) => put(m3, "rule_concurrency_limit"@, decimal(l as nat)),
        None => m3,
    };
    match r.fallback {
        Some(f) => put(m4, "fallback_decision"@, verdict_text(f)),
        None => m4,
    }
}

/// The metadata that describes the remote of a connect.
pub open spec fn net_remote_metadata(m: Map<Seq<char>, Seq<char>>, remote: Seq<char>, family: Seq<char>, fd: u64, ipv6_scope_id: u32) -> Map<Seq<char>, Seq<char>> {
    let m1 = put(put(put(m, "remote"@, remote), "address_family"@, family), "fd"@, decimal(fd as nat));
    if ipv6_scope_id != 0 {
        put(m1, "ipv6_scope_id"@, decimal(ipv6_scope_id as nat))
    } else {
        m1
    }
}

/// The audit metadata of a decided connect.
pub open spec fn net_audit_metadata(
    decision: EnforcementDecision,
    latency_us: u64,
    rule: Option<NetRuleView>,
    source: NetworkDecisionSource,
    remote: Seq<char>,
    family: Seq<char>,
    fd: u64,
    ipv6_scope_id: u32,
) -> Map<Seq<char>, Seq<char>> {
    let base = put(
        put(put(put(Map::empty(), "subject"@, "network-action"@), "operation"@, "connect"@), "decision"@, verdict_text(decision)),
        "decision_latency_us"@,
        decimal(latency_us as nat),
    );
    let with_rule = match rule {
        Some(r) => net_rule_metadata(base, r),
        None => base,
    };
    net_remote_metadata(net_source_metadata(with_rule, source), remote, family, fd, ipv6_scope_id)
}

fn put_remote(metadata: &mut StringMap, remote: &str, family: &str, fd: u64, ipv6_scope_id: u32)
    requires
        old(metadata).wf(),
    ensures
        final(metadata).wf(),
        final(metadata)@ == net_remote_metadata(old(metadata)@, remote@, family@, fd, ipv6_scope_id),
{
    put_text(metadata, "remote", String::from_str(remote));
    put_text(metadata, "address_family", String::from_str(family));
    put_text(metadata, "fd", u64_to_decimal(fd));
    if ipv6_scope_id != 0 {
        put_text(metadata, "ipv6_scope_id", u64_to_decimal(ipv6_scope_id as u64));
    }
}

/// The audit metadata of a decided connect: subject, operation, verdict
/// and latency; the matched rule, if any; the verdict's source; the remote
/// (its text as shown, its family, the socket and any IPv6 scope).
pub fn network_audit_metadata(
    decision: EnforcementDecision,
    latency_us: u64,
    rule: Option<&StoredNetworkRule>,
    source: &NetworkDecisionSource,
    remote: &str,
    family: &str,
    fd: u64,
    ipv6_scope_id: u32,
) -> (m: StringMap)
    ensures
        m.wf(),
        m@ == net_audit_metadata(decision, latency_us, match rule {
            Some(r) => Some(r@),
            None => None,
        }, *source, remote@, family@, fd, ipv6_scope_id),
{
    let mut metadata = StringMap::new();
    put_text(&mut metadata, "subject", String::from_str("network-action"));
    put_text(&mut metadata, "operation", String::from_str("connect"));
    put_text(&mut metadata, "decision", String::from_str(decision.as_str()));
    put_text(&mut metadata, "decision_latency_us", u64_to_decimal(latency_us));
    match rule {
        Some(r) => {
            put_text(&mut metadata, "rule_id", r.rule_id.clone());
            put_text(&mut metadata, "policy_remote_scope", r.remote.text.clone());
            put_text(&mut metadata, "policy_owner_instance_id", r.owner_instance_id.clone());
            put_text(&mut metadata, "rule_revision", u64_to_decimal(r.rule_revision));
            put_opt_text(&mut metadata, "gray_target", &r.gray_target);
            match r.timeout_ms {
                Some(t) => put_text(&mut metadata, "plugin_timeout_ms", u64_to_decimal(t)),
                None => {},
            }
            match r.concurrency_limit {
                Some(l) => put_text(&mut metadata, "rule_concurrency_limit", u64_to_decimal(l as u64)),
                None => {},
            }
            match r.fallback {
                Some(f) => put_text(&mut metadata, "fallback_decision", String::from_str(f.as_str())),
                None => {},
            }
        },
        None => {},
    }
    insert_network_source_metadata(&mut metadata, source);
    put_remote(&mut metadata, remote, family, fd, ipv6_scope_id);
    metadata
}

/// The audit metadata of a connect that could not be captured.
pub open spec fn net_failure_metadata(decision: EnforcementDecision, error: Seq<char>, remote: Seq<char>, family: Seq<char>, fd: u64, ipv6_scope_id: u32) -> Map<Seq<char>, Seq<char>> {
    net_remote_metadata(
        put(
            put(
                put(put(put(Map::empty(), "subject"@, "network-action"@), "operation"@, "connect"@), "decision"@, verdict_text(decision)),
                "decision_source"@,
                "failure"@,
            ),
            "failure_error"@,
            error,
        ),
        remote,
        family,
        fd,
        ipv6_scope_id,
    )
}

/// The audit metadata of a connect answered with the failure verdict
/// because it could not be captured.
pub fn network_failure_metadata(decision: EnforcementDecision, error: String, remote: &str, family: &str, fd: u64, ipv6_scope_id: u32) -> (m: StringMap)
    ensures
        m.wf(),
        m@ == net_failure_metadata(decision, error@, remote@, family@, fd, ipv6_scope_id),
{
    let mut metadata = StringMap::new();
    put_text(&mut metadata, "subject", String::from_str("network-action"));
    put_text(&mut metadata, "operation", String::from_str("connect"));
    put_text(&mut metadata, "decision", String::from_str(decision.as_str()));
    put_text(&mut metadata, "decision_source", String::from_str("failure"));
    put_text(&mut metadata, "failure_error", error);
    put_remote(&mut metadata, remote, family, fd, ipv6_scope_id);
    metadata
}


// ---------------------------------------------------------------------------
// Sync-plugin connect rules

/// How a connect under a sync-plugin endpoint rule was decided: by the
/// plugin, or by the rule's fallback with the error that forced it.
#[derive(Debug)]
pub enum NetworkControlOutcome {
    Decision { decision: EnforcementDecision, rule_id: String, plugin_instance: String, timeout_ms: u64, concurrency_limit: u32 },
    DecisionError {
        decision: EnforcementDecision,
        rule_id: String,
        plugin_instance: String,
        timeout_ms: u64,
        concurrency_limit: u32,
        error: String,
    },
}

impl NetworkControlOutcome {
    /// The same outcome, marked as forced by `error`; an outcome already
    /// carrying an error keeps its own.
    pub fn with_error(self, error: String) -> (r: Self)
        ensures
            match self {
                NetworkControlOutcome::Decision { decision, rule_id, plugin_instance, timeout_ms, concurrency_limit } => r
                    matches NetworkControlOutcome::DecisionError { decision: d, rule_id: ri, plugin_instance: pi, timeout_ms: t, concurrency_limit: c, error: e }
                    && d == decision && ri@ == rule_id@ && pi@ == plugin_instance@ && t == timeout_ms && c == concurrency_limit && e@ == error@,
                NetworkControlOutcome::DecisionError { .. } => r == self,
            },
    {
        match self {
            NetworkControlOutcome::Decision { decision, rule_id, plugin_instance, timeout_ms, concurrency_limit } => {
                NetworkControlOutcome::DecisionError { decision, rule_id, plugin_instance, timeout_ms, concurrency_limit, error }
            },
            other => other,
        }
    }
}

pub open spec fn outcome_decision(o: NetworkControlOutcome) -> EnforcementDecision {
    match o {
        NetworkControlOutcome::Decision { decision, .. } => decision,
        NetworkControlOutcome::DecisionError { decision, .. } => decision,
    }
}

/// The verdict of an outcome.
pub fn network_control_decision(outcome: &NetworkControlOutcome) -> (d: EnforcementDecision)
    ensures
        d == outcome_decision(*outcome),
{
    match outcome {
        NetworkControlOutcome::Decision { decision, .. } => *decision,
        NetworkControlOutcome::DecisionError { decision, .. } => *decision,
    }
}

/// The metadata of a sync-plugin connect outcome.
pub open spec fn outcome_metadata(o: NetworkControlOutcome) -> Map<Seq<char>, Seq<char>> {
    let base = put(
        put(put(Map::empty(), "subject"@, "network-action"@), "decision_source"@, "sync-plugin"@),
        "decision"@,
        verdict_text(outcome_decision(o)),
    );
    match o {
        NetworkControlOutcome::Decision { rule_id, plugin_instance, timeout_ms, concurrency_limit, .. } => put(
            put(put(put(base, "rule_id"@, rule_id@), "plugin_instance"@, plugin_instance@), "plugin_timeout_ms"@, decimal(timeout_ms as nat)),
            "plugin_concurrency_limit"@,
            decimal(concurrency_limit as nat),
        ),
        NetworkControlOutcome::DecisionError { rule_id, plugin_instance, timeout_ms, concurrency_limit, error, .. } => put(
            put(
                put(
                    put(put(put(base, "rule_id"@, rule_id@), "plugin_instance"@, plugin_instance@), "plugin_timeout_ms"@, decimal(timeout_ms as nat)),
                    "plugin_concurrency_limit"@,
                    decimal(concurrency_limit as nat),
                ),
                "plugin_error"@,
                error@,
            ),
            "fallback_reason"@,
            if error@ == "concurrency_limit"@ {
                "concurrency_limit"@
            } else {
                "plugin_error"@
            },
        ),
    }
}

/// The metadata of a sync-plugin connect outcome: its source, verdict and
/// rule; for a forced outcome, the error and whether the rule's concurrency
/// limit or the plugin forced it.
pub fn network_control_metadata(outcome: &NetworkControlOutcome) -> (m: StringMap)
    ensures
        m.wf(),
        m@ == outcome_metadata(*outcome),
{
    let mut metadata = StringMap::new();
    put_text(&mut metadata, "subject", String::from_str("network-action"));
    put_text(&mut metadata, "decision_source", String::from_str("sync-plugin"));
    put_text(&mut metadata, "decision", String::from_str(network_control_decision(outcome).as_str()));
    match outcome {
        NetworkControlOutcome::Decision { rule_id, plugin_instance, timeout_ms, concurrency_limit, .. } => {
            put_text(&mut metadata, "rule_id", rule_id.clone());
            put_text(&mut metadata, "plugin_instance", plugin_instance.clone());
            put_text(&mut metadata, "plugin_timeout_ms", u64_to_decimal(*timeout_ms));
            put_text(&mut metadata, "plugin_concurrency_limit", u64_to_decimal(*concurrency_limit as u64));
        },
        NetworkControlOutcome::DecisionError { rule_id, plugin_instance, timeout_ms, concurrency_limit, error, .. } => {
            put_text(&mut metadata, "rule_id", rule_id.clone());
            put_text(&mut metadata, "plugin_instance", plugin_instance.clone());
            put_text(&mut metadata, "plugin_timeout_ms", u64_to_decimal(*timeout_ms));
            put_text(&mut metadata, "plugin_concurrency_limit", u64_to_decimal(*concurrency_limit as u64));
            put_text(&mut metadata, "plugin_error", error.clone());
            let reason = if str_eq(error.as_str(), "concurrency_limit") {
                "concurrency_limit"
            } else {
                "plugin_error"
            };
            put_text(&mut metadata, "fallback_reason", String::from_str(reason));
        },
    }
    metadata
}

/// The metadata of the event that records a sync-plugin connect: the
/// outcome's, with the operation and the remote (as shown, its family, the
/// socket).
pub fn connect_event_metadata(outcome: &NetworkControlOutcome, remote: &str, family: &str, fd: u64) -> (m: StringMap)
    ensures
        m.wf(),
        m@ == put(put(put(put(outcome_metadata(*outcome), "operation"@, "connect"@), "remote"@, remote@), "address_family"@, family@),
            "fd"@, decimal(fd as nat)),
{
    let mut metadata = network_control_metadata(outcome);
    put_text(&mut metadata, "operation", String::from_str("connect"));
    put_text(&mut metadata, "remote", String::from_str(remote));
    put_text(&mut metadata, "address_family", String::from_str(family));
    put_text(&mut metadata, "fd", u64_to_decimal(fd));
    metadata
}

/// A sync-plugin rule for one endpoint.
#[derive(Debug)]
pub struct SyncPluginEndpointRule {
    pub rule_id: String,
    pub instance_id: String,
    pub timeout_ms: u64,
    pub concurrency_limit: u32,
    pub fallback: EnforcementDecision,
}

/// Takes a slot of `rule_id` unless `concurrency_limit` are in flight.
pub fn try_reserve_rule(in_flight: &mut crate::counts::InFlightCounts<String>, rule_id: &str, concurrency_limit: u32) -> (r: bool)
    requires
        old(in_flight).wf(),
    ensures
        final(in_flight).wf(),
        r == (count_of(old(in_flight)@, text_key(rule_id@)) < concurrency_limit),
        r ==> final(in_flight)@ == old(in_flight)@.insert(text_key(rule_id@), (count_of(old(in_flight)@, text_key(rule_id@)) + 1) as u32),
        !r ==> final(in_flight)@ == old(in_flight)@,
{
    let key = String::from_str(rule_id);
    assert(key.spec_key() == text_key(rule_id@));
    let current = in_flight.get(&key);
    if current >= concurrency_limit {
        return false;
    }
    in_flight.insert(key, current + 1);
    true
}

/// Gives back a slot of `rule_id`.
pub fn release_rule(in_flight: &mut crate::counts::InFlightCounts<String>, rule_id: &str)
    requires
        old(in_flight).wf(),
    ensures
        final(in_flight).wf(),
        final(in_flight)@ == crate::counts::released(old(in_flight)@, text_key(rule_id@)),
{
    crate::counts::release_in_flight(in_flight, rule_id);
}

/// The outcome when the rule's concurrency limit is reached: its fallback,
/// forced by "concurrency_limit".
pub fn concurrency_limited_outcome(rule: &SyncPluginEndpointRule) -> (o: NetworkControlOutcome)
    ensures
        o matches NetworkControlOutcome::DecisionError { decision, rule_id, plugin_instance, timeout_ms, concurrency_limit, error }
            && decision == rule.fallback && rule_id@ == rule.rule_id@ && plugin_instance@ == rule.instance_id@
            && timeout_ms == rule.timeout_ms && concurrency_limit == rule.concurrency_limit && error@ == "concurrency_limit"@,
{
    NetworkControlOutcome::DecisionError {
        decision: rule.fallback,
        rule_id: rule.rule_id.clone(),
        plugin_instance: rule.instance_id.clone(),
        timeout_ms: rule.timeout_ms,
        concurrency_limit: rule.concurrency_limit,
        error: String::from_str("concurrency_limit"),
    }
}

/// The outcome of the plugin call: the plugin's verdict, or the rule's
/// fallback forced by the failure (its code and message).
pub fn sync_plugin_outcome(rule: &SyncPluginEndpointRule, response: Result<ControlVerdict, PluginRuntimeError>) -> (o: NetworkControlOutcome)
    ensures
        match response {
            Ok(v) => o matches NetworkControlOutcome::Decision { decision, rule_id, plugin_instance, timeout_ms, concurrency_limit }
                && decision == verdict_to_decision(v) && rule_id@ == rule.rule_id@ && plugin_instance@ == rule.instance_id@
                && timeout_ms == rule.timeout_ms && concurrency_limit == rule.concurrency_limit,
            Err(err) => o matches NetworkControlOutcome::DecisionError { decision, rule_id, plugin_instance, timeout_ms, concurrency_limit, error }
                && decision == rule.fallback && rule_id@ == rule.rule_id@ && plugin_instance@ == rule.instance_id@
                && timeout_ms == rule.timeout_ms && concurrency_limit == rule.concurrency_limit && error@ == err.code@ + ": "@ + err.message@,
        },
{
    match response {
        Ok(v) => NetworkControlOutcome::Decision {
            decision: verdict_decision(v),
            rule_id: rule.rule_id.clone(),
            plugin_instance: rule.instance_id.clone(),
            timeout_ms: rule.timeout_ms,
            concurrency_limit: rule.concurrency_limit,
        },
        Err(err) => {
            let mut message = err.code;
            message.append(": ");
            message.append(err.message.as_str());
            let plain = NetworkControlOutcome::Decision {
                decision: rule.fallback,
                rule_id: rule.rule_id.clone(),
                plugin_instance: rule.instance_id.clone(),
                timeout_ms: rule.timeout_ms,
                concurrency_limit: rule.concurrency_limit,
            };
            plain.with_error(message)
        },
    }
}


// ---------------------------------------------------------------------------
// Policy changes and the reusable decisions

/// Removes the rules of plugin instance `instance_id` and the decisions it
/// can no longer vouch for: every reusable decision when rules were
/// removed, else those the instance gave.
pub fn remove_plugin_policy_owner(
    store: &mut crate::net_rules::NetworkPolicyStore,
    cache: &mut ReusableDecisionCache,
    instance_id: &str,
) -> (r: Result<(), ControlError>)
    requires
        old(store).wf(),
        old(cache).wf(),
    ensures
        final(store).wf(),
        final(cache).wf(),
        final(store)@ == crate::net_rules::remove_owner_spec(old(store)@, instance_id@).0,
        match crate::net_rules::remove_owner_spec(old(store)@, instance_id@).1 {
            Err(m) => r matches Err(e) && e.code@ == "network_control_policy"@ && e.message@ == m && final(cache)@ == old(cache)@,
            Ok(true) => r is Ok && final(cache)@ == (crate::net_gray::CacheModel { entries: Seq::empty(), ..old(cache)@ }),
            Ok(false) => r is Ok && final(cache)@ == (crate::net_gray::CacheModel {
                entries: crate::net_gray::keep_where(old(cache)@.entries, crate::net_gray::other_instance(instance_id@)),
                ..old(cache)@
            }),
        },
{
    match store.remove_owner(instance_id) {
        Err(m) => Err(policy_error(m)),
        Ok(true) => {
            cache.clear();
            Ok(())
        },
        Ok(false) => {
            cache.remove_by_instance(instance_id);
            Ok(())
        },
    }
}

/// Applies a plugin's policy request; an accepted request that changed
/// anything makes every reusable decision stale.
pub fn apply_policy_request(
    store: &mut crate::net_rules::NetworkPolicyStore,
    cache: &mut ReusableDecisionCache,
    owner_instance_id: &str,
    grants: &[crate::net_policy::NetworkPolicyRulesApplyGrant],
    request: crate::net_policy::NetworkPolicyApplyRequest,
    active: &[String],
) -> (r: crate::net_rules::NetworkPolicyApplyResult)
    requires
        old(store).wf(),
        old(cache).wf(),
    ensures
        final(store).wf(),
        final(cache).wf(),
        match crate::net_rules::candidate_spec(old(store)@, owner_instance_id@, request.base_revision, request.mutation_id@,
            crate::net_policy::item_views(request.items@), crate::net_policy::grant_views(grants@), crate::post_trace::texts(active@)) {
            Ok(c) => final(store)@ == c && r@ == crate::net_rules::accepted_view(c.revision, crate::net_rules::low32(request.items@.len() as int)),
            Err(e) => final(store)@ == old(store)@ && r@ == crate::net_rules::rejected_view(old(store)@.revision, e),
        },
        final(cache)@ == if r.status == crate::net_rules::NetworkPolicyApplyStatus::Accepted && r.applied_count > 0 {
            crate::net_gray::CacheModel { entries: Seq::empty(), ..old(cache)@ }
        } else {
            old(cache)@
        },
{
    let result = store.apply(owner_instance_id, grants, request, active);
    if result.status == crate::net_rules::NetworkPolicyApplyStatus::Accepted && result.applied_count > 0 {
        cache.clear();
    }
    result
}

} // verus!
