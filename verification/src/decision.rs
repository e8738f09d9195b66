//! Decisions of gray (plugin-decided) rules: whether a permission event is
//! answered from the cache, falls back because a concurrency limit is
//! reached, or is handed to the deciding plugin; how the plugin's outcome
//! becomes a verdict; and the in-flight accounting of network decisions.
//!
//! The caller answers the kernel, runs the plugin call on its worker and
//! reports the outcome back here.

use vstd::prelude::*;
use crate::counts::{CounterKey, InFlightCounts, count_of, decrement_map, increment_map, released, reserve_in_flight, release_in_flight, text_key};
use crate::rules::{EnforcementDecision, SyncPluginFallbackReason};
use crate::shutdown::ControlError;

verus! {

/// What a file permission event under a sync-plugin rule gets.
#[derive(Clone, Copy, Debug, PartialEq, Eq, Structural)]
pub enum SyncPluginAdmission {
    /// The verdict cached for the trace and rule.
    Cached(EnforcementDecision),
    /// The rule's fallback verdict, because a limit is reached; with the
    /// counts that were at the limit.
    Fallback {
        reason: SyncPluginFallbackReason,
        in_flight: Option<u32>,
        instance_concurrency_limit: Option<u32>,
        instance_in_flight: Option<u32>,
    },
    /// A slot of the rule and of the instance is taken; the plugin decides.
    Dispatch,
}

/// The in-flight limit of the deciding instance: its own, else the rule's.
pub open spec fn instance_limit_of(instance_limit: Option<u32>, concurrency_limit: u32) -> u32 {
    match instance_limit {
        Some(l) => l,
        None => concurrency_limit,
    }
}

/// Admission of one event under a sync-plugin rule: a cached verdict first,
/// then the rule's limit, then the instance's limit; otherwise both slots
/// are taken and the plugin decides.
pub fn admit_sync_plugin_decision(
    cached: Option<EnforcementDecision>,
    in_flight_by_rule: &mut InFlightCounts<String>,
    in_flight_by_instance: &mut InFlightCounts<String>,
    rule_id: &str,
    instance_id: &str,
    concurrency_limit: u32,
    instance_limit: Option<u32>,
) -> (r: Result<SyncPluginAdmission, String>)
    requires
        old(in_flight_by_rule).wf(),
        old(in_flight_by_instance).wf(),
    ensures
        final(in_flight_by_rule).wf(),
        final(in_flight_by_instance).wf(),
        ({
            let rule_count = count_of(old(in_flight_by_rule)@, text_key(rule_id@));
            let inst_count = count_of(old(in_flight_by_instance)@, text_key(instance_id@));
            let inst_limit = instance_limit_of(instance_limit, concurrency_limit);
            &&& r is Ok
            &&& (cached matches Some(d) ==> r == Ok::<SyncPluginAdmission, String>(SyncPluginAdmission::Cached(d)))
            &&& (cached is None && rule_count >= concurrency_limit ==> r == Ok::<SyncPluginAdmission, String>(
                SyncPluginAdmission::Fallback {
                    reason: SyncPluginFallbackReason::ConcurrencyLimit,
                    in_flight: Some(rule_count),
                    instance_concurrency_limit: None,
                    instance_in_flight: None,
                },
            ))
            &&& (cached is None && rule_count < concurrency_limit && inst_count >= inst_limit ==> r == Ok::<
                SyncPluginAdmission,
                String,
            >(
                SyncPluginAdmission::Fallback {
                    reason: SyncPluginFallbackReason::PluginInstanceConcurrencyLimit,
                    in_flight: None,
                    instance_concurrency_limit: Some(inst_limit),
                    instance_in_flight: Some(inst_count),
                },
            ))
            &&& (cached is None && rule_count < concurrency_limit && inst_count < inst_limit ==> r == Ok::<
                SyncPluginAdmission,
                String,
            >(SyncPluginAdmission::Dispatch) && final(in_flight_by_rule)@ == old(in_flight_by_rule)@.insert(
                text_key(rule_id@),
                (rule_count + 1) as u32,
            ) && final(in_flight_by_instance)@ == old(in_flight_by_instance)@.insert(
                text_key(instance_id@),
                (inst_count + 1) as u32,
            ))
            &&& (!(r == Ok::<SyncPluginAdmission, String>(SyncPluginAdmission::Dispatch)) ==> final(in_flight_by_rule)@
                == old(in_flight_by_rule)@ && final(in_flight_by_instance)@ == old(in_flight_by_instance)@)
        }),
{
    if let Some(d) = cached {
        return Ok(SyncPluginAdmission::Cached(d));
    }
    let in_flight = in_flight_by_rule.get(&String::from_str(rule_id));
    if in_flight >= concurrency_limit {
        return Ok(
            SyncPluginAdmission::Fallback {
                reason: SyncPluginFallbackReason::ConcurrencyLimit,
                in_flight: Some(in_flight),
                instance_concurrency_limit: None,
                instance_in_flight: None,
            },
        );
    }
    let instance_in_flight = in_flight_by_instance.get(&String::from_str(instance_id));
    let instance_concurrency_limit = match instance_limit {
        Some(l) => l,
        None => concurrency_limit,
    };
    if instance_in_flight >= instance_concurrency_limit {
        return Ok(
            SyncPluginAdmission::Fallback {
                reason: SyncPluginFallbackReason::PluginInstanceConcurrencyLimit,
                in_flight: None,
                instance_concurrency_limit: Some(instance_concurrency_limit),
                instance_in_flight: Some(instance_in_flight),
            },
        );
    }
    match reserve_in_flight(in_flight_by_rule, rule_id) {
        Ok(()) => {},
        Err(e) => return Err(e),
    }
    match reserve_in_flight(in_flight_by_instance, instance_id) {
        Ok(()) => {},
        Err(e) => {
            release_in_flight(in_flight_by_rule, rule_id);
            return Err(e);
        },
    }
    Ok(SyncPluginAdmission::Dispatch)
}

/// How the deciding plugin's call went.
pub enum PluginCallOutcome {
    /// The instance was not active when called, or was unloaded by the time
    /// it answered.
    Unavailable,
    /// The plugin answered with a verdict, reusable for the trace or not.
    Answered { verdict: EnforcementDecision, reusable: bool },
    /// The plugin returned an error.
    Failed { code: String, message: String },
    /// The plugin panicked.
    Panicked,
}

/// The verdict a plugin call comes to.
pub struct PluginDecisionResult {
    pub decision: EnforcementDecision,
    /// Why the fallback applies, when the plugin did not decide.
    pub fallback_reason: Option<SyncPluginFallbackReason>,
    /// What went wrong, when the plugin did not decide.
    pub error: Option<String>,
    /// Whether the verdict may be cached for the trace and rule.
    pub cache: bool,
}

/// The verdict of a completed plugin call: the plugin's answer (cached when
/// reusable); an unloaded plugin denies; a failing or panicking plugin gives
/// the rule's fallback. Only an answer is ever cached.
pub fn resolve_plugin_decision(outcome: PluginCallOutcome, fallback: EnforcementDecision) -> (r: PluginDecisionResult)
    ensures
        match outcome {
            PluginCallOutcome::Answered { verdict, reusable } => r.decision == verdict && r.fallback_reason is None
                && r.error is None && r.cache == reusable,
            PluginCallOutcome::Unavailable => r.decision == EnforcementDecision::Deny && r.fallback_reason == Some(
                SyncPluginFallbackReason::PluginError,
            ) && (r.error matches Some(e) && e@ == "control plugin unloaded during file-policy decision"@) && !r.cache,
            PluginCallOutcome::Failed { code, message } => r.decision == fallback && r.fallback_reason == Some(
                SyncPluginFallbackReason::PluginError,
            ) && (r.error matches Some(e) && e@ == code@ + ": "@ + message@) && !r.cache,
            PluginCallOutcome::Panicked => r.decision == fallback && r.fallback_reason == Some(
                SyncPluginFallbackReason::PluginPanic,
            ) && (r.error matches Some(e) && e@ == "control plugin panicked"@) && !r.cache,
        },
{
    match outcome {
        PluginCallOutcome::Answered { verdict, reusable } => PluginDecisionResult {
            decision: verdict,
            fallback_reason: None,
            error: None,
            cache: reusable,
        },
        PluginCallOutcome::Unavailable => PluginDecisionResult {
            decision: EnforcementDecision::Deny,
            fallback_reason: Some(SyncPluginFallbackReason::PluginError),
            error: Some(String::from_str("control plugin unloaded during file-policy decision")),
            cache: false,
        },
        PluginCallOutcome::Failed { code, message } => {
            let mut e = code;
            e.append(": ");
            e.append(message.as_str());
            PluginDecisionResult {
                decision: fallback,
                fallback_reason: Some(SyncPluginFallbackReason::PluginError),
                error: Some(e),
                cache: false,
            }
        },
        PluginCallOutcome::Panicked => PluginDecisionResult {
            decision: fallback,
            fallback_reason: Some(SyncPluginFallbackReason::PluginPanic),
            error: Some(String::from_str("control plugin panicked")),
            cache: false,
        },
    }
}

/// How the deciding plugin's call went on the seccomp mutation path, where
/// the request is built before the call.
pub enum MutationCallOutcome {
    /// The plugin answered, but its instance was unloaded by then.
    Unavailable,
    /// The plugin answered with a verdict, reusable for the trace or not.
    Answered { verdict: EnforcementDecision, reusable: bool },
    /// The plugin returned an error.
    Failed { code: String, message: String },
    /// The plugin panicked.
    Panicked,
    /// The decision request could not be built; the message says why.
    RequestRefused(String),
}

/// The verdict of a plugin call on the seccomp mutation path: the plugin's
/// answer (cached when reusable); an unloaded plugin denies; any failure,
/// a panic or a request that could not be built included, gives the rule's
/// fallback with the plugin-error reason and the failure's message.
pub fn resolve_mutation_decision(outcome: MutationCallOutcome, fallback: EnforcementDecision) -> (r: PluginDecisionResult)
    ensures
        match outcome {
            MutationCallOutcome::Answered { verdict, reusable } => r.decision == verdict && r.fallback_reason is None
                && r.error is None && r.cache == reusable,
            MutationCallOutcome::Unavailable => r.decision == EnforcementDecision::Deny && r.fallback_reason == Some(
                SyncPluginFallbackReason::PluginError,
            ) && (r.error matches Some(e) && e@ == "control plugin unloaded during file-policy decision"@) && !r.cache,
            MutationCallOutcome::Failed { code, message } => r.decision == fallback && r.fallback_reason == Some(
                SyncPluginFallbackReason::PluginError,
            ) && (r.error matches Some(e) && e@ == code@ + ": "@ + message@) && !r.cache,
            MutationCallOutcome::Panicked => r.decision == fallback && r.fallback_reason == Some(
                SyncPluginFallbackReason::PluginError,
            ) && (r.error matches Some(e) && e@ == "control plugin panicked"@) && !r.cache,
            MutationCallOutcome::RequestRefused(message) => r.decision == fallback && r.fallback_reason == Some(
                SyncPluginFallbackReason::PluginError,
            ) && (r.error matches Some(e) && e@ == message@) && !r.cache,
        },
{
    match outcome {
        MutationCallOutcome::Answered { verdict, reusable } => PluginDecisionResult {
            decision: verdict,
            fallback_reason: None,
            error: None,
            cache: reusable,
        },
        MutationCallOutcome::Unavailable => PluginDecisionResult {
            decision: EnforcementDecision::Deny,
            fallback_reason: Some(SyncPluginFallbackReason::PluginError),
            error: Some(String::from_str("control plugin unloaded during file-policy decision")),
            cache: false,
        },
        MutationCallOutcome::Failed { code, message } => {
            let mut text = code;
            text.append(": ");
            text.append(message.as_str());
            PluginDecisionResult {
                decision: fallback,
                fallback_reason: Some(SyncPluginFallbackReason::PluginError),
                error: Some(text),
                cache: false,
            }
        },
        MutationCallOutcome::Panicked => PluginDecisionResult {
            decision: fallback,
            fallback_reason: Some(SyncPluginFallbackReason::PluginError),
            error: Some(String::from_str("control plugin panicked")),
            cache: false,
        },
        MutationCallOutcome::RequestRefused(message) => PluginDecisionResult {
            decision: fallback,
            fallback_reason: Some(SyncPluginFallbackReason::PluginError),
            error: Some(message),
            cache: false,
        },
    }
}

/// Whether a completed decision's verdict enters the cache: only when it
/// may be cached and the kernel took the answer.
pub fn cache_after_response(result: &PluginDecisionResult, responded: bool) -> (r: bool)
    ensures
        r == (result.cache && responded),
{
    result.cache && responded
}

/// In-flight accounting of gray network decisions: pending decisions in
/// all, and per rule and per deciding instance.
pub struct NetworkDecisionAccounting {
    pub global_pending: u32,
    pub pending_decision_max: u32,
    pub in_flight_by_rule: InFlightCounts<(String, String)>,
    pub in_flight_by_instance: InFlightCounts<String>,
}

pub open spec fn rule_key(owner_instance_id: Seq<char>, rule_id: Seq<char>) -> Seq<Seq<char>> {
    seq![owner_instance_id, rule_id]
}

/// Why a gray network decision cannot be handed to the plugin now, if it
/// cannot: the global pending limit, the rule's limit, or the instance's
/// limit (an instance without a limit is not active and refuses).
pub open spec fn rejection(
    global_pending: u32,
    pending_decision_max: u32,
    rule_count: u32,
    concurrency_limit: u32,
    instance_count: u32,
    instance_limit: Option<u32>,
) -> Option<Seq<char>> {
    if global_pending >= pending_decision_max {
        Some("global_pending_limit"@)
    } else if rule_count >= concurrency_limit {
        Some("rule_concurrency_limit"@)
    } else if instance_limit is None || instance_count >= instance_limit.unwrap() {
        Some("plugin_instance_concurrency_limit"@)
    } else {
        None
    }
}

impl NetworkDecisionAccounting {
    pub open spec fn wf(&self) -> bool {
        self.in_flight_by_rule.wf() && self.in_flight_by_instance.wf()
    }

    pub fn new(pending_decision_max: u32) -> (r: Self)
        ensures
            r.wf(),
            r.global_pending == 0,
            r.pending_decision_max == pending_decision_max,
            r.in_flight_by_rule@ == Map::<Seq<Seq<char>>, u32>::empty(),
            r.in_flight_by_instance@ == Map::<Seq<Seq<char>>, u32>::empty(),
    {
        NetworkDecisionAccounting {
            global_pending: 0,
            pending_decision_max,
            in_flight_by_rule: InFlightCounts::new(),
            in_flight_by_instance: InFlightCounts::new(),
        }
    }

    /// Why the decision under the rule (`owner_instance_id`, `rule_id`) with
    /// `concurrency_limit`, decided by `target`, cannot be dispatched now.
    pub fn admission_rejection(
        &self,
        owner_instance_id: &str,
        rule_id: &str,
        concurrency_limit: u32,
        target: &str,
        instance_limit: Option<u32>,
    ) -> (r: Option<&'static str>)
        requires
            self.wf(),
        ensures
            match r {
                Some(s) => rejection(
                    self.global_pending,
                    self.pending_decision_max,
                    count_of(self.in_flight_by_rule@, rule_key(owner_instance_id@, rule_id@)),
                    concurrency_limit,
                    count_of(self.in_flight_by_instance@, text_key(target@)),
                    instance_limit,
                ) == Some(s@),
                None => rejection(
                    self.global_pending,
                    self.pending_decision_max,
                    count_of(self.in_flight_by_rule@, rule_key(owner_instance_id@, rule_id@)),
                    concurrency_limit,
                    count_of(self.in_flight_by_instance@, text_key(target@)),
                    instance_limit,
                ) is None,
            },
    {
        if self.global_pending >= self.pending_decision_max {
            return Some("global_pending_limit");
        }
        let key = (String::from_str(owner_instance_id), String::from_str(rule_id));
        if self.in_flight_by_rule.get(&key) >= concurrency_limit {
            return Some("rule_concurrency_limit");
        }
        let rejected = match instance_limit {
            None => true,
            Some(limit) => self.in_flight_by_instance.get(&String::from_str(target)) >= limit,
        };
        if rejected {
            return Some("plugin_instance_concurrency_limit");
        }
        None
    }

    /// Takes a pending slot, a slot of the rule and one of the instance.
    /// The counts taken before a failing step stay taken.
    pub fn reserve(&mut self, owner_instance_id: &str, rule_id: &str, target: &str) -> (r: Result<(), ControlError>)
        requires
            old(self).wf(),
        ensures
            final(self).wf(),
            final(self).pending_decision_max == old(self).pending_decision_max,
            ({
                let rk = rule_key(owner_instance_id@, rule_id@);
                let tk = text_key(target@);
                let rc = count_of(old(self).in_flight_by_rule@, rk);
                let ic = count_of(old(self).in_flight_by_instance@, tk);
                &&& (old(self).global_pending < u32::MAX && rc < u32::MAX && ic < u32::MAX) <==> r is Ok
                &&& r is Ok ==> final(self).global_pending == old(self).global_pending + 1
                    && final(self).in_flight_by_rule@ == old(self).in_flight_by_rule@.insert(rk, (rc + 1) as u32)
                    && final(self).in_flight_by_instance@ == old(self).in_flight_by_instance@.insert(tk, (ic + 1) as u32)
            }),
    {
        match crate::counts::checked_increment(self.global_pending, "global pending") {
            Ok(v) => self.global_pending = v,
            Err(e) => return Err(e),
        }
        let key = (String::from_str(owner_instance_id), String::from_str(rule_id));
        match increment_map(&mut self.in_flight_by_rule, key, "rule in-flight") {
            Ok(()) => {},
            Err(e) => return Err(e),
        }
        increment_map(&mut self.in_flight_by_instance, String::from_str(target), "instance in-flight")
    }

    /// Gives back the slots [`Self::reserve`] took. A missing slot is an
    /// accounting underflow; the counts given back before it stay given back.
    pub fn release(&mut self, owner_instance_id: &str, rule_id: &str, target: &str) -> (r: Result<(), ControlError>)
        requires
            old(self).wf(),
        ensures
            final(self).wf(),
            final(self).pending_decision_max == old(self).pending_decision_max,
            ({
                let rk = rule_key(owner_instance_id@, rule_id@);
                let tk = text_key(target@);
                let rc = count_of(old(self).in_flight_by_rule@, rk);
                let ic = count_of(old(self).in_flight_by_instance@, tk);
                &&& (old(self).global_pending >= 1 && rc >= 1 && ic >= 1) <==> r is Ok
                &&& r is Ok ==> final(self).global_pending == old(self).global_pending - 1
                    && final(self).in_flight_by_rule@ == released(old(self).in_flight_by_rule@, rk)
                    && final(self).in_flight_by_instance@ == released(old(self).in_flight_by_instance@, tk)
            }),
    {
        match self.global_pending.checked_sub(1) {
            Some(v) => self.global_pending = v,
            None => return Err(
                ControlError {
                    code: String::from_str("network_control_accounting"),
                    message: String::from_str("global pending underflow"),
                },
            ),
        }
        let key = (String::from_str(owner_instance_id), String::from_str(rule_id));
        match decrement_map(&mut self.in_flight_by_rule, &key, "rule in-flight") {
            Ok(()) => {},
            Err(e) => return Err(e),
        }
        decrement_map(&mut self.in_flight_by_instance, &String::from_str(target), "instance in-flight")
    }
}

/// Law: a sync-plugin event is dispatched only below both limits, so the
/// rule's and the instance's in-flight counts stay within their limits, and
/// a fallback or cached answer takes no slot.
pub proof fn law_dispatch_stays_within_limits(rule_count: u32, inst_count: u32, concurrency_limit: u32, inst_limit: u32)
    requires
        rule_count < concurrency_limit,
        inst_count < inst_limit,
    ensures
        rule_count + 1 <= concurrency_limit,
        inst_count + 1 <= inst_limit,
        rule_count + 1 <= u32::MAX,
        inst_count + 1 <= u32::MAX,
{
}

/// Law: a network decision that is not rejected can be reserved (no count
/// is at its maximum), and every count it then holds stays within its limit.
pub proof fn law_unrejected_decision_reserves_within_limits(
    global_pending: u32,
    pending_decision_max: u32,
    rule_count: u32,
    concurrency_limit: u32,
    instance_count: u32,
    instance_limit: Option<u32>,
)
    requires
        rejection(global_pending, pending_decision_max, rule_count, concurrency_limit, instance_count, instance_limit)
            is None,
    ensures
        global_pending < u32::MAX && rule_count < u32::MAX && instance_count < u32::MAX,
        global_pending + 1 <= pending_decision_max,
        rule_count + 1 <= concurrency_limit,
        instance_limit matches Some(l) && instance_count + 1 <= l,
{
}

} // verus!
