//! Network policy rules as plugins submit them: decisions, remote
//! selectors, drafts, grants and apply requests, with the shape checks a
//! draft and a request must pass before a store takes them.
//!
//! A selector is read from its wire text by the plugin runtime's parser;
//! the library receives what that parser produced (the selector and the
//! texts it is shown as, or the parser's message) and decides the rest.

use vstd::prelude::*;
use crate::sockaddr::{IpAddress, SocketEndpoint};
use crate::rules::EnforcementDecision;
use crate::file_policy::{is_blank, str_is_blank};
use crate::payload::str_eq;
use crate::text::{decimal, push_decimal};

verus! {

/// The owner under which rules of the static policy file are stored.
pub open spec fn static_owner() -> Seq<char> {
    "actrail.static"@
}

pub fn static_policy_owner() -> (s: &'static str)
    ensures
        s@ == static_owner(),
{
    "actrail.static"
}

/// What a network rule decides.
#[derive(Clone, Copy, Debug, PartialEq, Eq, Structural)]
pub enum NetworkPolicyDecision {
    Default,
    Allow,
    Deny,
    Gray,
}

pub open spec fn net_decision_text(d: NetworkPolicyDecision) -> Seq<char> {
    match d {
        NetworkPolicyDecision::Default => "default"@,
        NetworkPolicyDecision::Allow => "allow"@,
        NetworkPolicyDecision::Deny => "deny"@,
        NetworkPolicyDecision::Gray => "gray"@,
    }
}

impl NetworkPolicyDecision {
    /// The decision's wire name.
    pub fn as_str(self) -> (s: &'static str)
        ensures
            s@ == net_decision_text(self),
    {
        match self {
            NetworkPolicyDecision::Default => "default",
            NetworkPolicyDecision::Allow => "allow",
            NetworkPolicyDecision::Deny => "deny",
            NetworkPolicyDecision::Gray => "gray",
        }
    }
}

/// A plugin's verdict on an action.
#[derive(Clone, Copy, Debug, PartialEq, Eq, Structural)]
pub enum ControlVerdict {
    Allow,
    Deny,
}

pub open spec fn verdict_to_decision(v: ControlVerdict) -> EnforcementDecision {
    match v {
        ControlVerdict::Allow => EnforcementDecision::Allow,
        ControlVerdict::Deny => EnforcementDecision::Deny,
    }
}

pub open spec fn decision_to_verdict(d: EnforcementDecision) -> ControlVerdict {
    match d {
        EnforcementDecision::Allow => ControlVerdict::Allow,
        EnforcementDecision::Deny => ControlVerdict::Deny,
    }
}

/// The enforcement decision a plugin verdict stands for.
pub fn verdict_decision(verdict: ControlVerdict) -> (d: EnforcementDecision)
    ensures
        d == verdict_to_decision(verdict),
{
    match verdict {
        ControlVerdict::Allow => EnforcementDecision::Allow,
        ControlVerdict::Deny => EnforcementDecision::Deny,
    }
}

/// The plugin verdict an enforcement decision is reported as.
pub fn enforcement_verdict(decision: EnforcementDecision) -> (v: ControlVerdict)
    ensures
        v == decision_to_verdict(decision),
{
    match decision {
        EnforcementDecision::Allow => ControlVerdict::Allow,
        EnforcementDecision::Deny => ControlVerdict::Deny,
    }
}

/// Which remotes a rule matches: one endpoint, or every port of one address.
#[derive(Clone, Copy, Debug, PartialEq, Eq)]
pub enum RemoteSelector {
    Endpoint(SocketEndpoint),
    AnyPort(IpAddress),
}

/// Whether two addresses are the same.
pub fn same_ip(a: &IpAddress, b: &IpAddress) -> (r: bool)
    ensures
        r == (*a == *b),
{
    match (a, b) {
        (IpAddress::V4(x), IpAddress::V4(y)) => {
            let mut i: usize = 0;
            while i < 4
                invariant
                    i <= 4,
                    *a == IpAddress::V4(*x),
                    *b == IpAddress::V4(*y),
                    forall|k: int| 0 <= k < i ==> x[k] == y[k],
                decreases 4 - i,
            {
                if x[i] != y[i] {
                    assert(x[i as int] != y[i as int]);
                    assert(!(*x =~= *y));
                    assert(*a != *b);
                    return false;
                }
                i += 1;
            }
            assert(*x =~= *y);
            true
        },
        (IpAddress::V6(x), IpAddress::V6(y)) => {
            let mut i: usize = 0;
            while i < 16
                invariant
                    i <= 16,
                    *a == IpAddress::V6(*x),
                    *b == IpAddress::V6(*y),
                    forall|k: int| 0 <= k < i ==> x[k] == y[k],
                decreases 16 - i,
            {
                if x[i] != y[i] {
                    assert(x[i as int] != y[i as int]);
                    assert(!(*x =~= *y));
                    assert(*a != *b);
                    return false;
                }
                i += 1;
            }
            assert(*x =~= *y);
            true
        },
        _ => false,
    }
}

/// Whether two endpoints are the same.
pub fn same_endpoint(a: &SocketEndpoint, b: &SocketEndpoint) -> (r: bool)
    ensures
        r == (*a == *b),
{
    a.port == b.port && same_ip(&a.ip, &b.ip)
}

/// Whether two selectors are the same.
pub fn same_selector(a: &RemoteSelector, b: &RemoteSelector) -> (r: bool)
    ensures
        r == (*a == *b),
{
    match (a, b) {
        (RemoteSelector::Endpoint(x), RemoteSelector::Endpoint(y)) => same_endpoint(x, y),
        (RemoteSelector::AnyPort(x), RemoteSelector::AnyPort(y)) => same_ip(x, y),
        _ => false,
    }
}

/// A selector as the parser produced it, with the texts it is shown as.
#[derive(Debug)]
pub struct NetworkRemoteSelector {
    pub selector: RemoteSelector,
    /// The selector's wire text.
    pub text: String,
    /// For an endpoint selector, the text of the endpoint itself.
    pub endpoint_text: String,
}

pub struct SelectorView {
    pub selector: RemoteSelector,
    pub text: Seq<char>,
    pub endpoint_text: Seq<char>,
}

impl View for NetworkRemoteSelector {
    type V = SelectorView;

    open spec fn view(&self) -> SelectorView {
        SelectorView { selector: self.selector, text: self.text@, endpoint_text: self.endpoint_text@ }
    }
}

impl NetworkRemoteSelector {
    pub fn duplicate(&self) -> (r: NetworkRemoteSelector)
        ensures
            r@ == self@,
    {
        NetworkRemoteSelector { selector: self.selector, text: self.text.clone(), endpoint_text: self.endpoint_text.clone() }
    }
}

/// A rule draft as a plugin submits it.
#[derive(Debug)]
pub struct NetworkPolicyRuleDraft {
    pub rule_id: Option<String>,
    pub decision: NetworkPolicyDecision,
    /// The draft's remote as the selector parser read it.
    pub remote: Result<NetworkRemoteSelector, String>,
    pub gray_target: Option<String>,
    pub timeout_ms: Option<u64>,
    pub concurrency_limit: Option<u32>,
    pub fallback: Option<ControlVerdict>,
}

pub open spec fn opt_text(s: Option<String>) -> Option<Seq<char>> {
    match s {
        Some(x) => Some(x@),
        None => None,
    }
}

pub open spec fn remote_view(r: Result<NetworkRemoteSelector, String>) -> Result<SelectorView, Seq<char>> {
    match r {
        Ok(s) => Ok(s@),
        Err(e) => Err(e@),
    }
}

pub struct DraftView {
    pub rule_id: Option<Seq<char>>,
    pub decision: NetworkPolicyDecision,
    pub remote: Result<SelectorView, Seq<char>>,
    pub gray_target: Option<Seq<char>>,
    pub timeout_ms: Option<u64>,
    pub concurrency_limit: Option<u32>,
    pub fallback: Option<ControlVerdict>,
}

impl View for NetworkPolicyRuleDraft {
    type V = DraftView;

    open spec fn view(&self) -> DraftView {
        DraftView {
            rule_id: opt_text(self.rule_id),
            decision: self.decision,
            remote: remote_view(self.remote),
            gray_target: opt_text(self.gray_target),
            timeout_ms: self.timeout_ms,
            concurrency_limit: self.concurrency_limit,
            fallback: self.fallback,
        }
    }
}

/// What a draft must look like: gray settings exactly on gray rules, and a
/// remote the parser accepted; the result is that remote.
pub open spec fn shape_spec(d: DraftView) -> Result<SelectorView, Seq<char>> {
    let has_gray_fields = d.gray_target is Some || d.timeout_ms is Some || d.concurrency_limit is Some
        || d.fallback is Some;
    if d.decision is Default {
        Err("network rule decision cannot be default"@)
    } else if !(d.decision is Gray) && has_gray_fields {
        Err("allow and deny network rules cannot include gray settings"@)
    } else if d.decision is Gray && (d.gray_target is None || is_blank(d.gray_target.unwrap())) {
        Err("gray network rule requires gray_target"@)
    } else if d.decision is Gray && (d.timeout_ms is None || d.timeout_ms.unwrap() == 0) {
        Err("gray network rule timeout_ms must be positive"@)
    } else if d.decision is Gray && (d.concurrency_limit is None || d.concurrency_limit.unwrap() == 0) {
        Err("gray network rule concurrency_limit must be positive"@)
    } else if d.decision is Gray && d.fallback is None {
        Err("gray network rule requires fallback"@)
    } else {
        d.remote
    }
}

pub open spec fn selector_result(r: Result<NetworkRemoteSelector, String>) -> Result<SelectorView, Seq<char>> {
    remote_view(r)
}

/// Checks the shape of a draft; on success, the selector it names.
pub fn draft_shape(draft: &NetworkPolicyRuleDraft) -> (r: Result<NetworkRemoteSelector, String>)
    ensures
        selector_result(r) == shape_spec(draft@),
{
    if draft.decision == NetworkPolicyDecision::Default {
        return Err(String::from_str("network rule decision cannot be default"));
    }
    let has_gray_fields = draft.gray_target.is_some() || draft.timeout_ms.is_some() || draft.concurrency_limit.is_some()
        || draft.fallback.is_some();
    let gray = draft.decision == NetworkPolicyDecision::Gray;
    if !gray && has_gray_fields {
        return Err(String::from_str("allow and deny network rules cannot include gray settings"));
    }
    if gray {
        let blank = match &draft.gray_target {
            None => true,
            Some(t) => str_is_blank(t.as_str()),
        };
        if blank {
            return Err(String::from_str("gray network rule requires gray_target"));
        }
        let no_timeout = match draft.timeout_ms {
            None => true,
            Some(v) => v == 0,
        };
        if no_timeout {
            return Err(String::from_str("gray network rule timeout_ms must be positive"));
        }
        let no_limit = match draft.concurrency_limit {
            None => true,
            Some(v) => v == 0,
        };
        if no_limit {
            return Err(String::from_str("gray network rule concurrency_limit must be positive"));
        }
        if draft.fallback.is_none() {
            return Err(String::from_str("gray network rule requires fallback"));
        }
    }
    match &draft.remote {
        Ok(s) => Ok(s.duplicate()),
        Err(e) => Err(e.clone()),
    }
}

/// A plugin's grant to apply rules of one decision, with the selectors of
/// the request that its remote scope covers (as the plugin runtime decided).
#[derive(Debug)]
pub struct NetworkPolicyRulesApplyGrant {
    pub decision: NetworkPolicyDecision,
    pub covered: Vec<RemoteSelector>,
}

pub struct GrantView {
    pub decision: NetworkPolicyDecision,
    pub covered: Seq<RemoteSelector>,
}

impl View for NetworkPolicyRulesApplyGrant {
    type V = GrantView;

    open spec fn view(&self) -> GrantView {
        GrantView { decision: self.decision, covered: self.covered@ }
    }
}

pub open spec fn grant_views(g: Seq<NetworkPolicyRulesApplyGrant>) -> Seq<GrantView> {
    g.map_values(|x: NetworkPolicyRulesApplyGrant| x@)
}

pub open spec fn grant_allows(g: GrantView, decision: NetworkPolicyDecision, s: RemoteSelector) -> bool {
    g.decision == decision && g.covered.contains(s)
}

/// Some grant allows `decision` rules on the selector; else the message
/// naming what is missing.
pub open spec fn draft_grant_spec(grants: Seq<GrantView>, decision: NetworkPolicyDecision, s: SelectorView) -> Result<(), Seq<char>> {
    if exists|i: int| 0 <= i < grants.len() && grant_allows(#[trigger] grants[i], decision, s.selector) {
        Ok(())
    } else {
        Err("missing network-policy.rules.apply grant for "@ + net_decision_text(decision) + " "@ + s.text)
    }
}

pub open spec fn unit_result(r: Result<(), String>) -> Result<(), Seq<char>> {
    match r {
        Ok(_) => Ok(()),
        Err(e) => Err(e@),
    }
}

fn covers(covered: &Vec<RemoteSelector>, s: &RemoteSelector) -> (r: bool)
    ensures
        r == covered@.contains(*s),
{
    let mut i: usize = 0;
    while i < covered.len()
        invariant
            i <= covered@.len(),
            forall|k: int| 0 <= k < i ==> covered@[k] != *s,
        decreases covered@.len() - i,
    {
        if same_selector(&covered[i], s) {
            return true;
        }
        i += 1;
    }
    false
}

/// Checks that a grant allows `decision` rules on `selector`.
pub fn draft_grant(
    grants: &[NetworkPolicyRulesApplyGrant],
    decision: NetworkPolicyDecision,
    selector: &NetworkRemoteSelector,
) -> (r: Result<(), String>)
    ensures
        unit_result(r) == draft_grant_spec(grant_views(grants@), decision, selector@),
{
    let ghost gv = grant_views(grants@);
    let mut i: usize = 0;
    while i < grants.len()
        invariant
            i <= grants@.len(),
            gv == grant_views(grants@),
            forall|k: int| 0 <= k < i ==> !grant_allows(#[trigger] gv[k], decision, selector.selector),
        decreases grants@.len() - i,
    {
        if grants[i].decision == decision && covers(&grants[i].covered, &selector.selector) {
            assert(grant_allows(gv[i as int], decision, selector.selector));
            return Ok(());
        }
        i += 1;
    }
    let mut m = String::from_str("missing network-policy.rules.apply grant for ");
    m.append(decision.as_str());
    m.append(" ");
    m.append(selector.text.as_str());
    Err(m)
}

/// One change of a request.
#[derive(Clone, Copy, Debug, PartialEq, Eq, Structural)]
pub enum NetworkPolicyPatchOp {
    Upsert,
    Delete,
}

#[derive(Debug)]
pub struct NetworkPolicyPatchItem {
    pub op: NetworkPolicyPatchOp,
    pub rule_id: Option<String>,
    pub rule: Option<NetworkPolicyRuleDraft>,
}

pub struct ItemView {
    pub op: NetworkPolicyPatchOp,
    pub rule_id: Option<Seq<char>>,
    pub rule: Option<DraftView>,
}

impl View for NetworkPolicyPatchItem {
    type V = ItemView;

    open spec fn view(&self) -> ItemView {
        ItemView {
            op: self.op,
            rule_id: opt_text(self.rule_id),
            rule: match self.rule {
                Some(d) => Some(d@),
                None => None,
            },
        }
    }
}

pub open spec fn item_views(s: Seq<NetworkPolicyPatchItem>) -> Seq<ItemView> {
    s.map_values(|x: NetworkPolicyPatchItem| x@)
}

/// A batch of changes a plugin applies to the rules it owns.
#[derive(Debug)]
pub struct NetworkPolicyApplyRequest {
    pub base_revision: u64,
    pub mutation_id: String,
    pub items: Vec<NetworkPolicyPatchItem>,
}

/// One reason a request is refused: the item it concerns, a code, a message.
#[derive(Debug)]
pub struct NetworkPolicyApplyError {
    pub item_index: u32,
    pub code: String,
    pub message: String,
}

pub type ErrorView = (u32, Seq<char>, Seq<char>);

pub open spec fn error_views(v: Seq<NetworkPolicyApplyError>) -> Seq<ErrorView> {
    v.map_values(|e: NetworkPolicyApplyError| (e.item_index, e.code@, e.message@))
}

pub fn apply_error(item_index: u32, code: &str, message: String) -> (e: NetworkPolicyApplyError)
    ensures
        e.item_index == item_index,
        e.code@ == code@,
        e.message@ == message@,
{
    NetworkPolicyApplyError { item_index, code: String::from_str(code), message }
}

/// The errors a request has before any of its items is looked at.
pub open spec fn request_errors_spec(revision: u64, owner: Seq<char>, base_revision: u64, mutation_id: Seq<char>, n_items: nat) -> Seq<ErrorView> {
    let e1: Seq<ErrorView> = if is_blank(owner) || owner == static_owner() {
        seq![(0u32, "invalid-owner"@, "network policy owner must be a non-static plugin instance id"@)]
    } else {
        seq![]
    };
    let e2: Seq<ErrorView> = if base_revision != revision {
        seq![(0u32, "revision-conflict"@, "network policy base revision "@ + decimal(base_revision as nat)
            + " does not match current revision "@ + decimal(revision as nat))]
    } else {
        seq![]
    };
    let e3: Seq<ErrorView> = if is_blank(mutation_id) {
        seq![(0u32, "invalid-mutation-id"@, "network policy mutation_id must not be empty"@)]
    } else {
        seq![]
    };
    let e4: Seq<ErrorView> = if n_items == 0 {
        seq![(0u32, "empty-mutation"@, "network policy apply requires at least one item"@)]
    } else {
        seq![]
    };
    e1 + e2 + e3 + e4
}

/// Checks the owner, base revision, mutation id and item count of a request.
pub fn request_errors(revision: u64, owner_instance_id: &str, request: &NetworkPolicyApplyRequest) -> (errors: Vec<NetworkPolicyApplyError>)
    ensures
        error_views(errors@) == request_errors_spec(revision, owner_instance_id@, request.base_revision,
            request.mutation_id@, request.items@.len()),
{
    let mut errors: Vec<NetworkPolicyApplyError> = Vec::new();
    let ghost owner = owner_instance_id@;
    if str_is_blank(owner_instance_id) || str_eq(owner_instance_id, static_policy_owner()) {
        errors.push(apply_error(0, "invalid-owner", String::from_str("network policy owner must be a non-static plugin instance id")));
    }
    let ghost after1 = error_views(errors@);
    if request.base_revision != revision {
        let mut m = String::from_str("network policy base revision ");
        push_decimal(&mut m, request.base_revision);
        m.append(" does not match current revision ");
        push_decimal(&mut m, revision);
        errors.push(apply_error(0, "revision-conflict", m));
    }
    let ghost after2 = error_views(errors@);
    if str_is_blank(request.mutation_id.as_str()) {
        errors.push(apply_error(0, "invalid-mutation-id", String::from_str("network policy mutation_id must not be empty")));
    }
    let ghost after3 = error_views(errors@);
    if request.items.len() == 0 {
        errors.push(apply_error(0, "empty-mutation", String::from_str("network policy apply requires at least one item")));
    }
    proof {
        let spec = request_errors_spec(revision, owner, request.base_revision, request.mutation_id@, request.items@.len());
        assert(error_views(errors@) =~= spec);
    }
    errors
}

} // verus!
