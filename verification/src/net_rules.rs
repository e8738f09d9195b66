//! The network policy rule store: rules kept per owner and rule id, applied
//! in batches under a revision precondition, with at most one rule for any
//! remote; connects are matched against the rules in force since the last
//! successful change.
//!
//! Rules are kept sorted by (owner, rule id) in text order, the order the
//! daemon's per-owner maps walk them in.

use vstd::prelude::*;
use crate::net_policy::{
    apply_error, decision_to_verdict, draft_grant, draft_grant_spec, draft_shape, error_views, grant_views,
    net_decision_text, opt_text, request_errors, request_errors_spec, shape_spec, static_owner, static_policy_owner,
    unit_result, verdict_decision, verdict_to_decision, ControlVerdict, DraftView, ErrorView, GrantView, ItemView,
    NetworkPolicyApplyError, NetworkPolicyApplyRequest, NetworkPolicyDecision, NetworkPolicyPatchItem,
    NetworkPolicyPatchOp, NetworkPolicyRulesApplyGrant, NetworkRemoteSelector, RemoteSelector, SelectorView,
    item_views, same_ip, same_endpoint, same_selector,
};
use crate::sockaddr::{IpAddress, SocketEndpoint};
use crate::rules::{has_whitespace, EnforcementDecision, NetworkRuleValidator};
use crate::file_rules::{key_less, lemma_key_less_facts};
use crate::order::str_less;
use crate::payload::str_eq;
use crate::text::{decimal, push_decimal};
use crate::words::{parse_uint, parse_uint_bytes};
use crate::rules::int_error_text;
use vstd::string::StringSliceAdditionalSpecFns;

verus! {

/// A network rule as the store keeps it.
#[derive(Debug)]
pub struct StoredNetworkRule {
    pub owner_instance_id: String,
    pub rule_id: String,
    pub decision: NetworkPolicyDecision,
    pub remote: NetworkRemoteSelector,
    pub gray_target: Option<String>,
    pub timeout_ms: Option<u64>,
    pub concurrency_limit: Option<u32>,
    pub fallback: Option<EnforcementDecision>,
    pub rule_revision: u64,
    pub updated_sequence: u64,
}

pub struct NetRuleView {
    pub owner: Seq<char>,
    pub rule_id: Seq<char>,
    pub decision: NetworkPolicyDecision,
    pub remote: SelectorView,
    pub gray_target: Option<Seq<char>>,
    pub timeout_ms: Option<u64>,
    pub concurrency_limit: Option<u32>,
    pub fallback: Option<EnforcementDecision>,
    pub rule_revision: u64,
    pub updated_sequence: u64,
}

impl View for StoredNetworkRule {
    type V = NetRuleView;

    open spec fn view(&self) -> NetRuleView {
        NetRuleView {
            owner: self.owner_instance_id@,
            rule_id: self.rule_id@,
            decision: self.decision,
            remote: self.remote@,
            gray_target: opt_text(self.gray_target),
            timeout_ms: self.timeout_ms,
            concurrency_limit: self.concurrency_limit,
            fallback: self.fallback,
            rule_revision: self.rule_revision,
            updated_sequence: self.updated_sequence,
        }
    }
}

fn copy_opt_string(s: &Option<String>) -> (r: Option<String>)
    ensures
        opt_text(r) == opt_text(*s),
{
    match s {
        Some(x) => Some(x.clone()),
        None => None,
    }
}

impl StoredNetworkRule {
    pub fn duplicate(&self) -> (r: StoredNetworkRule)
        ensures
            r@ == self@,
    {
        StoredNetworkRule {
            owner_instance_id: self.owner_instance_id.clone(),
            rule_id: self.rule_id.clone(),
            decision: self.decision,
            remote: self.remote.duplicate(),
            gray_target: copy_opt_string(&self.gray_target),
            timeout_ms: self.timeout_ms,
            concurrency_limit: self.concurrency_limit,
            fallback: self.fallback,
            rule_revision: self.rule_revision,
            updated_sequence: self.updated_sequence,
        }
    }
}

pub open spec fn nviews(v: Seq<StoredNetworkRule>) -> Seq<NetRuleView> {
    v.map_values(|r: StoredNetworkRule| r@)
}

// ---------------------------------------------------------------------------
// Key order

pub open spec fn nkey(r: NetRuleView) -> (Seq<char>, Seq<char>) {
    (r.owner, r.rule_id)
}

/// The rules are in strictly increasing (owner, rule id) order.
pub open spec fn nsorted(s: Seq<NetRuleView>) -> bool {
    forall|i: int, j: int| 0 <= i < j < s.len() ==> key_less(nkey(#[trigger] s[i]), nkey(#[trigger] s[j]))
}

/// Where key `k` is, or would go.
pub open spec fn nlower_bound(s: Seq<NetRuleView>, k: (Seq<char>, Seq<char>)) -> int
    decreases s.len(),
{
    if s.len() == 0 {
        0
    } else if key_less(nkey(s[0]), k) {
        1 + nlower_bound(s.drop_first(), k)
    } else {
        0
    }
}

pub proof fn lemma_nlower_bound_at(s: Seq<NetRuleView>, k: (Seq<char>, Seq<char>), j: int)
    requires
        0 <= j <= s.len(),
        forall|i: int| 0 <= i < j ==> key_less(nkey(#[trigger] s[i]), k),
        j == s.len() || !key_less(nkey(s[j]), k),
    ensures
        nlower_bound(s, k) == j,
    decreases j,
{
    if j > 0 {
        assert(key_less(nkey(s[0]), k));
        assert forall|i: int| 0 <= i < j - 1 implies key_less(nkey(#[trigger] s.drop_first()[i]), k) by {
            assert(s.drop_first()[i] == s[i + 1]);
        }
        if j < s.len() {
            assert(s.drop_first()[j - 1] == s[j]);
        }
        lemma_nlower_bound_at(s.drop_first(), k, j - 1);
    }
}

pub proof fn lemma_nlower_bound_bounds(s: Seq<NetRuleView>, k: (Seq<char>, Seq<char>))
    ensures
        0 <= nlower_bound(s, k) <= s.len(),
        forall|i: int| 0 <= i < nlower_bound(s, k) ==> key_less(nkey(#[trigger] s[i]), k),
        nlower_bound(s, k) < s.len() ==> !key_less(nkey(s[nlower_bound(s, k)]), k),
    decreases s.len(),
{
    if s.len() > 0 && key_less(nkey(s[0]), k) {
        lemma_nlower_bound_bounds(s.drop_first(), k);
        assert forall|i: int| 0 <= i < nlower_bound(s, k) implies key_less(nkey(#[trigger] s[i]), k) by {
            if i > 0 {
                assert(s[i] == s.drop_first()[i - 1]);
            }
        }
        if nlower_bound(s, k) < s.len() {
            assert(s[nlower_bound(s, k)] == s.drop_first()[nlower_bound(s, k) - 1]);
        }
    }
}

/// The index of the rule with key `k`.
pub open spec fn nfind(s: Seq<NetRuleView>, k: (Seq<char>, Seq<char>)) -> Option<int> {
    let p = nlower_bound(s, k);
    if p < s.len() && nkey(s[p]) == k {
        Some(p)
    } else {
        None
    }
}

pub proof fn lemma_nfind(s: Seq<NetRuleView>, k: (Seq<char>, Seq<char>))
    requires
        nsorted(s),
    ensures
        match nfind(s, k) {
            Some(p) => 0 <= p < s.len() && nkey(s[p]) == k,
            None => forall|i: int| 0 <= i < s.len() ==> nkey(#[trigger] s[i]) != k,
        },
{
    lemma_nlower_bound_bounds(s, k);
    let p = nlower_bound(s, k);
    assert forall|i: int| 0 <= i < s.len() && nkey(#[trigger] s[i]) == k implies nfind(s, k) == Some(i) by {
        lemma_key_less_facts(k, k, k);
        if i < p {
        } else if i > p {
            assert(key_less(nkey(s[p]), nkey(s[i])));
            lemma_key_less_facts(nkey(s[p]), k, k);
        }
    }
}

/// The rules with `r` stored under its key, replacing any rule there.
pub open spec fn nupsert(s: Seq<NetRuleView>, r: NetRuleView) -> Seq<NetRuleView> {
    let p = nlower_bound(s, nkey(r));
    if p < s.len() && nkey(s[p]) == nkey(r) {
        s.update(p, r)
    } else {
        s.insert(p, r)
    }
}

/// The rules without the one under key `k`.
pub open spec fn nremove(s: Seq<NetRuleView>, k: (Seq<char>, Seq<char>)) -> Seq<NetRuleView> {
    match nfind(s, k) {
        Some(p) => s.remove(p),
        None => s,
    }
}

pub proof fn lemma_nupsert_sorted(s: Seq<NetRuleView>, r: NetRuleView)
    requires
        nsorted(s),
    ensures
        nsorted(nupsert(s, r)),
{
    lemma_nlower_bound_bounds(s, nkey(r));
    let p = nlower_bound(s, nkey(r));
    let t = nupsert(s, r);
    assert forall|i: int, j: int| 0 <= i < j < t.len() implies key_less(nkey(#[trigger] t[i]), nkey(#[trigger] t[j])) by {
        if p < s.len() && nkey(s[p]) == nkey(r) {
            if i == p {
                assert(key_less(nkey(s[i]), nkey(s[j])));
            } else if j == p {
                assert(key_less(nkey(s[i]), nkey(s[j])));
            }
        } else {
            if i < p && j == p {
            } else if i == p {
                assert(t[j] == s[j - 1]);
                if p < s.len() {
                    lemma_key_less_facts(nkey(r), nkey(s[p]), nkey(s[j - 1]));
                    if j - 1 > p {
                        assert(key_less(nkey(s[p]), nkey(s[j - 1])));
                    }
                }
            } else if i < p && j > p {
                assert(t[j] == s[j - 1]);
                assert(key_less(nkey(s[i]), nkey(s[j - 1])));
            } else if i > p {
                assert(t[i] == s[i - 1] && t[j] == s[j - 1]);
                assert(key_less(nkey(s[i - 1]), nkey(s[j - 1])));
            } else {
                assert(t[i] == s[i] && t[j] == s[j]);
                assert(key_less(nkey(s[i]), nkey(s[j])));
            }
        }
    }
}

pub proof fn lemma_nremove_sorted(s: Seq<NetRuleView>, k: (Seq<char>, Seq<char>))
    requires
        nsorted(s),
    ensures
        nsorted(nremove(s, k)),
{
    if let Some(i) = nfind(s, k) {
        lemma_nlower_bound_bounds(s, k);
        let t = s.remove(i);
        assert forall|a: int, b: int| 0 <= a < b < t.len() implies key_less(nkey(#[trigger] t[a]), nkey(#[trigger] t[b])) by {
            let a2 = if a < i { a } else { a + 1 };
            let b2 = if b < i { b } else { b + 1 };
            assert(t[a] == s[a2] && t[b] == s[b2]);
            assert(key_less(nkey(s[a2]), nkey(s[b2])));
        }
    }
}

fn nbelow(r: &StoredNetworkRule, owner: &str, rule_id: &str) -> (b: bool)
    ensures
        b == key_less(nkey(r@), (owner@, rule_id@)),
{
    if str_less(r.owner_instance_id.as_str(), owner) {
        true
    } else {
        str_eq(r.owner_instance_id.as_str(), owner) && str_less(r.rule_id.as_str(), rule_id)
    }
}

fn nlower_bound_of(v: &Vec<StoredNetworkRule>, owner: &str, rule_id: &str) -> (p: usize)
    ensures
        p == nlower_bound(nviews(v@), (owner@, rule_id@)),
        p <= v@.len(),
{
    let ghost s = nviews(v@);
    let ghost k = (owner@, rule_id@);
    let mut j: usize = 0;
    while j < v.len()
        invariant
            s == nviews(v@),
            k == (owner@, rule_id@),
            j <= v@.len(),
            forall|i: int| 0 <= i < j ==> key_less(nkey(#[trigger] s[i]), k),
        decreases v@.len() - j,
    {
        if !nbelow(&v[j], owner, rule_id) {
            proof {
                lemma_nlower_bound_at(s, k, j as int);
            }
            return j;
        }
        j += 1;
    }
    proof {
        lemma_nlower_bound_at(s, k, j as int);
    }
    j
}

pub(crate) fn nfind_rule(v: &Vec<StoredNetworkRule>, owner: &str, rule_id: &str) -> (r: Option<usize>)
    ensures
        match r {
            Some(p) => nfind(nviews(v@), (owner@, rule_id@)) == Some(p as int) && p < v@.len(),
            None => nfind(nviews(v@), (owner@, rule_id@)) is None,
        },
{
    let p = nlower_bound_of(v, owner, rule_id);
    if p < v.len() && str_eq(v[p].owner_instance_id.as_str(), owner) && str_eq(v[p].rule_id.as_str(), rule_id) {
        Some(p)
    } else {
        None
    }
}

pub(crate) fn nupsert_into(v: &mut Vec<StoredNetworkRule>, r: StoredNetworkRule)
    ensures
        nviews(final(v)@) == nupsert(nviews(old(v)@), r@),
{
    let p = nlower_bound_of(v, r.owner_instance_id.as_str(), r.rule_id.as_str());
    let ghost s = nviews(v@);
    let ghost rv = r@;
    if p < v.len() && str_eq(v[p].owner_instance_id.as_str(), r.owner_instance_id.as_str()) && str_eq(
        v[p].rule_id.as_str(),
        r.rule_id.as_str(),
    ) {
        v.set(p, r);
        assert(nviews(v@) =~= s.update(p as int, rv));
    } else {
        v.insert(p, r);
        assert(nviews(v@) =~= s.insert(p as int, rv));
    }
}

fn nremove_from(v: &mut Vec<StoredNetworkRule>, owner: &str, rule_id: &str)
    ensures
        nviews(final(v)@) == nremove(nviews(old(v)@), (owner@, rule_id@)),
{
    let ghost s = nviews(v@);
    match nfind_rule(v, owner, rule_id) {
        Some(p) => {
            v.remove(p);
            assert(nviews(v@) =~= s.remove(p as int));
        },
        None => {},
    }
}

// ---------------------------------------------------------------------------
// Remote ownership

/// The index of the first element of `s` that satisfies `p`.
pub open spec fn first_index<T>(s: Seq<T>, p: spec_fn(T) -> bool) -> Option<int>
    decreases s.len(),
{
    if s.len() == 0 {
        None
    } else if p(s[0]) {
        Some(0)
    } else {
        match first_index(s.drop_first(), p) {
            Some(i) => Some(i + 1),
            None => None,
        }
    }
}

pub proof fn lemma_first_index_at<T>(s: Seq<T>, p: spec_fn(T) -> bool, j: int)
    requires
        0 <= j <= s.len(),
        forall|i: int| 0 <= i < j ==> !p(#[trigger] s[i]),
        j == s.len() || p(s[j]),
    ensures
        first_index(s, p) == (if j < s.len() {
            Some(j)
        } else {
            None::<int>
        }),
    decreases j,
{
    if j > 0 {
        assert(!p(s[0]));
        assert forall|i: int| 0 <= i < j - 1 implies !p(#[trigger] s.drop_first()[i]) by {
            assert(s.drop_first()[i] == s[i + 1]);
        }
        if j < s.len() {
            assert(s.drop_first()[j - 1] == s[j]);
        }
        lemma_first_index_at(s.drop_first(), p, j - 1);
    }
}

pub open spec fn selects(s: RemoteSelector) -> spec_fn(NetRuleView) -> bool {
    |r: NetRuleView| r.remote.selector == s
}

pub open spec fn endpoint_on(ip: IpAddress) -> spec_fn(NetRuleView) -> bool {
    |r: NetRuleView| r.remote.selector matches RemoteSelector::Endpoint(e) && e.ip == ip
}

/// What taking rule `r`'s remote after the rules `prior` have taken theirs
/// refuses: the same remote again, or an endpoint and the any-port selector
/// of its address.
pub open spec fn remote_refusal(prior: Seq<NetRuleView>, r: NetRuleView) -> Option<Seq<char>> {
    match r.remote.selector {
        RemoteSelector::Endpoint(e) => match first_index(prior, selects(r.remote.selector)) {
            Some(j) => Some("network remote "@ + r.remote.text + " is already owned by "@ + prior[j].owner),
            None => match first_index(prior, selects(RemoteSelector::AnyPort(e.ip))) {
                Some(j) => Some("network remote "@ + r.remote.text + " overlaps "@ + prior[j].remote.text + " owned by "@
                    + prior[j].owner),
                None => None,
            },
        },
        RemoteSelector::AnyPort(ip) => match first_index(prior, selects(r.remote.selector)) {
            Some(j) => Some("network remote "@ + r.remote.text + " is already owned by "@ + prior[j].owner),
            None => match first_index(prior, endpoint_on(ip)) {
                Some(j) => Some("network remote "@ + r.remote.text + " overlaps "@ + prior[j].remote.endpoint_text
                    + " owned by "@ + prior[j].owner),
                None => None,
            },
        },
    }
}

/// The first refusal met when the rules of `s` take their remotes in order.
pub open spec fn first_refusal(s: Seq<NetRuleView>) -> Option<Seq<char>>
    decreases s.len(),
{
    if s.len() == 0 {
        None
    } else {
        match first_refusal(s.drop_last()) {
            Some(m) => Some(m),
            None => remote_refusal(s.drop_last(), s.last()),
        }
    }
}

/// Two selectors claim a common remote.
pub open spec fn overlapping(a: RemoteSelector, b: RemoteSelector) -> bool {
    a == b || (a matches RemoteSelector::Endpoint(e) && b == RemoteSelector::AnyPort(e.ip)) || (b matches RemoteSelector::Endpoint(e)
        && a == RemoteSelector::AnyPort(e.ip))
}

/// No two rules claim a common remote.
pub open spec fn remotes_disjoint(s: Seq<NetRuleView>) -> bool {
    forall|i: int, j: int| 0 <= i < j < s.len() ==> !overlapping(#[trigger] s[i].remote.selector, #[trigger] s[j].remote.selector)
}

/// The rules take their remotes without refusal exactly when no two of them
/// claim a common remote.
pub proof fn lemma_no_refusal_disjoint(s: Seq<NetRuleView>)
    ensures
        first_refusal(s) is None <==> remotes_disjoint(s),
    decreases s.len(),
{
    if s.len() > 0 {
        let p = s.drop_last();
        let r = s.last();
        lemma_no_refusal_disjoint(p);
        let sel = r.remote.selector;
        match sel {
            RemoteSelector::Endpoint(e) => {
                lemma_first_index_none(p, selects(sel));
                lemma_first_index_none(p, selects(RemoteSelector::AnyPort(e.ip)));
            },
            RemoteSelector::AnyPort(ip) => {
                lemma_first_index_none(p, selects(sel));
                lemma_first_index_none(p, endpoint_on(ip));
            },
        }
        assert(remote_refusal(p, r) is None <==> forall|i: int| 0 <= i < p.len() ==> !overlapping(#[trigger] p[i].remote.selector, sel));
        if remotes_disjoint(s) {
            assert forall|i: int, j: int| 0 <= i < j < p.len() implies !overlapping(#[trigger] p[i].remote.selector, #[trigger] p[j].remote.selector) by {
                assert(p[i] == s[i] && p[j] == s[j]);
            }
            assert forall|i: int| 0 <= i < p.len() implies !overlapping(#[trigger] p[i].remote.selector, sel) by {
                assert(p[i] == s[i] && r == s[s.len() - 1]);
            }
        }
        if first_refusal(s) is None {
            assert forall|i: int, j: int| 0 <= i < j < s.len() implies !overlapping(#[trigger] s[i].remote.selector, #[trigger] s[j].remote.selector) by {
                if j < s.len() - 1 {
                    assert(p[i] == s[i] && p[j] == s[j]);
                } else {
                    assert(p[i] == s[i]);
                }
            }
        }
    }
}

pub proof fn lemma_first_index_none<T>(s: Seq<T>, p: spec_fn(T) -> bool)
    ensures
        first_index(s, p) is None <==> forall|i: int| 0 <= i < s.len() ==> !p(#[trigger] s[i]),
        first_index(s, p) matches Some(j) ==> 0 <= j < s.len() && p(s[j]),
    decreases s.len(),
{
    if s.len() > 0 {
        lemma_first_index_none(s.drop_first(), p);
        if !p(s[0]) {
            if first_index(s.drop_first(), p) is None {
                assert forall|i: int| 0 <= i < s.len() implies !p(#[trigger] s[i]) by {
                    if i > 0 {
                        assert(s[i] == s.drop_first()[i - 1]);
                    }
                }
            } else {
                let j = first_index(s.drop_first(), p).unwrap();
                assert(s[j + 1] == s.drop_first()[j]);
            }
        }
    }
}


// ---------------------------------------------------------------------------
// Applying changes

pub open spec fn valid_rule_id(t: Seq<char>) -> bool {
    vstd::utf8::encode_utf8(t).len() > 0 && !has_whitespace(vstd::utf8::encode_utf8(t))
}

/// The id a new rule gets: the item's, else the draft's, else a generated one.
pub open spec fn chosen_rule_id(item_id: Option<Seq<char>>, draft_id: Option<Seq<char>>, n: u64) -> Seq<char> {
    match item_id {
        Some(x) => x,
        None => match draft_id {
            Some(y) => y,
            None => "network-rule-"@ + decimal(n as nat),
        },
    }
}

pub open spec fn fallback_decision(f: Option<ControlVerdict>) -> Option<EnforcementDecision> {
    match f {
        Some(v) => Some(verdict_to_decision(v)),
        None => None,
    }
}

/// The store as a mathematical value.
pub struct NetStoreModel {
    pub revision: u64,
    pub next_rule_id: u64,
    pub next_sequence: u64,
    /// Every rule, sorted by (owner, rule id).
    pub rules: Seq<NetRuleView>,
    /// The rules connects are matched against: those in force after the
    /// last successful change.
    pub effective: Seq<NetRuleView>,
}

pub open spec fn not_found_text(rule_id: Seq<char>) -> Seq<char> {
    "network rule "@ + rule_id + " not found for owner"@
}

/// What one item does to the store while a request is being built, and
/// whether it failed.
#[verifier::opaque]
pub open spec fn apply_item_spec(
    m: NetStoreModel,
    owner: Seq<char>,
    item: ItemView,
    next_revision: u64,
    grants: Seq<GrantView>,
    active: Seq<Seq<char>>,
) -> (NetStoreModel, Result<(), Seq<char>>) {
    match item.op {
        NetworkPolicyPatchOp::Delete => if item.rule is Some {
            (m, Err("delete item must not include rule"@))
        } else {
            match item.rule_id {
                None => (m, Err("delete item requires rule_id"@)),
                Some(id) => match nfind(m.rules, (owner, id)) {
                    None => (m, Err(not_found_text(id))),
                    Some(p) => (NetStoreModel { rules: m.rules.remove(p), ..m }, Ok(())),
                },
            }
        },
        NetworkPolicyPatchOp::Upsert => match item.rule {
            None => (m, Err("upsert item requires rule"@)),
            Some(d) => if item.rule_id is Some && d.rule_id is Some && item.rule_id.unwrap() != d.rule_id.unwrap() {
                (m, Err("item rule_id "@ + item.rule_id.unwrap() + " does not match draft rule_id "@ + d.rule_id.unwrap()))
            } else {
                match shape_spec(d) {
                    Err(e) => (m, Err(e)),
                    Ok(sel) => match draft_grant_spec(grants, d.decision, sel) {
                        Err(e) => (m, Err(e)),
                        Ok(_) => if d.decision is Gray && d.gray_target.unwrap() == owner {
                            (m, Err("gray network rule cannot target its policy owner"@))
                        } else if d.decision is Gray && !active.contains(d.gray_target.unwrap()) {
                            (m, Err("gray_target "@ + d.gray_target.unwrap() + " is not an active control decider"@))
                        } else if m.next_sequence == u64::MAX {
                            (m, Err("network policy sequence overflow"@))
                        } else {
                            let sequence = (m.next_sequence + 1) as u64;
                            let m1 = NetStoreModel { next_sequence: sequence, ..m };
                            let rid = chosen_rule_id(item.rule_id, d.rule_id, m.next_rule_id);
                            let generated = item.rule_id is None && d.rule_id is None;
                            if !valid_rule_id(rid) {
                                (m1, Err("network rule id must be non-empty and contain no whitespace"@))
                            } else if generated && m.next_rule_id == u64::MAX {
                                (m1, Err("network policy generated rule id overflow"@))
                            } else {
                                let rule = NetRuleView {
                                    owner,
                                    rule_id: rid,
                                    decision: d.decision,
                                    remote: sel,
                                    gray_target: d.gray_target,
                                    timeout_ms: d.timeout_ms,
                                    concurrency_limit: d.concurrency_limit,
                                    fallback: fallback_decision(d.fallback),
                                    rule_revision: next_revision,
                                    updated_sequence: sequence,
                                };
                                (NetStoreModel {
                                    next_sequence: sequence,
                                    next_rule_id: if generated {
                                        (m.next_rule_id + 1) as u64
                                    } else {
                                        m.next_rule_id
                                    },
                                    rules: nupsert(m.rules, rule),
                                    ..m
                                }, Ok(()))
                            }
                        },
                    },
                }
            },
        },
    }
}

pub open spec fn low32(n: int) -> u32 {
    (n % 0x1_0000_0000) as u32
}

fn low32_exec(n: usize) -> (r: u32)
    ensures
        r == low32(n as int),
{
    ((n as u64) % 0x1_0000_0000) as u32
}

/// Runs items `i..` in order, collecting the failures as errors.
pub open spec fn apply_items_spec(
    m: NetStoreModel,
    owner: Seq<char>,
    items: Seq<ItemView>,
    next_revision: u64,
    grants: Seq<GrantView>,
    active: Seq<Seq<char>>,
    i: int,
    errors: Seq<ErrorView>,
) -> (NetStoreModel, Seq<ErrorView>)
    decreases items.len() - i,
{
    if i < 0 || i >= items.len() {
        (m, errors)
    } else {
        let (m2, r) = apply_item_spec(m, owner, items[i], next_revision, grants, active);
        let e2 = match r {
            Ok(_) => errors,
            Err(msg) => errors.push((low32(i), "invalid-rule"@, msg)),
        };
        apply_items_spec(m2, owner, items, next_revision, grants, active, i + 1, e2)
    }
}

/// The rules of `owner`, in order.
pub open spec fn owned_by(s: Seq<NetRuleView>, owner: Seq<char>) -> Seq<NetRuleView>
    decreases s.len(),
{
    if s.len() == 0 {
        Seq::empty()
    } else if s.last().owner == owner {
        owned_by(s.drop_last(), owner).push(s.last())
    } else {
        owned_by(s.drop_last(), owner)
    }
}

/// The rules of every owner but `owner`, in order.
pub open spec fn not_owned_by(s: Seq<NetRuleView>, owner: Seq<char>) -> Seq<NetRuleView>
    decreases s.len(),
{
    if s.len() == 0 {
        Seq::empty()
    } else if s.last().owner != owner {
        not_owned_by(s.drop_last(), owner).push(s.last())
    } else {
        not_owned_by(s.drop_last(), owner)
    }
}

/// What a request for `owner` makes of the store `m`: the new store, or
/// the errors that refuse it.
pub open spec fn candidate_spec(
    m: NetStoreModel,
    owner: Seq<char>,
    base_revision: u64,
    mutation_id: Seq<char>,
    items: Seq<ItemView>,
    grants: Seq<GrantView>,
    active: Seq<Seq<char>>,
) -> Result<NetStoreModel, Seq<ErrorView>> {
    let pre = request_errors_spec(m.revision, owner, base_revision, mutation_id, items.len());
    if pre.len() > 0 {
        Err(pre)
    } else if m.revision == u64::MAX {
        Err(seq![(0u32, "revision-overflow"@, "network policy revision overflow"@)])
    } else {
        let next_revision = (m.revision + 1) as u64;
        let (m2, errors) = apply_items_spec(m, owner, items, next_revision, grants, active, 0, Seq::empty());
        let errors2 = if errors.len() == 0 && first_refusal(owned_by(m2.rules, owner)) is Some {
            errors.push((0u32, "duplicate-scope"@, first_refusal(owned_by(m2.rules, owner)).unwrap()))
        } else {
            errors
        };
        if errors2.len() > 0 {
            Err(errors2)
        } else {
            match first_refusal(m2.rules) {
                Some(msg) => Err(seq![(0u32, "endpoint-conflict"@, msg)]),
                None => Ok(NetStoreModel { revision: next_revision, effective: m2.rules, ..m2 }),
            }
        }
    }
}


pub proof fn lemma_first_refusal_prefix(s: Seq<NetRuleView>, k: int)
    requires
        0 <= k <= s.len(),
        first_refusal(s.take(k)) is Some,
    ensures
        first_refusal(s) == first_refusal(s.take(k)),
    decreases s.len() - k,
{
    if k == s.len() {
        assert(s.take(k) =~= s);
    } else {
        assert(s.drop_last().take(k) =~= s.take(k));
        lemma_first_refusal_prefix(s.drop_last(), k);
    }
}

pub proof fn lemma_take_step(s: Seq<NetRuleView>, i: int)
    requires
        0 <= i < s.len(),
    ensures
        s.take(i + 1).drop_last() == s.take(i),
        s.take(i + 1).last() == s[i],
        s.take(i + 1).len() == i + 1,
{
    assert(s.take(i + 1).drop_last() =~= s.take(i));
}

fn first_selecting(v: &Vec<StoredNetworkRule>, upto: usize, sel: &RemoteSelector) -> (r: Option<usize>)
    requires
        upto <= v@.len(),
    ensures
        match r {
            Some(j) => first_index(nviews(v@).take(upto as int), selects(*sel)) == Some(j as int) && j < upto,
            None => first_index(nviews(v@).take(upto as int), selects(*sel)) is None,
        },
{
    let ghost s = nviews(v@).take(upto as int);
    let mut j: usize = 0;
    while j < upto
        invariant
            j <= upto <= v@.len(),
            s == nviews(v@).take(upto as int),
            forall|i: int| 0 <= i < j ==> !selects(*sel)(#[trigger] s[i]),
        decreases upto - j,
    {
        if same_selector(&v[j].remote.selector, sel) {
            proof {
                assert(s[j as int] == v@[j as int]@);
                lemma_first_index_at(s, selects(*sel), j as int);
            }
            return Some(j);
        }
        assert(s[j as int] == v@[j as int]@);
        j += 1;
    }
    proof {
        lemma_first_index_at(s, selects(*sel), j as int);
    }
    None
}

fn first_endpoint_on(v: &Vec<StoredNetworkRule>, upto: usize, ip: &IpAddress) -> (r: Option<usize>)
    requires
        upto <= v@.len(),
    ensures
        match r {
            Some(j) => first_index(nviews(v@).take(upto as int), endpoint_on(*ip)) == Some(j as int) && j < upto,
            None => first_index(nviews(v@).take(upto as int), endpoint_on(*ip)) is None,
        },
{
    let ghost s = nviews(v@).take(upto as int);
    let mut j: usize = 0;
    while j < upto
        invariant
            j <= upto <= v@.len(),
            s == nviews(v@).take(upto as int),
            forall|i: int| 0 <= i < j ==> !endpoint_on(*ip)(#[trigger] s[i]),
        decreases upto - j,
    {
        assert(s[j as int] == v@[j as int]@);
        let hit = match &v[j].remote.selector {
            RemoteSelector::Endpoint(e) => same_ip(&e.ip, ip),
            RemoteSelector::AnyPort(_) => false,
        };
        if hit {
            proof {
                lemma_first_index_at(s, endpoint_on(*ip), j as int);
            }
            return Some(j);
        }
        j += 1;
    }
    proof {
        lemma_first_index_at(s, endpoint_on(*ip), j as int);
    }
    None
}

fn refusal_message(r: &StoredNetworkRule, middle: &str, other: &str, owner: &str) -> (m: String)
    ensures
        m@ == "network remote "@ + r.remote.text@ + middle@ + other@ + owner@,
{
    let mut m = String::from_str("network remote ");
    m.append(r.remote.text.as_str());
    m.append(middle);
    m.append(other);
    m.append(owner);
    m
}

/// The refusal rule `i` meets after the rules before it.
fn refusal_at(v: &Vec<StoredNetworkRule>, i: usize) -> (r: Option<String>)
    requires
        i < v@.len(),
    ensures
        opt_text(r) == remote_refusal(nviews(v@).take(i as int), nviews(v@)[i as int]),
{
    let ghost s = nviews(v@);
    let ghost prior = s.take(i as int);
    let rule = &v[i];
    assert(s[i as int] == rule@);
    proof {
        reveal_strlit("");
        reveal_strlit(" is already owned by ");
        reveal_strlit(" overlaps ");
        reveal_strlit(" owned by ");
    }
    match &rule.remote.selector {
        RemoteSelector::Endpoint(e) => {
            match first_selecting(v, i, &rule.remote.selector) {
                Some(j) => {
                    assert(prior[j as int] == v@[j as int]@);
                    let m = refusal_message(rule, " is already owned by ", "", v[j].owner_instance_id.as_str());
                    assert(m@ =~= "network remote "@ + rule.remote.text@ + " is already owned by "@ + prior[j as int].owner);
                    Some(m)
                },
                None => {
                    let any = RemoteSelector::AnyPort(e.ip);
                    match first_selecting(v, i, &any) {
                        Some(j) => {
                            assert(prior[j as int] == v@[j as int]@);
                            let mut other = v[j].remote.text.clone();
                            other.append(" owned by ");
                            let m = refusal_message(rule, " overlaps ", other.as_str(), v[j].owner_instance_id.as_str());
                            assert(m@ =~= "network remote "@ + rule.remote.text@ + " overlaps "@ + prior[j as int].remote.text
                                + " owned by "@ + prior[j as int].owner);
                            Some(m)
                        },
                        None => None,
                    }
                },
            }
        },
        RemoteSelector::AnyPort(ip) => {
            match first_selecting(v, i, &rule.remote.selector) {
                Some(j) => {
                    assert(prior[j as int] == v@[j as int]@);
                    let m = refusal_message(rule, " is already owned by ", "", v[j].owner_instance_id.as_str());
                    assert(m@ =~= "network remote "@ + rule.remote.text@ + " is already owned by "@ + prior[j as int].owner);
                    Some(m)
                },
                None => {
                    match first_endpoint_on(v, i, ip) {
                        Some(j) => {
                            assert(prior[j as int] == v@[j as int]@);
                            let mut other = v[j].remote.endpoint_text.clone();
                            other.append(" owned by ");
                            let m = refusal_message(rule, " overlaps ", other.as_str(), v[j].owner_instance_id.as_str());
                            assert(m@ =~= "network remote "@ + rule.remote.text@ + " overlaps "@
                                + prior[j as int].remote.endpoint_text + " owned by "@ + prior[j as int].owner);
                            Some(m)
                        },
                        None => None,
                    }
                },
            }
        },
    }
}

/// The first refusal met when the rules take their remotes in order.
pub(crate) fn first_refusal_of(v: &Vec<StoredNetworkRule>) -> (r: Option<String>)
    ensures
        opt_text(r) == first_refusal(nviews(v@)),
{
    let ghost s = nviews(v@);
    let mut i: usize = 0;
    assert(s.take(0) =~= Seq::<NetRuleView>::empty());
    while i < v.len()
        invariant
            i <= v@.len(),
            s == nviews(v@),
            first_refusal(s.take(i as int)) is None,
        decreases v@.len() - i,
    {
        proof {
            lemma_take_step(s, i as int);
        }
        match refusal_at(v, i) {
            Some(m) => {
                proof {
                    lemma_first_refusal_prefix(s, i as int + 1);
                }
                return Some(m);
            },
            None => {},
        }
        i += 1;
    }
    assert(s.take(i as int) =~= s);
    None
}

/// Copies of the rules of `owner`, in order.
fn rules_of(v: &Vec<StoredNetworkRule>, owner: &str) -> (r: Vec<StoredNetworkRule>)
    ensures
        nviews(r@) == owned_by(nviews(v@), owner@),
{
    let ghost s = nviews(v@);
    let mut out: Vec<StoredNetworkRule> = Vec::new();
    let mut i: usize = 0;
    assert(s.take(0) =~= Seq::<NetRuleView>::empty());
    while i < v.len()
        invariant
            i <= v@.len(),
            s == nviews(v@),
            nviews(out@) == owned_by(s.take(i as int), owner@),
        decreases v@.len() - i,
    {
        proof {
            lemma_take_step(s, i as int);
        }
        assert(s[i as int] == v@[i as int]@);
        if str_eq(v[i].owner_instance_id.as_str(), owner) {
            let ghost before = nviews(out@);
            out.push(v[i].duplicate());
            assert(nviews(out@) =~= before.push(s[i as int]));
        }
        i += 1;
    }
    assert(s.take(i as int) =~= s);
    out
}

/// Copies of the rules of every owner but `owner`, in order.
fn rules_not_of(v: &Vec<StoredNetworkRule>, owner: &str) -> (r: Vec<StoredNetworkRule>)
    ensures
        nviews(r@) == not_owned_by(nviews(v@), owner@),
{
    let ghost s = nviews(v@);
    let mut out: Vec<StoredNetworkRule> = Vec::new();
    let mut i: usize = 0;
    assert(s.take(0) =~= Seq::<NetRuleView>::empty());
    while i < v.len()
        invariant
            i <= v@.len(),
            s == nviews(v@),
            nviews(out@) == not_owned_by(s.take(i as int), owner@),
        decreases v@.len() - i,
    {
        proof {
            lemma_take_step(s, i as int);
        }
        assert(s[i as int] == v@[i as int]@);
        if !str_eq(v[i].owner_instance_id.as_str(), owner) {
            let ghost before = nviews(out@);
            out.push(v[i].duplicate());
            assert(nviews(out@) =~= before.push(s[i as int]));
        }
        i += 1;
    }
    assert(s.take(i as int) =~= s);
    out
}

fn copy_rules(v: &Vec<StoredNetworkRule>) -> (r: Vec<StoredNetworkRule>)
    ensures
        nviews(r@) == nviews(v@),
{
    let mut out: Vec<StoredNetworkRule> = Vec::new();
    let mut i: usize = 0;
    while i < v.len()
        invariant
            i <= v@.len(),
            nviews(out@) == nviews(v@).take(i as int),
        decreases v@.len() - i,
    {
        let ghost before = nviews(out@);
        out.push(v[i].duplicate());
        assert(nviews(out@) =~= before.push(v@[i as int]@));
        assert(nviews(out@) =~= nviews(v@).take(i as int + 1));
        i += 1;
    }
    assert(nviews(v@).take(i as int) =~= nviews(v@));
    out
}


pub proof fn lemma_not_owned_by(s: Seq<NetRuleView>, owner: Seq<char>)
    ensures
        forall|i: int| 0 <= i < not_owned_by(s, owner).len() ==> s.contains(#[trigger] not_owned_by(s, owner)[i]),
        forall|i: int| 0 <= i < not_owned_by(s, owner).len() ==> (#[trigger] not_owned_by(s, owner)[i]).owner != owner,
        forall|i: int| 0 <= i < s.len() && (#[trigger] s[i]).owner != owner ==> not_owned_by(s, owner).contains(s[i]),
        nsorted(s) ==> nsorted(not_owned_by(s, owner)),
        remotes_disjoint(s) ==> remotes_disjoint(not_owned_by(s, owner)),
    decreases s.len(),
{
    if s.len() > 0 {
        let p = s.drop_last();
        let x = s.last();
        let t0 = not_owned_by(p, owner);
        lemma_not_owned_by(p, owner);
        let t = not_owned_by(s, owner);
        assert forall|i: int| 0 <= i < s.len() && (#[trigger] s[i]).owner != owner implies t.contains(s[i]) by {
            if i < s.len() - 1 {
                assert(s[i] == p[i]);
                let k = choose|k: int| 0 <= k < t0.len() && t0[k] == p[i];
                if x.owner != owner {
                    assert(t[k] == t0[k]);
                }
            } else {
                assert(t[t.len() - 1] == x);
            }
        }
        assert forall|i: int| 0 <= i < t.len() implies s.contains(#[trigger] t[i]) by {
            if i < t0.len() {
                assert(t[i] == t0[i]);
                let k = choose|k: int| 0 <= k < p.len() && p[k] == t0[i];
                assert(s[k] == p[k]);
            } else {
                assert(t[i] == x);
                assert(s[s.len() - 1] == x);
            }
        }
        if nsorted(s) {
            assert(nsorted(p)) by {
                assert forall|i: int, j: int| 0 <= i < j < p.len() implies key_less(nkey(#[trigger] p[i]), nkey(#[trigger] p[j])) by {
                    assert(p[i] == s[i] && p[j] == s[j]);
                }
            }
            if x.owner != owner {
                assert forall|i: int, j: int| 0 <= i < j < t.len() implies key_less(nkey(#[trigger] t[i]), nkey(#[trigger] t[j])) by {
                    if j < t0.len() {
                        assert(t[i] == t0[i] && t[j] == t0[j]);
                    } else {
                        assert(t[i] == t0[i] && t[j] == x);
                        let k = choose|k: int| 0 <= k < p.len() && p[k] == t0[i];
                        assert(s[k] == p[k] && s[s.len() - 1] == x);
                    }
                }
            }
        }
        if remotes_disjoint(s) {
            assert(remotes_disjoint(p)) by {
                assert forall|i: int, j: int| 0 <= i < j < p.len() implies !overlapping(#[trigger] p[i].remote.selector, #[trigger] p[j].remote.selector) by {
                    assert(p[i] == s[i] && p[j] == s[j]);
                }
            }
            if x.owner != owner {
                assert forall|i: int, j: int| 0 <= i < j < t.len() implies !overlapping(#[trigger] t[i].remote.selector, #[trigger] t[j].remote.selector) by {
                    if j < t0.len() {
                        assert(t[i] == t0[i] && t[j] == t0[j]);
                    } else {
                        assert(t[i] == t0[i] && t[j] == x);
                        let k = choose|k: int| 0 <= k < p.len() && p[k] == t0[i];
                        assert(s[k] == p[k] && s[s.len() - 1] == x);
                    }
                }
            }
        }
    }
}

/// The rule a connect to `e` matches among `eff`: the rule for that
/// endpoint, else the rule for every port of its address.
pub open spec fn find_spec(eff: Seq<NetRuleView>, e: SocketEndpoint) -> Option<NetRuleView> {
    match first_index(eff, selects(RemoteSelector::Endpoint(e))) {
        Some(j) => Some(eff[j]),
        None => match first_index(eff, selects(RemoteSelector::AnyPort(e.ip))) {
            Some(j) => Some(eff[j]),
            None => None,
        },
    }
}

/// What removing every rule of `owner` does, and whether anything was removed.
pub open spec fn remove_owner_spec(m: NetStoreModel, owner: Seq<char>) -> (NetStoreModel, Result<bool, Seq<char>>) {
    if owner == static_owner() {
        (m, Err("static network policy owner cannot be removed"@))
    } else if owned_by(m.rules, owner).len() == 0 {
        (m, Ok(false))
    } else {
        let rest = not_owned_by(m.rules, owner);
        if m.revision == u64::MAX {
            (NetStoreModel { rules: rest, ..m }, Err("network policy revision overflow"@))
        } else {
            (NetStoreModel { revision: (m.revision + 1) as u64, rules: rest, effective: rest, ..m }, Ok(true))
        }
    }
}

/// Whether a request was taken.
#[derive(Clone, Copy, Debug, PartialEq, Eq, Structural)]
pub enum NetworkPolicyApplyStatus {
    Accepted,
    Rejected,
}

/// The answer to a request.
#[derive(Debug)]
pub struct NetworkPolicyApplyResult {
    pub status: NetworkPolicyApplyStatus,
    pub new_revision: u64,
    pub applied_count: u32,
    pub rejected_count: u32,
    pub errors: Vec<NetworkPolicyApplyError>,
}

pub struct ApplyResultView {
    pub status: NetworkPolicyApplyStatus,
    pub new_revision: u64,
    pub applied_count: u32,
    pub rejected_count: u32,
    pub errors: Seq<ErrorView>,
}

impl View for NetworkPolicyApplyResult {
    type V = ApplyResultView;

    open spec fn view(&self) -> ApplyResultView {
        ApplyResultView {
            status: self.status,
            new_revision: self.new_revision,
            applied_count: self.applied_count,
            rejected_count: self.rejected_count,
            errors: error_views(self.errors@),
        }
    }
}

pub open spec fn accepted_view(revision: u64, applied_count: u32) -> ApplyResultView {
    ApplyResultView {
        status: NetworkPolicyApplyStatus::Accepted,
        new_revision: revision,
        applied_count,
        rejected_count: 0,
        errors: Seq::empty(),
    }
}

pub open spec fn rejected_view(revision: u64, errors: Seq<ErrorView>) -> ApplyResultView {
    ApplyResultView {
        status: NetworkPolicyApplyStatus::Rejected,
        new_revision: revision,
        applied_count: 0,
        rejected_count: low32(errors.len() as int),
        errors,
    }
}

/// The answer for a request taken at `revision`.
pub fn accepted_result(revision: u64, applied_count: u32) -> (r: NetworkPolicyApplyResult)
    ensures
        r@ == accepted_view(revision, applied_count),
{
    let r = NetworkPolicyApplyResult {
        status: NetworkPolicyApplyStatus::Accepted,
        new_revision: revision,
        applied_count,
        rejected_count: 0,
        errors: Vec::new(),
    };
    assert(r@.errors =~= Seq::<ErrorView>::empty());
    r
}

/// The answer for a request refused with `errors` at `revision`.
pub fn rejected_result(revision: u64, errors: Vec<NetworkPolicyApplyError>) -> (r: NetworkPolicyApplyResult)
    ensures
        r@ == rejected_view(revision, error_views(errors@)),
{
    let n = errors.len();
    NetworkPolicyApplyResult {
        status: NetworkPolicyApplyStatus::Rejected,
        new_revision: revision,
        applied_count: 0,
        rejected_count: low32_exec(n),
        errors,
    }
}

fn contains_text(active: &[String], t: &str) -> (r: bool)
    ensures
        r == crate::post_trace::texts(active@).contains(t@),
{
    let ghost tv = crate::post_trace::texts(active@);
    let mut i: usize = 0;
    while i < active.len()
        invariant
            i <= active@.len(),
            tv == crate::post_trace::texts(active@),
            forall|k: int| 0 <= k < i ==> tv[k] != t@,
        decreases active@.len() - i,
    {
        if str_eq(active[i].as_str(), t) {
            assert(tv[i as int] == t@);
            return true;
        }
        i += 1;
    }
    false
}

/// The network policy rule store.
#[derive(Debug)]
pub struct NetworkPolicyStore {
    revision: u64,
    next_rule_id: u64,
    next_sequence: u64,
    rules: Vec<StoredNetworkRule>,
    effective: Vec<StoredNetworkRule>,
}

impl View for NetworkPolicyStore {
    type V = NetStoreModel;

    closed spec fn view(&self) -> NetStoreModel {
        NetStoreModel {
            revision: self.revision,
            next_rule_id: self.next_rule_id,
            next_sequence: self.next_sequence,
            rules: nviews(self.rules@),
            effective: nviews(self.effective@),
        }
    }
}

impl NetworkPolicyStore {
    /// The rules are in key order and no two rules, in force or stored,
    /// claim a common remote.
    pub open spec fn wf(&self) -> bool {
        &&& nsorted(self@.rules)
        &&& remotes_disjoint(self@.rules)
        &&& remotes_disjoint(self@.effective)
    }

    /// A store without rules, at revision 0.
    pub fn empty() -> (r: NetworkPolicyStore)
        ensures
            r.wf(),
            r@ == (NetStoreModel {
                revision: 0,
                next_rule_id: 1,
                next_sequence: 0,
                rules: Seq::empty(),
                effective: Seq::empty(),
            }),
    {
        let r = NetworkPolicyStore { revision: 0, next_rule_id: 1, next_sequence: 0, rules: Vec::new(), effective: Vec::new() };
        assert(nviews(r.rules@) =~= Seq::<NetRuleView>::empty());
        assert(nviews(r.effective@) =~= Seq::<NetRuleView>::empty());
        r
    }

    pub fn revision(&self) -> (r: u64)
        ensures
            r == self@.revision,
    {
        self.revision
    }

    /// The rule a connect to `endpoint` is decided by, if any.
    pub fn find(&self, endpoint: &SocketEndpoint) -> (r: Option<&StoredNetworkRule>)
        ensures
            match r {
                Some(x) => find_spec(self@.effective, *endpoint) == Some(x@),
                None => find_spec(self@.effective, *endpoint) is None,
            },
    {
        let n = self.effective.len();
        let exact = RemoteSelector::Endpoint(*endpoint);
        match first_selecting(&self.effective, n, &exact) {
            Some(j) => {
                assert(nviews(self.effective@).take(n as int) =~= nviews(self.effective@));
                Some(&self.effective[j])
            },
            None => {
                assert(nviews(self.effective@).take(n as int) =~= nviews(self.effective@));
                let any = RemoteSelector::AnyPort(endpoint.ip);
                match first_selecting(&self.effective, n, &any) {
                    Some(j) => Some(&self.effective[j]),
                    None => None,
                }
            },
        }
    }

    /// Whether `rule` is still stored as it was, at the same rule revision.
    pub fn is_rule_current(&self, rule: &StoredNetworkRule) -> (r: bool)
        ensures
            r == match nfind(self@.rules, (rule@.owner, rule@.rule_id)) {
                Some(p) => self@.rules[p].rule_revision == rule.rule_revision,
                None => false,
            },
    {
        match nfind_rule(&self.rules, rule.owner_instance_id.as_str(), rule.rule_id.as_str()) {
            Some(p) => self.rules[p].rule_revision == rule.rule_revision,
            None => false,
        }
    }

    fn apply_item(
        &mut self,
        owner: &str,
        item: &NetworkPolicyPatchItem,
        next_revision: u64,
        grants: &[NetworkPolicyRulesApplyGrant],
        active: &[String],
    ) -> (r: Result<(), String>)
        requires
            nsorted(old(self)@.rules),
        ensures
            nsorted(final(self)@.rules),
            (final(self)@, unit_result(r)) == apply_item_spec(old(self)@, owner@, item@, next_revision,
                grant_views(grants@), crate::post_trace::texts(active@)),
    {
        proof {
            reveal(apply_item_spec);
        }
        let ghost m0 = self@;
        match item.op {
            NetworkPolicyPatchOp::Delete => {
                if item.rule.is_some() {
                    return Err(String::from_str("delete item must not include rule"));
                }
                let id = match &item.rule_id {
                    None => {
                        return Err(String::from_str("delete item requires rule_id"));
                    },
                    Some(id) => id,
                };
                match nfind_rule(&self.rules, owner, id.as_str()) {
                    None => {
                        let mut m = String::from_str("network rule ");
                        m.append(id.as_str());
                        m.append(" not found for owner");
                        Err(m)
                    },
                    Some(p) => {
                        proof {
                            lemma_nremove_sorted(m0.rules, (owner@, id@));
                        }
                        self.rules.remove(p);
                        assert(nviews(self.rules@) =~= m0.rules.remove(p as int));
                        Ok(())
                    },
                }
            },
            NetworkPolicyPatchOp::Upsert => {
                let draft = match &item.rule {
                    None => {
                        return Err(String::from_str("upsert item requires rule"));
                    },
                    Some(d) => d,
                };
                match (&item.rule_id, &draft.rule_id) {
                    (Some(a), Some(b)) => {
                        if !str_eq(a.as_str(), b.as_str()) {
                            let mut m = String::from_str("item rule_id ");
                            m.append(a.as_str());
                            m.append(" does not match draft rule_id ");
                            m.append(b.as_str());
                            return Err(m);
                        }
                    },
                    _ => {},
                }
                let sel = match draft_shape(draft) {
                    Err(e) => {
                        return Err(e);
                    },
                    Ok(s) => s,
                };
                match draft_grant(grants, draft.decision, &sel) {
                    Err(e) => {
                        return Err(e);
                    },
                    Ok(_) => {},
                }
                if draft.decision == NetworkPolicyDecision::Gray {
                    let target = match &draft.gray_target {
                        Some(t) => t,
                        None => {
                            return Err(String::from_str("gray network rule requires gray_target"));
                        },
                    };
                    if str_eq(target.as_str(), owner) {
                        return Err(String::from_str("gray network rule cannot target its policy owner"));
                    }
                    if !contains_text(active, target.as_str()) {
                        let mut m = String::from_str("gray_target ");
                        m.append(target.as_str());
                        m.append(" is not an active control decider");
                        return Err(m);
                    }
                }
                if self.next_sequence == u64::MAX {
                    return Err(String::from_str("network policy sequence overflow"));
                }
                let sequence = self.next_sequence + 1;
                self.next_sequence = sequence;
                let rid: String = match &item.rule_id {
                    Some(x) => x.clone(),
                    None => match &draft.rule_id {
                        Some(y) => y.clone(),
                        None => {
                            let mut t = String::from_str("network-rule-");
                            push_decimal(&mut t, self.next_rule_id);
                            t
                        },
                    },
                };
                match NetworkRuleValidator::rule_id(rid.as_str()) {
                    Err(e) => {
                        return Err(e);
                    },
                    Ok(_) => {},
                }
                let generated = item.rule_id.is_none() && draft.rule_id.is_none();
                if generated {
                    if self.next_rule_id == u64::MAX {
                        return Err(String::from_str("network policy generated rule id overflow"));
                    }
                    self.next_rule_id = self.next_rule_id + 1;
                }
                let fallback = match draft.fallback {
                    Some(v) => Some(verdict_decision(v)),
                    None => None,
                };
                let rule = StoredNetworkRule {
                    owner_instance_id: String::from_str(owner),
                    rule_id: rid,
                    decision: draft.decision,
                    remote: sel,
                    gray_target: copy_opt_string(&draft.gray_target),
                    timeout_ms: draft.timeout_ms,
                    concurrency_limit: draft.concurrency_limit,
                    fallback,
                    rule_revision: next_revision,
                    updated_sequence: sequence,
                };
                proof {
                    lemma_nupsert_sorted(m0.rules, rule@);
                }
                nupsert_into(&mut self.rules, rule);
                Ok(())
            },
        }
    }
}


pub open spec fn result_of_candidate(m: NetStoreModel, c: Result<NetStoreModel, Seq<ErrorView>>, n_items: nat) -> ApplyResultView {
    match c {
        Ok(_) => accepted_view(m.revision, low32(n_items as int)),
        Err(e) => rejected_view(m.revision, e),
    }
}

impl NetworkPolicyStore {
    fn apply_items(
        &mut self,
        owner: &str,
        items: &Vec<NetworkPolicyPatchItem>,
        next_revision: u64,
        grants: &[NetworkPolicyRulesApplyGrant],
        active: &[String],
        errors: &mut Vec<NetworkPolicyApplyError>,
    )
        requires
            nsorted(old(self)@.rules),
        ensures
            nsorted(final(self)@.rules),
            (final(self)@, error_views(final(errors)@)) == apply_items_spec(old(self)@, owner@, item_views(items@),
                next_revision, grant_views(grants@), crate::post_trace::texts(active@), 0, error_views(old(errors)@)),
    {
        let ghost m0 = self@;
        let ghost e0 = error_views(errors@);
        let ghost iv = item_views(items@);
        let ghost gv = grant_views(grants@);
        let ghost av = crate::post_trace::texts(active@);
        let mut i: usize = 0;
        while i < items.len()
            invariant
                i <= items@.len(),
                nsorted(self@.rules),
                m0 == old(self)@,
                e0 == error_views(old(errors)@),
                iv == item_views(items@),
                gv == grant_views(grants@),
                av == crate::post_trace::texts(active@),
                apply_items_spec(self@, owner@, iv, next_revision, gv, av, i as int, error_views(errors@))
                    == apply_items_spec(m0, owner@, iv, next_revision, gv, av, 0, e0),
            decreases items@.len() - i,
        {
            let ghost before = self@;
            let ghost eb = error_views(errors@);
            let r = self.apply_item(owner, &items[i], next_revision, grants, active);
            assert(iv[i as int] == items@[i as int]@);
            match r {
                Ok(_) => {},
                Err(msg) => {
                    let k = low32_exec(i);
                    errors.push(apply_error(k, "invalid-rule", msg));
                    assert(error_views(errors@) =~= eb.push((low32(i as int), "invalid-rule"@, msg@)));
                },
            }
            i += 1;
        }
    }

    /// The store a request for `owner_instance_id` would make, or the
    /// errors that refuse it.
    fn candidate_after(
        &self,
        owner_instance_id: &str,
        grants: &[NetworkPolicyRulesApplyGrant],
        request: &NetworkPolicyApplyRequest,
        active: &[String],
    ) -> (r: Result<NetworkPolicyStore, Vec<NetworkPolicyApplyError>>)
        requires
            self.wf(),
        ensures
            match r {
                Ok(c) => c.wf() && candidate_spec(self@, owner_instance_id@, request.base_revision, request.mutation_id@,
                    item_views(request.items@), grant_views(grants@), crate::post_trace::texts(active@)) == Ok::<NetStoreModel, Seq<ErrorView>>(c@),
                Err(e) => candidate_spec(self@, owner_instance_id@, request.base_revision, request.mutation_id@,
                    item_views(request.items@), grant_views(grants@), crate::post_trace::texts(active@)) == Err::<NetStoreModel, Seq<ErrorView>>(error_views(e@)),
            },
    {
        let mut errors = request_errors(self.revision, owner_instance_id, request);
        if errors.len() > 0 {
            return Err(errors);
        }
        if self.revision == u64::MAX {
            let e = apply_error(0, "revision-overflow", String::from_str("network policy revision overflow"));
            let v = vec![e];
            assert(error_views(v@) =~= seq![(0u32, "revision-overflow"@, "network policy revision overflow"@)]);
            return Err(v);
        }
        let next_revision = self.revision + 1;
        let mut cand = NetworkPolicyStore {
            revision: self.revision,
            next_rule_id: self.next_rule_id,
            next_sequence: self.next_sequence,
            rules: copy_rules(&self.rules),
            effective: copy_rules(&self.effective),
        };
        assert(cand@ == self@);
        assert(error_views(errors@) =~= Seq::<ErrorView>::empty());
        cand.apply_items(owner_instance_id, &request.items, next_revision, grants, active, &mut errors);
        let ghost after_items = error_views(errors@);
        if errors.len() == 0 {
            let own = rules_of(&cand.rules, owner_instance_id);
            match first_refusal_of(&own) {
                Some(m) => {
                    errors.push(apply_error(0, "duplicate-scope", m));
                    assert(error_views(errors@) =~= after_items.push((0u32, "duplicate-scope"@, m@)));
                },
                None => {},
            }
        }
        if errors.len() > 0 {
            return Err(errors);
        }
        match first_refusal_of(&cand.rules) {
            Some(m) => {
                let v = vec![apply_error(0, "endpoint-conflict", m)];
                assert(error_views(v@) =~= seq![(0u32, "endpoint-conflict"@, m@)]);
                return Err(v);
            },
            None => {},
        }
        proof {
            lemma_no_refusal_disjoint(cand@.rules);
        }
        cand.revision = next_revision;
        cand.effective = copy_rules(&cand.rules);
        Ok(cand)
    }

    /// Checks a request without applying it: accepted at the current
    /// revision with its item count, or refused with its errors.
    pub fn validate_apply(
        &self,
        owner_instance_id: &str,
        grants: &[NetworkPolicyRulesApplyGrant],
        request: &NetworkPolicyApplyRequest,
        active: &[String],
    ) -> (r: NetworkPolicyApplyResult)
        requires
            self.wf(),
        ensures
            r@ == result_of_candidate(self@, candidate_spec(self@, owner_instance_id@, request.base_revision, request.mutation_id@,
                item_views(request.items@), grant_views(grants@), crate::post_trace::texts(active@)), request.items@.len()),
    {
        match self.candidate_after(owner_instance_id, grants, request, active) {
            Ok(_) => accepted_result(self.revision, low32_exec(request.items.len())),
            Err(errors) => rejected_result(self.revision, errors),
        }
    }

    /// Applies a request for `owner_instance_id`: every item or none. The
    /// answer is accepted at the new revision, or refused with its errors
    /// and the store unchanged.
    pub fn apply(
        &mut self,
        owner_instance_id: &str,
        grants: &[NetworkPolicyRulesApplyGrant],
        request: NetworkPolicyApplyRequest,
        active: &[String],
    ) -> (r: NetworkPolicyApplyResult)
        requires
            old(self).wf(),
        ensures
            final(self).wf(),
            match candidate_spec(old(self)@, owner_instance_id@, request.base_revision, request.mutation_id@,
                item_views(request.items@), grant_views(grants@), crate::post_trace::texts(active@)) {
                Ok(c) => final(self)@ == c && r@ == accepted_view(c.revision, low32(request.items@.len() as int)),
                Err(e) => final(self)@ == old(self)@ && r@ == rejected_view(old(self)@.revision, e),
            },
    {
        let applied_count = low32_exec(request.items.len());
        match self.candidate_after(owner_instance_id, grants, &request, active) {
            Ok(candidate) => {
                *self = candidate;
                accepted_result(self.revision, applied_count)
            },
            Err(errors) => rejected_result(self.revision, errors),
        }
    }

    /// Removes every rule of `owner_instance_id`; whether there was any.
    pub fn remove_owner(&mut self, owner_instance_id: &str) -> (r: Result<bool, String>)
        requires
            old(self).wf(),
        ensures
            final(self).wf(),
            (final(self)@, match r {
                Ok(b) => Ok::<bool, Seq<char>>(b),
                Err(e) => Err(e@),
            }) == remove_owner_spec(old(self)@, owner_instance_id@),
    {
        if str_eq(owner_instance_id, static_policy_owner()) {
            return Err(String::from_str("static network policy owner cannot be removed"));
        }
        if rules_of(&self.rules, owner_instance_id).len() == 0 {
            return Ok(false);
        }
        let ghost m0 = self@;
        proof {
            lemma_not_owned_by(m0.rules, owner_instance_id@);
        }
        self.rules = rules_not_of(&self.rules, owner_instance_id);
        if self.revision == u64::MAX {
            return Err(String::from_str("network policy revision overflow"));
        }
        self.revision = self.revision + 1;
        self.effective = copy_rules(&self.rules);
        Ok(true)
    }
}


// ---------------------------------------------------------------------------
// Listing and dry runs

/// A rule as a listing shows it.
#[derive(Debug)]
pub struct NetworkPolicyRuleView {
    pub rule_id: String,
    pub owner_instance_id: String,
    pub decision: NetworkPolicyDecision,
    pub remote: String,
    pub gray_target: Option<String>,
    pub timeout_ms: Option<u64>,
    pub concurrency_limit: Option<u32>,
    pub fallback: Option<ControlVerdict>,
    pub rule_revision: u64,
    pub updated_sequence: u64,
}

pub struct ListingView {
    pub rule_id: Seq<char>,
    pub owner: Seq<char>,
    pub decision: NetworkPolicyDecision,
    pub remote: Seq<char>,
    pub gray_target: Option<Seq<char>>,
    pub timeout_ms: Option<u64>,
    pub concurrency_limit: Option<u32>,
    pub fallback: Option<ControlVerdict>,
    pub rule_revision: u64,
    pub updated_sequence: u64,
}

impl View for NetworkPolicyRuleView {
    type V = ListingView;

    open spec fn view(&self) -> ListingView {
        ListingView {
            rule_id: self.rule_id@,
            owner: self.owner_instance_id@,
            decision: self.decision,
            remote: self.remote@,
            gray_target: opt_text(self.gray_target),
            timeout_ms: self.timeout_ms,
            concurrency_limit: self.concurrency_limit,
            fallback: self.fallback,
            rule_revision: self.rule_revision,
            updated_sequence: self.updated_sequence,
        }
    }
}

pub open spec fn listing_views(v: Seq<NetworkPolicyRuleView>) -> Seq<ListingView> {
    v.map_values(|x: NetworkPolicyRuleView| x@)
}

pub open spec fn verdict_of(f: Option<EnforcementDecision>) -> Option<ControlVerdict> {
    match f {
        Some(d) => Some(decision_to_verdict(d)),
        None => None,
    }
}

/// How a listing shows rule `r`.
pub open spec fn listing_of(r: NetRuleView) -> ListingView {
    ListingView {
        rule_id: r.rule_id,
        owner: r.owner,
        decision: r.decision,
        remote: r.remote.text,
        gray_target: r.gray_target,
        timeout_ms: r.timeout_ms,
        concurrency_limit: r.concurrency_limit,
        fallback: verdict_of(r.fallback),
        rule_revision: r.rule_revision,
        updated_sequence: r.updated_sequence,
    }
}

/// Which rules a listing shows: of a decision, and of a remote selector.
#[derive(Debug)]
pub struct NetworkPolicyListFilter {
    pub decision: Option<NetworkPolicyDecision>,
    /// The filter's remote as the selector parser read it.
    pub remote: Option<Result<RemoteSelector, String>>,
}

pub open spec fn passes(r: NetRuleView, decision: Option<NetworkPolicyDecision>, remote: Option<RemoteSelector>) -> bool {
    (decision is None || decision.unwrap() == r.decision) && (remote is None || remote.unwrap() == r.remote.selector)
}

/// The listings of the rules of `s` that pass the filter, in order.
pub open spec fn listed(s: Seq<NetRuleView>, decision: Option<NetworkPolicyDecision>, remote: Option<RemoteSelector>) -> Seq<ListingView>
    decreases s.len(),
{
    if s.len() == 0 {
        Seq::empty()
    } else if passes(s.last(), decision, remote) {
        listed(s.drop_last(), decision, remote).push(listing_of(s.last()))
    } else {
        listed(s.drop_last(), decision, remote)
    }
}

/// A page of rules.
#[derive(Debug)]
pub struct NetworkPolicyListResult {
    pub rules: Vec<NetworkPolicyRuleView>,
    pub next_cursor: Option<String>,
    pub source_revision: u64,
}

pub open spec fn int_min(a: int, b: int) -> int {
    if a < b {
        a
    } else {
        b
    }
}

pub open spec fn opt_str_text(s: Option<&str>) -> Option<Seq<char>> {
    match s {
        Some(x) => Some(x@),
        None => None,
    }
}

/// The page of at most `limit` listings from the cursor on, with the cursor
/// of the next page while listings remain; or why the listing is refused.
pub open spec fn list_spec(
    m: NetStoreModel,
    decision: Option<NetworkPolicyDecision>,
    remote: Option<Result<RemoteSelector, Seq<char>>>,
    cursor: Option<Seq<char>>,
    limit: u32,
) -> Result<(Seq<ListingView>, Option<Seq<char>>, u64), Seq<char>> {
    if limit == 0 {
        Err("network policy list limit must be positive"@)
    } else {
        let start = match cursor {
            None => Ok(0int),
            Some(raw) => match parse_uint(vstd::utf8::encode_utf8(raw), usize::MAX as int) {
                Ok(v) => Ok(v),
                Err(k) => Err("invalid network policy cursor "@ + raw + ": "@ + int_error_text(k)),
            },
        };
        match start {
            Err(e) => Err(e),
            Ok(start) => match remote {
                Some(Err(e)) => Err(e),
                _ => {
                    let sel = match remote {
                        Some(Ok(x)) => Some(x),
                        _ => None,
                    };
                    let all = listed(m.rules, decision, sel);
                    let page = all.subrange(int_min(start, all.len() as int), int_min(start + limit, all.len() as int));
                    let next = start + page.len();
                    Ok((page, if next < all.len() {
                        Some(decimal(next as nat))
                    } else {
                        None
                    }, m.revision))
                },
            },
        }
    }
}

pub open spec fn list_outcome(r: Result<NetworkPolicyListResult, String>) -> Result<(Seq<ListingView>, Option<Seq<char>>, u64), Seq<char>> {
    match r {
        Ok(x) => Ok((listing_views(x.rules@), opt_text(x.next_cursor), x.source_revision)),
        Err(e) => Err(e@),
    }
}

fn listing(r: &StoredNetworkRule) -> (x: NetworkPolicyRuleView)
    ensures
        x@ == listing_of(r@),
{
    NetworkPolicyRuleView {
        rule_id: r.rule_id.clone(),
        owner_instance_id: r.owner_instance_id.clone(),
        decision: r.decision,
        remote: r.remote.text.clone(),
        gray_target: copy_opt_string(&r.gray_target),
        timeout_ms: r.timeout_ms,
        concurrency_limit: r.concurrency_limit,
        fallback: match r.fallback {
            Some(d) => Some(crate::net_policy::enforcement_verdict(d)),
            None => None,
        },
        rule_revision: r.rule_revision,
        updated_sequence: r.updated_sequence,
    }
}

fn passes_exec(r: &StoredNetworkRule, decision: Option<NetworkPolicyDecision>, remote: &Option<RemoteSelector>) -> (b: bool)
    ensures
        b == passes(r@, decision, *remote),
{
    let d_ok = match decision {
        None => true,
        Some(d) => d == r.decision,
    };
    let r_ok = match remote {
        None => true,
        Some(x) => same_selector(x, &r.remote.selector),
    };
    d_ok && r_ok
}

/// A parsed endpoint and the text it is shown as.
#[derive(Debug)]
pub struct NetworkEndpoint {
    pub endpoint: SocketEndpoint,
    pub text: String,
}

/// What a dry run reports: whether a rule matched, the decision that
/// applies, and the matched rule's identity.
#[derive(Debug)]
pub struct NetworkPolicyMatchDryRunResult {
    pub matched: bool,
    pub decision: NetworkPolicyDecision,
    pub rule_id: Option<String>,
    pub owner_instance_id: Option<String>,
    pub resolved_remote: String,
    pub rule_revision: Option<u64>,
    pub source_revision: u64,
}

pub struct DryRunView {
    pub matched: bool,
    pub decision: NetworkPolicyDecision,
    pub rule_id: Option<Seq<char>>,
    pub owner: Option<Seq<char>>,
    pub resolved_remote: Seq<char>,
    pub rule_revision: Option<u64>,
    pub source_revision: u64,
}

impl View for NetworkPolicyMatchDryRunResult {
    type V = DryRunView;

    open spec fn view(&self) -> DryRunView {
        DryRunView {
            matched: self.matched,
            decision: self.decision,
            rule_id: opt_text(self.rule_id),
            owner: opt_text(self.owner_instance_id),
            resolved_remote: self.resolved_remote@,
            rule_revision: self.rule_revision,
            source_revision: self.source_revision,
        }
    }
}

/// What a dry run of a connect to `remote` reports.
pub open spec fn dry_run_spec(m: NetStoreModel, remote: Result<(SocketEndpoint, Seq<char>), Seq<char>>, default_decision: NetworkPolicyDecision) -> Result<DryRunView, Seq<char>> {
    match remote {
        Err(e) => Err("network remote must be a numeric IP endpoint: "@ + e),
        Ok((e, text)) => match find_spec(m.effective, e) {
            Some(r) => Ok(DryRunView {
                matched: true,
                decision: r.decision,
                rule_id: Some(r.rule_id),
                owner: Some(r.owner),
                resolved_remote: text,
                rule_revision: Some(r.rule_revision),
                source_revision: m.revision,
            }),
            None => Ok(DryRunView {
                matched: false,
                decision: default_decision,
                rule_id: None,
                owner: None,
                resolved_remote: text,
                rule_revision: None,
                source_revision: m.revision,
            }),
        },
    }
}

pub open spec fn endpoint_view(r: Result<NetworkEndpoint, String>) -> Result<(SocketEndpoint, Seq<char>), Seq<char>> {
    match r {
        Ok(x) => Ok((x.endpoint, x.text@)),
        Err(e) => Err(e@),
    }
}

pub open spec fn dry_run_outcome(r: Result<NetworkPolicyMatchDryRunResult, String>) -> Result<DryRunView, Seq<char>> {
    match r {
        Ok(x) => Ok(x@),
        Err(e) => Err(e@),
    }
}

impl NetworkPolicyStore {
    /// A page of the stored rules that pass the filter, by (owner, rule id).
    pub fn list(&self, filter: NetworkPolicyListFilter, cursor: Option<&str>, limit: u32) -> (r: Result<NetworkPolicyListResult, String>)
        ensures
            list_outcome(r) == list_spec(self@, filter.decision, match filter.remote {
                None => None,
                Some(Ok(x)) => Some(Ok(x)),
                Some(Err(e)) => Some(Err(e@)),
            }, opt_str_text(cursor), limit),
    {
        if limit == 0 {
            return Err(String::from_str("network policy list limit must be positive"));
        }
        let start: usize = match cursor {
            None => 0,
            Some(raw) => match parse_uint_bytes(raw.as_bytes(), usize::MAX as u64) {
                Ok(v) => v as usize,
                Err(k) => {
                    let mut m = String::from_str("invalid network policy cursor ");
                    m.append(raw);
                    m.append(": ");
                    m.append(crate::rules::int_error_str(k));
                    return Err(m);
                },
            },
        };
        let sel: Option<RemoteSelector> = match filter.remote {
            None => None,
            Some(Ok(x)) => Some(x),
            Some(Err(e)) => {
                return Err(e);
            },
        };
        let ghost s = nviews(self.rules@);
        let mut all: Vec<NetworkPolicyRuleView> = Vec::new();
        let mut i: usize = 0;
        assert(s.take(0) =~= Seq::<NetRuleView>::empty());
        assert(listing_views(all@) =~= Seq::<ListingView>::empty());
        while i < self.rules.len()
            invariant
                s == nviews(self.rules@),
                i <= s.len(),
                listing_views(all@) == listed(s.take(i as int), filter.decision, sel),
            decreases s.len() - i,
        {
            proof {
                lemma_take_step(s, i as int);
            }
            assert(s[i as int] == self.rules@[i as int]@);
            if passes_exec(&self.rules[i], filter.decision, &sel) {
                let ghost t = listing_views(all@);
                all.push(listing(&self.rules[i]));
                assert(listing_views(all@) =~= t.push(listing_of(s[i as int])));
            }
            i += 1;
        }
        assert(s.take(s.len() as int) =~= s);
        let total = all.len();
        let from = if start < total {
            start
        } else {
            total
        };
        let ghost full = listing_views(all@);
        let mut page = all.split_off(from);
        page.truncate(limit as usize);
        let taken = page.len();
        let next = start.saturating_add(taken);
        let next_cursor = if next < total {
            Some(crate::text::u64_to_decimal(next as u64))
        } else {
            None
        };
        proof {
            assert(listing_views(page@) =~= full.subrange(
                int_min(start as int, full.len() as int),
                int_min(start as int + limit as int, full.len() as int),
            ));
        }
        Ok(NetworkPolicyListResult { rules: page, next_cursor, source_revision: self.revision })
    }

    /// Which rule a connect to `remote` would meet, without connecting;
    /// `remote` is the endpoint parser's reading of the requested text.
    pub fn match_dry_run(&self, remote: Result<NetworkEndpoint, String>, default_decision: NetworkPolicyDecision) -> (r: Result<NetworkPolicyMatchDryRunResult, String>)
        ensures
            dry_run_outcome(r) == dry_run_spec(self@, endpoint_view(remote), default_decision),
    {
        let endpoint = match remote {
            Err(e) => {
                let mut m = String::from_str("network remote must be a numeric IP endpoint: ");
                m.append(e.as_str());
                return Err(m);
            },
            Ok(x) => x,
        };
        match self.find(&endpoint.endpoint) {
            Some(rule) => Ok(NetworkPolicyMatchDryRunResult {
                matched: true,
                decision: rule.decision,
                rule_id: Some(rule.rule_id.clone()),
                owner_instance_id: Some(rule.owner_instance_id.clone()),
                resolved_remote: endpoint.text,
                rule_revision: Some(rule.rule_revision),
                source_revision: self.revision,
            }),
            None => Ok(NetworkPolicyMatchDryRunResult {
                matched: false,
                decision: default_decision,
                rule_id: None,
                owner_instance_id: None,
                resolved_remote: endpoint.text,
                rule_revision: None,
                source_revision: self.revision,
            }),
        }
    }
}


impl NetworkPolicyStore {
    /// A store holding `rules` in force at `revision`.
    pub(crate) fn with_rules(revision: u64, next_sequence: u64, rules: Vec<StoredNetworkRule>) -> (r: NetworkPolicyStore)
        requires
            nsorted(nviews(rules@)),
            remotes_disjoint(nviews(rules@)),
        ensures
            r.wf(),
            r@ == (NetStoreModel {
                revision,
                next_rule_id: 1,
                next_sequence,
                rules: nviews(rules@),
                effective: nviews(rules@),
            }),
    {
        let effective = copy_rules(&rules);
        NetworkPolicyStore { revision, next_rule_id: 1, next_sequence, rules, effective }
    }
}

} // verus!
