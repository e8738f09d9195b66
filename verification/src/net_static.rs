//! The static network policy file: one rule per line, either
//! `<rule-id> <allow|deny> connect <ip:port>` or
//! `<rule-id> sync-plugin <instance> timeout-ms <ms> concurrency <limit>
//! fallback <allow|deny> connect <ip:port>`; blank lines and lines starting
//! with `#` are skipped.
//!
//! The endpoint text of a line is read by the standard socket-address
//! parser; the library receives that reading with the line.

use vstd::prelude::*;
use vstd::string::StringSliceAdditionalSpecFns;
use crate::net_policy::{remote_view, static_owner, static_policy_owner, NetworkPolicyDecision, NetworkRemoteSelector, SelectorView};
use crate::net_rules::{
    first_refusal, lemma_nfind, lemma_nupsert_sorted, lemma_no_refusal_disjoint, nfind, nsorted, nupsert, nviews, remotes_disjoint,
    valid_rule_id, NetRuleView, NetStoreModel, NetworkPolicyStore, StoredNetworkRule,
};
use crate::rules::{field_outcome, field_outcome32, positive_field, EnforcementDecision, NetworkRuleValidator, StaticRuleParser};
use crate::words::{skip_whitespace, split_whitespace_words, trim_end_from, trimmed, word_texts};
use crate::text::{decimal, push_decimal};
use crate::payload::str_eq;
use crate::net_connect::SyncPluginEndpointRule;
use crate::net_policy::same_endpoint;
use crate::sockaddr::SocketEndpoint;

verus! {

broadcast use vstd::utf8::group_utf8_lib;

pub open spec fn expected_shape() -> Seq<char> {
    "expected: <rule-id> <allow|deny> connect <ip:port>, or <rule-id> sync-plugin <instance> timeout-ms <positive-ms> concurrency <positive-limit> fallback <allow|deny> connect <ip:port>"@
}

pub open spec fn rule_id_message() -> Seq<char> {
    "network rule id must be non-empty and contain no whitespace"@
}

pub open spec fn endpoint_message(e: Seq<char>) -> Seq<char> {
    "network remote must be a numeric IP endpoint: "@ + e
}

pub open spec fn fallback_of(t: Seq<char>) -> Result<EnforcementDecision, Seq<char>> {
    if t == "allow"@ {
        Ok(EnforcementDecision::Allow)
    } else if t == "deny"@ {
        Ok(EnforcementDecision::Deny)
    } else {
        Err("fallback must be allow or deny"@)
    }
}

/// The rule a static line gives (with `remote` the endpoint parser's
/// reading of its last word), or why the line is refused.
#[verifier::opaque]
pub open spec fn static_rule_spec(line: Seq<char>, sequence: u64, remote: Result<SelectorView, Seq<char>>) -> Result<NetRuleView, Seq<char>> {
    let t = word_texts(vstd::utf8::encode_utf8(line));
    if t.len() == 4 && (t[1] == "allow"@ || t[1] == "deny"@) && t[2] == "connect"@ {
        if !valid_rule_id(t[0]) {
            Err(rule_id_message())
        } else {
            match remote {
                Err(e) => Err(endpoint_message(e)),
                Ok(sel) => Ok(NetRuleView {
                    owner: static_owner(),
                    rule_id: t[0],
                    decision: if t[1] == "allow"@ {
                        NetworkPolicyDecision::Allow
                    } else {
                        NetworkPolicyDecision::Deny
                    },
                    remote: sel,
                    gray_target: None,
                    timeout_ms: None,
                    concurrency_limit: None,
                    fallback: None,
                    rule_revision: 0,
                    updated_sequence: sequence,
                }),
            }
        }
    } else if t.len() == 11 && t[1] == "sync-plugin"@ && t[3] == "timeout-ms"@ && t[5] == "concurrency"@ && t[7] == "fallback"@
        && t[9] == "connect"@ {
        if !valid_rule_id(t[0]) {
            Err(rule_id_message())
        } else {
            match remote {
                Err(e) => Err(endpoint_message(e)),
                Ok(sel) => match positive_field("timeout-ms"@, vstd::utf8::encode_utf8(t[4]), u64::MAX as int) {
                    Err(e) => Err(e),
                    Ok(timeout) => match positive_field("concurrency"@, vstd::utf8::encode_utf8(t[6]), u32::MAX as int) {
                        Err(e) => Err(e),
                        Ok(limit) => match fallback_of(t[8]) {
                            Err(e) => Err(e),
                            Ok(f) => Ok(NetRuleView {
                                owner: static_owner(),
                                rule_id: t[0],
                                decision: NetworkPolicyDecision::Gray,
                                remote: sel,
                                gray_target: Some(t[2]),
                                timeout_ms: Some(timeout as u64),
                                concurrency_limit: Some(limit as u32),
                                fallback: Some(f),
                                rule_revision: 0,
                                updated_sequence: sequence,
                            }),
                        },
                    },
                },
            }
        }
    } else {
        Err(expected_shape())
    }
}

pub open spec fn rule_outcome(r: Result<StoredNetworkRule, String>) -> Result<NetRuleView, Seq<char>> {
    match r {
        Ok(x) => Ok(x@),
        Err(e) => Err(e@),
    }
}

impl StaticRuleParser {
    /// The rule of one static policy line; `remote` is the endpoint
    /// parser's reading of the line's last word.
    pub fn parse(line: &str, sequence: u64, remote: Result<NetworkRemoteSelector, String>) -> (r: Result<StoredNetworkRule, String>)
        ensures
            rule_outcome(r) == static_rule_spec(line@, sequence, remote_view(remote)),
    {
        proof {
            reveal(static_rule_spec);
        }
        let parts = split_whitespace_words(line);
        let ghost t = word_texts(line.spec_bytes());
        let n = parts.len();
        if n == 4 && (str_eq(parts[1].as_str(), "allow") || str_eq(parts[1].as_str(), "deny")) && str_eq(parts[2].as_str(), "connect") {
            assert(parts@[0]@ == t[0] && parts@[1]@ == t[1]);
            match NetworkRuleValidator::rule_id(parts[0].as_str()) {
                Err(e) => {
                    return Err(e);
                },
                Ok(_) => {},
            }
            let sel = match remote {
                Err(e) => {
                    let mut m = String::from_str("network remote must be a numeric IP endpoint: ");
                    m.append(e.as_str());
                    return Err(m);
                },
                Ok(s) => s,
            };
            let decision = if str_eq(parts[1].as_str(), "allow") {
                NetworkPolicyDecision::Allow
            } else {
                NetworkPolicyDecision::Deny
            };
            return Ok(StoredNetworkRule {
                owner_instance_id: String::from_str(static_policy_owner()),
                rule_id: parts[0].clone(),
                decision,
                remote: sel,
                gray_target: None,
                timeout_ms: None,
                concurrency_limit: None,
                fallback: None,
                rule_revision: 0,
                updated_sequence: sequence,
            });
        }
        if n == 11 && str_eq(parts[1].as_str(), "sync-plugin") && str_eq(parts[3].as_str(), "timeout-ms") && str_eq(
            parts[5].as_str(),
            "concurrency",
        ) && str_eq(parts[7].as_str(), "fallback") && str_eq(parts[9].as_str(), "connect") {
            assert(parts@[0]@ == t[0] && parts@[2]@ == t[2] && parts@[4]@ == t[4] && parts@[6]@ == t[6] && parts@[8]@ == t[8]);
            match NetworkRuleValidator::rule_id(parts[0].as_str()) {
                Err(e) => {
                    return Err(e);
                },
                Ok(_) => {},
            }
            let sel = match remote {
                Err(e) => {
                    let mut m = String::from_str("network remote must be a numeric IP endpoint: ");
                    m.append(e.as_str());
                    return Err(m);
                },
                Ok(s) => s,
            };
            let timeout = match StaticRuleParser::positive_u64("timeout-ms", parts[4].as_str()) {
                Err(e) => {
                    return Err(e);
                },
                Ok(v) => v,
            };
            let limit = match StaticRuleParser::positive_u32("concurrency", parts[6].as_str()) {
                Err(e) => {
                    return Err(e);
                },
                Ok(v) => v,
            };
            let fallback = match StaticRuleParser::enforcement(parts[8].as_str()) {
                Err(e) => {
                    return Err(e);
                },
                Ok(f) => f,
            };
            return Ok(StoredNetworkRule {
                owner_instance_id: String::from_str(static_policy_owner()),
                rule_id: parts[0].clone(),
                decision: NetworkPolicyDecision::Gray,
                remote: sel,
                gray_target: Some(parts[2].clone()),
                timeout_ms: Some(timeout),
                concurrency_limit: Some(limit),
                fallback: Some(fallback),
                rule_revision: 0,
                updated_sequence: sequence,
            });
        }
        Err(String::from_str(
            "expected: <rule-id> <allow|deny> connect <ip:port>, or <rule-id> sync-plugin <instance> timeout-ms <positive-ms> concurrency <positive-limit> fallback <allow|deny> connect <ip:port>",
        ))
    }
}


/// One line of the static policy file, with the endpoint parser's reading
/// of its last word.
#[derive(Debug)]
pub struct StaticPolicyLine {
    pub text: String,
    pub remote: Result<NetworkRemoteSelector, String>,
}

pub type LineView = (Seq<char>, Result<SelectorView, Seq<char>>);

pub open spec fn line_views(s: Seq<StaticPolicyLine>) -> Seq<LineView> {
    s.map_values(|l: StaticPolicyLine| (l.text@, remote_view(l.remote)))
}

/// A line holds a rule: it is neither blank nor a comment.
pub open spec fn is_rule_line(line: Seq<char>) -> bool {
    let b = trimmed(vstd::utf8::encode_utf8(line));
    b.len() > 0 && b[0] != 35
}

/// How an error on the line at `index` is reported: the file and line number first.
pub open spec fn at_line(path: Seq<char>, index: int, message: Seq<char>) -> Seq<char> {
    path + ":"@ + decimal((index + 1) as nat) + ": "@ + message
}

/// What the line at `index` does to the sequence counter and the rules
/// (sorted by id) loaded so far, or the error that stops loading.
#[verifier::opaque]
pub open spec fn load_step(path: Seq<char>, index: int, line: LineView, sequence: u64, rules: Seq<NetRuleView>) -> Result<(u64, Seq<NetRuleView>), Seq<char>> {
    if !is_rule_line(line.0) {
        Ok((sequence, rules))
    } else if sequence == u64::MAX {
        Err("network policy sequence overflow"@)
    } else {
        match static_rule_spec(line.0, (sequence + 1) as u64, line.1) {
            Err(m) => Err(at_line(path, index, m)),
            Ok(rule) => if nfind(rules, (static_owner(), rule.rule_id)) is Some {
                Err(at_line(path, index, "duplicate network rule id"@))
            } else {
                Ok(((sequence + 1) as u64, nupsert(rules, rule)))
            },
        }
    }
}

/// The sequence counter and the rules (sorted by id) after the first `k`
/// lines, or the error that stops loading.
pub open spec fn load_lines(path: Seq<char>, lines: Seq<LineView>, k: int) -> Result<(u64, Seq<NetRuleView>), Seq<char>>
    decreases k,
{
    if k <= 0 {
        Ok((0u64, Seq::empty()))
    } else {
        match load_lines(path, lines, k - 1) {
            Err(e) => Err(e),
            Ok((sequence, rules)) => load_step(path, k - 1, lines[k - 1], sequence, rules),
        }
    }
}

/// An error stops loading: later lines do not change it.
pub proof fn lemma_load_error_stays(path: Seq<char>, lines: Seq<LineView>, k: int, m: int)
    requires
        0 <= k <= m,
        load_lines(path, lines, k) is Err,
    ensures
        load_lines(path, lines, m) == load_lines(path, lines, k),
    decreases m - k,
{
    if m > k {
        lemma_load_error_stays(path, lines, k, m - 1);
    }
}

pub open spec fn at_revision(s: Seq<NetRuleView>, revision: u64) -> Seq<NetRuleView> {
    s.map_values(|r: NetRuleView| NetRuleView { rule_revision: revision, ..r })
}

/// The store the static policy file gives: its rules in force at revision 1
/// (revision 0 when there are none), or why the file is refused.
pub open spec fn load_spec(path: Seq<char>, lines: Seq<LineView>) -> Result<NetStoreModel, Seq<char>> {
    match load_lines(path, lines, lines.len() as int) {
        Err(e) => Err(e),
        Ok((sequence, rules)) => match first_refusal(rules) {
            Some(m) => Err(m),
            None => if rules.len() == 0 {
                Ok(NetStoreModel { revision: 0, next_rule_id: 1, next_sequence: sequence, rules: Seq::empty(), effective: Seq::empty() })
            } else {
                Ok(NetStoreModel {
                    revision: 1,
                    next_rule_id: 1,
                    next_sequence: sequence,
                    rules: at_revision(rules, 1),
                    effective: at_revision(rules, 1),
                })
            },
        },
    }
}

pub(crate) fn rule_line(text: &str) -> (r: bool)
    ensures
        r == is_rule_line(text@),
{
    let b = text.as_bytes();
    let a = skip_whitespace(b, 0);
    let e = trim_end_from(b, a, b.len());
    proof {
        assert(b@ == text.spec_bytes());
    }
    a < e && b[a] != 35
}

fn line_error(path: &str, index: usize, message: &str) -> (m: String)
    requires
        index < usize::MAX,
    ensures
        m@ == at_line(path@, index as int, message@),
{
    let mut m = String::from_str(path);
    m.append(":");
    push_decimal(&mut m, (index + 1) as u64);
    m.append(": ");
    m.append(message);
    m
}

fn set_revision(rules: &mut Vec<StoredNetworkRule>, revision: u64)
    ensures
        nviews(final(rules)@) == at_revision(nviews(old(rules)@), revision),
{
    let ghost s = nviews(rules@);
    let mut i: usize = 0;
    while i < rules.len()
        invariant
            i <= rules@.len(),
            s.len() == rules@.len(),
            s == nviews(old(rules)@),
            forall|k: int| 0 <= k < i ==> (#[trigger] rules@[k])@ == (NetRuleView { rule_revision: revision, ..s[k] }),
            forall|k: int| i <= k < rules@.len() ==> (#[trigger] rules@[k])@ == s[k],
        decreases rules@.len() - i,
    {
        let mut r = rules[i].duplicate();
        r.rule_revision = revision;
        assert(r@ == (NetRuleView { rule_revision: revision, ..s[i as int] }));
        rules.set(i, r);
        i += 1;
    }
    assert(nviews(rules@) =~= at_revision(s, revision));
}

pub open spec fn store_outcome(r: Result<NetworkPolicyStore, String>) -> Result<NetStoreModel, Seq<char>> {
    match r {
        Ok(s) => Ok(s@),
        Err(e) => Err(e@),
    }
}

fn copy_remote(r: &Result<NetworkRemoteSelector, String>) -> (c: Result<NetworkRemoteSelector, String>)
    ensures
        remote_view(c) == remote_view(*r),
{
    match r {
        Ok(s) => Ok(s.duplicate()),
        Err(e) => Err(e.clone()),
    }
}

/// Takes the line at `index` into the rules loaded so far.
fn load_line(path: &str, index: usize, line: &StaticPolicyLine, sequence: &mut u64, rules: &mut Vec<StoredNetworkRule>) -> (r: Result<(), String>)
    requires
        index < usize::MAX,
        nsorted(nviews(old(rules)@)),
    ensures
        nsorted(nviews(final(rules)@)),
        match load_step(path@, index as int, (line.text@, remote_view(line.remote)), *old(sequence), nviews(old(rules)@)) {
            Ok((q, s)) => r is Ok && *final(sequence) == q && nviews(final(rules)@) == s,
            Err(m) => r matches Err(e) && e@ == m,
        },
{
    proof {
        reveal(load_step);
    }
    if !rule_line(line.text.as_str()) {
        return Ok(());
    }
    if *sequence == u64::MAX {
        return Err(String::from_str("network policy sequence overflow"));
    }
    let next = *sequence + 1;
    match StaticRuleParser::parse(line.text.as_str(), next, copy_remote(&line.remote)) {
        Err(m) => Err(line_error(path, index, m.as_str())),
        Ok(rule) => {
            proof {
                lemma_nfind(nviews(rules@), (static_owner(), rule@.rule_id));
            }
            match crate::net_rules::nfind_rule(rules, static_policy_owner(), rule.rule_id.as_str()) {
                Some(_) => {
                    return Err(line_error(path, index, "duplicate network rule id"));
                },
                None => {},
            }
            proof {
                lemma_nupsert_sorted(nviews(rules@), rule@);
            }
            crate::net_rules::nupsert_into(rules, rule);
            *sequence = next;
            Ok(())
        },
    }
}

/// Loads the static policy of the file at `path`, given its lines in order.
pub fn load_static(path: &str, lines: &Vec<StaticPolicyLine>) -> (r: Result<NetworkPolicyStore, String>)
    ensures
        store_outcome(r) == load_spec(path@, line_views(lines@)),
        r matches Ok(s) ==> s.wf(),
{
    let ghost lv = line_views(lines@);
    let mut sequence: u64 = 0;
    let mut rules: Vec<StoredNetworkRule> = Vec::new();
    let mut i: usize = 0;
    assert(nviews(rules@) =~= Seq::<NetRuleView>::empty());
    while i < lines.len()
        invariant
            i <= lines@.len(),
            lv == line_views(lines@),
            nsorted(nviews(rules@)),
            load_lines(path@, lv, i as int) == Ok::<(u64, Seq<NetRuleView>), Seq<char>>((sequence, nviews(rules@))),
        decreases lines@.len() - i,
    {
        assert(lv[i as int] == (lines@[i as int].text@, remote_view(lines@[i as int].remote)));
        match load_line(path, i, &lines[i], &mut sequence, &mut rules) {
            Err(e) => {
                proof {
                    lemma_load_error_stays(path@, lv, i as int + 1, lv.len() as int);
                }
                return Err(e);
            },
            Ok(_) => {},
        }
        i += 1;
    }
    match crate::net_rules::first_refusal_of(&rules) {
        Some(m) => {
            return Err(m);
        },
        None => {},
    }
    proof {
        lemma_no_refusal_disjoint(nviews(rules@));
    }
    if rules.len() == 0 {
        assert(nviews(rules@) =~= Seq::<NetRuleView>::empty());
        return Ok(NetworkPolicyStore::with_rules(0, sequence, rules));
    }
    let ghost plain = nviews(rules@);
    set_revision(&mut rules, 1);
    proof {
        let t = nviews(rules@);
        assert forall|a: int, b: int| 0 <= a < b < t.len() implies crate::file_rules::key_less(
            crate::net_rules::nkey(#[trigger] t[a]),
            crate::net_rules::nkey(#[trigger] t[b]),
        ) by {
            assert(t[a].owner == plain[a].owner && t[a].rule_id == plain[a].rule_id);
            assert(t[b].owner == plain[b].owner && t[b].rule_id == plain[b].rule_id);
        }
        assert forall|a: int, b: int| 0 <= a < b < t.len() implies !crate::net_rules::overlapping(
            (#[trigger] t[a]).remote.selector,
            (#[trigger] t[b]).remote.selector,
        ) by {
            assert(t[a].remote == plain[a].remote && t[b].remote == plain[b].remote);
        }
    }
    Ok(NetworkPolicyStore::with_rules(1, sequence, rules))
}


// ---------------------------------------------------------------------------
// Sync-plugin endpoint rule files

pub open spec fn endpoint_rule_shape() -> Seq<char> {
    "expected: <rule_id> sync-plugin <instance> timeout-ms <positive-ms> concurrency <positive-limit> fallback <allow|deny> connect <ip:port>"@
}

/// A sync-plugin rule for one endpoint, as the endpoint rule file gives it.
#[derive(Debug)]
pub struct NetworkControlRule {
    pub rule: SyncPluginEndpointRule,
    pub endpoint: SocketEndpoint,
}

pub struct EndpointRuleView {
    pub rule_id: Seq<char>,
    pub instance_id: Seq<char>,
    pub timeout_ms: u64,
    pub concurrency_limit: u32,
    pub fallback: EnforcementDecision,
    pub endpoint: SocketEndpoint,
}

impl View for NetworkControlRule {
    type V = EndpointRuleView;

    open spec fn view(&self) -> EndpointRuleView {
        EndpointRuleView {
            rule_id: self.rule.rule_id@,
            instance_id: self.rule.instance_id@,
            timeout_ms: self.rule.timeout_ms,
            concurrency_limit: self.rule.concurrency_limit,
            fallback: self.rule.fallback,
            endpoint: self.endpoint,
        }
    }
}

/// The rule an endpoint rule line gives (with `endpoint` the endpoint
/// parser's reading of its last word), or why the line is refused.
#[verifier::opaque]
pub open spec fn endpoint_rule_spec(line: Seq<char>, endpoint: Result<SocketEndpoint, Seq<char>>) -> Result<EndpointRuleView, Seq<char>> {
    let t = word_texts(vstd::utf8::encode_utf8(line));
    if !(t.len() == 11 && t[1] == "sync-plugin"@ && t[3] == "timeout-ms"@ && t[5] == "concurrency"@ && t[7] == "fallback"@
        && t[9] == "connect"@) {
        Err(endpoint_rule_shape())
    } else {
        match positive_field("timeout-ms"@, vstd::utf8::encode_utf8(t[4]), u64::MAX as int) {
            Err(e) => Err(e),
            Ok(timeout) => match positive_field("concurrency"@, vstd::utf8::encode_utf8(t[6]), u32::MAX as int) {
                Err(e) => Err(e),
                Ok(limit) => match fallback_of(t[8]) {
                    Err(e) => Err(e),
                    Ok(f) => match endpoint {
                        Err(e) => Err("connect endpoint must be ip:port: "@ + e),
                        Ok(ep) => Ok(EndpointRuleView {
                            rule_id: t[0],
                            instance_id: t[2],
                            timeout_ms: timeout as u64,
                            concurrency_limit: limit as u32,
                            fallback: f,
                            endpoint: ep,
                        }),
                    },
                },
            },
        }
    }
}

pub open spec fn endpoint_view(r: Result<SocketEndpoint, String>) -> Result<SocketEndpoint, Seq<char>> {
    match r {
        Ok(e) => Ok(e),
        Err(m) => Err(m@),
    }
}

pub open spec fn endpoint_rule_outcome(r: Result<NetworkControlRule, String>) -> Result<EndpointRuleView, Seq<char>> {
    match r {
        Ok(x) => Ok(x@),
        Err(e) => Err(e@),
    }
}

/// The sync-plugin rule of one endpoint rule line; `endpoint` is the
/// endpoint parser's reading of the line's last word.
pub fn parse_rule(line: &str, endpoint: Result<SocketEndpoint, String>) -> (r: Result<NetworkControlRule, String>)
    ensures
        endpoint_rule_outcome(r) == endpoint_rule_spec(line@, endpoint_view(endpoint)),
{
    proof {
        reveal(endpoint_rule_spec);
    }
    let parts = split_whitespace_words(line);
    let ghost t = word_texts(line.spec_bytes());
    if !(parts.len() == 11 && str_eq(parts[1].as_str(), "sync-plugin") && str_eq(parts[3].as_str(), "timeout-ms") && str_eq(
        parts[5].as_str(),
        "concurrency",
    ) && str_eq(parts[7].as_str(), "fallback") && str_eq(parts[9].as_str(), "connect")) {
        return Err(String::from_str(
            "expected: <rule_id> sync-plugin <instance> timeout-ms <positive-ms> concurrency <positive-limit> fallback <allow|deny> connect <ip:port>",
        ));
    }
    assert(parts@[0]@ == t[0] && parts@[2]@ == t[2] && parts@[4]@ == t[4] && parts@[6]@ == t[6] && parts@[8]@ == t[8]);
    let timeout = match crate::rules::positive_u64("timeout-ms", parts[4].as_str()) {
        Err(e) => {
            return Err(e);
        },
        Ok(v) => v,
    };
    let limit = match crate::rules::positive_u32("concurrency", parts[6].as_str()) {
        Err(e) => {
            return Err(e);
        },
        Ok(v) => v,
    };
    let fallback = match StaticRuleParser::enforcement(parts[8].as_str()) {
        Err(e) => {
            return Err(e);
        },
        Ok(f) => f,
    };
    let ep = match endpoint {
        Err(e) => {
            let mut m = String::from_str("connect endpoint must be ip:port: ");
            m.append(e.as_str());
            return Err(m);
        },
        Ok(ep) => ep,
    };
    Ok(NetworkControlRule {
        rule: SyncPluginEndpointRule {
            rule_id: parts[0].clone(),
            instance_id: parts[2].clone(),
            timeout_ms: timeout,
            concurrency_limit: limit,
            fallback,
        },
        endpoint: ep,
    })
}

/// One line of the endpoint rule file, with the endpoint parser's reading
/// of its last word.
#[derive(Debug)]
pub struct EndpointRuleLine {
    pub text: String,
    pub endpoint: Result<SocketEndpoint, String>,
}

pub type EndpointLineView = (Seq<char>, Result<SocketEndpoint, Seq<char>>);

pub open spec fn endpoint_line_views(s: Seq<EndpointRuleLine>) -> Seq<EndpointLineView> {
    s.map_values(|l: EndpointRuleLine| (l.text@, endpoint_view(l.endpoint)))
}

pub open spec fn has_endpoint(rules: Seq<EndpointRuleView>, e: SocketEndpoint) -> bool {
    exists|i: int| 0 <= i < rules.len() && (#[trigger] rules[i]).endpoint == e
}

/// The rules after the first `k` lines, in file order, or the error that
/// stops loading.
pub open spec fn endpoint_rules_after(path: Seq<char>, lines: Seq<EndpointLineView>, k: int) -> Result<Seq<EndpointRuleView>, Seq<char>>
    decreases k,
{
    if k <= 0 {
        Ok(Seq::empty())
    } else {
        match endpoint_rules_after(path, lines, k - 1) {
            Err(e) => Err(e),
            Ok(rules) => if !is_rule_line(lines[k - 1].0) {
                Ok(rules)
            } else {
                match endpoint_rule_spec(lines[k - 1].0, lines[k - 1].1) {
                    Err(m) => Err(at_line(path, k - 1, m)),
                    Ok(rule) => if has_endpoint(rules, rule.endpoint) {
                        Err(at_line(path, k - 1, "duplicate network endpoint"@))
                    } else {
                        Ok(rules.push(rule))
                    },
                }
            },
        }
    }
}

pub proof fn lemma_endpoint_error_stays(path: Seq<char>, lines: Seq<EndpointLineView>, k: int, m: int)
    requires
        0 <= k <= m,
        endpoint_rules_after(path, lines, k) is Err,
    ensures
        endpoint_rules_after(path, lines, m) == endpoint_rules_after(path, lines, k),
    decreases m - k,
{
    if m > k {
        lemma_endpoint_error_stays(path, lines, k, m - 1);
    }
}

/// Sync-plugin rules by endpoint; no endpoint has two rules.
#[derive(Debug)]
pub struct NetworkControlRules {
    rules: Vec<NetworkControlRule>,
}

pub open spec fn endpoint_rule_views(s: Seq<NetworkControlRule>) -> Seq<EndpointRuleView> {
    s.map_values(|r: NetworkControlRule| r@)
}

impl View for NetworkControlRules {
    type V = Seq<EndpointRuleView>;

    closed spec fn view(&self) -> Seq<EndpointRuleView> {
        endpoint_rule_views(self.rules@)
    }
}

pub open spec fn endpoints_distinct(s: Seq<EndpointRuleView>) -> bool {
    forall|i: int, j: int| 0 <= i < j < s.len() ==> (#[trigger] s[i]).endpoint != (#[trigger] s[j]).endpoint
}

pub open spec fn endpoint_rules_outcome(r: Result<NetworkControlRules, String>) -> Result<Seq<EndpointRuleView>, Seq<char>> {
    match r {
        Ok(x) => Ok(x@),
        Err(e) => Err(e@),
    }
}

impl NetworkControlRules {
    pub open spec fn wf(&self) -> bool {
        endpoints_distinct(self@)
    }

    /// No rules: network control that is switched off.
    pub fn empty() -> (r: Self)
        ensures
            r.wf(),
            r@ == Seq::<EndpointRuleView>::empty(),
    {
        let r = NetworkControlRules { rules: Vec::new() };
        assert(endpoint_rule_views(r.rules@) =~= Seq::<EndpointRuleView>::empty());
        r
    }

    fn position(&self, e: &SocketEndpoint) -> (r: Option<usize>)
        ensures
            match r {
                Some(i) => i < self@.len() && self@[i as int].endpoint == *e,
                None => !has_endpoint(self@, *e),
            },
    {
        let mut i: usize = 0;
        while i < self.rules.len()
            invariant
                i <= self.rules@.len(),
                forall|k: int| 0 <= k < i ==> (#[trigger] endpoint_rule_views(self.rules@)[k]).endpoint != *e,
            decreases self.rules@.len() - i,
        {
            if same_endpoint(&self.rules[i].endpoint, e) {
                return Some(i);
            }
            i += 1;
        }
        None
    }

    /// Loads the endpoint rule file at `path`, given its lines in order.
    pub fn load(path: &str, lines: &Vec<EndpointRuleLine>) -> (r: Result<Self, String>)
        ensures
            endpoint_rules_outcome(r) == endpoint_rules_after(path@, endpoint_line_views(lines@), lines@.len() as int),
            r matches Ok(x) ==> x.wf(),
    {
        let ghost lv = endpoint_line_views(lines@);
        let mut out = NetworkControlRules::empty();
        let mut i: usize = 0;
        while i < lines.len()
            invariant
                i <= lines@.len(),
                lv == endpoint_line_views(lines@),
                out.wf(),
                endpoint_rules_after(path@, lv, i as int) == Ok::<Seq<EndpointRuleView>, Seq<char>>(out@),
            decreases lines@.len() - i,
        {
            let line = &lines[i];
            assert(lv[i as int] == (line.text@, endpoint_view(line.endpoint)));
            if rule_line(line.text.as_str()) {
                let ep = match &line.endpoint {
                    Ok(e) => Ok(*e),
                    Err(m) => Err(m.clone()),
                };
                let rule = match parse_rule(line.text.as_str(), ep) {
                    Err(m) => {
                        proof {
                            lemma_endpoint_error_stays(path@, lv, i as int + 1, lv.len() as int);
                        }
                        return Err(line_error(path, i, m.as_str()));
                    },
                    Ok(r) => r,
                };
                if out.position(&rule.endpoint).is_some() {
                    proof {
                        lemma_endpoint_error_stays(path@, lv, i as int + 1, lv.len() as int);
                    }
                    return Err(line_error(path, i, "duplicate network endpoint"));
                }
                let ghost before = out@;
                let ghost rv = rule@;
                out.rules.push(rule);
                assert(out@ =~= before.push(rv));
            }
            i += 1;
        }
        Ok(out)
    }

    /// The rule for `endpoint`, if any.
    pub fn find_endpoint(&self, endpoint: &SocketEndpoint) -> (r: Option<&NetworkControlRule>)
        requires
            self.wf(),
        ensures
            match r {
                Some(x) => x@.endpoint == *endpoint && self@.contains(x@),
                None => !has_endpoint(self@, *endpoint),
            },
    {
        match self.position(endpoint) {
            Some(i) => Some(&self.rules[i]),
            None => None,
        }
    }
}

} // verus!
