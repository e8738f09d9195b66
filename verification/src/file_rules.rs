//! The file-access policy rule store: rules kept per owner and rule id,
//! applied in batches under revision preconditions, and compiled into the
//! ordered list the enforcement engine walks.
//!
//! Rules are kept sorted by (owner, rule id) in text order, the order the
//! daemon's per-owner maps walk them in; the effective list holds the
//! enabled rules, built-in ones first, then by descending priority, then
//! newest first.

use vstd::prelude::*;
use crate::file_policy::{
    builtin_allow, contributes_marks, is_blank, str_is_blank, EnforcementRuleView, RuleDecision, RuleDecisionView,
    RuleIdentityKind, draft_grant_spec, filter_accepts, from_draft_spec, host_rule_id, rule_listing,
    rule_matches_path, EnforcementRule, FilePolicyDecision, FilePolicyListFilter, FilePolicyOperation, FilePolicyRuleView,
    RuleListing, gray_target_spec, opt_str_text, opt_text, rule_grant_spec, same_logical_scope, unit_result,
    validate_draft_grant, validate_gray_target, validate_rule_grant, FilePolicyRuleDraft, FilePolicyRulesApplyGrant,
    PolicyRuleView, StoredPolicyRule,
};
use crate::text::{decimal, push_decimal, u64_to_decimal};
use crate::scope::{absolute_scope, normalized_scope, scope_contains, scope_display, scope_result, text_bytes, PathScope};
use crate::words::{parse_uint, parse_uint_bytes};
use vstd::string::StringSliceAdditionalSpecFns;
use crate::rules::{EnforcementDecision, RuleTier};
use crate::order::{lemma_text_less_asymmetric, lemma_text_less_irreflexive, lemma_text_less_total, lemma_text_less_transitive, str_less, text_less};
use crate::payload::str_eq;
use crate::post_trace::texts;
use crate::file_static::{file_rule_spec, StaticFileLine, StaticFileLineView};
use crate::net_static::is_rule_line;

verus! {

/// A rule's key: its owner and its id.
pub open spec fn rkey(r: PolicyRuleView) -> (Seq<char>, Seq<char>) {
    (r.owner, r.rule_id)
}

/// Key order: by owner, then by rule id.
pub open spec fn key_less(a: (Seq<char>, Seq<char>), b: (Seq<char>, Seq<char>)) -> bool {
    text_less(a.0, b.0) || (a.0 == b.0 && text_less(a.1, b.1))
}

pub proof fn lemma_key_less_facts(a: (Seq<char>, Seq<char>), b: (Seq<char>, Seq<char>), c: (Seq<char>, Seq<char>))
    ensures
        !key_less(a, a),
        !(key_less(a, b) && key_less(b, a)),
        key_less(a, b) && key_less(b, c) ==> key_less(a, c),
        a == b || key_less(a, b) || key_less(b, a),
{
    lemma_text_less_irreflexive(a.0);
    lemma_text_less_irreflexive(a.1);
    lemma_text_less_asymmetric(a.0, b.0);
    lemma_text_less_asymmetric(a.1, b.1);
    lemma_text_less_total(a.0, b.0);
    lemma_text_less_total(a.1, b.1);
    if text_less(a.0, b.0) && text_less(b.0, c.0) {
        lemma_text_less_transitive(a.0, b.0, c.0);
    }
    if text_less(a.1, b.1) && text_less(b.1, c.1) {
        lemma_text_less_transitive(a.1, b.1, c.1);
    }
}

/// The rules are in strictly increasing key order (so no key repeats).
pub open spec fn sorted_keys(s: Seq<PolicyRuleView>) -> bool {
    forall|i: int, j: int| 0 <= i < j < s.len() ==> key_less(rkey(#[trigger] s[i]), rkey(#[trigger] s[j]))
}

/// Where key `k` is, or would go: the first rule whose key is not below `k`.
pub open spec fn lower_bound(s: Seq<PolicyRuleView>, k: (Seq<char>, Seq<char>)) -> int
    decreases s.len(),
{
    if s.len() == 0 {
        0
    } else if key_less(rkey(s[0]), k) {
        1 + lower_bound(s.drop_first(), k)
    } else {
        0
    }
}

pub proof fn lemma_lower_bound_at(s: Seq<PolicyRuleView>, k: (Seq<char>, Seq<char>), j: int)
    requires
        0 <= j <= s.len(),
        forall|i: int| 0 <= i < j ==> key_less(rkey(#[trigger] s[i]), k),
        j == s.len() || !key_less(rkey(s[j]), k),
    ensures
        lower_bound(s, k) == j,
    decreases j,
{
    if j > 0 {
        assert(key_less(rkey(s[0]), k));
        assert forall|i: int| 0 <= i < j - 1 implies key_less(rkey(#[trigger] s.drop_first()[i]), k) by {
            assert(s.drop_first()[i] == s[i + 1]);
        }
        if j < s.len() {
            assert(s.drop_first()[j - 1] == s[j]);
        }
        lemma_lower_bound_at(s.drop_first(), k, j - 1);
    }
}

pub proof fn lemma_lower_bound_bounds(s: Seq<PolicyRuleView>, k: (Seq<char>, Seq<char>))
    ensures
        0 <= lower_bound(s, k) <= s.len(),
        forall|i: int| 0 <= i < lower_bound(s, k) ==> key_less(rkey(#[trigger] s[i]), k),
        lower_bound(s, k) < s.len() ==> !key_less(rkey(s[lower_bound(s, k)]), k),
    decreases s.len(),
{
    if s.len() > 0 && key_less(rkey(s[0]), k) {
        lemma_lower_bound_bounds(s.drop_first(), k);
        assert forall|i: int| 0 <= i < lower_bound(s, k) implies key_less(rkey(#[trigger] s[i]), k) by {
            if i > 0 {
                assert(s[i] == s.drop_first()[i - 1]);
            }
        }
        if lower_bound(s, k) < s.len() {
            assert(s[lower_bound(s, k)] == s.drop_first()[lower_bound(s, k) - 1]);
        }
    }
}

/// The index of the rule with key `k`.
pub open spec fn find_key(s: Seq<PolicyRuleView>, k: (Seq<char>, Seq<char>)) -> Option<int> {
    let p = lower_bound(s, k);
    if p < s.len() && rkey(s[p]) == k {
        Some(p)
    } else {
        None
    }
}

/// In sorted rules, a key is found exactly where it occurs.
pub proof fn lemma_find_key(s: Seq<PolicyRuleView>, k: (Seq<char>, Seq<char>))
    requires
        sorted_keys(s),
    ensures
        match find_key(s, k) {
            Some(p) => 0 <= p < s.len() && rkey(s[p]) == k,
            None => forall|i: int| 0 <= i < s.len() ==> rkey(#[trigger] s[i]) != k,
        },
{
    lemma_lower_bound_bounds(s, k);
    let p = lower_bound(s, k);
    assert forall|i: int| 0 <= i < s.len() && rkey(#[trigger] s[i]) == k implies find_key(s, k) == Some(i) by {
        lemma_key_less_facts(k, k, k);
        if i < p {
        } else if i > p {
            assert(key_less(rkey(s[p]), rkey(s[i])));
            lemma_key_less_facts(rkey(s[p]), k, k);
        }
    }
}

/// The rules with `r` stored under its key, replacing any rule there.
pub open spec fn upsert_rule(s: Seq<PolicyRuleView>, r: PolicyRuleView) -> Seq<PolicyRuleView> {
    let p = lower_bound(s, rkey(r));
    if p < s.len() && rkey(s[p]) == rkey(r) {
        s.update(p, r)
    } else {
        s.insert(p, r)
    }
}

/// The rules without the one under key `k`.
pub open spec fn remove_key(s: Seq<PolicyRuleView>, k: (Seq<char>, Seq<char>)) -> Seq<PolicyRuleView> {
    match find_key(s, k) {
        Some(p) => s.remove(p),
        None => s,
    }
}

pub proof fn lemma_upsert_sorted(s: Seq<PolicyRuleView>, r: PolicyRuleView)
    requires
        sorted_keys(s),
    ensures
        sorted_keys(upsert_rule(s, r)),
{
    lemma_lower_bound_bounds(s, rkey(r));
    let p = lower_bound(s, rkey(r));
    let t = upsert_rule(s, r);
    assert forall|i: int, j: int| 0 <= i < j < t.len() implies key_less(rkey(#[trigger] t[i]), rkey(#[trigger] t[j])) by {
        if p < s.len() && rkey(s[p]) == rkey(r) {
            if i == p {
                assert(key_less(rkey(s[i]), rkey(s[j])));
            } else if j == p {
                assert(key_less(rkey(s[i]), rkey(s[j])));
            }
        } else {
            if i < p && j == p {
            } else if i == p {
                assert(t[j] == s[j - 1]);
                if p < s.len() {
                    lemma_key_less_facts(rkey(r), rkey(s[p]), rkey(s[j - 1]));
                    if j - 1 > p {
                        assert(key_less(rkey(s[p]), rkey(s[j - 1])));
                    }
                }
            } else if i < p && j > p {
                assert(t[j] == s[j - 1]);
                assert(key_less(rkey(s[i]), rkey(s[j - 1])));
            } else if i > p {
                assert(t[i] == s[i - 1] && t[j] == s[j - 1]);
                assert(key_less(rkey(s[i - 1]), rkey(s[j - 1])));
            } else {
                assert(t[i] == s[i] && t[j] == s[j]);
                assert(key_less(rkey(s[i]), rkey(s[j])));
            }
        }
    }
}

pub proof fn lemma_remove_sorted(s: Seq<PolicyRuleView>, i: int)
    requires
        sorted_keys(s),
        0 <= i < s.len(),
    ensures
        sorted_keys(s.remove(i)),
{
    let t = s.remove(i);
    assert forall|a: int, b: int| 0 <= a < b < t.len() implies key_less(rkey(#[trigger] t[a]), rkey(#[trigger] t[b])) by {
        let a2 = if a < i { a } else { a + 1 };
        let b2 = if b < i { b } else { b + 1 };
        assert(t[a] == s[a2] && t[b] == s[b2]);
        assert(key_less(rkey(s[a2]), rkey(s[b2])));
    }
}

pub open spec fn views(v: Seq<StoredPolicyRule>) -> Seq<PolicyRuleView> {
    v.map_values(|r: StoredPolicyRule| r@)
}

/// Whether the key of `r` is below (`owner`, `rule_id`).
fn below(r: &StoredPolicyRule, owner: &str, rule_id: &str) -> (b: bool)
    ensures
        b == key_less(rkey(r@), (owner@, rule_id@)),
{
    if str_less(r.owner_instance_id.as_str(), owner) {
        true
    } else {
        str_eq(r.owner_instance_id.as_str(), owner) && str_less(r.rule_id.as_str(), rule_id)
    }
}

/// Exec form of [`lower_bound`].
fn lower_bound_of(v: &Vec<StoredPolicyRule>, owner: &str, rule_id: &str) -> (p: usize)
    ensures
        p == lower_bound(views(v@), (owner@, rule_id@)),
        p <= v@.len(),
{
    let ghost s = views(v@);
    let ghost k = (owner@, rule_id@);
    let mut j: usize = 0;
    while j < v.len()
        invariant
            s == views(v@),
            k == (owner@, rule_id@),
            j <= v@.len(),
            forall|i: int| 0 <= i < j ==> key_less(rkey(#[trigger] s[i]), k),
        decreases v@.len() - j,
    {
        if !below(&v[j], owner, rule_id) {
            proof {
                lemma_lower_bound_at(s, k, j as int);
            }
            return j;
        }
        j += 1;
    }
    proof {
        lemma_lower_bound_at(s, k, j as int);
    }
    j
}

/// Exec form of [`find_key`].
fn find_rule(v: &Vec<StoredPolicyRule>, owner: &str, rule_id: &str) -> (r: Option<usize>)
    ensures
        match r {
            Some(p) => find_key(views(v@), (owner@, rule_id@)) == Some(p as int) && p < v@.len(),
            None => find_key(views(v@), (owner@, rule_id@)) is None,
        },
{
    let p = lower_bound_of(v, owner, rule_id);
    if p < v.len() && str_eq(v[p].owner_instance_id.as_str(), owner) && str_eq(v[p].rule_id.as_str(), rule_id) {
        Some(p)
    } else {
        None
    }
}

/// Stores `r` under its key in the sorted rules.
fn upsert_into(v: &mut Vec<StoredPolicyRule>, r: StoredPolicyRule)
    ensures
        views(final(v)@) == upsert_rule(views(old(v)@), r@),
{
    let p = lower_bound_of(v, r.owner_instance_id.as_str(), r.rule_id.as_str());
    let ghost s = views(v@);
    let ghost rv = r@;
    if p < v.len() && str_eq(v[p].owner_instance_id.as_str(), r.owner_instance_id.as_str()) && str_eq(
        v[p].rule_id.as_str(),
        r.rule_id.as_str(),
    ) {
        v.set(p, r);
        assert(views(v@) =~= s.update(p as int, rv));
    } else {
        v.insert(p, r);
        assert(views(v@) =~= s.insert(p as int, rv));
    }
}

/// Removes the rule under (`owner`, `rule_id`), if any.
fn remove_from(v: &mut Vec<StoredPolicyRule>, owner: &str, rule_id: &str)
    ensures
        views(final(v)@) == remove_key(views(old(v)@), (owner@, rule_id@)),
{
    let ghost s = views(v@);
    match find_rule(v, owner, rule_id) {
        Some(p) => {
            v.remove(p);
            assert(views(v@) =~= s.remove(p as int));
        },
        None => {},
    }
}

/// Evaluation rank of a tier: built-in rules first.
pub open spec fn tier_rank(t: RuleTier) -> int {
    if t is Builtin {
        1
    } else {
        0
    }
}

/// `a` is evaluated strictly before `b`: higher rank, then higher
/// priority, then the more recent update.
pub open spec fn evaluated_before(a: PolicyRuleView, b: PolicyRuleView) -> bool {
    let ra = tier_rank(a.tier);
    let rb = tier_rank(b.tier);
    ra > rb || (ra == rb && (a.priority > b.priority || (a.priority == b.priority && a.updated_sequence
        > b.updated_sequence)))
}

/// `x` placed into the ordered `t` after every rule it does not precede,
/// so that rules that tie keep their order.
pub open spec fn stable_insert(t: Seq<PolicyRuleView>, x: PolicyRuleView) -> Seq<PolicyRuleView>
    decreases t.len(),
{
    if t.len() == 0 {
        seq![x]
    } else if evaluated_before(x, t[0]) {
        seq![x] + t
    } else {
        seq![t[0]] + stable_insert(t.drop_first(), x)
    }
}

/// The enabled rules of `s` in evaluation order, ties in the order of `s`
/// (what a stable sort by the evaluation order yields).
pub open spec fn evaluation_order(s: Seq<PolicyRuleView>) -> Seq<PolicyRuleView>
    decreases s.len(),
{
    if s.len() == 0 {
        Seq::empty()
    } else {
        let t = evaluation_order(s.drop_last());
        if s.last().enabled {
            stable_insert(t, s.last())
        } else {
            t
        }
    }
}

pub proof fn lemma_stable_insert_at(t: Seq<PolicyRuleView>, x: PolicyRuleView, j: int)
    requires
        0 <= j <= t.len(),
        forall|i: int| 0 <= i < j ==> !evaluated_before(x, #[trigger] t[i]),
        j == t.len() || evaluated_before(x, t[j]),
    ensures
        stable_insert(t, x) == t.insert(j, x),
    decreases j,
{
    if j == 0 {
        if t.len() == 0 {
            assert(t.insert(0, x) =~= seq![x]);
        } else {
            assert(t.insert(0, x) =~= seq![x] + t);
        }
    } else {
        assert(!evaluated_before(x, t[0]));
        assert forall|i: int| 0 <= i < j - 1 implies !evaluated_before(x, #[trigger] t.drop_first()[i]) by {
            assert(t.drop_first()[i] == t[i + 1]);
        }
        if j < t.len() {
            assert(t.drop_first()[j - 1] == t[j]);
        }
        lemma_stable_insert_at(t.drop_first(), x, j - 1);
        assert(t.insert(j, x) =~= seq![t[0]] + t.drop_first().insert(j - 1, x));
    }
}

fn evaluated_before_exec(a: &StoredPolicyRule, b: &StoredPolicyRule) -> (r: bool)
    ensures
        r == evaluated_before(a@, b@),
{
    let ra = a.tier.rank();
    let rb = b.tier.rank();
    if ra != rb {
        return ra > rb;
    }
    if a.priority != b.priority {
        return a.priority > b.priority;
    }
    a.updated_sequence > b.updated_sequence
}

/// The enabled rules in evaluation order.
fn evaluation_list(rules: &Vec<StoredPolicyRule>) -> (e: Vec<StoredPolicyRule>)
    ensures
        views(e@) == evaluation_order(views(rules@)),
{
    let ghost s = views(rules@);
    let mut e: Vec<StoredPolicyRule> = Vec::new();
    let mut i: usize = 0;
    assert(s.subrange(0, 0) =~= Seq::<PolicyRuleView>::empty());
    assert(views(e@) =~= Seq::<PolicyRuleView>::empty());
    while i < rules.len()
        invariant
            s == views(rules@),
            i <= rules@.len(),
            views(e@) == evaluation_order(s.subrange(0, i as int)),
        decreases rules@.len() - i,
    {
        let r = &rules[i];
        assert(s.subrange(0, i as int + 1).drop_last() =~= s.subrange(0, i as int));
        assert(s.subrange(0, i as int + 1).last() == r@);
        if r.enabled {
            let ghost t = views(e@);
            let mut j: usize = 0;
            while j < e.len() && !evaluated_before_exec(r, &e[j])
                invariant
                    t == views(e@),
                    j <= e@.len(),
                    forall|k: int| 0 <= k < j ==> !evaluated_before(r@, #[trigger] t[k]),
                decreases e@.len() - j,
            {
                j += 1;
            }
            proof {
                lemma_stable_insert_at(t, r@, j as int);
            }
            e.insert(j, r.duplicate());
            assert(views(e@) =~= t.insert(j as int, r@));
        }
        i += 1;
    }
    assert(s.subrange(0, s.len() as int) =~= s);
    e
}

/// What an apply item does.
#[derive(Clone, Copy, Debug, PartialEq, Eq, Structural)]
pub enum FilePolicyPatchOp {
    Upsert,
    Delete,
    Enable,
    Disable,
}

/// One change of an apply request.
pub struct FilePolicyPatchItem {
    pub op: FilePolicyPatchOp,
    pub rule_id: Option<String>,
    pub rule: Option<FilePolicyRuleDraft>,
}

/// How an apply request treats invalid items: skip them, or (`Aon`,
/// all-or-nothing) refuse the whole request.
#[derive(Clone, Copy, Debug, PartialEq, Eq, Structural)]
pub enum FilePolicyApplyMode {
    BestEffort,
    Aon,
}

pub struct FilePolicyApplyPrecondition {
    pub base_revision: u64,
    pub apply_mode: FilePolicyApplyMode,
}

pub struct FilePolicyApplyRequest {
    pub precondition: FilePolicyApplyPrecondition,
    pub items: Vec<FilePolicyPatchItem>,
}

/// Why the item at `item_index` was refused.
pub struct FilePolicyApplyError {
    pub item_index: u32,
    pub code: String,
    pub message: String,
}

impl View for FilePolicyApplyError {
    type V = (u32, Seq<char>, Seq<char>);

    open spec fn view(&self) -> (u32, Seq<char>, Seq<char>) {
        (self.item_index, self.code@, self.message@)
    }
}

pub open spec fn error_views(v: Seq<FilePolicyApplyError>) -> Seq<(u32, Seq<char>, Seq<char>)> {
    v.map_values(|e: FilePolicyApplyError| e@)
}

#[derive(Clone, Copy, Debug, PartialEq, Eq, Structural)]
pub enum FilePolicyApplyStatus {
    Accepted,
    Rejected,
}

pub struct FilePolicyApplyResult {
    pub status: FilePolicyApplyStatus,
    pub new_revision: u64,
    pub applied_count: u32,
    pub rejected_count: u32,
    pub errors: Vec<FilePolicyApplyError>,
}

pub struct ApplyResultView {
    pub status: FilePolicyApplyStatus,
    pub new_revision: u64,
    pub applied_count: u32,
    pub rejected_count: u32,
    pub errors: Seq<(u32, Seq<char>, Seq<char>)>,
}

impl View for FilePolicyApplyResult {
    type V = ApplyResultView;

    open spec fn view(&self) -> ApplyResultView {
        ApplyResultView {
            status: self.status,
            new_revision: self.new_revision,
            applied_count: self.applied_count,
            rejected_count: self.rejected_count,
            errors: error_views(self.errors@),
        }
    }
}

/// An index or a count as the `u32` fields report it (the low 32 bits).
pub open spec fn low32(n: int) -> u32 {
    (n % 0x1_0000_0000) as u32
}

fn low32_exec(n: usize) -> (r: u32)
    ensures
        r == low32(n as int),
{
    ((n as u64) % 0x1_0000_0000) as u32
}

pub open spec fn result_from_errors(revision: u64, applied_count: u32, errors: Seq<(u32, Seq<char>, Seq<char>)>) -> ApplyResultView {
    ApplyResultView {
        status: if errors.len() == 0 {
            FilePolicyApplyStatus::Accepted
        } else {
            FilePolicyApplyStatus::Rejected
        },
        new_revision: revision,
        applied_count,
        rejected_count: low32(errors.len() as int),
        errors,
    }
}

/// The result that reports `errors` at `revision`.
pub fn apply_result_from_errors(revision: u64, applied_count: u32, errors: Vec<FilePolicyApplyError>) -> (r: FilePolicyApplyResult)
    ensures
        r@ == result_from_errors(revision, applied_count, error_views(errors@)),
{
    let n = errors.len();
    FilePolicyApplyResult {
        status: if n == 0 {
            FilePolicyApplyStatus::Accepted
        } else {
            FilePolicyApplyStatus::Rejected
        },
        new_revision: revision,
        applied_count,
        rejected_count: low32_exec(n),
        errors,
    }
}

pub open spec fn stale_message(rule_id: Seq<char>, base_revision: u64, rule_revision: u64) -> Seq<char> {
    "stale file policy request for rule "@ + rule_id + ": base_revision "@ + decimal(base_revision as nat)
        + " is older than rule revision "@ + decimal(rule_revision as nat)
}

/// A change based on `base_revision` must not overwrite a rule updated since.
pub open spec fn not_stale(base_revision: u64, existing: PolicyRuleView) -> Result<(), Seq<char>> {
    if existing.updated_revision > base_revision {
        Err(stale_message(existing.rule_id, base_revision, existing.updated_revision))
    } else {
        Ok(())
    }
}

/// The first rule of `owner` in `s` that has the draft's logical scope and
/// was updated after `base_revision`.
pub open spec fn first_stale_same_scope(s: Seq<PolicyRuleView>, owner: Seq<char>, draft: PolicyRuleView, base_revision: u64) -> Option<PolicyRuleView>
    decreases s.len(),
{
    if s.len() == 0 {
        None
    } else if s[0].owner == owner && same_logical_scope(s[0], draft) && s[0].updated_revision > base_revision {
        Some(s[0])
    } else {
        first_stale_same_scope(s.drop_first(), owner, draft, base_revision)
    }
}

/// An upsert is stale when the rule it replaces, or a rule of the same
/// logical scope, changed after the request's base revision.
pub open spec fn not_stale_upsert(rules: Seq<PolicyRuleView>, owner: Seq<char>, base_revision: u64, draft: PolicyRuleView) -> Result<(), Seq<char>> {
    let same_id = match find_key(rules, (owner, draft.rule_id)) {
        Some(p) => not_stale(base_revision, rules[p]),
        None => Ok(()),
    };
    match same_id {
        Err(e) => Err(e),
        Ok(_) => match first_stale_same_scope(rules, owner, draft, base_revision) {
            Some(e) => Err(stale_message(e.rule_id, base_revision, e.updated_revision)),
            None => Ok(()),
        },
    }
}

pub open spec fn not_found_message(rule_id: Seq<char>) -> Seq<char> {
    "rule "@ + rule_id + " not found for owner"@
}

/// Why `item` cannot be applied to `rules` for `owner`, if it cannot.
#[verifier::opaque]
pub open spec fn validate_item_spec(
    rules: Seq<PolicyRuleView>,
    revision: u64,
    next_rule_id: u64,
    owner: Seq<char>,
    grants: Seq<FilePolicyRulesApplyGrant>,
    base_revision: u64,
    item: FilePolicyPatchItem,
    active_deciders: Seq<u64>,
) -> Result<(), Seq<char>> {
    match item.op {
        FilePolicyPatchOp::Upsert => match item.rule {
            None => Err("upsert requires rule"@),
            Some(draft) => match draft_grant_spec(grants, draft) {
                Err(e) => Err(e),
                Ok(_) => match gray_target_spec(draft, active_deciders) {
                    Err(e) => Err(e),
                    Ok(_) => match from_draft_spec(owner, draft, opt_text(item.rule_id), revision, 1, next_rule_id) {
                        Err(e) => Err(e),
                        Ok(d) => not_stale_upsert(rules, owner, base_revision, d),
                    },
                },
            },
        },
        _ => match item.rule_id {
            None => Err("rule_id is required"@),
            Some(id) => match find_key(rules, (owner, id@)) {
                None => Err(not_found_message(id@)),
                Some(p) => match not_stale(base_revision, rules[p]) {
                    Err(e) => Err(e),
                    Ok(_) => rule_grant_spec(grants, rules[p].decision, rules[p].scope),
                },
            },
        },
    }
}

fn stale_error(rule_id: &str, base_revision: u64, rule_revision: u64) -> (e: String)
    ensures
        e@ == stale_message(rule_id@, base_revision, rule_revision),
{
    let mut m = String::from_str("stale file policy request for rule ");
    m.append(rule_id);
    m.append(": base_revision ");
    push_decimal(&mut m, base_revision);
    m.append(" is older than rule revision ");
    push_decimal(&mut m, rule_revision);
    m
}

fn validate_not_stale_rule(base_revision: u64, existing: &StoredPolicyRule) -> (r: Result<(), String>)
    ensures
        unit_result(r) == not_stale(base_revision, existing@),
{
    if existing.updated_revision > base_revision {
        return Err(stale_error(existing.rule_id.as_str(), base_revision, existing.updated_revision));
    }
    Ok(())
}

fn validate_not_stale_upsert(rules: &Vec<StoredPolicyRule>, owner: &str, base_revision: u64, draft_rule: &StoredPolicyRule) -> (r: Result<
    (),
    String,
>)
    requires
        draft_rule@.owner == owner@,
    ensures
        unit_result(r) == not_stale_upsert(views(rules@), owner@, base_revision, draft_rule@),
{
    let ghost s = views(rules@);
    match find_rule(rules, owner, draft_rule.rule_id.as_str()) {
        Some(p) => {
            match validate_not_stale_rule(base_revision, &rules[p]) {
                Err(e) => {
                    return Err(e);
                },
                Ok(_) => {},
            }
        },
        None => {},
    }
    let mut i: usize = 0;
    assert(s.subrange(0, s.len() as int) =~= s);
    while i < rules.len()
        invariant
            s == views(rules@),
            i <= rules@.len(),
            match find_key(s, (owner@, draft_rule@.rule_id)) {
                Some(p) => not_stale(base_revision, s[p]) is Ok,
                None => true,
            },
            first_stale_same_scope(s.subrange(i as int, s.len() as int), owner@, draft_rule@, base_revision)
                == first_stale_same_scope(s, owner@, draft_rule@, base_revision),
        decreases rules@.len() - i,
    {
        let e = &rules[i];
        let ghost t = s.subrange(i as int, s.len() as int);
        assert(t[0] == e@);
        assert(t.drop_first() =~= s.subrange(i as int + 1, s.len() as int));
        if str_eq(e.owner_instance_id.as_str(), owner) && e.has_same_logical_scope(draft_rule) && e.updated_revision
            > base_revision {
            return Err(stale_error(e.rule_id.as_str(), base_revision, e.updated_revision));
        }
        i += 1;
    }
    Ok(())
}

/// The store.
#[derive(Debug)]
pub struct EnforcementRules {
    revision: u64,
    next_rule_id: u64,
    next_sequence: u64,
    owners: Vec<String>,
    rules: Vec<StoredPolicyRule>,
    effective_rules: Vec<StoredPolicyRule>,
}

/// What the store holds: its counters, the owners that have a rule map
/// (possibly emptied), the rules in key order, and the evaluation list.
pub struct RulesModel {
    pub revision: u64,
    pub next_rule_id: u64,
    pub next_sequence: u64,
    pub owners: Set<Seq<char>>,
    pub rules: Seq<PolicyRuleView>,
    pub effective: Seq<PolicyRuleView>,
}

impl View for EnforcementRules {
    type V = RulesModel;

    closed spec fn view(&self) -> RulesModel {
        RulesModel {
            revision: self.revision,
            next_rule_id: self.next_rule_id,
            next_sequence: self.next_sequence,
            owners: texts(self.owners@).to_set(),
            rules: views(self.rules@),
            effective: views(self.effective_rules@),
        }
    }
}

/// The reasons the items of a request are refused, by item index.
pub open spec fn validation_errors(
    m: RulesModel,
    owner: Seq<char>,
    grants: Seq<FilePolicyRulesApplyGrant>,
    base_revision: u64,
    items: Seq<FilePolicyPatchItem>,
    active_deciders: Seq<u64>,
) -> Seq<(u32, Seq<char>, Seq<char>)>
    decreases items.len(),
{
    if items.len() == 0 {
        Seq::empty()
    } else {
        let prev = validation_errors(m, owner, grants, base_revision, items.drop_last(), active_deciders);
        match validate_item_spec(m.rules, m.revision, m.next_rule_id, owner, grants, base_revision, items.last(), active_deciders) {
            Err(msg) => prev.push((low32(items.len() - 1), "invalid-rule"@, msg)),
            Ok(_) => prev,
        }
    }
}

pub open spec fn aon_message() -> Seq<char> {
    "file policy apply_mode aon is temporarily disabled"@
}

pub open spec fn newer_base_message(base_revision: u64, revision: u64) -> Seq<char> {
    "base_revision "@ + decimal(base_revision as nat) + " is newer than current revision "@ + decimal(revision as nat)
}

/// The answer to a request whose precondition is refused: all-or-nothing
/// mode is disabled, and the base revision must not be ahead of the store.
pub open spec fn precondition_rejection(revision: u64, pre: FilePolicyApplyPrecondition) -> Option<ApplyResultView> {
    if pre.apply_mode is Aon {
        Some(result_from_errors(revision, 0, seq![(0u32, "unsupported-apply-mode"@, aon_message())]))
    } else if pre.base_revision > revision {
        Some(
            result_from_errors(
                revision,
                0,
                seq![(0u32, "invalid-precondition"@, newer_base_message(pre.base_revision, revision))],
            ),
        )
    } else {
        None
    }
}

/// The answer a dry run of the request gets.
pub open spec fn validate_apply_spec(
    m: RulesModel,
    owner: Seq<char>,
    grants: Seq<FilePolicyRulesApplyGrant>,
    request: FilePolicyApplyRequest,
    active_deciders: Seq<u64>,
) -> ApplyResultView {
    match precondition_rejection(m.revision, request.precondition) {
        Some(r) => r,
        None => result_from_errors(
            m.revision,
            0,
            validation_errors(m, owner, grants, request.precondition.base_revision, request.items@, active_deciders),
        ),
    }
}

fn item_rule_id(item: &FilePolicyPatchItem) -> (r: Option<&str>)
    ensures
        opt_str_text(r) == opt_text(item.rule_id),
{
    match &item.rule_id {
        Some(s) => Some(s.as_str()),
        None => None,
    }
}

impl EnforcementRules {
    /// The rules are in key order and every rule's owner has a map.
    pub closed spec fn wf(&self) -> bool {
        &&& sorted_keys(views(self.rules@))
        &&& texts(self.owners@).no_duplicates()
        &&& forall|i: int| 0 <= i < self.rules@.len() ==> texts(self.owners@).contains(#[trigger] self.rules@[i]@.owner)
    }

    /// An empty store at revision 0.
    pub fn empty() -> (r: EnforcementRules)
        ensures
            r.wf(),
            r@.revision == 0,
            r@.next_rule_id == 1,
            r@.next_sequence == 1,
            r@.owners == Set::<Seq<char>>::empty(),
            r@.rules == Seq::<PolicyRuleView>::empty(),
            r@.effective == Seq::<PolicyRuleView>::empty(),
    {
        let r = EnforcementRules {
            revision: 0,
            next_rule_id: 1,
            next_sequence: 1,
            owners: Vec::new(),
            rules: Vec::new(),
            effective_rules: Vec::new(),
        };
        assert(texts(r.owners@) =~= Seq::<Seq<char>>::empty());
        assert(texts(r.owners@).to_set() =~= Set::<Seq<char>>::empty());
        assert(views(r.rules@) =~= Seq::<PolicyRuleView>::empty());
        assert(views(r.effective_rules@) =~= Seq::<PolicyRuleView>::empty());
        r
    }

    pub fn revision(&self) -> (r: u64)
        ensures
            r == self@.revision,
    {
        self.revision
    }

    /// No rule is in effect.
    pub fn is_empty(&self) -> (r: bool)
        ensures
            r == (self@.effective.len() == 0),
    {
        self.effective_rules.len() == 0
    }

    fn validate_item(
        &self,
        owner: &str,
        grants: &[FilePolicyRulesApplyGrant],
        base_revision: u64,
        item: &FilePolicyPatchItem,
        active_deciders: &[u64],
    ) -> (r: Result<(), String>)
        requires
            self.wf(),
        ensures
            unit_result(r) == validate_item_spec(
                self@.rules,
                self@.revision,
                self@.next_rule_id,
                owner@,
                grants@,
                base_revision,
                *item,
                active_deciders@,
            ),
    {
        reveal(validate_item_spec);
        match item.op {
            FilePolicyPatchOp::Upsert => {
                let draft = match &item.rule {
                    Some(d) => d,
                    None => {
                        return Err(String::from_str("upsert requires rule"));
                    },
                };
                match validate_draft_grant(grants, draft) {
                    Err(e) => {
                        return Err(e);
                    },
                    Ok(_) => {},
                }
                match validate_gray_target(draft, active_deciders) {
                    Err(e) => {
                        return Err(e);
                    },
                    Ok(_) => {},
                }
                let draft_rule = match StoredPolicyRule::from_draft(
                    owner,
                    draft,
                    item_rule_id(item),
                    self.revision,
                    1,
                    self.next_rule_id,
                ) {
                    Ok(d) => d,
                    Err(e) => {
                        return Err(e);
                    },
                };
                validate_not_stale_upsert(&self.rules, owner, base_revision, &draft_rule)
            },
            _ => {
                let rule_id = match &item.rule_id {
                    Some(id) => id,
                    None => {
                        return Err(String::from_str("rule_id is required"));
                    },
                };
                let p = match find_rule(&self.rules, owner, rule_id.as_str()) {
                    Some(p) => p,
                    None => {
                        let mut m = String::from_str("rule ");
                        m.append(rule_id.as_str());
                        m.append(" not found for owner");
                        return Err(m);
                    },
                };
                let existing = &self.rules[p];
                match validate_not_stale_rule(base_revision, existing) {
                    Err(e) => {
                        return Err(e);
                    },
                    Ok(_) => {},
                }
                validate_rule_grant(grants, existing.decision, &existing.scope)
            },
        }
    }

    fn validate_apply_items(
        &self,
        owner: &str,
        grants: &[FilePolicyRulesApplyGrant],
        base_revision: u64,
        items: &[FilePolicyPatchItem],
        active_deciders: &[u64],
    ) -> (r: Vec<FilePolicyApplyError>)
        requires
            self.wf(),
        ensures
            error_views(r@) == validation_errors(self@, owner@, grants@, base_revision, items@, active_deciders@),
    {
        let mut errors: Vec<FilePolicyApplyError> = Vec::new();
        let mut i: usize = 0;
        assert(items@.subrange(0, 0) =~= Seq::<FilePolicyPatchItem>::empty());
        assert(error_views(errors@) =~= Seq::<(u32, Seq<char>, Seq<char>)>::empty());
        while i < items.len()
            invariant
                self.wf(),
                i <= items@.len(),
                error_views(errors@) == validation_errors(
                    self@,
                    owner@,
                    grants@,
                    base_revision,
                    items@.subrange(0, i as int),
                    active_deciders@,
                ),
            decreases items@.len() - i,
        {
            let ghost prev = error_views(errors@);
            assert(items@.subrange(0, i as int + 1).drop_last() =~= items@.subrange(0, i as int));
            assert(items@.subrange(0, i as int + 1).last() == items@[i as int]);
            match self.validate_item(owner, grants, base_revision, &items[i], active_deciders) {
                Err(message) => {
                    errors.push(
                        FilePolicyApplyError {
                            item_index: low32_exec(i),
                            code: String::from_str("invalid-rule"),
                            message,
                        },
                    );
                    assert(error_views(errors@) =~= prev.push(errors@.last()@));
                },
                Ok(_) => {},
            }
            i += 1;
        }
        assert(items@.subrange(0, items@.len() as int) =~= items@);
        errors
    }

    fn reject_invalid_precondition(&self, precondition: &FilePolicyApplyPrecondition) -> (r: Option<FilePolicyApplyResult>)
        ensures
            match r {
                Some(res) => precondition_rejection(self@.revision, *precondition) == Some(res@),
                None => precondition_rejection(self@.revision, *precondition) is None,
            },
    {
        if precondition.apply_mode == FilePolicyApplyMode::Aon {
            let mut errors: Vec<FilePolicyApplyError> = Vec::new();
            errors.push(
                FilePolicyApplyError {
                    item_index: 0,
                    code: String::from_str("unsupported-apply-mode"),
                    message: String::from_str("file policy apply_mode aon is temporarily disabled"),
                },
            );
            let r = apply_result_from_errors(self.revision, 0, errors);
            assert(error_views(errors@) =~= seq![(0u32, "unsupported-apply-mode"@, aon_message())]);
            return Some(r);
        }
        if precondition.base_revision > self.revision {
            let mut m = String::from_str("base_revision ");
            push_decimal(&mut m, precondition.base_revision);
            m.append(" is newer than current revision ");
            push_decimal(&mut m, self.revision);
            let mut errors: Vec<FilePolicyApplyError> = Vec::new();
            errors.push(FilePolicyApplyError { item_index: 0, code: String::from_str("invalid-precondition"), message: m });
            assert(error_views(errors@) =~= seq![
                (0u32, "invalid-precondition"@, newer_base_message(precondition.base_revision, self.revision)),
            ]);
            return Some(apply_result_from_errors(self.revision, 0, errors));
        }
        None
    }

    /// What applying `request` for `owner` would answer, without applying
    /// it.
    pub fn validate_apply(
        &self,
        owner_instance_id: &str,
        grants: &[FilePolicyRulesApplyGrant],
        request: &FilePolicyApplyRequest,
        active_deciders: &[u64],
    ) -> (r: FilePolicyApplyResult)
        requires
            self.wf(),
        ensures
            r@ == validate_apply_spec(self@, owner_instance_id@, grants@, *request, active_deciders@),
    {
        match self.reject_invalid_precondition(&request.precondition) {
            Some(result) => {
                return result;
            },
            None => {},
        }
        let errors = self.validate_apply_items(
            owner_instance_id,
            grants,
            request.precondition.base_revision,
            request.items.as_slice(),
            active_deciders,
        );
        apply_result_from_errors(self.revision, 0, errors)
    }
}

pub open spec fn sat_inc(n: u64) -> u64 {
    if n == u64::MAX {
        n
    } else {
        (n + 1) as u64
    }
}

pub open spec fn sat_inc32(n: u32) -> u32 {
    if n == u32::MAX {
        n
    } else {
        (n + 1) as u32
    }
}

/// The first host rule number from `n` on whose id `fp-<n>` the owner does
/// not use (the search stops at the largest number).
pub open spec fn next_host_rule_number(rules: Seq<PolicyRuleView>, owner: Seq<char>, n: u64) -> u64
    decreases u64::MAX - n,
{
    if n == u64::MAX || find_key(rules, (owner, host_rule_id(n))) is None {
        n
    } else {
        next_host_rule_number(rules, owner, (n + 1) as u64)
    }
}

/// `r` is an older host-assigned rule that a host-assigned `st` of the same
/// logical scope replaces.
pub open spec fn superseded_by(r: PolicyRuleView, st: PolicyRuleView) -> bool {
    r.owner == st.owner && r.identity is HostAuto && same_logical_scope(r, st) && r.rule_id != st.rule_id
}

pub open spec fn drop_superseded(s: Seq<PolicyRuleView>, st: PolicyRuleView) -> Seq<PolicyRuleView>
    decreases s.len(),
{
    if s.len() == 0 {
        s
    } else {
        let p = drop_superseded(s.drop_last(), st);
        if superseded_by(s.last(), st) {
            p
        } else {
            p.push(s.last())
        }
    }
}

pub open spec fn without_owner(s: Seq<PolicyRuleView>, owner: Seq<char>) -> Seq<PolicyRuleView>
    decreases s.len(),
{
    if s.len() == 0 {
        s
    } else {
        let p = without_owner(s.drop_last(), owner);
        if s.last().owner == owner {
            p
        } else {
            p.push(s.last())
        }
    }
}

pub proof fn lemma_drop_superseded(s: Seq<PolicyRuleView>, st: PolicyRuleView)
    requires
        sorted_keys(s),
    ensures
        sorted_keys(drop_superseded(s, st)),
        forall|i: int| 0 <= i < drop_superseded(s, st).len() ==> s.contains(#[trigger] drop_superseded(s, st)[i]),
    decreases s.len(),
{
    if s.len() > 0 {
        let t = s.drop_last();
        assert(sorted_keys(t));
        lemma_drop_superseded(t, st);
        let p = drop_superseded(t, st);
        assert forall|i: int| 0 <= i < drop_superseded(s, st).len() implies s.contains(#[trigger] drop_superseded(s, st)[i]) by {
            if i < p.len() {
                assert(t.contains(p[i]));
                let j = choose|j: int| 0 <= j < t.len() && t[j] == p[i];
                assert(s[j] == p[i]);
            } else {
                assert(s[s.len() - 1] == s.last());
            }
        }
        if !superseded_by(s.last(), st) {
            let q = p.push(s.last());
            assert forall|a: int, b: int| 0 <= a < b < q.len() implies key_less(rkey(#[trigger] q[a]), rkey(#[trigger] q[b])) by {
                if b == p.len() {
                    assert(t.contains(p[a]));
                    let j = choose|j: int| 0 <= j < t.len() && t[j] == p[a];
                    assert(s[j] == t[j]);
                    assert(key_less(rkey(s[j]), rkey(s[s.len() - 1])));
                } else {
                    assert(q[a] == p[a] && q[b] == p[b]);
                }
            }
        }
    }
}

pub proof fn lemma_without_owner(s: Seq<PolicyRuleView>, owner: Seq<char>)
    requires
        sorted_keys(s),
    ensures
        sorted_keys(without_owner(s, owner)),
        forall|i: int| 0 <= i < without_owner(s, owner).len() ==> s.contains(#[trigger] without_owner(s, owner)[i]),
        forall|i: int| 0 <= i < without_owner(s, owner).len() ==> (#[trigger] without_owner(s, owner)[i]).owner != owner,
    decreases s.len(),
{
    if s.len() > 0 {
        let t = s.drop_last();
        assert(sorted_keys(t));
        lemma_without_owner(t, owner);
        let p = without_owner(t, owner);
        assert forall|i: int| 0 <= i < without_owner(s, owner).len() implies s.contains(#[trigger] without_owner(s, owner)[i]) by {
            if i < p.len() {
                assert(t.contains(p[i]));
                let j = choose|j: int| 0 <= j < t.len() && t[j] == p[i];
                assert(s[j] == p[i]);
            } else {
                assert(s[s.len() - 1] == s.last());
            }
        }
        if s.last().owner != owner {
            let q = p.push(s.last());
            assert forall|a: int, b: int| 0 <= a < b < q.len() implies key_less(rkey(#[trigger] q[a]), rkey(#[trigger] q[b])) by {
                if b == p.len() {
                    assert(t.contains(p[a]));
                    let j = choose|j: int| 0 <= j < t.len() && t[j] == p[a];
                    assert(s[j] == t[j]);
                    assert(key_less(rkey(s[j]), rkey(s[s.len() - 1])));
                } else {
                    assert(q[a] == p[a] && q[b] == p[b]);
                }
            }
            assert forall|i: int| 0 <= i < q.len() implies (#[trigger] q[i]).owner != owner by {
                if i < p.len() {
                    assert(q[i] == p[i]);
                }
            }
        }
    }
}

/// What applying one item does to the store, and whether it failed.
#[verifier::opaque]
pub open spec fn apply_item_spec(m: RulesModel, owner: Seq<char>, item: FilePolicyPatchItem, mutation_revision: u64) -> (RulesModel, Result<(), Seq<char>>) {
    match item.op {
        FilePolicyPatchOp::Upsert => match item.rule {
            None => (m, Err("upsert requires rule"@)),
            Some(draft) => {
                let sequence = m.next_sequence;
                let m1 = RulesModel { next_sequence: sat_inc(sequence), ..m };
                let n = next_host_rule_number(m1.rules, owner, m1.next_rule_id);
                match from_draft_spec(owner, draft, opt_text(item.rule_id), mutation_revision, sequence, n) {
                    Err(e) => (m1, Err(e)),
                    Ok(st) => {
                        let auto = st.identity is HostAuto;
                        (
                            RulesModel {
                                next_rule_id: if auto {
                                    sat_inc(n)
                                } else {
                                    m1.next_rule_id
                                },
                                owners: m1.owners.insert(owner),
                                rules: upsert_rule(
                                    if auto {
                                        drop_superseded(m1.rules, st)
                                    } else {
                                        m1.rules
                                    },
                                    st,
                                ),
                                ..m1
                            },
                            Ok(()),
                        )
                    },
                }
            },
        },
        FilePolicyPatchOp::Delete => match item.rule_id {
            None => (m, Err("rule_id is required"@)),
            Some(id) => (RulesModel { rules: remove_key(m.rules, (owner, id@)), ..m }, Ok(())),
        },
        _ => match item.rule_id {
            None => (m, Err("rule_id is required"@)),
            Some(id) => {
                let sequence = m.next_sequence;
                let m1 = RulesModel { next_sequence: sat_inc(sequence), ..m };
                match find_key(m.rules, (owner, id@)) {
                    None => (m1, Err(not_found_message(id@))),
                    Some(p) => (
                        RulesModel {
                            rules: m.rules.update(
                                p,
                                PolicyRuleView {
                                    enabled: item.op is Enable,
                                    updated_revision: mutation_revision,
                                    updated_sequence: sequence,
                                    ..m.rules[p]
                                },
                            ),
                            ..m1
                        },
                        Ok(()),
                    ),
                }
            },
        },
    }
}

pub proof fn lemma_apply_item_keeps_revision(m: RulesModel, owner: Seq<char>, item: FilePolicyPatchItem, mutation_revision: u64)
    ensures
        apply_item_spec(m, owner, item, mutation_revision).0.revision == m.revision,
{
    reveal(apply_item_spec);
}

/// An error of the list names item `k`.
pub open spec fn names_item(errors: Seq<(u32, Seq<char>, Seq<char>)>, k: u32) -> bool {
    exists|j: int| 0 <= j < errors.len() && (#[trigger] errors[j]).0 == k
}

/// Applying the items from `i` on that validation did not refuse, each at
/// the next revision, counting them; the first failure stops the run.
pub open spec fn apply_items_spec(
    m: RulesModel,
    owner: Seq<char>,
    items: Seq<FilePolicyPatchItem>,
    errors: Seq<(u32, Seq<char>, Seq<char>)>,
    i: int,
    applied: u32,
) -> (RulesModel, Result<u32, Seq<char>>)
    decreases items.len() - i,
{
    if i < 0 || i >= items.len() {
        (m, Ok(applied))
    } else if names_item(errors, low32(i)) {
        apply_items_spec(m, owner, items, errors, i + 1, applied)
    } else {
        let (m1, r) = apply_item_spec(m, owner, items[i], sat_inc(m.revision));
        match r {
            Err(e) => (m1, Err(e)),
            Ok(_) => apply_items_spec(m1, owner, items, errors, i + 1, sat_inc32(applied)),
        }
    }
}

/// What applying a request does to the store and what it answers: a
/// refused precondition changes nothing; otherwise every item that passes
/// validation is applied, and when any was, the revision moves on by one
/// and the evaluation list is rebuilt.
pub open spec fn apply_spec(
    m: RulesModel,
    owner: Seq<char>,
    grants: Seq<FilePolicyRulesApplyGrant>,
    request: FilePolicyApplyRequest,
    active_deciders: Seq<u64>,
) -> (RulesModel, Result<ApplyResultView, Seq<char>>) {
    match precondition_rejection(m.revision, request.precondition) {
        Some(r) => (m, Ok(r)),
        None => {
            let errors = validation_errors(m, owner, grants, request.precondition.base_revision, request.items@, active_deciders);
            let (m1, run) = apply_items_spec(m, owner, request.items@, errors, 0, 0);
            match run {
                Err(e) => (m1, Err(e)),
                Ok(applied) => {
                    let m2 = if applied > 0 {
                        RulesModel { revision: sat_inc(m1.revision), effective: evaluation_order(m1.rules), ..m1 }
                    } else {
                        m1
                    };
                    (
                        m2,
                        Ok(
                            ApplyResultView {
                                status: if errors.len() == 0 || applied > 0 {
                                    FilePolicyApplyStatus::Accepted
                                } else {
                                    FilePolicyApplyStatus::Rejected
                                },
                                new_revision: m2.revision,
                                applied_count: applied,
                                rejected_count: low32(errors.len() as int),
                                errors,
                            },
                        ),
                    )
                },
            }
        },
    }
}

pub open spec fn apply_outcome(r: Result<FilePolicyApplyResult, String>) -> Result<ApplyResultView, Seq<char>> {
    match r {
        Ok(x) => Ok(x@),
        Err(e) => Err(e@),
    }
}

fn host_rule_id_text(n: u64) -> (s: String)
    ensures
        s@ == host_rule_id(n),
{
    let mut s = String::from_str("fp-");
    push_decimal(&mut s, n);
    s
}

fn contains_owner(owners: &Vec<String>, owner: &str) -> (r: Option<usize>)
    ensures
        match r {
            Some(i) => i < owners@.len() && owners@[i as int]@ == owner@,
            None => !texts(owners@).contains(owner@),
        },
{
    let mut i: usize = 0;
    while i < owners.len()
        invariant
            i <= owners@.len(),
            forall|k: int| 0 <= k < i ==> owners@[k]@ != owner@,
        decreases owners@.len() - i,
    {
        if str_eq(owners[i].as_str(), owner) {
            return Some(i);
        }
        i += 1;
    }
    proof {
        if texts(owners@).contains(owner@) {
            let k = choose|k: int| 0 <= k < texts(owners@).len() && texts(owners@)[k] == owner@;
            assert(owners@[k]@ == owner@);
        }
    }
    None
}

fn errors_name(errors: &Vec<FilePolicyApplyError>, k: u32) -> (r: bool)
    ensures
        r == names_item(error_views(errors@), k),
{
    let mut j: usize = 0;
    while j < errors.len()
        invariant
            j <= errors@.len(),
            forall|x: int| 0 <= x < j ==> errors@[x].item_index != k,
        decreases errors@.len() - j,
    {
        if errors[j].item_index == k {
            assert(error_views(errors@)[j as int].0 == k);
            return true;
        }
        j += 1;
    }
    proof {
        if names_item(error_views(errors@), k) {
            let x = choose|x: int| 0 <= x < error_views(errors@).len() && (#[trigger] error_views(errors@)[x]).0 == k;
            assert(errors@[x].item_index == k);
        }
    }
    false
}

impl EnforcementRules {
    fn next_sequence(&mut self) -> (sequence: u64)
        ensures
            sequence == old(self)@.next_sequence,
            final(self)@ == (RulesModel { next_sequence: sat_inc(old(self)@.next_sequence), ..old(self)@ }),
            final(self).wf() == old(self).wf(),
    {
        let sequence = self.next_sequence;
        self.next_sequence = self.next_sequence.saturating_add(1);
        sequence
    }

    fn host_id_taken(&self, owner: &str, n: u64) -> (r: bool)
        ensures
            r == (find_key(self@.rules, (owner@, host_rule_id(n))) is Some),
    {
        let id = host_rule_id_text(n);
        find_rule(&self.rules, owner, id.as_str()).is_some()
    }

    fn next_available_host_rule_number(&self, owner: &str) -> (n: u64)
        ensures
            n == next_host_rule_number(self@.rules, owner@, self@.next_rule_id),
    {
        let mut next = self.next_rule_id;
        while next < u64::MAX && self.host_id_taken(owner, next)
            invariant
                next_host_rule_number(self@.rules, owner@, next) == next_host_rule_number(
                    self@.rules,
                    owner@,
                    self@.next_rule_id,
                ),
            decreases u64::MAX - next,
        {
            next = next + 1;
        }
        next
    }

    fn add_owner(&mut self, owner: &str)
        requires
            old(self).wf(),
        ensures
            final(self).wf(),
            final(self)@ == (RulesModel { owners: old(self)@.owners.insert(owner@), ..old(self)@ }),
    {
        match contains_owner(&self.owners, owner) {
            Some(i) => {
                proof {
                    assert(texts(self.owners@)[i as int] == owner@);
                    assert(texts(self.owners@).to_set().insert(owner@) =~= texts(self.owners@).to_set());
                }
            },
            None => {
                let ghost before = texts(self.owners@);
                self.owners.push(String::from_str(owner));
                proof {
                    assert(texts(self.owners@) =~= before.push(owner@));
                    assert forall|x: Seq<char>| #[trigger] texts(self.owners@).contains(x) <==> before.contains(x) || x == owner@ by {
                        if before.contains(x) {
                            let k = choose|k: int| 0 <= k < before.len() && before[k] == x;
                            assert(texts(self.owners@)[k] == x);
                        }
                        if x == owner@ {
                            assert(texts(self.owners@)[before.len() as int] == x);
                        }
                        if texts(self.owners@).contains(x) {
                            let k = choose|k: int| 0 <= k < texts(self.owners@).len() && texts(self.owners@)[k] == x;
                            if k < before.len() {
                                assert(before[k] == x);
                            }
                        }
                    }
                    assert(texts(self.owners@).to_set() =~= before.to_set().insert(owner@));
                    assert(texts(self.owners@).no_duplicates()) by {
                        assert forall|a: int, b: int| 0 <= a < b < texts(self.owners@).len() implies texts(self.owners@)[a] != texts(self.owners@)[b] by {
                            if b == before.len() {
                                assert(before[a] == texts(self.owners@)[a]);
                            } else {
                                assert(before[a] == texts(self.owners@)[a] && before[b] == texts(self.owners@)[b]);
                            }
                        }
                    }
                    assert forall|i: int| 0 <= i < self.rules@.len() implies texts(self.owners@).contains(#[trigger] self.rules@[i]@.owner) by {
                        assert(before.contains(self.rules@[i]@.owner));
                        let k = choose|k: int| 0 <= k < before.len() && before[k] == self.rules@[i]@.owner;
                        assert(texts(self.owners@)[k] == before[k]);
                    }
                }
            },
        }
    }

    /// Drops the host-assigned rules that `stored` replaces.
    fn supersede(&mut self, stored: &StoredPolicyRule)
        requires
            old(self).wf(),
        ensures
            final(self).wf(),
            final(self)@ == (RulesModel { rules: drop_superseded(old(self)@.rules, stored@), ..old(self)@ }),
    {
        let mut kept: Vec<StoredPolicyRule> = Vec::new();
        let ghost s = views(self.rules@);
        let mut i: usize = 0;
        assert(s.subrange(0, 0) =~= Seq::<PolicyRuleView>::empty());
        assert(views(kept@) =~= Seq::<PolicyRuleView>::empty());
        while i < self.rules.len()
            invariant
                s == views(self.rules@),
                i <= self.rules@.len(),
                views(kept@) == drop_superseded(s.subrange(0, i as int), stored@),
            decreases self.rules@.len() - i,
        {
            let e = &self.rules[i];
            assert(s.subrange(0, i as int + 1).drop_last() =~= s.subrange(0, i as int));
            assert(s.subrange(0, i as int + 1).last() == e@);
            let gone = str_eq(e.owner_instance_id.as_str(), stored.owner_instance_id.as_str()) && e.is_host_auto()
                && e.has_same_logical_scope(stored) && !str_eq(e.rule_id.as_str(), stored.rule_id.as_str());
            if !gone {
                let ghost before = views(kept@);
                kept.push(e.duplicate());
                assert(views(kept@) =~= before.push(e@));
            }
            i += 1;
        }
        assert(s.subrange(0, s.len() as int) =~= s);
        proof {
            lemma_drop_superseded(s, stored@);
            assert forall|k: int| 0 <= k < kept@.len() implies texts(self.owners@).contains(#[trigger] kept@[k]@.owner) by {
                assert(views(kept@)[k] == kept@[k]@);
                assert(s.contains(views(kept@)[k]));
                let j = choose|j: int| 0 <= j < s.len() && s[j] == views(kept@)[k];
                assert(self.rules@[j]@ == s[j]);
            }
        }
        self.rules = kept;
    }

    /// Stores `stored` under its key; its owner already has a map.
    fn put_rule(&mut self, stored: StoredPolicyRule)
        requires
            old(self).wf(),
            old(self)@.owners.contains(stored@.owner),
        ensures
            final(self).wf(),
            final(self)@ == (RulesModel { rules: upsert_rule(old(self)@.rules, stored@), ..old(self)@ }),
    {
        let ghost before = views(self.rules@);
        let ghost raw = self.rules@;
        let ghost sv = stored@;
        proof {
            lemma_upsert_sorted(before, sv);
        }
        upsert_into(&mut self.rules, stored);
        proof {
            let t = views(self.rules@);
            let p = lower_bound(before, rkey(sv));
            lemma_lower_bound_bounds(before, rkey(sv));
            assert(texts(self.owners@).contains(sv.owner));
            assert forall|j: int| 0 <= j < before.len() implies texts(self.owners@).contains(#[trigger] before[j].owner) by {
                assert(before[j] == raw[j]@);
            }
            assert forall|i: int| 0 <= i < self.rules@.len() implies texts(self.owners@).contains(#[trigger] self.rules@[i]@.owner) by {
                assert(t[i] == self.rules@[i]@);
                if p < before.len() && rkey(before[p]) == rkey(sv) {
                    assert(t == before.update(p, sv));
                    if i != p {
                        assert(t[i] == before[i]);
                    }
                } else {
                    assert(t == before.insert(p, sv));
                    if i < p {
                        assert(t[i] == before[i]);
                    } else if i > p {
                        assert(t[i] == before[i - 1]);
                    }
                }
            }
        }
    }

    fn upsert_item(&mut self, owner: &str, item: &FilePolicyPatchItem, draft: &FilePolicyRuleDraft, mutation_revision: u64) -> (r: Result<(), String>)
        requires
            old(self).wf(),
            item.op == FilePolicyPatchOp::Upsert,
            item.rule == Some(*draft),
        ensures
            final(self).wf(),
            (final(self)@, unit_result(r)) == apply_item_spec(old(self)@, owner@, *item, mutation_revision),
    {
        reveal(apply_item_spec);
        let sequence = self.next_sequence();
        let next_rule_id = self.next_available_host_rule_number(owner);
        let stored = match StoredPolicyRule::from_draft(owner, draft, item_rule_id(item), mutation_revision, sequence, next_rule_id) {
            Ok(st) => st,
            Err(e) => {
                return Err(e);
            },
        };
        let auto = stored.is_host_auto();
        if auto {
            self.next_rule_id = next_rule_id.saturating_add(1);
        }
        self.add_owner(owner);
        if auto {
            self.supersede(&stored);
        }
        self.put_rule(stored);
        Ok(())
    }

    fn toggle_item(&mut self, owner: &str, item: &FilePolicyPatchItem, rule_id: &String, mutation_revision: u64) -> (r: Result<(), String>)
        requires
            old(self).wf(),
            item.op == FilePolicyPatchOp::Enable || item.op == FilePolicyPatchOp::Disable,
            item.rule_id == Some(*rule_id),
        ensures
            final(self).wf(),
            (final(self)@, unit_result(r)) == apply_item_spec(old(self)@, owner@, *item, mutation_revision),
    {
        reveal(apply_item_spec);
        let ghost m = self@;
        let sequence = self.next_sequence();
        let p = match find_rule(&self.rules, owner, rule_id.as_str()) {
            Some(p) => p,
            None => {
                let mut msg = String::from_str("rule ");
                msg.append(rule_id.as_str());
                msg.append(" not found for owner");
                return Err(msg);
            },
        };
        let ghost before = self.rules@;
        let mut rule = self.rules.remove(p);
        rule.enabled = item.op == FilePolicyPatchOp::Enable;
        rule.updated_revision = mutation_revision;
        rule.updated_sequence = sequence;
        self.rules.insert(p, rule);
        proof {
            assert(self.rules@ =~= before.update(p as int, rule));
            assert(views(self.rules@) =~= views(before).update(p as int, rule@));
            assert(rkey(rule@) == rkey(views(before)[p as int]));
            assert forall|i: int, j: int| 0 <= i < j < self.rules@.len() implies key_less(
                rkey(#[trigger] views(self.rules@)[i]),
                rkey(#[trigger] views(self.rules@)[j]),
            ) by {
                assert(key_less(rkey(views(before)[i]), rkey(views(before)[j])));
            }
            assert forall|i: int| 0 <= i < self.rules@.len() implies texts(self.owners@).contains(#[trigger] self.rules@[i]@.owner) by {
                assert(before[i]@.owner == self.rules@[i]@.owner);
            }
        }
        Ok(())
    }

    fn apply_item(&mut self, owner: &str, item: &FilePolicyPatchItem, mutation_revision: u64) -> (r: Result<(), String>)
        requires
            old(self).wf(),
        ensures
            final(self).wf(),
            (final(self)@, unit_result(r)) == apply_item_spec(old(self)@, owner@, *item, mutation_revision),
    {
        reveal(apply_item_spec);
        match item.op {
            FilePolicyPatchOp::Upsert => {
                match &item.rule {
                    Some(d) => self.upsert_item(owner, item, d, mutation_revision),
                    None => Err(String::from_str("upsert requires rule")),
                }
            },
            FilePolicyPatchOp::Delete => {
                match &item.rule_id {
                    Some(id) => {
                        let ghost before = views(self.rules@);
                        proof {
                            lemma_find_key(before, (owner@, id@));
                            match find_key(before, (owner@, id@)) {
                                Some(p) => {
                                    lemma_remove_sorted(before, p);
                                },
                                None => {},
                            }
                        }
                        let ghost raw = self.rules@;
                        remove_from(&mut self.rules, owner, id.as_str());
                        proof {
                            assert forall|i: int| 0 <= i < self.rules@.len() implies texts(self.owners@).contains(#[trigger] self.rules@[i]@.owner) by {
                                assert(views(self.rules@)[i] == self.rules@[i]@);
                                match find_key(before, (owner@, id@)) {
                                    Some(p) => {
                                        if i < p {
                                            assert(views(self.rules@)[i] == before[i]);
                                            assert(before[i] == raw[i]@);
                                        } else {
                                            assert(views(self.rules@)[i] == before[i + 1]);
                                            assert(before[i + 1] == raw[i + 1]@);
                                        }
                                    },
                                    None => {
                                        assert(before[i] == raw[i]@);
                                    },
                                }
                            }
                        }
                        Ok(())
                    },
                    None => Err(String::from_str("rule_id is required")),
                }
            },
            _ => {
                match &item.rule_id {
                    Some(id) => self.toggle_item(owner, item, id, mutation_revision),
                    None => Err(String::from_str("rule_id is required")),
                }
            },
        }
    }
}

impl EnforcementRules {
    /// Moves the revision on and rebuilds the evaluation list.
    fn bump_revision(&mut self)
        requires
            old(self).wf(),
        ensures
            final(self).wf(),
            final(self)@ == (RulesModel {
                revision: sat_inc(old(self)@.revision),
                effective: evaluation_order(old(self)@.rules),
                ..old(self)@
            }),
    {
        self.revision = self.revision.saturating_add(1);
        self.effective_rules = evaluation_list(&self.rules);
    }

    /// Applies, in order, the items that no error names; the first failure
    /// stops the run.
    fn apply_valid_items(&mut self, owner_instance_id: &str, items: &[FilePolicyPatchItem], errors: &Vec<FilePolicyApplyError>) -> (r: Result<u32, String>)
        requires
            old(self).wf(),
        ensures
            final(self).wf(),
            (final(self)@, match r {
                Ok(n) => Ok::<u32, Seq<char>>(n),
                Err(e) => Err(e@),
            }) == apply_items_spec(old(self)@, owner_instance_id@, items@, error_views(errors@), 0, 0),
    {
        let ghost m0 = self@;
        let ghost ev = error_views(errors@);
        let mutation_revision = self.revision.saturating_add(1);
        let mut applied: u32 = 0;
        let mut i: usize = 0;
        while i < items.len()
            invariant
                self.wf(),
                i <= items@.len(),
                m0 == old(self)@,
                self@.revision == m0.revision,
                ev == error_views(errors@),
                mutation_revision == sat_inc(m0.revision),
                apply_items_spec(self@, owner_instance_id@, items@, ev, i as int, applied) == apply_items_spec(
                    m0,
                    owner_instance_id@,
                    items@,
                    ev,
                    0,
                    0,
                ),
            decreases items@.len() - i,
        {
            let ghost before = self@;
            if !errors_name(errors, low32_exec(i)) {
                proof {
                    lemma_apply_item_keeps_revision(before, owner_instance_id@, items@[i as int], mutation_revision);
                }
                match self.apply_item(owner_instance_id, &items[i], mutation_revision) {
                    Err(e) => {
                        assert(apply_items_spec(before, owner_instance_id@, items@, ev, i as int, applied) == (
                        self@,
                        Err::<u32, Seq<char>>(e@),
                        ));
                        return Err(e);
                    },
                    Ok(_) => {},
                }
                assert(apply_items_spec(before, owner_instance_id@, items@, ev, i as int, applied) == apply_items_spec(
                    self@,
                    owner_instance_id@,
                    items@,
                    ev,
                    i as int + 1,
                    sat_inc32(applied),
                ));
                applied = applied.saturating_add(1);
            } else {
                assert(apply_items_spec(before, owner_instance_id@, items@, ev, i as int, applied) == apply_items_spec(
                    self@,
                    owner_instance_id@,
                    items@,
                    ev,
                    i as int + 1,
                    applied,
                ));
            }
            i += 1;
        }
        Ok(applied)
    }

    /// Applies `request` for `owner_instance_id`: items that fail validation
    /// are reported and skipped, the others are applied in order. The
    /// directories fanotify must watch afterwards are those of
    /// [`EnforcementRules::mark_scopes`].
    pub fn apply(
        &mut self,
        owner_instance_id: &str,
        grants: &[FilePolicyRulesApplyGrant],
        request: FilePolicyApplyRequest,
        active_deciders: &[u64],
    ) -> (r: Result<FilePolicyApplyResult, String>)
        requires
            old(self).wf(),
        ensures
            final(self).wf(),
            (final(self)@, apply_outcome(r)) == apply_spec(old(self)@, owner_instance_id@, grants@, request, active_deciders@),
    {
        match self.reject_invalid_precondition(&request.precondition) {
            Some(result) => {
                return Ok(result);
            },
            None => {},
        }
        let errors = self.validate_apply_items(
            owner_instance_id,
            grants,
            request.precondition.base_revision,
            request.items.as_slice(),
            active_deciders,
        );
        let applied = match self.apply_valid_items(owner_instance_id, request.items.as_slice(), &errors) {
            Ok(n) => n,
            Err(e) => {
                return Err(e);
            },
        };
        if applied > 0 {
            self.bump_revision();
        }
        let status = if errors.len() == 0 || applied > 0 {
            FilePolicyApplyStatus::Accepted
        } else {
            FilePolicyApplyStatus::Rejected
        };
        let rejected_count = low32_exec(errors.len());
        Ok(
            FilePolicyApplyResult {
                status,
                new_revision: self.revision,
                applied_count: applied,
                rejected_count,
                errors,
            },
        )
    }

    /// Removes every rule of `owner_instance_id`. When the owner had a rule
    /// map, the revision moves on and the evaluation list is rebuilt, and
    /// the answer is `true`; otherwise nothing changes.
    pub fn remove_owner(&mut self, owner_instance_id: &str) -> (removed: bool)
        requires
            old(self).wf(),
        ensures
            final(self).wf(),
            removed == old(self)@.owners.contains(owner_instance_id@),
            !removed ==> final(self)@ == old(self)@,
            removed ==> final(self)@ == (RulesModel {
                revision: sat_inc(old(self)@.revision),
                owners: old(self)@.owners.remove(owner_instance_id@),
                rules: without_owner(old(self)@.rules, owner_instance_id@),
                effective: evaluation_order(without_owner(old(self)@.rules, owner_instance_id@)),
                ..old(self)@
            }),
    {
        let idx = match contains_owner(&self.owners, owner_instance_id) {
            Some(i) => i,
            None => {
                return false;
            },
        };
        let ghost before_owners = texts(self.owners@);
        proof {
            assert(before_owners[idx as int] == owner_instance_id@);
            assert(before_owners.to_set().contains(owner_instance_id@));
        }
        self.owners.remove(idx);
        proof {
            let after = texts(self.owners@);
            assert(after =~= before_owners.remove(idx as int));
            assert forall|x: Seq<char>| #[trigger] after.contains(x) <==> before_owners.contains(x) && x != owner_instance_id@ by {
                if after.contains(x) {
                    let k = choose|k: int| 0 <= k < after.len() && after[k] == x;
                    let k2 = if k < idx { k } else { k + 1 };
                    assert(before_owners[k2] == x);
                    assert(k2 != idx);
                    assert(before_owners[idx as int] == owner_instance_id@);
                }
                if before_owners.contains(x) && x != owner_instance_id@ {
                    let k = choose|k: int| 0 <= k < before_owners.len() && before_owners[k] == x;
                    assert(k != idx);
                    if k < idx {
                        assert(after[k] == x);
                    } else {
                        assert(after[k - 1] == x);
                    }
                }
            }
            assert(after.to_set() =~= before_owners.to_set().remove(owner_instance_id@));
            assert forall|a: int, b: int| 0 <= a < b < after.len() implies after[a] != after[b] by {
                let a2 = if a < idx { a } else { a + 1 };
                let b2 = if b < idx { b } else { b + 1 };
                assert(after[a] == before_owners[a2] && after[b] == before_owners[b2]);
            }
        }
        let mut kept: Vec<StoredPolicyRule> = Vec::new();
        let ghost s = views(self.rules@);
        let ghost raw = self.rules@;
        let mut i: usize = 0;
        assert(s.subrange(0, 0) =~= Seq::<PolicyRuleView>::empty());
        assert(views(kept@) =~= Seq::<PolicyRuleView>::empty());
        while i < self.rules.len()
            invariant
                s == views(self.rules@),
                i <= self.rules@.len(),
                views(kept@) == without_owner(s.subrange(0, i as int), owner_instance_id@),
            decreases self.rules@.len() - i,
        {
            let e = &self.rules[i];
            assert(s.subrange(0, i as int + 1).drop_last() =~= s.subrange(0, i as int));
            assert(s.subrange(0, i as int + 1).last() == e@);
            if !str_eq(e.owner_instance_id.as_str(), owner_instance_id) {
                let ghost before = views(kept@);
                kept.push(e.duplicate());
                assert(views(kept@) =~= before.push(e@));
            }
            i += 1;
        }
        assert(s.subrange(0, s.len() as int) =~= s);
        proof {
            lemma_without_owner(s, owner_instance_id@);
            assert forall|k: int| 0 <= k < kept@.len() implies texts(self.owners@).contains(#[trigger] kept@[k]@.owner) by {
                let w = without_owner(s, owner_instance_id@);
                assert(views(kept@)[k] == kept@[k]@);
                assert(s.contains(w[k]));
                let j = choose|j: int| 0 <= j < s.len() && s[j] == w[k];
                assert(raw[j]@ == s[j]);
                assert(before_owners.contains(w[k].owner));
                assert(w[k].owner != owner_instance_id@);
                assert(self@.owners.contains(w[k].owner));
            }
        }
        self.rules = kept;
        self.bump_revision();
        true
    }
}

/// The index of the first rule of `s` that satisfies `p`.
pub open spec fn first_where(s: Seq<PolicyRuleView>, p: spec_fn(PolicyRuleView) -> bool) -> Option<int>
    decreases s.len(),
{
    if s.len() == 0 {
        None
    } else if p(s[0]) {
        Some(0)
    } else {
        match first_where(s.drop_first(), p) {
            Some(i) => Some(i + 1),
            None => None,
        }
    }
}

pub proof fn lemma_first_where_at(s: Seq<PolicyRuleView>, p: spec_fn(PolicyRuleView) -> bool, j: int)
    requires
        0 <= j <= s.len(),
        forall|i: int| 0 <= i < j ==> !p(#[trigger] s[i]),
        j == s.len() || p(s[j]),
    ensures
        first_where(s, p) == (if j < s.len() {
            Some(j)
        } else {
            None::<int>
        }),
    decreases j,
{
    if j > 0 {
        assert(!p(s[0]));
        assert forall|i: int| 0 <= i < j - 1 implies !p(#[trigger] s.drop_first()[i]) by {
            assert(s.drop_first()[i] == s[i + 1]);
        }
        if j < s.len() {
            assert(s.drop_first()[j - 1] == s[j]);
        }
        lemma_first_where_at(s.drop_first(), p, j - 1);
    }
}

/// Rules that govern `operation` on `path`.
pub open spec fn path_matcher(operation: FilePolicyOperation, path: Seq<u8>) -> spec_fn(PolicyRuleView) -> bool {
    |r: PolicyRuleView| rule_matches_path(r, operation, path)
}

/// Built-in allow rules that cover `path`.
pub open spec fn builtin_matcher(path: Seq<u8>) -> spec_fn(PolicyRuleView) -> bool {
    |r: PolicyRuleView| builtin_allow(r) && rule_matches_path(r, FilePolicyOperation::Open, path)
}

/// Rules of `operation` whose scope contains `scope`.
pub open spec fn scope_matcher(operation: FilePolicyOperation, scope: (bool, Seq<u8>)) -> spec_fn(PolicyRuleView) -> bool {
    |r: PolicyRuleView| r.operation == operation && scope_contains(r.scope, scope)
}

/// A path the daemon's fanotify marks must ignore, and whether everything
/// under it is ignored too.
pub struct BuiltinIgnoreMark {
    pub path: String,
    pub recursive: bool,
}

impl View for BuiltinIgnoreMark {
    type V = (Seq<u8>, bool);

    open spec fn view(&self) -> (Seq<u8>, bool) {
        (text_bytes(self.path), self.recursive)
    }
}

pub open spec fn ignore_marks(s: Seq<PolicyRuleView>) -> Seq<(Seq<u8>, bool)>
    decreases s.len(),
{
    if s.len() == 0 {
        Seq::empty()
    } else {
        let p = ignore_marks(s.drop_last());
        if builtin_allow(s.last()) {
            p.push((s.last().scope.1, s.last().scope.0))
        } else {
            p
        }
    }
}

pub open spec fn marked_scopes(s: Seq<PolicyRuleView>) -> Seq<(bool, Seq<u8>)>
    decreases s.len(),
{
    if s.len() == 0 {
        Seq::empty()
    } else {
        let p = marked_scopes(s.drop_last());
        if contributes_marks(s.last()) {
            p.push(s.last().scope)
        } else {
            p
        }
    }
}

pub open spec fn scope_views(v: Seq<PathScope>) -> Seq<(bool, Seq<u8>)> {
    v.map_values(|x: PathScope| x@)
}

pub open spec fn mark_views(v: Seq<BuiltinIgnoreMark>) -> Seq<(Seq<u8>, bool)> {
    v.map_values(|x: BuiltinIgnoreMark| x@)
}

/// A dry-run lookup: which rule would decide `operation` on `path`.
pub struct FilePolicyMatchDryRunRequest {
    pub operation: FilePolicyOperation,
    pub path: String,
}

pub struct FilePolicyMatchDryRunResult {
    pub matched: bool,
    pub decision: FilePolicyDecision,
    pub rule_id: Option<String>,
    pub operation: FilePolicyOperation,
    pub canonical_path: String,
    pub source_revision: u64,
}

pub struct DryRunView {
    pub matched: bool,
    pub decision: FilePolicyDecision,
    pub rule_id: Option<Seq<char>>,
    pub operation: FilePolicyOperation,
    pub canonical_path: Seq<char>,
    pub source_revision: u64,
}

impl View for FilePolicyMatchDryRunResult {
    type V = DryRunView;

    open spec fn view(&self) -> DryRunView {
        DryRunView {
            matched: self.matched,
            decision: self.decision,
            rule_id: opt_text(self.rule_id),
            operation: self.operation,
            canonical_path: self.canonical_path@,
            source_revision: self.source_revision,
        }
    }
}

/// The answer to a dry-run lookup: the first rule in evaluation order of the
/// requested operation whose scope contains the normalised path decides;
/// with none, the default decision does.
pub open spec fn dry_run_spec(m: RulesModel, request: FilePolicyMatchDryRunRequest, default_decision: FilePolicyDecision) -> Result<DryRunView, Seq<char>> {
    match scope_result(text_bytes(request.path), true) {
        Err(e) => Err(e),
        Ok(scope) => {
            let found = first_where(m.effective, scope_matcher(request.operation, scope));
            Ok(
                DryRunView {
                    matched: found is Some,
                    decision: match found {
                        Some(i) => m.effective[i].decision,
                        None => default_decision,
                    },
                    rule_id: match found {
                        Some(i) => Some(m.effective[i].rule_id),
                        None => None,
                    },
                    operation: request.operation,
                    canonical_path: scope_display(scope),
                    source_revision: m.revision,
                },
            )
        },
    }
}

/// `x` placed after every listing whose rule id does not sort above its own.
pub open spec fn id_insert(t: Seq<RuleListing>, x: RuleListing) -> Seq<RuleListing>
    decreases t.len(),
{
    if t.len() == 0 {
        seq![x]
    } else if text_less(x.rule_id, t[0].rule_id) {
        seq![x] + t
    } else {
        seq![t[0]] + id_insert(t.drop_first(), x)
    }
}

/// The listings of the rules that pass the filter, by rule id; rules with
/// the same id keep the store's order (by owner).
pub open spec fn listing_order(s: Seq<PolicyRuleView>, f: FilePolicyListFilter) -> Seq<RuleListing>
    decreases s.len(),
{
    if s.len() == 0 {
        Seq::empty()
    } else {
        let t = listing_order(s.drop_last(), f);
        if filter_accepts(f, s.last()) {
            id_insert(t, rule_listing(s.last()))
        } else {
            t
        }
    }
}

pub proof fn lemma_id_insert_at(t: Seq<RuleListing>, x: RuleListing, j: int)
    requires
        0 <= j <= t.len(),
        forall|i: int| 0 <= i < j ==> !text_less(x.rule_id, #[trigger] t[i].rule_id),
        j == t.len() || text_less(x.rule_id, t[j].rule_id),
    ensures
        id_insert(t, x) == t.insert(j, x),
    decreases j,
{
    if j == 0 {
        if t.len() == 0 {
            assert(t.insert(0, x) =~= seq![x]);
        } else {
            assert(t.insert(0, x) =~= seq![x] + t);
        }
    } else {
        assert(!text_less(x.rule_id, t[0].rule_id));
        assert forall|i: int| 0 <= i < j - 1 implies !text_less(x.rule_id, #[trigger] t.drop_first()[i].rule_id) by {
            assert(t.drop_first()[i] == t[i + 1]);
        }
        if j < t.len() {
            assert(t.drop_first()[j - 1] == t[j]);
        }
        lemma_id_insert_at(t.drop_first(), x, j - 1);
        assert(t.insert(j, x) =~= seq![t[0]] + t.drop_first().insert(j - 1, x));
    }
}

/// A page of rules.
pub struct FilePolicyListResult {
    pub rules: Vec<FilePolicyRuleView>,
    pub next_cursor: Option<String>,
    pub source_revision: u64,
}

pub open spec fn listing_views(v: Seq<FilePolicyRuleView>) -> Seq<RuleListing> {
    v.map_values(|x: FilePolicyRuleView| x@)
}

/// Where a listing starts: the cursor's number, or the start when there is
/// no cursor or it is not a number.
pub open spec fn cursor_start(cursor: Option<Seq<char>>) -> int {
    match cursor {
        Some(c) => match parse_uint(vstd::utf8::encode_utf8(c), usize::MAX as int) {
            Ok(v) => v,
            Err(_) => 0,
        },
        None => 0,
    }
}

pub open spec fn min_int(a: int, b: int) -> int {
    if a < b {
        a
    } else {
        b
    }
}

/// The page of at most `limit` (at least one) listings from the cursor on,
/// and the cursor of the next page when listings remain.
pub open spec fn list_spec(m: RulesModel, f: FilePolicyListFilter, cursor: Option<Seq<char>>, limit: u32) -> (Seq<RuleListing>, Option<Seq<char>>, u64) {
    let all = listing_order(m.rules, f);
    let start = cursor_start(cursor);
    let lim = if limit == 0 {
        1
    } else {
        limit as int
    };
    let page = all.subrange(min_int(start, all.len() as int), min_int(start + lim, all.len() as int));
    let next = min_int(start + page.len(), usize::MAX as int);
    (page, if next < all.len() {
        Some(decimal(next as nat))
    } else {
        None
    }, m.revision)
}

fn listing_position(out: &Vec<FilePolicyRuleView>, x: &FilePolicyRuleView) -> (j: usize)
    ensures
        j <= out@.len(),
        forall|i: int| 0 <= i < j ==> !text_less(x@.rule_id, #[trigger] listing_views(out@)[i].rule_id),
        j == out@.len() || text_less(x@.rule_id, listing_views(out@)[j as int].rule_id),
{
    let mut j: usize = 0;
    while j < out.len() && !str_less(x.rule_id.as_str(), out[j].rule_id.as_str())
        invariant
            j <= out@.len(),
            forall|i: int| 0 <= i < j ==> !text_less(x@.rule_id, #[trigger] listing_views(out@)[i].rule_id),
        decreases out@.len() - j,
    {
        assert(listing_views(out@)[j as int] == out@[j as int]@);
        j += 1;
    }
    if j < out.len() {
        assert(listing_views(out@)[j as int] == out@[j as int]@);
    }
    j
}

impl EnforcementRules {
    /// The rule that decides `operation` on `path`: the first in evaluation
    /// order that governs the operation and whose scope matches the path.
    pub fn find_path(&self, operation: FilePolicyOperation, path: &str) -> (r: Option<&EnforcementRule>)
        ensures
            match first_where(self@.effective, path_matcher(operation, path.spec_bytes())) {
                Some(i) => r matches Some(x) && x@ == self@.effective[i].rule,
                None => r is None,
            },
    {
        let ghost s = views(self.effective_rules@);
        let ghost p = path_matcher(operation, path.spec_bytes());
        let mut j: usize = 0;
        while j < self.effective_rules.len() && !self.effective_rules[j].matches_path(operation, path)
            invariant
                s == views(self.effective_rules@),
                p == path_matcher(operation, path.spec_bytes()),
                j <= s.len(),
                forall|i: int| 0 <= i < j ==> !p(#[trigger] s[i]),
            decreases s.len() - j,
        {
            j += 1;
        }
        proof {
            lemma_first_where_at(s, p, j as int);
        }
        if j < self.effective_rules.len() {
            Some(&self.effective_rules[j].rule)
        } else {
            None
        }
    }

    /// The built-in allow rule that covers opening `path`, if one does.
    pub fn find_builtin_allow(&self, path: &str) -> (r: Option<&EnforcementRule>)
        ensures
            match first_where(self@.effective, builtin_matcher(path.spec_bytes())) {
                Some(i) => r matches Some(x) && x@ == self@.effective[i].rule,
                None => r is None,
            },
    {
        let ghost s = views(self.effective_rules@);
        let ghost p = builtin_matcher(path.spec_bytes());
        let mut j: usize = 0;
        while j < self.effective_rules.len() && !(self.effective_rules[j].is_builtin_allow()
            && self.effective_rules[j].matches_path(FilePolicyOperation::Open, path))
            invariant
                s == views(self.effective_rules@),
                p == builtin_matcher(path.spec_bytes()),
                j <= s.len(),
                forall|i: int| 0 <= i < j ==> !p(#[trigger] s[i]),
            decreases s.len() - j,
        {
            j += 1;
        }
        proof {
            lemma_first_where_at(s, p, j as int);
        }
        if j < self.effective_rules.len() {
            Some(&self.effective_rules[j].rule)
        } else {
            None
        }
    }

    /// The paths fanotify must ignore: those of the built-in allow rules,
    /// in evaluation order.
    pub fn builtin_ignore_marks(&self) -> (r: Vec<BuiltinIgnoreMark>)
        ensures
            mark_views(r@) == ignore_marks(self@.effective),
    {
        let ghost s = views(self.effective_rules@);
        let mut out: Vec<BuiltinIgnoreMark> = Vec::new();
        let mut i: usize = 0;
        assert(s.subrange(0, 0) =~= Seq::<PolicyRuleView>::empty());
        assert(mark_views(out@) =~= Seq::<(Seq<u8>, bool)>::empty());
        while i < self.effective_rules.len()
            invariant
                s == views(self.effective_rules@),
                i <= s.len(),
                mark_views(out@) == ignore_marks(s.subrange(0, i as int)),
            decreases s.len() - i,
        {
            let r = &self.effective_rules[i];
            assert(s.subrange(0, i as int + 1).drop_last() =~= s.subrange(0, i as int));
            assert(s.subrange(0, i as int + 1).last() == r@);
            if r.is_builtin_allow() {
                let ghost before = mark_views(out@);
                out.push(BuiltinIgnoreMark { path: r.scope.display_base(), recursive: r.scope.is_recursive() });
                assert(mark_views(out@) =~= before.push((r@.scope.1, r@.scope.0)));
            }
            i += 1;
        }
        assert(s.subrange(0, s.len() as int) =~= s);
        out
    }

    /// The scopes whose directories fanotify must watch for opens: those of
    /// the rules in effect, other than built-in ones, that govern opening,
    /// in evaluation order.
    pub fn mark_scopes(&self) -> (r: Vec<PathScope>)
        ensures
            scope_views(r@) == marked_scopes(self@.effective),
    {
        let ghost s = views(self.effective_rules@);
        let mut out: Vec<PathScope> = Vec::new();
        let mut i: usize = 0;
        assert(s.subrange(0, 0) =~= Seq::<PolicyRuleView>::empty());
        assert(scope_views(out@) =~= Seq::<(bool, Seq<u8>)>::empty());
        while i < self.effective_rules.len()
            invariant
                s == views(self.effective_rules@),
                i <= s.len(),
                scope_views(out@) == marked_scopes(s.subrange(0, i as int)),
            decreases s.len() - i,
        {
            let r = &self.effective_rules[i];
            assert(s.subrange(0, i as int + 1).drop_last() =~= s.subrange(0, i as int));
            assert(s.subrange(0, i as int + 1).last() == r@);
            if r.contributes_mark_directories() {
                let ghost before = scope_views(out@);
                out.push(r.scope.duplicate());
                assert(scope_views(out@) =~= before.push(r@.scope));
            }
            i += 1;
        }
        assert(s.subrange(0, s.len() as int) =~= s);
        out
    }

    /// Which rule would decide `request`, without enforcing anything.
    pub fn match_dry_run(&self, request: FilePolicyMatchDryRunRequest, default_decision: FilePolicyDecision) -> (r: Result<
        FilePolicyMatchDryRunResult,
        String,
    >)
        ensures
            match r {
                Ok(x) => dry_run_spec(self@, request, default_decision) == Ok::<DryRunView, Seq<char>>(x@),
                Err(e) => dry_run_spec(self@, request, default_decision) == Err::<DryRunView, Seq<char>>(e@),
            },
    {
        let path = match normalized_scope(request.path.as_str()) {
            Ok(p) => p,
            Err(e) => {
                return Err(e);
            },
        };
        let canonical_path = path.display_path();
        let ghost s = views(self.effective_rules@);
        let ghost p = scope_matcher(request.operation, path@);
        let mut j: usize = 0;
        while j < self.effective_rules.len() && !(self.effective_rules[j].operation == request.operation
            && self.effective_rules[j].scope.contains_scope(&path))
            invariant
                s == views(self.effective_rules@),
                p == scope_matcher(request.operation, path@),
                j <= s.len(),
                forall|i: int| 0 <= i < j ==> !p(#[trigger] s[i]),
            decreases s.len() - j,
        {
            j += 1;
        }
        proof {
            lemma_first_where_at(s, p, j as int);
        }
        if j < self.effective_rules.len() {
            let rule = &self.effective_rules[j];
            Ok(
                FilePolicyMatchDryRunResult {
                    matched: true,
                    decision: rule.decision,
                    rule_id: Some(rule.rule_id.clone()),
                    operation: request.operation,
                    canonical_path,
                    source_revision: self.revision,
                },
            )
        } else {
            Ok(
                FilePolicyMatchDryRunResult {
                    matched: false,
                    decision: default_decision,
                    rule_id: None,
                    operation: request.operation,
                    canonical_path,
                    source_revision: self.revision,
                },
            )
        }
    }

    /// A page of the stored rules that pass `filter`, ordered by rule id.
    pub fn list(&self, filter: FilePolicyListFilter, cursor: Option<&str>, limit: u32) -> (r: FilePolicyListResult)
        ensures
            (listing_views(r.rules@), opt_text(r.next_cursor), r.source_revision) == list_spec(
                self@,
                filter,
                opt_str_text(cursor),
                limit,
            ),
    {
        let start: usize = match cursor {
            Some(c) => match parse_uint_bytes(c.as_bytes(), usize::MAX as u64) {
                Ok(v) => v as usize,
                Err(_) => 0,
            },
            None => 0,
        };
        let lim: usize = if limit == 0 {
            1
        } else {
            limit as usize
        };
        let ghost s = views(self.rules@);
        let mut all: Vec<FilePolicyRuleView> = Vec::new();
        let mut i: usize = 0;
        assert(s.subrange(0, 0) =~= Seq::<PolicyRuleView>::empty());
        assert(listing_views(all@) =~= Seq::<RuleListing>::empty());
        while i < self.rules.len()
            invariant
                s == views(self.rules@),
                i <= s.len(),
                listing_views(all@) == listing_order(s.subrange(0, i as int), filter),
            decreases s.len() - i,
        {
            let r = &self.rules[i];
            assert(s.subrange(0, i as int + 1).drop_last() =~= s.subrange(0, i as int));
            assert(s.subrange(0, i as int + 1).last() == r@);
            if r.matches_filter(&filter) {
                let x = r.view_rule();
                let ghost t = listing_views(all@);
                let j = listing_position(&all, &x);
                proof {
                    lemma_id_insert_at(t, x@, j as int);
                }
                all.insert(j, x);
                assert(listing_views(all@) =~= t.insert(j as int, x@));
            }
            i += 1;
        }
        assert(s.subrange(0, s.len() as int) =~= s);
        let total = all.len();
        let from = if start < total {
            start
        } else {
            total
        };
        let ghost full = listing_views(all@);
        let mut page = all.split_off(from);
        page.truncate(lim);
        let taken = page.len();
        let next = start.saturating_add(taken);
        let next_cursor = if next < total {
            Some(u64_to_decimal(next as u64))
        } else {
            None
        };
        proof {
            assert(listing_views(page@) =~= full.subrange(
                min_int(start as int, full.len() as int),
                min_int(start as int + lim as int, full.len() as int),
            ));
        }
        FilePolicyListResult { rules: page, next_cursor, source_revision: self.revision }
    }
}

pub open spec fn builtin_owner() -> Seq<char> {
    "actrail.builtin"@
}

fn builtin_owner_str() -> (s: &'static str)
    ensures
        s@ == builtin_owner(),
{
    "actrail.builtin"
}

/// The built-in rule that allows opening `scope`.
pub open spec fn builtin_rule(rule_id: Seq<char>, scope: (bool, Seq<u8>), revision: u64, sequence: u64) -> PolicyRuleView {
    PolicyRuleView {
        owner: builtin_owner(),
        rule_id,
        tier: RuleTier::Builtin,
        identity: RuleIdentityKind::Builtin,
        decision: FilePolicyDecision::Allow,
        operation: FilePolicyOperation::Open,
        scope,
        gray_target: None,
        priority: i32::MAX,
        enabled: true,
        updated_revision: revision,
        updated_sequence: sequence,
        rule: EnforcementRuleView {
            owner: builtin_owner(),
            rule_id,
            decision: RuleDecisionView::Local(EnforcementDecision::Allow),
            operation: "open"@,
            path: scope.1,
        },
    }
}

/// Adding one built-in allow rule: its id must be non-blank and new among
/// the built-in rules, its path absolute (taken as written).
pub open spec fn insert_builtin_spec(m: RulesModel, rule_id: Seq<char>, path: Seq<char>) -> (RulesModel, Result<(), Seq<char>>) {
    if is_blank(rule_id) {
        (m, Err("builtin file policy rule_id must not be empty"@))
    } else if find_key(m.rules, (builtin_owner(), rule_id)) is Some {
        (m, Err("duplicate builtin file policy rule id "@ + rule_id))
    } else {
        match scope_result(vstd::utf8::encode_utf8(path), false) {
            Err(e) => (m, Err(e)),
            Ok(scope) => (
                RulesModel {
                    next_sequence: sat_inc(m.next_sequence),
                    owners: m.owners.insert(builtin_owner()),
                    rules: upsert_rule(m.rules, builtin_rule(rule_id, scope, m.revision, m.next_sequence)),
                    ..m
                },
                Ok(()),
            ),
        }
    }
}

/// Adding the built-in allow rules from `i` on; the first failure stops,
/// and when all succeed the evaluation list is rebuilt.
pub open spec fn install_spec(m: RulesModel, rules: Seq<(String, String)>, i: int) -> (RulesModel, Result<(), Seq<char>>)
    decreases rules.len() - i,
{
    if i < 0 || i >= rules.len() {
        (RulesModel { effective: evaluation_order(m.rules), ..m }, Ok(()))
    } else {
        let (m1, r) = insert_builtin_spec(m, rules[i].0@, rules[i].1@);
        match r {
            Err(e) => (m1, Err(e)),
            Ok(_) => install_spec(m1, rules, i + 1),
        }
    }
}

impl EnforcementRules {
    fn insert_builtin_allow_rule(&mut self, rule_id: &String, path: &String) -> (r: Result<(), String>)
        requires
            old(self).wf(),
        ensures
            final(self).wf(),
            (final(self)@, unit_result(r)) == insert_builtin_spec(old(self)@, rule_id@, path@),
    {
        if str_is_blank(rule_id.as_str()) {
            return Err(String::from_str("builtin file policy rule_id must not be empty"));
        }
        if find_rule(&self.rules, builtin_owner_str(), rule_id.as_str()).is_some() {
            let mut m = String::from_str("duplicate builtin file policy rule id ");
            m.append(rule_id.as_str());
            return Err(m);
        }
        let scope = match absolute_scope(path.as_str()) {
            Ok(s) => s,
            Err(e) => {
                return Err(e);
            },
        };
        let rule = EnforcementRule {
            owner_instance_id: String::from_str(builtin_owner_str()),
            rule_id: rule_id.clone(),
            decision: RuleDecision::Local(EnforcementDecision::Allow),
            operation: String::from_str(FilePolicyOperation::Open.as_str()),
            path: scope.display_base(),
        };
        let revision = self.revision;
        let sequence = self.next_sequence();
        let stored = StoredPolicyRule {
            owner_instance_id: String::from_str(builtin_owner_str()),
            rule_id: rule_id.clone(),
            tier: RuleTier::Builtin,
            identity: RuleIdentityKind::Builtin,
            decision: FilePolicyDecision::Allow,
            operation: FilePolicyOperation::Open,
            scope,
            gray_target: None,
            priority: i32::MAX,
            enabled: true,
            updated_revision: revision,
            updated_sequence: sequence,
            rule,
        };
        self.add_owner(builtin_owner_str());
        self.put_rule(stored);
        Ok(())
    }

    /// Adds the daemon's own built-in allow rules (rule id and path), then
    /// rebuilds the evaluation list; the first refused rule stops the
    /// installation.
    pub fn install_builtin_allow_rules(&mut self, rules: &[(String, String)]) -> (r: Result<(), String>)
        requires
            old(self).wf(),
        ensures
            final(self).wf(),
            (final(self)@, unit_result(r)) == install_spec(old(self)@, rules@, 0),
    {
        let ghost m0 = self@;
        let mut i: usize = 0;
        while i < rules.len()
            invariant
                self.wf(),
                i <= rules@.len(),
                m0 == old(self)@,
                install_spec(self@, rules@, i as int) == install_spec(m0, rules@, 0),
            decreases rules@.len() - i,
        {
            let ghost before = self@;
            let (id, path) = &rules[i];
            match self.insert_builtin_allow_rule(id, path) {
                Err(e) => {
                    assert(install_spec(before, rules@, i as int) == (self@, Err::<(), Seq<char>>(e@)));
                    return Err(e);
                },
                Ok(_) => {},
            }
            assert(install_spec(before, rules@, i as int) == install_spec(self@, rules@, i as int + 1));
            i += 1;
        }
        self.effective_rules = evaluation_list(&self.rules);
        Ok(())
    }
}


// ---------------------------------------------------------------------------
// The static policy file

pub open spec fn static_owner_text() -> Seq<char> {
    "actrail.static"@
}

pub open spec fn static_decision(d: RuleDecisionView) -> FilePolicyDecision {
    match d {
        RuleDecisionView::Local(EnforcementDecision::Allow) => FilePolicyDecision::Allow,
        RuleDecisionView::Local(EnforcementDecision::Deny) => FilePolicyDecision::Deny,
        RuleDecisionView::SyncPlugin(..) => FilePolicyDecision::Gray,
    }
}

/// What a static rule does to the store: it is stored under the static
/// owner for `open` on its exact path, enabled, at the store's revision and
/// next sequence number.
pub open spec fn static_insert_spec(m: RulesModel, r: EnforcementRuleView) -> RulesModel {
    let stored = PolicyRuleView {
        owner: static_owner_text(),
        rule_id: r.rule_id,
        tier: RuleTier::Static,
        identity: RuleIdentityKind::Static,
        decision: static_decision(r.decision),
        operation: FilePolicyOperation::Open,
        scope: (false, r.path),
        gray_target: None,
        priority: 0,
        enabled: true,
        updated_revision: m.revision,
        updated_sequence: m.next_sequence,
        rule: r,
    };
    RulesModel {
        next_sequence: sat_inc(m.next_sequence),
        owners: m.owners.insert(static_owner_text()),
        rules: upsert_rule(m.rules, stored),
        ..m
    }
}

pub open spec fn empty_rules_model() -> RulesModel {
    RulesModel {
        revision: 0,
        next_rule_id: 1,
        next_sequence: 1,
        owners: Set::empty(),
        rules: Seq::empty(),
        effective: Seq::empty(),
    }
}

pub open spec fn static_line_views(s: Seq<StaticFileLine>) -> Seq<StaticFileLineView> {
    s.map_values(|l: StaticFileLine| l@)
}

/// The store after the first `k` lines of the static file, or the error
/// that stops loading.
pub open spec fn parse_lines_spec(lines: Seq<StaticFileLineView>, k: int) -> Result<RulesModel, Seq<char>>
    decreases k,
{
    if k <= 0 {
        Ok(empty_rules_model())
    } else {
        match parse_lines_spec(lines, k - 1) {
            Err(e) => Err(e),
            Ok(m) => if !is_rule_line(lines[k - 1].text) {
                Ok(m)
            } else {
                match file_rule_spec(lines[k - 1]) {
                    Err(e) => Err("enforcement rule line "@ + decimal(k as nat) + ": "@ + e),
                    Ok(r) => if find_key(m.rules, (static_owner_text(), r.rule_id)) is Some {
                        Err("enforcement rule line "@ + decimal(k as nat) + " duplicates rule id "@ + r.rule_id)
                    } else {
                        Ok(static_insert_spec(m, r))
                    },
                }
            },
        }
    }
}

pub proof fn lemma_parse_error_stays(lines: Seq<StaticFileLineView>, k: int, n: int)
    requires
        0 <= k <= n,
        parse_lines_spec(lines, k) is Err,
    ensures
        parse_lines_spec(lines, n) == parse_lines_spec(lines, k),
    decreases n - k,
{
    if n > k {
        lemma_parse_error_stays(lines, k, n - 1);
    }
}

/// The store the static policy file gives: its rules, in force in
/// evaluation order; or why the file is refused.
pub open spec fn file_parse_spec(lines: Seq<StaticFileLineView>) -> Result<RulesModel, Seq<char>> {
    match parse_lines_spec(lines, lines.len() as int) {
        Err(e) => Err(e),
        Ok(m) => Ok(RulesModel { effective: evaluation_order(m.rules), ..m }),
    }
}

pub open spec fn parse_outcome(r: Result<EnforcementRules, String>) -> Result<RulesModel, Seq<char>> {
    match r {
        Ok(s) => Ok(s@),
        Err(e) => Err(e@),
    }
}

fn line_message(k: usize, middle: &str, tail: &str) -> (m: String)
    ensures
        m@ == "enforcement rule line "@ + decimal(k as nat) + middle@ + tail@,
{
    let mut m = String::from_str("enforcement rule line ");
    push_decimal(&mut m, k as u64);
    m.append(middle);
    m.append(tail);
    m
}

impl EnforcementRules {
    fn insert_static_rule(&mut self, rule: EnforcementRule)
        requires
            old(self).wf(),
        ensures
            final(self).wf(),
            final(self)@ == static_insert_spec(old(self)@, rule@),
    {
        let decision = match &rule.decision {
            RuleDecision::Local(EnforcementDecision::Allow) => FilePolicyDecision::Allow,
            RuleDecision::Local(EnforcementDecision::Deny) => FilePolicyDecision::Deny,
            RuleDecision::SyncPlugin { .. } => FilePolicyDecision::Gray,
        };
        let revision = self.revision;
        let sequence = self.next_sequence();
        let stored = StoredPolicyRule {
            owner_instance_id: String::from_str("actrail.static"),
            rule_id: rule.rule_id.clone(),
            tier: RuleTier::Static,
            identity: RuleIdentityKind::Static,
            decision,
            operation: FilePolicyOperation::Open,
            scope: PathScope::Exact(rule.path.clone()),
            gray_target: None,
            priority: 0,
            enabled: true,
            updated_revision: revision,
            updated_sequence: sequence,
            rule,
        };
        self.add_owner("actrail.static");
        self.put_rule(stored);
    }

    /// Loads the static file policy from its lines, in order, each with the
    /// readings of its last three words.
    pub fn parse(lines: &Vec<StaticFileLine>) -> (r: Result<EnforcementRules, String>)
        ensures
            parse_outcome(r) == file_parse_spec(static_line_views(lines@)),
            r matches Ok(s) ==> s.wf(),
    {
        let ghost lv = static_line_views(lines@);
        let mut store = EnforcementRules::empty();
        let mut i: usize = 0;
        while i < lines.len()
            invariant
                i <= lines@.len(),
                lv == static_line_views(lines@),
                store.wf(),
                parse_lines_spec(lv, i as int) == Ok::<RulesModel, Seq<char>>(store@),
            decreases lines@.len() - i,
        {
            let line = &lines[i];
            assert(lv[i as int] == line@);
            if crate::net_static::rule_line(line.text.as_str()) {
                match crate::file_static::parse_rule(line) {
                    Err(e) => {
                        proof {
                            lemma_parse_error_stays(lv, i as int + 1, lv.len() as int);
                        }
                        return Err(line_message(i + 1, ": ", e.as_str()));
                    },
                    Ok(rule) => {
                        if find_rule(&store.rules, "actrail.static", rule.rule_id.as_str()).is_some() {
                            proof {
                                lemma_parse_error_stays(lv, i as int + 1, lv.len() as int);
                            }
                            return Err(line_message(i + 1, " duplicates rule id ", rule.rule_id.as_str()));
                        }
                        store.insert_static_rule(rule);
                    },
                }
            }
            i += 1;
        }
        store.effective_rules = evaluation_list(&store.rules);
        Ok(store)
    }
}

} // verus!
