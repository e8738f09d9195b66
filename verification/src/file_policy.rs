//! File-access policy rules as plugins submit them: decisions, operations,
//! drafts, grants, and the stored form of a rule with the enforcement rule
//! it compiles to.

use vstd::prelude::*;
use vstd::string::StringSliceAdditionalSpecFns;
use crate::rules::{EnforcementDecision, RuleTier};
use crate::scope::{normalized_scope, scope_contains, scope_display, scope_parts, scope_result, scope_same, text_bytes, PathScope};
use crate::text::{decimal, push_decimal, u64_to_decimal};
use crate::words::{skip_whitespace, trim_end_from, trimmed, lemma_skip_ws_bounds, lemma_trim_end_bounds};

verus! {

broadcast use vstd::utf8::group_utf8_lib;

/// What a file policy rule decides.
#[derive(Clone, Copy, Debug, PartialEq, Eq, Structural)]
pub enum FilePolicyDecision {
    Allow,
    Deny,
    Gray,
    Default,
}

pub open spec fn decision_text(d: FilePolicyDecision) -> Seq<char> {
    match d {
        FilePolicyDecision::Allow => "allow"@,
        FilePolicyDecision::Deny => "deny"@,
        FilePolicyDecision::Gray => "gray"@,
        FilePolicyDecision::Default => "default"@,
    }
}

impl FilePolicyDecision {
    pub fn as_str(self) -> (s: &'static str)
        ensures
            s@ == decision_text(self),
    {
        match self {
            FilePolicyDecision::Allow => "allow",
            FilePolicyDecision::Deny => "deny",
            FilePolicyDecision::Gray => "gray",
            FilePolicyDecision::Default => "default",
        }
    }
}

/// The file operation a rule governs.
#[derive(Clone, Copy, Debug, PartialEq, Eq, Structural)]
pub enum FilePolicyOperation {
    Any,
    Open,
    Mkdir,
    Rmdir,
}

pub open spec fn operation_text(o: FilePolicyOperation) -> Seq<char> {
    match o {
        FilePolicyOperation::Any => "any"@,
        FilePolicyOperation::Open => "open"@,
        FilePolicyOperation::Mkdir => "mkdir"@,
        FilePolicyOperation::Rmdir => "rmdir"@,
    }
}

/// A rule for `rule_op` governs `op`: `any` governs every operation.
pub open spec fn operation_covers(rule_op: FilePolicyOperation, op: FilePolicyOperation) -> bool {
    rule_op is Any || rule_op == op
}

impl FilePolicyOperation {
    pub fn as_str(self) -> (s: &'static str)
        ensures
            s@ == operation_text(self),
    {
        match self {
            FilePolicyOperation::Any => "any",
            FilePolicyOperation::Open => "open",
            FilePolicyOperation::Mkdir => "mkdir",
            FilePolicyOperation::Rmdir => "rmdir",
        }
    }

    pub fn matches(self, operation: FilePolicyOperation) -> (r: bool)
        ensures
            r == operation_covers(self, operation),
    {
        match self {
            FilePolicyOperation::Any => true,
            _ => self == operation,
        }
    }
}

/// How a stored rule got its id.
#[derive(Clone, Copy, Debug, PartialEq, Eq, Structural)]
pub enum RuleIdentityKind {
    HostAuto,
    Explicit,
    Static,
    Builtin,
}

/// What the enforcement engine does on a match: decide locally, or ask a
/// plugin synchronously with a fallback.
#[derive(Debug)]
pub enum RuleDecision {
    Local(EnforcementDecision),
    SyncPlugin { instance_id: String, timeout_ms: u64, concurrency_limit: u32, fallback: EnforcementDecision },
}

pub enum RuleDecisionView {
    Local(EnforcementDecision),
    SyncPlugin(Seq<char>, u64, u32, EnforcementDecision),
}

impl View for RuleDecision {
    type V = RuleDecisionView;

    open spec fn view(&self) -> RuleDecisionView {
        match self {
            RuleDecision::Local(d) => RuleDecisionView::Local(*d),
            RuleDecision::SyncPlugin { instance_id, timeout_ms, concurrency_limit, fallback } => RuleDecisionView::SyncPlugin(
                instance_id@,
                *timeout_ms,
                *concurrency_limit,
                *fallback,
            ),
        }
    }
}

impl RuleDecision {
    pub fn duplicate(&self) -> (r: RuleDecision)
        ensures
            r@ == self@,
    {
        match self {
            RuleDecision::Local(d) => RuleDecision::Local(*d),
            RuleDecision::SyncPlugin { instance_id, timeout_ms, concurrency_limit, fallback } => RuleDecision::SyncPlugin {
                instance_id: instance_id.clone(),
                timeout_ms: *timeout_ms,
                concurrency_limit: *concurrency_limit,
                fallback: *fallback,
            },
        }
    }
}

/// The rule the enforcement engine evaluates.
#[derive(Debug)]
pub struct EnforcementRule {
    pub owner_instance_id: String,
    pub rule_id: String,
    pub decision: RuleDecision,
    pub operation: String,
    pub path: String,
}

pub struct EnforcementRuleView {
    pub owner: Seq<char>,
    pub rule_id: Seq<char>,
    pub decision: RuleDecisionView,
    pub operation: Seq<char>,
    pub path: Seq<u8>,
}

impl View for EnforcementRule {
    type V = EnforcementRuleView;

    open spec fn view(&self) -> EnforcementRuleView {
        EnforcementRuleView {
            owner: self.owner_instance_id@,
            rule_id: self.rule_id@,
            decision: self.decision@,
            operation: self.operation@,
            path: text_bytes(self.path),
        }
    }
}

impl EnforcementRule {
    pub fn duplicate(&self) -> (r: EnforcementRule)
        ensures
            r@ == self@,
    {
        EnforcementRule {
            owner_instance_id: self.owner_instance_id.clone(),
            rule_id: self.rule_id.clone(),
            decision: self.decision.duplicate(),
            operation: self.operation.clone(),
            path: self.path.clone(),
        }
    }
}

/// A rule as the store keeps it.
#[derive(Debug)]
pub struct StoredPolicyRule {
    pub owner_instance_id: String,
    pub rule_id: String,
    pub tier: RuleTier,
    pub identity: RuleIdentityKind,
    pub decision: FilePolicyDecision,
    pub operation: FilePolicyOperation,
    pub scope: PathScope,
    pub gray_target: Option<u64>,
    pub priority: i32,
    pub enabled: bool,
    pub updated_revision: u64,
    pub updated_sequence: u64,
    pub rule: EnforcementRule,
}

pub struct PolicyRuleView {
    pub owner: Seq<char>,
    pub rule_id: Seq<char>,
    pub tier: RuleTier,
    pub identity: RuleIdentityKind,
    pub decision: FilePolicyDecision,
    pub operation: FilePolicyOperation,
    pub scope: (bool, Seq<u8>),
    pub gray_target: Option<u64>,
    pub priority: i32,
    pub enabled: bool,
    pub updated_revision: u64,
    pub updated_sequence: u64,
    pub rule: EnforcementRuleView,
}

impl View for StoredPolicyRule {
    type V = PolicyRuleView;

    open spec fn view(&self) -> PolicyRuleView {
        PolicyRuleView {
            owner: self.owner_instance_id@,
            rule_id: self.rule_id@,
            tier: self.tier,
            identity: self.identity,
            decision: self.decision,
            operation: self.operation,
            scope: self.scope@,
            gray_target: self.gray_target,
            priority: self.priority,
            enabled: self.enabled,
            updated_revision: self.updated_revision,
            updated_sequence: self.updated_sequence,
            rule: self.rule@,
        }
    }
}

/// The decision a file policy decision compiles to: gray rules ask their
/// target with the default timeout, concurrency and fallback.
pub open spec fn rule_decision_spec(decision: FilePolicyDecision, gray_target: Option<u64>) -> Result<RuleDecisionView, Seq<char>> {
    match decision {
        FilePolicyDecision::Allow => Ok(RuleDecisionView::Local(EnforcementDecision::Allow)),
        FilePolicyDecision::Deny => Ok(RuleDecisionView::Local(EnforcementDecision::Deny)),
        FilePolicyDecision::Gray => match gray_target {
            None => Err("gray rule requires gray_target"@),
            Some(t) => Ok(
                RuleDecisionView::SyncPlugin(
                    decimal(t as nat),
                    DEFAULT_GRAY_TIMEOUT_MS,
                    DEFAULT_GRAY_CONCURRENCY_LIMIT,
                    EnforcementDecision::Deny,
                ),
            ),
        },
        FilePolicyDecision::Default => Err("file policy rule decision cannot be default"@),
    }
}

pub const DEFAULT_GRAY_TIMEOUT_MS: u64 = 30_000;

pub const DEFAULT_GRAY_CONCURRENCY_LIMIT: u32 = 32;

pub fn rule_decision(decision: FilePolicyDecision, gray_target: Option<u64>) -> (r: Result<RuleDecision, String>)
    ensures
        match r {
            Ok(d) => rule_decision_spec(decision, gray_target) == Ok::<RuleDecisionView, Seq<char>>(d@),
            Err(e) => rule_decision_spec(decision, gray_target) == Err::<RuleDecisionView, Seq<char>>(e@),
        },
{
    match decision {
        FilePolicyDecision::Allow => Ok(RuleDecision::Local(EnforcementDecision::Allow)),
        FilePolicyDecision::Deny => Ok(RuleDecision::Local(EnforcementDecision::Deny)),
        FilePolicyDecision::Gray => match gray_target {
            None => Err(String::from_str("gray rule requires gray_target")),
            Some(target) => Ok(
                RuleDecision::SyncPlugin {
                    instance_id: u64_to_decimal(target),
                    timeout_ms: DEFAULT_GRAY_TIMEOUT_MS,
                    concurrency_limit: DEFAULT_GRAY_CONCURRENCY_LIMIT,
                    fallback: EnforcementDecision::Deny,
                },
            ),
        },
        FilePolicyDecision::Default => Err(String::from_str("file policy rule decision cannot be default")),
    }
}

/// The stored rule the fields describe, or why they describe none.
pub open spec fn new_rule_spec(
    owner: Seq<char>,
    rule_id: Seq<char>,
    tier: RuleTier,
    identity: RuleIdentityKind,
    decision: FilePolicyDecision,
    operation: FilePolicyOperation,
    scope: (bool, Seq<u8>),
    gray_target: Option<u64>,
    priority: i32,
    enabled: bool,
    updated_revision: u64,
    updated_sequence: u64,
) -> Result<PolicyRuleView, Seq<char>> {
    if decision is Default {
        Err("file policy rule decision cannot be default"@)
    } else {
        match rule_decision_spec(decision, gray_target) {
            Err(e) => Err(e),
            Ok(d) => Ok(
                PolicyRuleView {
                    owner,
                    rule_id,
                    tier,
                    identity,
                    decision,
                    operation,
                    scope,
                    gray_target,
                    priority,
                    enabled,
                    updated_revision,
                    updated_sequence,
                    rule: EnforcementRuleView {
                        owner,
                        rule_id,
                        decision: d,
                        operation: operation_text(operation),
                        path: scope.1,
                    },
                },
            ),
        }
    }
}

/// A stored rule or its refusal, by views.
pub open spec fn stored_result(r: Result<StoredPolicyRule, String>) -> Result<PolicyRuleView, Seq<char>> {
    match r {
        Ok(s) => Ok(s@),
        Err(e) => Err(e@),
    }
}

/// `s` is empty once Unicode whitespace is trimmed (`str::trim`).
pub open spec fn is_blank(s: Seq<char>) -> bool {
    trimmed(vstd::utf8::encode_utf8(s)).len() == 0
}

pub fn str_is_blank(s: &str) -> (r: bool)
    ensures
        r == is_blank(s@),
{
    let b = s.as_bytes();
    let a = skip_whitespace(b, 0);
    let e = trim_end_from(b, a, b.len());
    proof {
        lemma_skip_ws_bounds(b@, 0);
        lemma_trim_end_bounds(b@, a as int, b@.len() as int);
    }
    e == a
}

/// A rule a plugin asks to store.
pub struct FilePolicyRuleDraft {
    pub rule_id: Option<String>,
    pub decision: FilePolicyDecision,
    pub operation: FilePolicyOperation,
    pub path: String,
    pub gray_target: Option<u64>,
    pub priority: i32,
}

pub open spec fn opt_text(s: Option<String>) -> Option<Seq<char>> {
    match s {
        Some(x) => Some(x@),
        None => None,
    }
}

pub open spec fn opt_str_text(s: Option<&str>) -> Option<Seq<char>> {
    match s {
        Some(x) => Some(x@),
        None => None,
    }
}

/// The id host-assigned rules get: `fp-<n>`.
pub open spec fn host_rule_id(n: u64) -> Seq<char> {
    "fp-"@ + decimal(n as nat)
}

/// The stored form of a plugin's draft: the item's id, else the draft's,
/// else a host-assigned one; the path normalised into a scope.
pub open spec fn from_draft_spec(
    owner: Seq<char>,
    draft: FilePolicyRuleDraft,
    item_rule_id: Option<Seq<char>>,
    updated_revision: u64,
    updated_sequence: u64,
    next_rule_id: u64,
) -> Result<PolicyRuleView, Seq<char>> {
    let rule_id = match item_rule_id {
        Some(i) => i,
        None => match draft.rule_id {
            Some(r) => r@,
            None => host_rule_id(next_rule_id),
        },
    };
    let identity = if item_rule_id is Some || draft.rule_id is Some {
        RuleIdentityKind::Explicit
    } else {
        RuleIdentityKind::HostAuto
    };
    if is_blank(rule_id) {
        Err("rule_id must not be empty"@)
    } else {
        match scope_result(text_bytes(draft.path), true) {
            Err(e) => Err(e),
            Ok(scope) => new_rule_spec(
                owner,
                rule_id,
                RuleTier::Plugin,
                identity,
                draft.decision,
                draft.operation,
                scope,
                draft.gray_target,
                draft.priority,
                true,
                updated_revision,
                updated_sequence,
            ),
        }
    }
}

impl StoredPolicyRule {
    /// Builds a stored rule; a `default` decision, or a gray one without a
    /// target, describes none.
    pub fn new(
        owner_instance_id: String,
        rule_id: String,
        tier: RuleTier,
        identity: RuleIdentityKind,
        decision: FilePolicyDecision,
        operation: FilePolicyOperation,
        scope: PathScope,
        gray_target: Option<u64>,
        priority: i32,
        enabled: bool,
        updated_revision: u64,
        updated_sequence: u64,
    ) -> (r: Result<StoredPolicyRule, String>)
        ensures
            stored_result(r) == new_rule_spec(
                owner_instance_id@,
                rule_id@,
                tier,
                identity,
                decision,
                operation,
                scope@,
                gray_target,
                priority,
                enabled,
                updated_revision,
                updated_sequence,
            ),
    {
        if decision == FilePolicyDecision::Default {
            return Err(String::from_str("file policy rule decision cannot be default"));
        }
        let d = match rule_decision(decision, gray_target) {
            Ok(d) => d,
            Err(e) => {
                return Err(e);
            },
        };
        let rule = EnforcementRule {
            owner_instance_id: owner_instance_id.clone(),
            rule_id: rule_id.clone(),
            decision: d,
            operation: String::from_str(operation.as_str()),
            path: scope.display_base(),
        };
        Ok(
            StoredPolicyRule {
                owner_instance_id,
                rule_id,
                tier,
                identity,
                decision,
                operation,
                scope,
                gray_target,
                priority,
                enabled,
                updated_revision,
                updated_sequence,
                rule,
            },
        )
    }

    /// The stored form of a plugin's draft.
    pub fn from_draft(
        owner_instance_id: &str,
        draft: &FilePolicyRuleDraft,
        item_rule_id: Option<&str>,
        updated_revision: u64,
        updated_sequence: u64,
        next_rule_id: u64,
    ) -> (r: Result<StoredPolicyRule, String>)
        ensures
            stored_result(r) == from_draft_spec(
                owner_instance_id@,
                *draft,
                opt_str_text(item_rule_id),
                updated_revision,
                updated_sequence,
                next_rule_id,
            ),
    {
        let rule_id = match item_rule_id {
            Some(i) => String::from_str(i),
            None => match &draft.rule_id {
                Some(r) => r.clone(),
                None => {
                    let mut s = String::from_str("fp-");
                    push_decimal(&mut s, next_rule_id);
                    s
                },
            },
        };
        if str_is_blank(rule_id.as_str()) {
            return Err(String::from_str("rule_id must not be empty"));
        }
        let identity = if item_rule_id.is_some() || draft.rule_id.is_some() {
            RuleIdentityKind::Explicit
        } else {
            RuleIdentityKind::HostAuto
        };
        let scope = match normalized_scope(draft.path.as_str()) {
            Ok(s) => s,
            Err(e) => {
                return Err(e);
            },
        };
        StoredPolicyRule::new(
            String::from_str(owner_instance_id),
            rule_id,
            RuleTier::Plugin,
            identity,
            draft.decision,
            draft.operation,
            scope,
            draft.gray_target,
            draft.priority,
            true,
            updated_revision,
            updated_sequence,
        )
    }

    /// The same rule, held anew.
    pub fn duplicate(&self) -> (r: StoredPolicyRule)
        ensures
            r@ == self@,
    {
        StoredPolicyRule {
            owner_instance_id: self.owner_instance_id.clone(),
            rule_id: self.rule_id.clone(),
            tier: self.tier,
            identity: self.identity,
            decision: self.decision,
            operation: self.operation,
            scope: self.scope.duplicate(),
            gray_target: self.gray_target,
            priority: self.priority,
            enabled: self.enabled,
            updated_revision: self.updated_revision,
            updated_sequence: self.updated_sequence,
            rule: self.rule.duplicate(),
        }
    }

    pub fn is_host_auto(&self) -> (r: bool)
        ensures
            r == (self.identity is HostAuto),
    {
        self.identity == RuleIdentityKind::HostAuto
    }

    /// Same owner, operation and scope.
    pub fn has_same_logical_scope(&self, other: &StoredPolicyRule) -> (r: bool)
        ensures
            r == same_logical_scope(self@, other@),
    {
        crate::payload::str_eq(self.owner_instance_id.as_str(), other.owner_instance_id.as_str())
            && self.operation == other.operation && self.scope.same_as(&other.scope)
    }

    /// A built-in rule that allows opening.
    pub fn is_builtin_allow(&self) -> (r: bool)
        ensures
            r == builtin_allow(self@),
    {
        self.tier == RuleTier::Builtin && self.decision == FilePolicyDecision::Allow && self.operation
            == FilePolicyOperation::Open
    }

    /// Rules other than built-in ones that govern opening need fanotify
    /// coverage of their directories.
    pub fn contributes_mark_directories(&self) -> (r: bool)
        ensures
            r == contributes_marks(self@),
    {
        self.tier != RuleTier::Builtin && self.operation.matches(FilePolicyOperation::Open)
    }

    /// The rule governs `operation` on `path`.
    pub fn matches_path(&self, operation: FilePolicyOperation, path: &str) -> (r: bool)
        ensures
            r == rule_matches_path(self@, operation, path.spec_bytes()),
    {
        self.operation.matches(operation) && self.scope.matches_path(path)
    }

    /// The rule passes the list filter.
    pub fn matches_filter(&self, filter: &FilePolicyListFilter) -> (r: bool)
        ensures
            r == filter_accepts(*filter, self@),
    {
        let d = match filter.decision {
            None => true,
            Some(d) => d == self.decision,
        };
        let o = match filter.operation {
            None => true,
            Some(o) => o == self.operation,
        };
        let p = match &filter.path_prefix {
            None => true,
            Some(prefix) => {
                let shown = self.scope.display_path();
                text_starts_with(shown.as_str(), prefix.as_str())
            },
        };
        d && o && p
    }

    /// The rule as a listing shows it.
    pub fn view_rule(&self) -> (r: FilePolicyRuleView)
        ensures
            r@ == rule_listing(self@),
    {
        FilePolicyRuleView {
            rule_id: self.rule_id.clone(),
            owner_instance_id: self.owner_instance_id.clone(),
            decision: self.decision,
            operation: self.operation,
            path: self.scope.display_path(),
            gray_target: self.gray_target,
            priority: self.priority,
            enabled: self.enabled,
            updated_sequence: self.updated_sequence,
        }
    }
}

pub open spec fn same_logical_scope(a: PolicyRuleView, b: PolicyRuleView) -> bool {
    a.owner == b.owner && a.operation == b.operation && scope_same(a.scope, b.scope)
}

pub open spec fn builtin_allow(r: PolicyRuleView) -> bool {
    r.tier is Builtin && r.decision is Allow && r.operation is Open
}

pub open spec fn contributes_marks(r: PolicyRuleView) -> bool {
    !(r.tier is Builtin) && operation_covers(r.operation, FilePolicyOperation::Open)
}

pub open spec fn rule_matches_path(r: PolicyRuleView, operation: FilePolicyOperation, path: Seq<u8>) -> bool {
    operation_covers(r.operation, operation) && if r.scope.0 {
        crate::scope::path_starts_with(path, r.scope.1)
    } else {
        crate::scope::components(r.scope.1) == crate::scope::components(path)
    }
}

/// Which rules a listing asks for.
pub struct FilePolicyListFilter {
    pub decision: Option<FilePolicyDecision>,
    pub operation: Option<FilePolicyOperation>,
    pub path_prefix: Option<String>,
}

pub open spec fn filter_accepts(f: FilePolicyListFilter, r: PolicyRuleView) -> bool {
    &&& (f.decision matches Some(d) ==> d == r.decision)
    &&& (f.operation matches Some(o) ==> o == r.operation)
    &&& (f.path_prefix matches Some(p) ==> p@.is_prefix_of(scope_display(r.scope)))
}

/// `prefix` begins `s`.
pub fn text_starts_with(s: &str, prefix: &str) -> (r: bool)
    ensures
        r == prefix@.is_prefix_of(s@),
{
    let a = s.as_bytes();
    let b = prefix.as_bytes();
    if b.len() > a.len() {
        proof {
            if prefix@.is_prefix_of(s@) {
                assert(s@ =~= prefix@ + s@.subrange(prefix@.len() as int, s@.len() as int));
                crate::text::lemma_encode_concat(prefix@, s@.subrange(prefix@.len() as int, s@.len() as int));
            }
        }
        return false;
    }
    let mut i: usize = 0;
    while i < b.len()
        invariant
            a@ == s.spec_bytes(),
            b@ == prefix.spec_bytes(),
            b@.len() <= a@.len(),
            i <= b@.len(),
            forall|k: int| 0 <= k < i ==> a@[k] == b@[k],
        decreases b@.len() - i,
    {
        if a[i] != b[i] {
            proof {
                if prefix@.is_prefix_of(s@) {
                    assert(s@ =~= prefix@ + s@.subrange(prefix@.len() as int, s@.len() as int));
                    crate::text::lemma_encode_concat(prefix@, s@.subrange(prefix@.len() as int, s@.len() as int));
                    assert(a@ == s.spec_bytes());
                    assert(b@ == prefix.spec_bytes());
                    assert(a@[i as int] == (b@ + vstd::utf8::encode_utf8(s@.subrange(prefix@.len() as int, s@.len() as int)))[i as int]);
                    assert(a@[i as int] == b@[i as int]);
                }
            }
            return false;
        }
        i += 1;
    }
    proof {
        assert(a@.subrange(0, b@.len() as int) =~= b@);
        lemma_byte_prefix_is_char_prefix(s@, prefix@);
    }
    true
}

/// A UTF-8 byte prefix of a text that is itself a whole text is a prefix
/// of the characters.
pub proof fn lemma_byte_prefix_is_char_prefix(s: Seq<char>, p: Seq<char>)
    requires
        vstd::utf8::encode_utf8(p).len() <= vstd::utf8::encode_utf8(s).len(),
        vstd::utf8::encode_utf8(s).subrange(0, vstd::utf8::encode_utf8(p).len() as int) == vstd::utf8::encode_utf8(p),
    ensures
        p.is_prefix_of(s),
    decreases p.len(),
{
    let es = vstd::utf8::encode_utf8(s);
    let ep = vstd::utf8::encode_utf8(p);
    if p.len() > 0 {
        let hp = vstd::utf8::encode_scalar(p[0] as u32);
        assert(ep == hp + vstd::utf8::encode_utf8(p.drop_first()));
        vstd::utf8::encode_utf8_first_scalar(p);
        assert(ep.len() > 0);
        assert(s.len() > 0);
        vstd::utf8::encode_utf8_first_scalar(s);
        let hs = vstd::utf8::encode_scalar(s[0] as u32);
        assert(es == hs + vstd::utf8::encode_utf8(s.drop_first()));
        assert forall|k: int| 0 <= k < ep.len() implies es[k] == ep[k] by {
            assert(es.subrange(0, ep.len() as int)[k] == es[k]);
        }
        let l = vstd::utf8::length_of_first_codepoint(ep);
        assert(es[0] == ep[0]);
        assert(vstd::utf8::length_of_first_codepoint(es) == l);
        assert(l == hp.len() && l == hs.len());
        assert(vstd::utf8::decode_first_codepoint(es) == vstd::utf8::decode_first_codepoint(ep)) by {
            if l >= 2 {
                assert(es[1] == ep[1]);
            }
            if l >= 3 {
                assert(es[2] == ep[2]);
            }
            if l >= 4 {
                assert(es[3] == ep[3]);
            }
        }
        assert(s[0] as u32 == p[0] as u32);
        vstd::utf8::char_u32_cast(s[0], s[0] as u32);
        vstd::utf8::char_u32_cast(p[0], p[0] as u32);
        assert(s[0] == p[0]);
        let s2 = s.drop_first();
        let p2 = p.drop_first();
        let es2 = vstd::utf8::encode_utf8(s2);
        let ep2 = vstd::utf8::encode_utf8(p2);
        assert(es2 =~= es.subrange(l, es.len() as int));
        assert(ep2 =~= ep.subrange(l, ep.len() as int));
        assert(es2.subrange(0, ep2.len() as int) =~= ep2) by {
            assert forall|k: int| 0 <= k < ep2.len() implies es2.subrange(0, ep2.len() as int)[k] == ep2[k] by {
                assert(es2[k] == es[k + l]);
                assert(ep2[k] == ep[k + l]);
            }
        }
        lemma_byte_prefix_is_char_prefix(s2, p2);
        assert(p =~= s.subrange(0, p.len() as int)) by {
            assert forall|k: int| 0 <= k < p.len() implies p[k] == s[k] by {
                if k > 0 {
                    assert(p[k] == p2[k - 1]);
                    assert(s[k] == s2[k - 1]);
                    assert(p2[k - 1] == s2[k - 1]);
                }
            }
        }
    }
}

/// A rule as a listing shows it.
pub struct FilePolicyRuleView {
    pub rule_id: String,
    pub owner_instance_id: String,
    pub decision: FilePolicyDecision,
    pub operation: FilePolicyOperation,
    pub path: String,
    pub gray_target: Option<u64>,
    pub priority: i32,
    pub enabled: bool,
    pub updated_sequence: u64,
}

pub struct RuleListing {
    pub rule_id: Seq<char>,
    pub owner: Seq<char>,
    pub decision: FilePolicyDecision,
    pub operation: FilePolicyOperation,
    pub path: Seq<char>,
    pub gray_target: Option<u64>,
    pub priority: i32,
    pub enabled: bool,
    pub updated_sequence: u64,
}

impl View for FilePolicyRuleView {
    type V = RuleListing;

    open spec fn view(&self) -> RuleListing {
        RuleListing {
            rule_id: self.rule_id@,
            owner: self.owner_instance_id@,
            decision: self.decision,
            operation: self.operation,
            path: self.path@,
            gray_target: self.gray_target,
            priority: self.priority,
            enabled: self.enabled,
            updated_sequence: self.updated_sequence,
        }
    }
}

pub open spec fn rule_listing(r: PolicyRuleView) -> RuleListing {
    RuleListing {
        rule_id: r.rule_id,
        owner: r.owner,
        decision: r.decision,
        operation: r.operation,
        path: scope_display(r.scope),
        gray_target: r.gray_target,
        priority: r.priority,
        enabled: r.enabled,
        updated_sequence: r.updated_sequence,
    }
}

/// A grant that lets a plugin apply rules of one decision under a path scope.
pub struct FilePolicyRulesApplyGrant {
    pub decision: FilePolicyDecision,
    pub path_scope: String,
}

/// The grant allows `decision` rules on `scope`.
pub open spec fn grant_covers(g: FilePolicyRulesApplyGrant, decision: FilePolicyDecision, scope: (bool, Seq<u8>)) -> bool {
    g.decision == decision && match scope_result(text_bytes(g.path_scope), true) {
        Ok(gs) => scope_contains(gs, scope),
        Err(_) => false,
    }
}

pub open spec fn missing_grant_message(decision: FilePolicyDecision, scope: (bool, Seq<u8>)) -> Seq<char> {
    "missing file-policy.rules.apply grant for "@ + decision_text(decision) + " "@ + scope_display(scope)
}

pub open spec fn rule_grant_spec(grants: Seq<FilePolicyRulesApplyGrant>, decision: FilePolicyDecision, scope: (bool, Seq<u8>)) -> Result<(), Seq<char>> {
    if exists|i: int| 0 <= i < grants.len() && grant_covers(#[trigger] grants[i], decision, scope) {
        Ok(())
    } else {
        Err(missing_grant_message(decision, scope))
    }
}

pub open spec fn unit_result(r: Result<(), String>) -> Result<(), Seq<char>> {
    match r {
        Ok(_) => Ok(()),
        Err(e) => Err(e@),
    }
}

/// A rule of `decision` on `scope` needs a grant covering it.
pub fn validate_rule_grant(grants: &[FilePolicyRulesApplyGrant], decision: FilePolicyDecision, scope: &PathScope) -> (r: Result<(), String>)
    ensures
        unit_result(r) == rule_grant_spec(grants@, decision, scope@),
{
    let mut i: usize = 0;
    while i < grants.len()
        invariant
            i <= grants@.len(),
            forall|k: int| 0 <= k < i ==> !grant_covers(#[trigger] grants@[k], decision, scope@),
        decreases grants@.len() - i,
    {
        let g = &grants[i];
        if g.decision == decision {
            match normalized_scope(g.path_scope.as_str()) {
                Ok(gs) => {
                    if gs.contains_scope(scope) {
                        assert(grant_covers(grants@[i as int], decision, scope@));
                        return Ok(());
                    }
                },
                Err(_) => {},
            }
        }
        i += 1;
    }
    let mut m = String::from_str("missing file-policy.rules.apply grant for ");
    m.append(decision.as_str());
    m.append(" ");
    let shown = scope.display_path();
    m.append(shown.as_str());
    Err(m)
}

pub open spec fn draft_grant_spec(grants: Seq<FilePolicyRulesApplyGrant>, draft: FilePolicyRuleDraft) -> Result<(), Seq<char>> {
    match scope_result(text_bytes(draft.path), true) {
        Err(e) => Err(e),
        Ok(scope) => rule_grant_spec(grants, draft.decision, scope),
    }
}

/// A draft needs a grant covering its normalised scope.
pub fn validate_draft_grant(grants: &[FilePolicyRulesApplyGrant], draft: &FilePolicyRuleDraft) -> (r: Result<(), String>)
    ensures
        unit_result(r) == draft_grant_spec(grants@, *draft),
{
    let scope = match normalized_scope(draft.path.as_str()) {
        Ok(s) => s,
        Err(e) => {
            return Err(e);
        },
    };
    validate_rule_grant(grants, draft.decision, &scope)
}

pub open spec fn gray_target_spec(draft: FilePolicyRuleDraft, active_deciders: Seq<u64>) -> Result<(), Seq<char>> {
    if !(draft.decision is Gray) {
        Ok(())
    } else {
        match draft.gray_target {
            None => Err("gray rule requires gray_target"@),
            Some(t) => if active_deciders.contains(t) {
                Ok(())
            } else {
                Err("gray_target "@ + decimal(t as nat) + " is not an active control decider"@)
            },
        }
    }
}

/// A gray draft must target one of the active control deciders.
pub fn validate_gray_target(draft: &FilePolicyRuleDraft, active_deciders: &[u64]) -> (r: Result<(), String>)
    ensures
        unit_result(r) == gray_target_spec(*draft, active_deciders@),
{
    if draft.decision != FilePolicyDecision::Gray {
        return Ok(());
    }
    let target = match draft.gray_target {
        Some(t) => t,
        None => {
            return Err(String::from_str("gray rule requires gray_target"));
        },
    };
    let mut i: usize = 0;
    while i < active_deciders.len()
        invariant
            i <= active_deciders@.len(),
            draft.decision == FilePolicyDecision::Gray,
            draft.gray_target == Some(target),
            forall|k: int| 0 <= k < i ==> active_deciders@[k] != target,
        decreases active_deciders@.len() - i,
    {
        if active_deciders[i] == target {
            assert(active_deciders@[i as int] == target);
            return Ok(());
        }
        i += 1;
    }
    let mut m = String::from_str("gray_target ");
    push_decimal(&mut m, target);
    m.append(" is not an active control decider");
    Err(m)
}

} // verus!
