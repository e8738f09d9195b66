//! Field-level validation shared by the file and network policy parsers:
//! positive integer limits, operation names, rule identifiers and the small
//! enumerations the enforcement engine reports by name.

use vstd::prelude::*;
use vstd::string::StringSliceAdditionalSpecFns;
use crate::words::{IntErrorKind, digit_scan, is_digit, parse_uint, parse_uint_bytes, ws_len, whitespace_len_at};
use crate::text::{decimal, digit_char, lemma_encode_concat};

verus! {

/// The text `core::num::ParseIntError` displays for each failure kind.
pub open spec fn int_error_text(k: IntErrorKind) -> Seq<char> {
    match k {
        IntErrorKind::Empty => "cannot parse integer from empty string"@,
        IntErrorKind::InvalidDigit => "invalid digit found in string"@,
        IntErrorKind::PosOverflow => "number too large to fit in target type"@,
    }
}

pub fn int_error_str(k: IntErrorKind) -> (s: &'static str)
    ensures
        s@ == int_error_text(k),
{
    match k {
        IntErrorKind::Empty => "cannot parse integer from empty string",
        IntErrorKind::InvalidDigit => "invalid digit found in string",
        IntErrorKind::PosOverflow => "number too large to fit in target type",
    }
}

/// What parsing the field `name` with text `raw` as a positive integer no
/// larger than `max` yields: the value, or the message that names the field.
pub open spec fn positive_field(name: Seq<char>, raw: Seq<u8>, max: int) -> Result<int, Seq<char>> {
    match parse_uint(raw, max) {
        Err(k) => Err(name + " must be a positive integer: "@ + int_error_text(k)),
        Ok(v) => if v == 0 {
            Err(name + " must be greater than zero"@)
        } else {
            Ok(v)
        },
    }
}

/// The result of a positive-integer field parse, with its message as text.
pub open spec fn field_outcome(r: Result<u64, String>) -> Result<int, Seq<char>> {
    match r {
        Ok(v) => Ok(v as int),
        Err(e) => Err(e@),
    }
}

pub open spec fn field_outcome32(r: Result<u32, String>) -> Result<int, Seq<char>> {
    match r {
        Ok(v) => Ok(v as int),
        Err(e) => Err(e@),
    }
}

fn positive_integer(name: &str, raw: &str, max: u64) -> (r: Result<u64, String>)
    ensures
        field_outcome(r) == positive_field(name@, raw.spec_bytes(), max as int),
        r matches Ok(v) ==> 0 < v <= max,
{
    match parse_uint_bytes(raw.as_bytes(), max) {
        Err(k) => {
            let mut m = String::from_str(name);
            m.append(" must be a positive integer: ");
            m.append(int_error_str(k));
            Err(m)
        },
        Ok(v) => {
            if v == 0 {
                let mut m = String::from_str(name);
                m.append(" must be greater than zero");
                Err(m)
            } else {
                Ok(v)
            }
        },
    }
}

/// Parses the file-policy field `name` as a positive `u64`.
pub fn parse_positive_u64(name: &str, raw: &str) -> (r: Result<u64, String>)
    ensures
        field_outcome(r) == positive_field(name@, raw.spec_bytes(), u64::MAX as int),
{
    positive_integer(name, raw, u64::MAX)
}

/// Parses the file-policy field `name` as a positive `u32`.
pub fn parse_positive_u32(name: &str, raw: &str) -> (r: Result<u32, String>)
    ensures
        field_outcome32(r) == positive_field(name@, raw.spec_bytes(), u32::MAX as int),
{
    match positive_integer(name, raw, u32::MAX as u64) {
        Ok(v) => Ok(v as u32),
        Err(e) => Err(e),
    }
}

/// Parses the network-policy field `label` as a positive `u64`.
pub fn positive_u64(label: &str, value: &str) -> (r: Result<u64, String>)
    ensures
        field_outcome(r) == positive_field(label@, value.spec_bytes(), u64::MAX as int),
{
    positive_integer(label, value, u64::MAX)
}

/// Parses the network-policy field `label` as a positive `u32`.
pub fn positive_u32(label: &str, value: &str) -> (r: Result<u32, String>)
    ensures
        field_outcome32(r) == positive_field(label@, value.spec_bytes(), u32::MAX as int),
{
    match positive_integer(label, value, u32::MAX as u64) {
        Ok(v) => Ok(v as u32),
        Err(e) => Err(e),
    }
}

/// The verdict a rule applies locally, or falls back to.
#[derive(Clone, Copy, Debug, PartialEq, Eq, Structural)]
pub enum EnforcementDecision {
    Allow,
    Deny,
}

pub open spec fn verdict_text(d: EnforcementDecision) -> Seq<char> {
    match d {
        EnforcementDecision::Allow => "allow"@,
        EnforcementDecision::Deny => "deny"@,
    }
}

impl EnforcementDecision {
    /// The verdict's name, as rules spell it.
    pub fn as_str(self) -> (s: &'static str)
        ensures
            s@ == verdict_text(self),
    {
        match self {
            EnforcementDecision::Allow => "allow",
            EnforcementDecision::Deny => "deny",
        }
    }
}

/// Field parsers of the static network policy text.
pub struct StaticRuleParser;

impl StaticRuleParser {
    pub fn positive_u64(label: &str, value: &str) -> (r: Result<u64, String>)
        ensures
            field_outcome(r) == positive_field(label@, value.spec_bytes(), u64::MAX as int),
    {
        positive_integer(label, value, u64::MAX)
    }

    pub fn positive_u32(label: &str, value: &str) -> (r: Result<u32, String>)
        ensures
            field_outcome32(r) == positive_field(label@, value.spec_bytes(), u32::MAX as int),
    {
        match positive_integer(label, value, u32::MAX as u64) {
            Ok(v) => Ok(v as u32),
            Err(e) => Err(e),
        }
    }

    /// The fallback verdict named by `value`.
    pub fn enforcement(value: &str) -> (r: Result<EnforcementDecision, String>)
        ensures
            value@ == "allow"@ ==> r == Ok::<EnforcementDecision, String>(EnforcementDecision::Allow),
            value@ == "deny"@ ==> r == Ok::<EnforcementDecision, String>(EnforcementDecision::Deny),
            value@ != "allow"@ && value@ != "deny"@ ==> (r matches Err(e) && e@
                == "fallback must be allow or deny"@),
    {
        proof {
            reveal_strlit("allow");
            reveal_strlit("deny");
            assert("allow"@[0] != "deny"@[0]);
        }
        if crate::payload::str_eq(value, "allow") {
            Ok(EnforcementDecision::Allow)
        } else if crate::payload::str_eq(value, "deny") {
            Ok(EnforcementDecision::Deny)
        } else {
            Err(String::from_str("fallback must be allow or deny"))
        }
    }
}

/// Checks the operation field of a static file rule: only `open` is known.
pub fn validate_operation(operation: &str) -> (r: Result<(), String>)
    ensures
        r is Ok <==> operation@ == "open"@,
        r matches Err(e) ==> e@ == "unsupported operation "@ + operation@ + "; expected open"@,
{
    if crate::payload::str_eq(operation, "open") {
        Ok(())
    } else {
        let mut m = String::from_str("unsupported operation ");
        m.append(operation);
        m.append("; expected open");
        Err(m)
    }
}

/// `s` holds a character with the Unicode `White_Space` property (found by
/// its UTF-8 encoding, whose lead byte never occurs inside another character).
pub open spec fn has_whitespace(s: Seq<u8>) -> bool {
    exists|i: int| 0 <= i < s.len() && ws_len(s, i) > 0
}

/// Shape checks of network rule fields.
pub struct NetworkRuleValidator;

impl NetworkRuleValidator {
    /// A rule id must be non-empty and free of whitespace.
    pub fn rule_id(rule_id: &str) -> (r: Result<(), String>)
        ensures
            r is Ok <==> (rule_id.spec_bytes().len() > 0 && !has_whitespace(rule_id.spec_bytes())),
            r matches Err(e) ==> e@ == "network rule id must be non-empty and contain no whitespace"@,
    {
        let b = rule_id.as_bytes();
        let mut i: usize = 0;
        let mut clean = b.len() > 0;
        while i < b.len()
            invariant
                i <= b.len(),
                clean <==> (b@.len() > 0 && forall|k: int| 0 <= k < i ==> ws_len(b@, k) == 0),
            decreases b.len() - i,
        {
            if whitespace_len_at(b, i) > 0 {
                clean = false;
            }
            i += 1;
        }
        if clean {
            Ok(())
        } else {
            Err(String::from_str("network rule id must be non-empty and contain no whitespace"))
        }
    }
}

/// Where a file policy rule comes from.
#[derive(Clone, Copy, Debug, PartialEq, Eq, Structural)]
pub enum RuleTier {
    Plugin,
    Static,
    Builtin,
}

impl RuleTier {
    /// Evaluation rank: built-in rules (rank 1) are evaluated before plugin
    /// and static ones (rank 0).
    pub fn rank(self) -> (r: u8)
        ensures
            r == (if self is Builtin { 1u8 } else { 0u8 }),
    {
        match self {
            RuleTier::Static | RuleTier::Plugin => 0,
            RuleTier::Builtin => 1,
        }
    }
}

/// Why a synchronous plugin decision fell back to the rule's fallback verdict.
#[derive(Clone, Copy, Debug, PartialEq, Eq, Structural)]
pub enum SyncPluginFallbackReason {
    PluginError,
    PluginPanic,
    ConcurrencyLimit,
    PluginInstanceConcurrencyLimit,
}

pub open spec fn fallback_reason_text(r: SyncPluginFallbackReason) -> Seq<char> {
    match r {
        SyncPluginFallbackReason::PluginError => "plugin_error"@,
        SyncPluginFallbackReason::PluginPanic => "plugin_panic"@,
        SyncPluginFallbackReason::ConcurrencyLimit => "concurrency_limit"@,
        SyncPluginFallbackReason::PluginInstanceConcurrencyLimit => "plugin_instance_concurrency_limit"@,
    }
}

impl SyncPluginFallbackReason {
    pub fn as_str(self) -> (s: &'static str)
        ensures
            s@ == fallback_reason_text(self),
    {
        match self {
            SyncPluginFallbackReason::PluginError => "plugin_error",
            SyncPluginFallbackReason::PluginPanic => "plugin_panic",
            SyncPluginFallbackReason::ConcurrencyLimit => "concurrency_limit",
            SyncPluginFallbackReason::PluginInstanceConcurrencyLimit => "plugin_instance_concurrency_limit",
        }
    }
}

/// The ASCII digit bytes of `n` in decimal.
pub open spec fn ascii_digits(n: nat) -> Seq<u8>
    decreases n,
{
    if n < 10 {
        seq![(48 + n) as u8]
    } else {
        ascii_digits(n / 10).push((48 + n % 10) as u8)
    }
}

proof fn lemma_encode_digit(d: int)
    requires
        0 <= d < 10,
    ensures
        vstd::utf8::encode_utf8(seq![digit_char(d)]) == seq![(48 + d) as u8],
{
    let c = seq![digit_char(d)];
    let v = (48 + d) as u32;
    assert(digit_char(d) as u32 == v);
    assert(v & 0x7Fu32 == v) by (bit_vector)
        requires
            v < 128,
    ;
    assert(vstd::utf8::encode_scalar(v) =~= seq![(48 + d) as u8]);
    assert(c.drop_first() =~= Seq::<char>::empty());
    assert(vstd::utf8::encode_utf8(c) == vstd::utf8::encode_scalar(c[0] as u32) + vstd::utf8::encode_utf8(c.drop_first()));
    assert(vstd::utf8::encode_utf8(c) =~= seq![(48 + d) as u8]);
}

/// The UTF-8 bytes of the decimal text of `n` are its ASCII digits.
pub proof fn lemma_encode_decimal(n: nat)
    ensures
        vstd::utf8::encode_utf8(decimal(n)) == ascii_digits(n),
    decreases n,
{
    if n < 10 {
        lemma_encode_digit(n as int);
    } else {
        lemma_encode_decimal(n / 10);
        lemma_encode_digit((n % 10) as int);
        assert(decimal(n) =~= decimal(n / 10) + seq![digit_char((n % 10) as int)]);
        lemma_encode_concat(decimal(n / 10), seq![digit_char((n % 10) as int)]);
        assert(ascii_digits(n) =~= ascii_digits(n / 10) + seq![(48 + n % 10) as u8]);
    }
}

proof fn lemma_ascii_digits_are_digits(n: nat)
    ensures
        ascii_digits(n).len() > 0,
        forall|i: int| 0 <= i < ascii_digits(n).len() ==> is_digit(#[trigger] ascii_digits(n)[i]),
    decreases n,
{
    if n >= 10 {
        lemma_ascii_digits_are_digits(n / 10);
    }
}

proof fn lemma_scan_push(s: Seq<u8>, d: u8, k: int, acc: int, max: int, a: int)
    requires
        0 <= k <= s.len(),
        digit_scan(s, k, acc, max) == Ok::<int, IntErrorKind>(a),
    ensures
        digit_scan(s.push(d), k, acc, max) == (if !is_digit(d) {
            Err::<int, IntErrorKind>(IntErrorKind::InvalidDigit)
        } else if a * 10 + (d - 48) > max {
            Err(IntErrorKind::PosOverflow)
        } else {
            Ok(a * 10 + (d - 48))
        }),
    decreases s.len() - k,
{
    let t = s.push(d);
    if k == s.len() {
        assert(t[k] == d);
        assert(digit_scan(t, k + 1, acc * 10 + (d - 48), max) == Ok::<int, IntErrorKind>(acc * 10 + (d - 48)));
    } else {
        assert(t[k] == s[k]);
        lemma_scan_push(s, d, k + 1, acc * 10 + (s[k] - 48), max, a);
    }
}

proof fn lemma_scan_decimal(n: nat, max: int)
    requires
        n <= max,
    ensures
        digit_scan(ascii_digits(n), 0, 0, max) == Ok::<int, IntErrorKind>(n as int),
    decreases n,
{
    if n < 10 {
        let s = ascii_digits(n);
        assert(digit_scan(s, 1, n as int, max) == Ok::<int, IntErrorKind>(n as int));
    } else {
        assert(n / 10 <= n);
        lemma_scan_decimal(n / 10, max);
        lemma_scan_push(ascii_digits(n / 10), (48 + n % 10) as u8, 0, 0, max, (n / 10) as int);
        assert((n / 10) * 10 + n % 10 == n);
    }
}

/// The decimal text of `n` parses back to `n` when it fits below `max`.
pub proof fn lemma_parse_decimal(n: nat, max: int)
    requires
        n <= max,
    ensures
        parse_uint(vstd::utf8::encode_utf8(decimal(n)), max) == Ok::<int, IntErrorKind>(n as int),
{
    lemma_encode_decimal(n);
    lemma_ascii_digits_are_digits(n);
    lemma_scan_decimal(n, max);
    assert(is_digit(ascii_digits(n)[0]));
}

/// Law: the decimal text of a positive count, as the daemon writes counts
/// (`u64_to_decimal`), is accepted back by every positive-integer field
/// parser with the same value.
pub proof fn law_positive_fields_read_back_decimal(name: Seq<char>, v: u64)
    requires
        v > 0,
    ensures
        positive_field(name, vstd::utf8::encode_utf8(decimal(v as nat)), u64::MAX as int) == Ok::<int, Seq<char>>(v as int),
        v <= u32::MAX ==> positive_field(name, vstd::utf8::encode_utf8(decimal(v as nat)), u32::MAX as int) == Ok::<
            int,
            Seq<char>,
        >(v as int),
{
    lemma_parse_decimal(v as nat, u64::MAX as int);
    if v <= u32::MAX {
        lemma_parse_decimal(v as nat, u32::MAX as int);
    }
}

} // verus!
