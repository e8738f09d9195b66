//! The static file-access policy file: one rule per line, either
//! `<rule_id> <allow|deny> <operation> <absolute-path>` or
//! `<rule_id> gray sync-plugin <instance> timeout-ms <ms> concurrency
//! <limit> fallback <allow|deny> <operation> <absolute-path>`.
//!
//! The last three words of a line are read by outside parties: the verdict
//! word by the daemon's decision parser, the operation word by the plugin
//! runtime's parser, and the path by the filesystem, which gives its
//! canonical form. The library receives those readings with the line.

use vstd::prelude::*;
use vstd::string::StringSliceAdditionalSpecFns;
use crate::file_policy::{is_blank, str_is_blank, EnforcementRule, EnforcementRuleView, FilePolicyOperation, RuleDecision, RuleDecisionView, operation_text};
use crate::rules::{field_outcome, field_outcome32, parse_positive_u32, parse_positive_u64, positive_field, EnforcementDecision};
use crate::scope::is_absolute;
use crate::words::{split_whitespace_words, word_texts};
use crate::payload::str_eq;

verus! {

broadcast use vstd::utf8::group_utf8_lib;

/// One line of the static file policy, with the readings of its last three
/// words: the verdict, the operation, and the canonical path.
#[derive(Debug)]
pub struct StaticFileLine {
    pub text: String,
    pub decision: Result<EnforcementDecision, String>,
    pub operation: Result<FilePolicyOperation, String>,
    pub canonical_path: Result<String, String>,
}

pub struct StaticFileLineView {
    pub text: Seq<char>,
    pub decision: Result<EnforcementDecision, Seq<char>>,
    pub operation: Result<FilePolicyOperation, Seq<char>>,
    pub canonical_path: Result<Seq<char>, Seq<char>>,
}

pub open spec fn res_text<T>(r: Result<T, String>) -> Result<T, Seq<char>> {
    match r {
        Ok(v) => Ok(v),
        Err(e) => Err(e@),
    }
}

pub open spec fn path_text(r: Result<String, String>) -> Result<Seq<char>, Seq<char>> {
    match r {
        Ok(v) => Ok(v@),
        Err(e) => Err(e@),
    }
}

impl View for StaticFileLine {
    type V = StaticFileLineView;

    open spec fn view(&self) -> StaticFileLineView {
        StaticFileLineView {
            text: self.text@,
            decision: res_text(self.decision),
            operation: res_text(self.operation),
            canonical_path: path_text(self.canonical_path),
        }
    }
}

pub open spec fn file_rule_shape() -> Seq<char> {
    "expected: <rule_id> <allow|deny> <any|open|mkdir|rmdir> <absolute-path> or <rule_id> gray sync-plugin <instance> timeout-ms <positive-ms> concurrency <positive-limit> fallback <allow|deny> <any|open|mkdir|rmdir> <absolute-path>"@
}

/// The canonical form of path word `p`: a relative path is refused before
/// the filesystem is asked.
pub open spec fn canonical_spec(p: Seq<char>, canonical: Result<Seq<char>, Seq<char>>) -> Result<Seq<char>, Seq<char>> {
    if !is_absolute(vstd::utf8::encode_utf8(p)) {
        Err("path "@ + p + " must be absolute"@)
    } else {
        match canonical {
            Err(e) => Err("canonicalize "@ + p + ": "@ + e),
            Ok(c) => Ok(c),
        }
    }
}

pub open spec fn static_owner_text() -> Seq<char> {
    "actrail.static"@
}

/// The rule a static file policy line gives, or why it is refused.
#[verifier::opaque]
pub open spec fn file_rule_spec(l: StaticFileLineView) -> Result<EnforcementRuleView, Seq<char>> {
    let t = word_texts(vstd::utf8::encode_utf8(l.text));
    if t.len() == 4 {
        match l.operation {
            Err(e) => Err(e),
            Ok(op) => match l.decision {
                Err(e) => Err(e),
                Ok(d) => match canonical_spec(t[3], l.canonical_path) {
                    Err(e) => Err(e),
                    Ok(path) => Ok(EnforcementRuleView {
                        owner: static_owner_text(),
                        rule_id: t[0],
                        decision: RuleDecisionView::Local(d),
                        operation: operation_text(op),
                        path: vstd::utf8::encode_utf8(path),
                    }),
                },
            },
        }
    } else if t.len() == 12 && t[1] == "gray"@ && t[2] == "sync-plugin"@ && t[4] == "timeout-ms"@ && t[6] == "concurrency"@
        && t[8] == "fallback"@ {
        match l.operation {
            Err(e) => Err(e),
            Ok(op) => if is_blank(t[3]) {
                Err("sync-plugin instance id must not be empty"@)
            } else {
                match positive_field("timeout-ms"@, vstd::utf8::encode_utf8(t[5]), u64::MAX as int) {
                    Err(e) => Err(e),
                    Ok(timeout) => match positive_field("concurrency"@, vstd::utf8::encode_utf8(t[7]), u32::MAX as int) {
                        Err(e) => Err(e),
                        Ok(limit) => match l.decision {
                            Err(e) => Err(e),
                            Ok(f) => match canonical_spec(t[11], l.canonical_path) {
                                Err(e) => Err(e),
                                Ok(path) => Ok(EnforcementRuleView {
                                    owner: static_owner_text(),
                                    rule_id: t[0],
                                    decision: RuleDecisionView::SyncPlugin(t[3], timeout as u64, limit as u32, f),
                                    operation: operation_text(op),
                                    path: vstd::utf8::encode_utf8(path),
                                }),
                            },
                        },
                    },
                }
            },
        }
    } else {
        Err(file_rule_shape())
    }
}

fn canonical_exact_path(path: &str, canonical: &Result<String, String>) -> (r: Result<String, String>)
    ensures
        path_text(r) == canonical_spec(path@, path_text(*canonical)),
{
    let b = path.as_bytes();
    if !(b.len() > 0 && b[0] == 47) {
        let mut m = String::from_str("path ");
        m.append(path);
        m.append(" must be absolute");
        return Err(m);
    }
    match canonical {
        Err(e) => {
            let mut m = String::from_str("canonicalize ");
            m.append(path);
            m.append(": ");
            m.append(e.as_str());
            Err(m)
        },
        Ok(c) => Ok(c.clone()),
    }
}

pub open spec fn file_rule_outcome(r: Result<EnforcementRule, String>) -> Result<EnforcementRuleView, Seq<char>> {
    match r {
        Ok(x) => Ok(x@),
        Err(e) => Err(e@),
    }
}

/// The rule of one static file policy line.
pub fn parse_rule(line: &StaticFileLine) -> (r: Result<EnforcementRule, String>)
    ensures
        file_rule_outcome(r) == file_rule_spec(line@),
{
    proof {
        reveal(file_rule_spec);
    }
    let parts = split_whitespace_words(line.text.as_str());
    let ghost t = word_texts(vstd::utf8::encode_utf8(line.text@));
    if parts.len() == 4 {
        assert(parts@[0]@ == t[0] && parts@[3]@ == t[3]);
        let op = match &line.operation {
            Err(e) => {
                return Err(e.clone());
            },
            Ok(op) => *op,
        };
        let d = match &line.decision {
            Err(e) => {
                return Err(e.clone());
            },
            Ok(d) => *d,
        };
        let path = match canonical_exact_path(parts[3].as_str(), &line.canonical_path) {
            Err(e) => {
                return Err(e);
            },
            Ok(p) => p,
        };
        return Ok(EnforcementRule {
            owner_instance_id: String::from_str("actrail.static"),
            rule_id: parts[0].clone(),
            decision: RuleDecision::Local(d),
            operation: String::from_str(op.as_str()),
            path,
        });
    }
    if parts.len() == 12 && str_eq(parts[1].as_str(), "gray") && str_eq(parts[2].as_str(), "sync-plugin") && str_eq(
        parts[4].as_str(),
        "timeout-ms",
    ) && str_eq(parts[6].as_str(), "concurrency") && str_eq(parts[8].as_str(), "fallback") {
        assert(parts@[0]@ == t[0] && parts@[3]@ == t[3] && parts@[5]@ == t[5] && parts@[7]@ == t[7] && parts@[11]@ == t[11]);
        let op = match &line.operation {
            Err(e) => {
                return Err(e.clone());
            },
            Ok(op) => *op,
        };
        if str_is_blank(parts[3].as_str()) {
            return Err(String::from_str("sync-plugin instance id must not be empty"));
        }
        let timeout = match parse_positive_u64("timeout-ms", parts[5].as_str()) {
            Err(e) => {
                return Err(e);
            },
            Ok(v) => v,
        };
        let limit = match parse_positive_u32("concurrency", parts[7].as_str()) {
            Err(e) => {
                return Err(e);
            },
            Ok(v) => v,
        };
        let f = match &line.decision {
            Err(e) => {
                return Err(e.clone());
            },
            Ok(d) => *d,
        };
        let path = match canonical_exact_path(parts[11].as_str(), &line.canonical_path) {
            Err(e) => {
                return Err(e);
            },
            Ok(p) => p,
        };
        return Ok(EnforcementRule {
            owner_instance_id: String::from_str("actrail.static"),
            rule_id: parts[0].clone(),
            decision: RuleDecision::SyncPlugin {
                instance_id: parts[3].clone(),
                timeout_ms: timeout,
                concurrency_limit: limit,
                fallback: f,
            },
            operation: String::from_str(op.as_str()),
            path,
        });
    }
    Err(String::from_str(
        "expected: <rule_id> <allow|deny> <any|open|mkdir|rmdir> <absolute-path> or <rule_id> gray sync-plugin <instance> timeout-ms <positive-ms> concurrency <positive-limit> fallback <allow|deny> <any|open|mkdir|rmdir> <absolute-path>",
    ))
}

} // verus!
