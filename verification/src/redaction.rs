//! Redaction of captured payload bytes before they are stored: with the
//! authorization-header policy every line whose text starts with
//! `authorization:` (in any ASCII case) is replaced by a fixed marker line.

use vstd::prelude::*;
use crate::text::{starts_with_ci, starts_with_ignore_ascii_case};
use crate::words::{byte_pos_from, find_byte_from, lemma_byte_pos_bounds};

verus! {

/// How captured bytes are redacted.
#[derive(Clone, Copy, Debug, PartialEq, Eq, Structural)]
pub enum PayloadRedactionPolicy {
    Disabled,
    AuthorizationHeader,
}

/// Whether a stored segment's bytes were redacted.
#[derive(Clone, Copy, Debug, PartialEq, Eq, Structural)]
pub enum PayloadRedactionState {
    NotRequired,
    Unredacted,
    Redacted,
}

/// `authorization:`
pub open spec fn lit_authorization() -> Seq<u8> {
    seq![97u8, 117, 116, 104, 111, 114, 105, 122, 97, 116, 105, 111, 110, 58]
}

/// `Authorization: <redacted>`
pub open spec fn redacted_marker() -> Seq<u8> {
    seq![65u8, 117, 116, 104, 111, 114, 105, 122, 97, 116, 105, 111, 110, 58, 32, 60, 114, 101, 100, 97, 99, 116, 101, 100, 62]
}

/// End of the line that starts at byte `i`: just past its newline, or the
/// end of the bytes (`split_inclusive` on `\n`).
pub open spec fn line_end(b: Seq<u8>, i: int) -> int {
    let e = byte_pos_from(b, i, 10u8);
    if e < b.len() {
        e + 1
    } else {
        b.len() as int
    }
}

/// The text of a line: without its `\n`, then without a `\r` before it.
pub open spec fn line_text(line: Seq<u8>) -> Seq<u8> {
    let a = if line.len() > 0 && line.last() == 10u8 { line.drop_last() } else { line };
    if a.len() > 0 && a.last() == 13u8 {
        a.drop_last()
    } else {
        a
    }
}

/// The terminator a redacted line keeps: `\r\n`, `\n`, or none.
pub open spec fn line_terminator(line: Seq<u8>) -> Seq<u8> {
    if line.len() >= 2 && line[line.len() - 2] == 13u8 && line.last() == 10u8 {
        seq![13u8, 10]
    } else if line.len() >= 1 && line.last() == 10u8 {
        seq![10u8]
    } else {
        Seq::empty()
    }
}

/// Whether a line is an authorization header line.
pub open spec fn is_authorization_line(line: Seq<u8>) -> bool {
    starts_with_ci(line_text(line), lit_authorization())
}

/// A line as stored.
pub open spec fn redact_line(line: Seq<u8>) -> Seq<u8> {
    if is_authorization_line(line) {
        redacted_marker() + line_terminator(line)
    } else {
        line
    }
}

/// The redacted bytes of the lines from byte `i` on, and whether any line
/// was an authorization line.
pub open spec fn redact_from(b: Seq<u8>, i: int) -> (Seq<u8>, bool)
    decreases b.len() - i,
{
    if i < 0 || i >= b.len() {
        (Seq::empty(), false)
    } else {
        let e = line_end(b, i);
        proof {
            lemma_byte_pos_bounds(b, i, 10u8);
        }
        let rest = redact_from(b, e);
        (redact_line(b.subrange(i, e)) + rest.0, is_authorization_line(b.subrange(i, e)) || rest.1)
    }
}

/// The stored bytes and redaction state under `policy`.
pub open spec fn redacted(policy: PayloadRedactionPolicy, b: Seq<u8>) -> (Seq<u8>, PayloadRedactionState) {
    match policy {
        PayloadRedactionPolicy::Disabled => (b, PayloadRedactionState::Unredacted),
        PayloadRedactionPolicy::AuthorizationHeader => {
            let r = redact_from(b, 0);
            (r.0, if r.1 { PayloadRedactionState::Redacted } else { PayloadRedactionState::Unredacted })
        },
    }
}

/// Redacts `bytes` under `policy`.
pub fn redact_payload_bytes(policy: PayloadRedactionPolicy, bytes: Vec<u8>) -> (r: (Vec<u8>, PayloadRedactionState))
    ensures
        (r.0@, r.1) == redacted(policy, bytes@),
{
    match policy {
        PayloadRedactionPolicy::Disabled => (bytes, PayloadRedactionState::Unredacted),
        PayloadRedactionPolicy::AuthorizationHeader => redact_authorization_header(bytes),
    }
}

/// Replaces every authorization header line of `bytes` by the marker line.
pub fn redact_authorization_header(bytes: Vec<u8>) -> (r: (Vec<u8>, PayloadRedactionState))
    ensures
        (r.0@, r.1) == redacted(PayloadRedactionPolicy::AuthorizationHeader, bytes@),
{
    let prefix: [u8; 14] = [97, 117, 116, 104, 111, 114, 105, 122, 97, 116, 105, 111, 110, 58];
    let marker: [u8; 25] = [65, 117, 116, 104, 111, 114, 105, 122, 97, 116, 105, 111, 110, 58, 32, 60, 114, 101, 100, 97, 99, 116, 101, 100, 62];
    assert(prefix@ =~= lit_authorization());
    assert(marker@ =~= redacted_marker());
    let b = bytes.as_slice();
    let n = b.len();
    let mut output: Vec<u8> = Vec::new();
    let mut changed = false;
    let mut i: usize = 0;
    while i < n
        invariant
            n == b@.len(),
            i <= n,
            b@ == bytes@,
            prefix@ == lit_authorization(),
            marker@ == redacted_marker(),
            output@ + redact_from(b@, i as int).0 == redact_from(b@, 0).0,
            (changed || redact_from(b@, i as int).1) == redact_from(b@, 0).1,
        decreases n - i,
    {
        let nl = find_byte_from(b, i, 10);
        proof {
            lemma_byte_pos_bounds(b@, i as int, 10u8);
        }
        let e = if nl < n { nl + 1 } else { n };
        let ghost line = b@.subrange(i as int, e as int);
        let mut ce = e;
        if ce > i && b[ce - 1] == 10 {
            ce = ce - 1;
        }
        if ce > i && b[ce - 1] == 13 {
            ce = ce - 1;
        }
        proof {
            let a = if line.len() > 0 && line.last() == 10u8 { line.drop_last() } else { line };
            assert(line.len() > 0 && line.last() == 10u8 ==> a =~= b@.subrange(i as int, e - 1));
            assert(line_text(line) =~= b@.subrange(i as int, ce as int));
        }
        let text = vstd::slice::slice_subrange(b, i, ce);
        let ghost before = output@;
        let auth = starts_with_ignore_ascii_case(text, prefix.as_slice());
        if auth {
            output.extend_from_slice(marker.as_slice());
            if e - i >= 2 && b[e - 2] == 13 && b[e - 1] == 10 {
                output.push(13);
                output.push(10);
                assert(line_terminator(line) =~= seq![13u8, 10]);
            } else if e - i >= 1 && b[e - 1] == 10 {
                output.push(10);
                assert(line_terminator(line) =~= seq![10u8]);
            } else {
                assert(line_terminator(line) =~= Seq::<u8>::empty());
            }
            changed = true;
        } else {
            let piece = vstd::slice::slice_subrange(b, i, e);
            output.extend_from_slice(piece);
        }
        proof {
            assert(output@ =~= before + redact_line(line));
            let rest = redact_from(b@, e as int);
            assert(redact_from(b@, i as int).0 == redact_line(line) + rest.0);
            assert(before + (redact_line(line) + rest.0) =~= (before + redact_line(line)) + rest.0);
        }
        i = e;
    }
    assert(output@ + Seq::<u8>::empty() =~= output@);
    if changed {
        (output, PayloadRedactionState::Redacted)
    } else {
        (output, PayloadRedactionState::Unredacted)
    }
}

/// The bytes from `i` on, unchanged, when no line there is an authorization
/// line.
pub proof fn lemma_unredacted_unchanged(b: Seq<u8>, i: int)
    requires
        0 <= i <= b.len(),
        !redact_from(b, i).1,
    ensures
        redact_from(b, i).0 == b.subrange(i, b.len() as int),
    decreases b.len() - i,
{
    if i < b.len() {
        let e = line_end(b, i);
        lemma_byte_pos_bounds(b, i, 10u8);
        lemma_unredacted_unchanged(b, e);
        assert(b.subrange(i, e) + b.subrange(e, b.len() as int) =~= b.subrange(i, b.len() as int));
    }
}

/// Law: with redaction disabled the bytes are stored as captured; with the
/// authorization-header policy, bytes reported unredacted are stored as
/// captured too.
pub proof fn law_unredacted_bytes_are_unchanged(policy: PayloadRedactionPolicy, b: Seq<u8>)
    ensures
        redacted(policy, b).1 == PayloadRedactionState::Unredacted ==> redacted(policy, b).0 == b,
        redacted(policy, b).1 != PayloadRedactionState::NotRequired,
        policy == PayloadRedactionPolicy::Disabled ==> redacted(policy, b) == (b, PayloadRedactionState::Unredacted),
{
    if policy == PayloadRedactionPolicy::AuthorizationHeader && !redact_from(b, 0).1 {
        lemma_unredacted_unchanged(b, 0);
        assert(b.subrange(0, b.len() as int) =~= b);
    }
}

proof fn lemma_byte_pos_shift(p: Seq<u8>, q: Seq<u8>, j: int, c: u8)
    requires
        0 <= j <= q.len(),
    ensures
        byte_pos_from(p + q, p.len() + j, c) == p.len() + byte_pos_from(q, j, c),
    decreases q.len() - j,
{
    if j < q.len() {
        assert((p + q)[p.len() + j] == q[j]);
        if q[j] != c {
            lemma_byte_pos_shift(p, q, j + 1, c);
        }
    }
}

proof fn lemma_redact_shift(p: Seq<u8>, q: Seq<u8>, j: int)
    requires
        0 <= j <= q.len(),
    ensures
        redact_from(p + q, p.len() + j) == redact_from(q, j),
    decreases q.len() - j,
{
    if j < q.len() {
        lemma_byte_pos_shift(p, q, j, 10u8);
        lemma_byte_pos_bounds(q, j, 10u8);
        let e = line_end(q, j);
        assert(line_end(p + q, p.len() + j) == p.len() + e);
        assert((p + q).subrange(p.len() + j, p.len() + e) =~= q.subrange(j, e));
        lemma_redact_shift(p, q, e);
    }
}

/// The first newline of `s` is at `k` when `s[k]` is one and none comes
/// before it.
proof fn lemma_first_newline(s: Seq<u8>, k: int)
    requires
        0 <= k <= s.len(),
        k < s.len() ==> s[k] == 10u8,
        forall|m: int| 0 <= m < k ==> s[m] != 10u8,
    ensures
        byte_pos_from(s, 0, 10u8) == k,
{
    lemma_byte_pos_bounds(s, 0, 10u8);
    let r = byte_pos_from(s, 0, 10u8);
    if r < k {
        assert(s[r] == 10u8);
    }
    if r > k && k < s.len() {
        assert(s[k] != 10u8);
    }
}

/// A redacted line is a line of its own in what follows it, and redacting
/// it again leaves it as it is.
proof fn lemma_redacted_line(line: Seq<u8>, rest: Seq<u8>)
    requires
        line.len() > 0,
        forall|m: int| 0 <= m < line.len() - 1 ==> line[m] != 10u8,
        line.last() != 10u8 ==> rest.len() == 0,
    ensures
        line_end(redact_line(line) + rest, 0) == redact_line(line).len(),
        redact_line(redact_line(line)) == redact_line(line),
        redact_line(line).len() > 0,
{
    let r = redact_line(line);
    let o = r + rest;
    if is_authorization_line(line) {
        let t = line_terminator(line);
        let mk = redacted_marker();
        assert(r == mk + t);
        assert(forall|m: int| 0 <= m < mk.len() ==> mk[m] != 10u8);
        if line.last() == 10u8 {
            assert(t.len() > 0 && t.last() == 10u8);
            assert(forall|m: int| 0 <= m < r.len() - 1 ==> o[m] != 10u8);
            assert(o[r.len() - 1] == 10u8);
            lemma_first_newline(o, r.len() - 1);
        } else {
            assert(t =~= Seq::<u8>::empty());
            assert(o =~= r);
            assert(forall|m: int| 0 <= m < o.len() ==> o[m] != 10u8);
            lemma_first_newline(o, o.len() as int);
        }
        assert(line_text(r) =~= mk);
        assert(line_terminator(r) =~= t);
        assert(forall|m: int| 0 <= m < 14 ==> crate::text::lower(#[trigger] mk[m]) == crate::text::lower(
            lit_authorization()[m],
        ));
        assert(starts_with_ci(mk, lit_authorization()));
        assert(mk + t =~= r);
    } else {
        assert(r == line);
        if line.last() == 10u8 {
            assert(forall|m: int| 0 <= m < r.len() - 1 ==> o[m] != 10u8);
            assert(o[r.len() - 1] == 10u8);
            lemma_first_newline(o, r.len() - 1);
        } else {
            assert(o =~= r);
            assert(forall|m: int| 0 <= m < o.len() ==> o[m] != 10u8);
            lemma_first_newline(o, o.len() as int);
        }
    }
}

/// Redacting the redacted bytes from `i` on changes nothing more.
proof fn lemma_redact_idempotent_from(b: Seq<u8>, i: int)
    requires
        0 <= i <= b.len(),
    ensures
        redact_from(redact_from(b, i).0, 0).0 == redact_from(b, i).0,
    decreases b.len() - i,
{
    if i < b.len() {
        lemma_byte_pos_bounds(b, i, 10u8);
        let e = line_end(b, i);
        let line = b.subrange(i, e);
        let rest = redact_from(b, e).0;
        lemma_redact_idempotent_from(b, e);
        if line.last() != 10u8 {
            assert(e == b.len());
            assert(rest =~= Seq::<u8>::empty());
        }
        lemma_redacted_line(line, rest);
        let r = redact_line(line);
        let o = r + rest;
        assert(o == redact_from(b, i).0);
        assert(o.subrange(0, r.len() as int) =~= r);
        lemma_redact_shift(r, rest, 0);
        assert(redact_from(o, 0).0 == redact_line(r) + redact_from(o, r.len() as int).0);
    } else {
        assert(redact_from(b, i).0 =~= Seq::<u8>::empty());
    }
}

/// Law: redaction is idempotent: redacting bytes that were already redacted
/// under the same policy stores them unchanged, so no authorization line
/// other than the marker survives redaction.
pub proof fn law_redaction_is_idempotent(policy: PayloadRedactionPolicy, b: Seq<u8>)
    ensures
        redacted(policy, redacted(policy, b).0).0 == redacted(policy, b).0,
{
    if policy == PayloadRedactionPolicy::AuthorizationHeader {
        lemma_redact_idempotent_from(b, 0);
    }
}

} // verus!
