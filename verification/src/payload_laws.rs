//! Laws of payload classification and redaction: which bodies count as LLM
//! traffic, which request lines are recognised, and what the redaction of
//! authorization lines stores.

use vstd::prelude::*;
use crate::body_retention::{first_line, spec_request_line, starts_with};
use crate::http2::{llm_request_body, llm_response_body};
use crate::redaction::{line_end, line_terminator, line_text, redact_from, redacted, PayloadRedactionPolicy};
use crate::text::{contains_lower, starts_with_ci};
use crate::words::{lemma_byte_pos_bounds, words};

verus! {

/// `"model"`
pub open spec fn text_model() -> Seq<u8> { seq![34u8, 109, 111, 100, 101, 108, 34] }
/// `"choices"`
pub open spec fn text_choices() -> Seq<u8> { seq![34u8, 99, 104, 111, 105, 99, 101, 115, 34] }
/// `"content"`
pub open spec fn text_content() -> Seq<u8> { seq![34u8, 99, 111, 110, 116, 101, 110, 116, 34] }
/// `"output"`
pub open spec fn text_output() -> Seq<u8> { seq![34u8, 111, 117, 116, 112, 117, 116, 34] }
/// `message_stop`
pub open spec fn text_message_stop() -> Seq<u8> { seq![109u8, 101, 115, 115, 97, 103, 101, 95, 115, 116, 111, 112] }
/// `[done]`
pub open spec fn text_done() -> Seq<u8> { seq![91u8, 100, 111, 110, 101, 93] }
/// `"messages"`
pub open spec fn text_messages() -> Seq<u8> { seq![34u8, 109, 101, 115, 115, 97, 103, 101, 115, 34] }
/// `"prompt"`
pub open spec fn text_prompt() -> Seq<u8> { seq![34u8, 112, 114, 111, 109, 112, 116, 34] }
/// `"input"`
pub open spec fn text_input() -> Seq<u8> { seq![34u8, 105, 110, 112, 117, 116, 34] }

/// Law: a response body is taken for LLM traffic when it holds
/// `message_stop` or `[done]`, or names a `"model"` together with
/// `"choices"`, `"content"` or `"output"` (ASCII case ignored); a body with
/// none of `"model"`, `message_stop` and `[done]` is not.
pub proof fn law_llm_response_markers(b: Seq<u8>)
    ensures
        contains_lower(b, text_message_stop()) ==> llm_response_body(b),
        contains_lower(b, text_done()) ==> llm_response_body(b),
        contains_lower(b, text_model()) && contains_lower(b, text_choices()) ==> llm_response_body(b),
        contains_lower(b, text_model()) && contains_lower(b, text_content()) ==> llm_response_body(b),
        contains_lower(b, text_model()) && contains_lower(b, text_output()) ==> llm_response_body(b),
        !contains_lower(b, text_model()) && !contains_lower(b, text_message_stop()) && !contains_lower(b, text_done())
            ==> !llm_response_body(b),
{
    reveal(llm_response_body);
    assert(crate::http2::q_model() =~= text_model());
    assert(crate::http2::q_choices() =~= text_choices());
    assert(crate::http2::q_content() =~= text_content());
    assert(crate::http2::q_output() =~= text_output());
    assert(crate::http2::message_stop() =~= text_message_stop());
    assert(crate::http2::done_marker() =~= text_done());
}

/// Law: a request body is taken for LLM traffic exactly when it names a
/// `"model"` together with `"messages"`, `"prompt"` or `"input"` (ASCII
/// case ignored).
pub proof fn law_llm_request_markers(b: Seq<u8>)
    ensures
        llm_request_body(b) <==> contains_lower(b, text_model()) && (contains_lower(b, text_messages()) || contains_lower(
            b,
            text_prompt(),
        ) || contains_lower(b, text_input())),
{
    reveal(llm_request_body);
    assert(crate::http2::q_model() =~= text_model());
    assert(crate::http2::q_messages() =~= text_messages());
    assert(crate::http2::q_prompt() =~= text_prompt());
    assert(crate::http2::q_input() =~= text_input());
}

/// The nine request methods an HTTP/1 request line may start with.
pub open spec fn known_method(m: Seq<u8>) -> bool {
    ||| m == seq![71u8, 69, 84]
    ||| m == seq![80u8, 79, 83, 84]
    ||| m == seq![80u8, 85, 84]
    ||| m == seq![80u8, 65, 84, 67, 72]
    ||| m == seq![68u8, 69, 76, 69, 84, 69]
    ||| m == seq![72u8, 69, 65, 68]
    ||| m == seq![79u8, 80, 84, 73, 79, 78, 83]
    ||| m == seq![67u8, 79, 78, 78, 69, 67, 84]
    ||| m == seq![84u8, 82, 65, 67, 69]
}

/// Law: a head whose first line reads `METHOD target HTTP/..`, with METHOD
/// one of GET, POST, PUT, PATCH, DELETE, HEAD, OPTIONS, CONNECT and TRACE,
/// passes the request-line check, which tells CONNECT apart; any other
/// first word fails it.
pub proof fn law_known_methods_pass_request_line(h: Seq<u8>)
    requires
        vstd::utf8::valid_utf8(h),
        words(first_line(h)).len() >= 3,
        starts_with(words(first_line(h))[2], seq![72u8, 84, 84, 80, 47]),
    ensures
        known_method(words(first_line(h))[0]) ==> spec_request_line(h) == Some(
            words(first_line(h))[0] == seq![67u8, 79, 78, 78, 69, 67, 84],
        ),
        !known_method(words(first_line(h))[0]) ==> spec_request_line(h) is None,
{
    reveal(spec_request_line);
    assert(crate::body_retention::lit_http_slash() =~= seq![72u8, 84, 84, 80, 47]);
    assert(crate::body_retention::lit_connect() =~= seq![67u8, 79, 78, 78, 69, 67, 84]);
}

/// `Authorization: <redacted>`
pub open spec fn text_marker() -> Seq<u8> {
    seq![65u8, 117, 116, 104, 111, 114, 105, 122, 97, 116, 105, 111, 110, 58, 32, 60, 114, 101, 100, 97, 99, 116, 101, 100, 62]
}

/// `authorization:`
pub open spec fn text_authorization() -> Seq<u8> {
    seq![97u8, 117, 116, 104, 111, 114, 105, 122, 97, 116, 105, 111, 110, 58]
}

/// The lines of `b` from byte `i` on, each with its `\n` (the last one
/// without, when the bytes do not end in one).
pub open spec fn lines_from(b: Seq<u8>, i: int) -> Seq<Seq<u8>>
    decreases b.len() - i,
{
    if i < 0 || i >= b.len() {
        Seq::empty()
    } else {
        let e = line_end(b, i);
        proof {
            lemma_byte_pos_bounds(b, i, 10u8);
        }
        seq![b.subrange(i, e)] + lines_from(b, e)
    }
}

/// A line as the authorization-header policy must store it: the marker,
/// with the line's own terminator, when its text starts with
/// `authorization:` in any ASCII case; the line itself otherwise.
pub open spec fn stored_line(line: Seq<u8>) -> Seq<u8> {
    if starts_with_ci(line_text(line), text_authorization()) {
        text_marker() + line_terminator(line)
    } else {
        line
    }
}

proof fn lemma_flatten_cons(x: Seq<u8>, rest: Seq<Seq<u8>>)
    ensures
        (seq![x] + rest).flatten() == x + rest.flatten(),
{
    let s = seq![x] + rest;
    assert(s.len() > 0);
    assert(s.drop_first() =~= rest);
    assert(s[0] == x);
}

proof fn lemma_lines_partition(b: Seq<u8>, i: int)
    requires
        0 <= i <= b.len(),
    ensures
        lines_from(b, i).flatten() == b.subrange(i, b.len() as int),
        redact_from(b, i).0 == lines_from(b, i).map_values(|l: Seq<u8>| stored_line(l)).flatten(),
        redact_from(b, i).1 <==> exists|k: int| 0 <= k < lines_from(b, i).len() && #[trigger] starts_with_ci(
            line_text(lines_from(b, i)[k]),
            text_authorization(),
        ),
    decreases b.len() - i,
{
    assert(crate::redaction::lit_authorization() =~= text_authorization());
    assert(crate::redaction::redacted_marker() =~= text_marker());
    let f = |l: Seq<u8>| stored_line(l);
    if i >= b.len() {
        assert(lines_from(b, i) =~= Seq::<Seq<u8>>::empty());
        assert(lines_from(b, i).map_values(f) =~= Seq::<Seq<u8>>::empty());
        assert(b.subrange(i, b.len() as int) =~= Seq::<u8>::empty());
    } else {
        let e = line_end(b, i);
        lemma_byte_pos_bounds(b, i, 10u8);
        lemma_lines_partition(b, e);
        let line = b.subrange(i, e);
        let rest = lines_from(b, e);
        assert(lines_from(b, i) == seq![line] + rest);
        lemma_flatten_cons(line, rest);
        assert(line + b.subrange(e, b.len() as int) =~= b.subrange(i, b.len() as int));
        assert((seq![line] + rest).map_values(f) =~= seq![f(line)] + rest.map_values(f));
        lemma_flatten_cons(f(line), rest.map_values(f));
        let all = seq![line] + rest;
        if redact_from(b, e).1 {
            let k = choose|k: int| 0 <= k < rest.len() && #[trigger] starts_with_ci(line_text(rest[k]), text_authorization());
            assert(all[k + 1] == rest[k]);
            assert(starts_with_ci(line_text(all[k + 1]), text_authorization()));
        }
        if starts_with_ci(line_text(line), text_authorization()) {
            assert(all[0] == line);
        }
        if exists|k: int| 0 <= k < all.len() && #[trigger] starts_with_ci(line_text(all[k]), text_authorization()) {
            let k = choose|k: int| 0 <= k < all.len() && #[trigger] starts_with_ci(line_text(all[k]), text_authorization());
            if k > 0 {
                assert(all[k] == rest[k - 1]);
                assert(starts_with_ci(line_text(rest[k - 1]), text_authorization()));
            }
        }
    }
}

/// Law: under the authorization-header policy the captured bytes split
/// into their lines, and what is stored is those lines in order, each
/// authorization line (text starting with `authorization:` in any ASCII
/// case) replaced by the marker `Authorization: <redacted>` with the line's
/// own terminator, every other line kept; the bytes are reported redacted
/// exactly when some line was an authorization line.
pub proof fn law_every_authorization_line_is_redacted(b: Seq<u8>)
    ensures
        lines_from(b, 0).flatten() == b,
        redacted(PayloadRedactionPolicy::AuthorizationHeader, b).0 == lines_from(b, 0).map_values(
            |l: Seq<u8>| stored_line(l),
        ).flatten(),
        (redacted(PayloadRedactionPolicy::AuthorizationHeader, b).1 == crate::redaction::PayloadRedactionState::Redacted)
            <==> exists|k: int| 0 <= k < lines_from(b, 0).len() && #[trigger] starts_with_ci(
            line_text(lines_from(b, 0)[k]),
            text_authorization(),
        ),
{
    lemma_lines_partition(b, 0);
    assert(b.subrange(0, b.len() as int) =~= b);
}

} // verus!
