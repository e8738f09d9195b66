//! Payload body retention: HTTP/1 message classification and the per-stream
//! retention store.

use vstd::prelude::*;
use crate::http2::{llm_request_body, llm_response_body};
use crate::assoc::{assoc_view, has_key, keys_unique, lemma_view_at, lemma_view_empty, lemma_view_push, lemma_view_remove, lemma_view_update};
use crate::http2::{spec_candidate_stream_id, spec_classify_request, spec_classify_response};
use crate::payload::{PayloadContentState, PayloadDirection, PayloadSegment, PayloadSourceBoundary, str_eq};
use crate::text::{find_bytes, first_occurrence, starts_with_ci, utf8_is_valid};
use crate::words::{
    byte_pos_from, find_byte_from, lemma_byte_pos_bounds, lemma_skip_ws_bounds,
    lemma_trim_end_bounds, next_word, parse_uint, parse_uint_bytes, range_is, range_starts_with,
    skip_whitespace, skip_ws, trim_end_from, trim_end_pos, trimmed, words, words_from,
};

verus! {

pub open spec fn head_end_marker() -> Seq<u8> {
    seq![13u8, 10, 13, 10]
}

pub open spec fn lit_http_slash() -> Seq<u8> {
    seq![72u8, 84, 84, 80, 47]
}

pub open spec fn lit_connect() -> Seq<u8> {
    seq![67u8, 79, 78, 78, 69, 67, 84]
}

pub open spec fn lit_content_length() -> Seq<u8> {
    seq![99u8, 111, 110, 116, 101, 110, 116, 45, 108, 101, 110, 103, 116, 104]
}

/// The request methods that HTTP/1 classification accepts.
pub open spec fn is_request_method(w: Seq<u8>) -> bool {
    ||| w == seq![71u8, 69, 84]
    ||| w == seq![80u8, 79, 83, 84]
    ||| w == seq![80u8, 85, 84]
    ||| w == seq![80u8, 65, 84, 67, 72]
    ||| w == seq![68u8, 69, 76, 69, 84, 69]
    ||| w == seq![72u8, 69, 65, 68]
    ||| w == seq![79u8, 80, 84, 73, 79, 78, 83]
    ||| w == lit_connect()
    ||| w == seq![84u8, 82, 65, 67, 69]
}

pub open spec fn starts_with(w: Seq<u8>, p: Seq<u8>) -> bool {
    p.len() <= w.len() && w.subrange(0, p.len() as int) == p
}

/// Position of the first `\r\n` at or after `i`, or the length.
pub open spec fn next_crlf(s: Seq<u8>, i: int) -> int
    decreases s.len() - i,
{
    if i < 0 || i + 1 >= s.len() {
        s.len() as int
    } else if s[i] == 13 && s[i + 1] == 10 {
        i
    } else {
        next_crlf(s, i + 1)
    }
}

pub proof fn lemma_next_crlf_bounds(s: Seq<u8>, i: int)
    requires
        0 <= i <= s.len(),
    ensures
        i <= next_crlf(s, i) <= s.len(),
        next_crlf(s, i) < s.len() ==> next_crlf(s, i) + 2 <= s.len(),
    decreases s.len() - i,
{
    if i + 1 >= s.len() || (s[i] == 13 && s[i + 1] == 10) {
    } else {
        lemma_next_crlf_bounds(s, i + 1);
    }
}

/// The `Content-Length` of one header line (`key: value`): `None` when the
/// line has no colon or another key, otherwise the parse of the trimmed value.
pub open spec fn line_content_length(line: Seq<u8>) -> Option<Option<int>> {
    let k = byte_pos_from(line, 0, 58);
    if k >= line.len() {
        None
    } else if !(k == lit_content_length().len() && starts_with_ci(line.subrange(0, k), lit_content_length())) {
        None
    } else {
        match parse_uint(trimmed(line.subrange(k + 1, line.len() as int)), usize::MAX as int) {
            Ok(v) => Some(Some(v)),
            Err(_) => Some(None),
        }
    }
}

/// Scan of the `\r\n`-separated header lines from `i`: the first
/// `Content-Length` line decides (`Some(Some(n))`, or `None` when its value
/// does not parse); without one the result is `Some(None)`.
pub open spec fn content_length_from(s: Seq<u8>, i: int) -> Option<Option<int>>
    decreases s.len() - i,
{
    if i < 0 || i > s.len() {
        Some(None)
    } else {
        let e = next_crlf(s, i);
        match line_content_length(s.subrange(i, e)) {
            Some(Some(v)) => Some(Some(v)),
            Some(None) => None,
            None => if e >= s.len() || e < i {
                Some(None)
            } else {
                proof {
                    lemma_next_crlf_bounds(s, i);
                }
                content_length_from(s, e + 2)
            },
        }
    }
}

/// Exec form of [`next_crlf`].
fn find_crlf_from(s: &[u8], i: usize) -> (r: usize)
    requires
        i <= s.len(),
    ensures
        r as int == next_crlf(s@, i as int),
        i <= r <= s.len(),
        r < s.len() ==> r + 2 <= s.len(),
{
    proof {
        lemma_next_crlf_bounds(s@, i as int);
    }
    let mut k = i;
    while s.len() - k > 1 && !(s[k] == 13 && s[k + 1] == 10)
        invariant
            i <= k <= s.len(),
            next_crlf(s@, k as int) == next_crlf(s@, i as int),
        decreases s.len() - k,
    {
        k += 1;
    }
    if s.len() - k <= 1 {
        s.len()
    } else {
        k
    }
}

/// The content length declared by one header line.
fn line_content_length_exec(line: &[u8]) -> (r: Option<Option<usize>>)
    ensures
        match r {
            None => line_content_length(line@) is None,
            Some(None) => line_content_length(line@) == Some(None::<int>),
            Some(Some(v)) => line_content_length(line@) == Some(Some(v as int)),
        },
{
    let k = find_byte_from(line, 0, 58);
    if k >= line.len() {
        return None;
    }
    let key: [u8; 14] = [99u8, 111, 110, 116, 101, 110, 116, 45, 108, 101, 110, 103, 116, 104];
    assert(key@ =~= lit_content_length());
    let key_slice = vstd::slice::slice_subrange(line, 0, k);
    if !(k == 14 && crate::text::starts_with_ignore_ascii_case(key_slice, key.as_slice())) {
        return None;
    }
    let value = vstd::slice::slice_subrange(line, k + 1, line.len());
    let a = skip_whitespace(value, 0);
    let e = trim_end_from(value, a, value.len());
    let t = vstd::slice::slice_subrange(value, a, e);
    assert(t@ =~= trimmed(value@));
    match parse_uint_bytes(t, usize::MAX as u64) {
        Ok(v) => Some(Some(v as usize)),
        Err(_) => Some(None),
    }
}

/// The `Content-Length` of the HTTP/1 header text: `None` when its value
/// does not parse, `Some(None)` when the header is absent.
pub fn http1_content_length(header: &[u8]) -> (r: Option<Option<usize>>)
    ensures
        match r {
            None => content_length_from(header@, 0) is None,
            Some(None) => content_length_from(header@, 0) == Some(None::<int>),
            Some(Some(v)) => content_length_from(header@, 0) == Some(Some(v as int)),
        },
{
    let mut i: usize = 0;
    loop
        invariant
            i <= header.len(),
            content_length_from(header@, i as int) == content_length_from(header@, 0),
        decreases header.len() - i,
    {
        let e = find_crlf_from(header, i);
        let line = vstd::slice::slice_subrange(header, i, e);
        match line_content_length_exec(line) {
            Some(Some(v)) => return Some(Some(v)),
            Some(None) => return None,
            None => {
                if e >= header.len() {
                    return Some(None);
                }
                i = e + 2;
            },
        }
    }
}


/// The first line of the header text: the bytes before the first `\n`.
pub open spec fn first_line(h: Seq<u8>) -> Seq<u8> {
    h.subrange(0, byte_pos_from(h, 0, 10))
}

/// Where the body of an HTTP/1 message starting at `start` lies in `b`, and
/// whether all of it was captured: `Content-Length` bytes when declared
/// (clipped to what is present), otherwise everything after the head. A
/// start past the captured bytes gives an empty body (the empty range at
/// the end of `b`), whose completeness is decided as for any other.
#[verifier::opaque]
pub open spec fn spec_http1_body(b: Seq<u8>, h: Seq<u8>, start: int) -> Option<(int, int, bool)> {
    match content_length_from(h, 0) {
        None => None,
        Some(None) => if start <= b.len() {
            Some((start, b.len() as int, true))
        } else {
            Some((b.len() as int, b.len() as int, true))
        },
        Some(Some(n)) => if start + n > usize::MAX {
            None
        } else {
            let end = start + n;
            let avail = if b.len() < end { b.len() as int } else { end };
            if start <= avail {
                Some((start, avail, b.len() >= end))
            } else {
                Some((b.len() as int, b.len() as int, b.len() >= end))
            }
        },
    }
}

/// Body bounds within the captured bytes.
#[derive(Clone, Copy, Debug, PartialEq, Eq, Structural)]
pub struct Http1Body {
    pub start: usize,
    pub end: usize,
    pub complete: bool,
}

/// Locates the body of the message whose head ends at `body_start`.
pub fn http1_body(bytes: &[u8], header: &[u8], body_start: usize) -> (r: Option<Http1Body>)
    ensures
        r is None <==> spec_http1_body(bytes@, header@, body_start as int) is None,
        r matches Some(body) ==> spec_http1_body(bytes@, header@, body_start as int) == Some(
            (body.start as int, body.end as int, body.complete),
        ),
        r matches Some(body) ==> body.start <= body.end <= bytes.len(),
{
    reveal(spec_http1_body);
    match http1_content_length(header) {
        None => None,
        Some(Some(length)) => {
            if length > usize::MAX - body_start {
                return None;
            }
            let body_end = body_start + length;
            let available_end = if bytes.len() < body_end { bytes.len() } else { body_end };
            if body_start <= available_end {
                Some(Http1Body { start: body_start, end: available_end, complete: bytes.len() >= body_end })
            } else {
                Some(Http1Body { start: bytes.len(), end: bytes.len(), complete: bytes.len() >= body_end })
            }
        },
        Some(None) => if body_start <= bytes.len() {
            Some(Http1Body { start: body_start, end: bytes.len(), complete: true })
        } else {
            Some(Http1Body { start: bytes.len(), end: bytes.len(), complete: true })
        },
    }
}

/// An HTTP/1 message classified for retention.
#[derive(Clone, Copy, Debug, PartialEq, Eq, Structural)]
pub struct ClassifiedMessage {
    pub stream_id: Option<u32>,
    pub llm: bool,
    pub summary_only_safe: bool,
}

/// The request line check on the header text `h`: `None` unless `h` is
/// valid UTF-8 and its first line reads `METHOD target HTTP/..` with a known
/// method; otherwise whether the method is `CONNECT`.
#[verifier::opaque]
pub open spec fn spec_request_line(h: Seq<u8>) -> Option<bool> {
    let ws = words(first_line(h));
    if !vstd::utf8::valid_utf8(h) || ws.len() < 3 || !is_request_method(ws[0]) || !starts_with(
        ws[2],
        lit_http_slash(),
    ) {
        None
    } else {
        Some(ws[0] == lit_connect())
    }
}

/// The status line check on the header text `h`: valid UTF-8 whose trimmed
/// first line starts with `HTTP/`.
#[verifier::opaque]
pub open spec fn spec_status_line(h: Seq<u8>) -> bool {
    vstd::utf8::valid_utf8(h) && starts_with(trimmed(first_line(h)), lit_http_slash())
}

/// HTTP/1 request classification: a complete head whose request line passes
/// [`spec_request_line`]. `CONNECT` is summary-safe with no body; otherwise
/// the body decides whether it looks like an LLM request, and the message is
/// summary-safe when its body is complete. A request with an incomplete,
/// empty, non-LLM body is not classified.
pub open spec fn spec_classify_http1_request(b: Seq<u8>) -> Option<ClassifiedMessage> {
    match first_occurrence(b, head_end_marker()) {
        None => None,
        Some(he) => {
            let h = b.subrange(0, he);
            match spec_request_line(h) {
                None => None,
                Some(true) => Some(ClassifiedMessage { stream_id: None, llm: false, summary_only_safe: true }),
                Some(false) => match spec_http1_body(b, h, he + 4) {
                    None => None,
                    Some((a, e, complete)) => {
                        let body = b.subrange(a, e);
                        let llm = llm_request_body(body);
                        if !llm && !complete && body.len() == 0 {
                            None
                        } else {
                            Some(ClassifiedMessage { stream_id: None, llm, summary_only_safe: complete })
                        }
                    },
                },
            }
        },
    }
}

/// HTTP/1 response classification: a complete head whose status line passes
/// [`spec_status_line`], with a locatable body.
pub open spec fn spec_classify_http1_response(b: Seq<u8>) -> Option<ClassifiedMessage> {
    match first_occurrence(b, head_end_marker()) {
        None => None,
        Some(he) => {
            let h = b.subrange(0, he);
            if !spec_status_line(h) {
                None
            } else {
                match spec_http1_body(b, h, he + 4) {
                    None => None,
                    Some((a, e, complete)) => Some(
                        ClassifiedMessage {
                            stream_id: None,
                            llm: llm_response_body(b.subrange(a, e)),
                            summary_only_safe: false,
                        },
                    ),
                }
            }
        },
    }
}

fn is_request_method_range(s: &[u8], a: usize, b: usize) -> (r: bool)
    requires
        a <= b <= s.len(),
    ensures
        r == is_request_method(s@.subrange(a as int, b as int)),
{
    let get: [u8; 3] = [71u8, 69, 84];
    let post: [u8; 4] = [80u8, 79, 83, 84];
    let put: [u8; 3] = [80u8, 85, 84];
    let patch: [u8; 5] = [80u8, 65, 84, 67, 72];
    let delete: [u8; 6] = [68u8, 69, 76, 69, 84, 69];
    let head: [u8; 4] = [72u8, 69, 65, 68];
    let options: [u8; 7] = [79u8, 80, 84, 73, 79, 78, 83];
    let connect: [u8; 7] = [67u8, 79, 78, 78, 69, 67, 84];
    let trace: [u8; 5] = [84u8, 82, 65, 67, 69];
    assert(get@ =~= seq![71u8, 69, 84]);
    assert(post@ =~= seq![80u8, 79, 83, 84]);
    assert(put@ =~= seq![80u8, 85, 84]);
    assert(patch@ =~= seq![80u8, 65, 84, 67, 72]);
    assert(delete@ =~= seq![68u8, 69, 76, 69, 84, 69]);
    assert(head@ =~= seq![72u8, 69, 65, 68]);
    assert(options@ =~= seq![79u8, 80, 84, 73, 79, 78, 83]);
    assert(connect@ =~= lit_connect());
    assert(trace@ =~= seq![84u8, 82, 65, 67, 69]);
    range_is(s, a, b, get.as_slice()) || range_is(s, a, b, post.as_slice()) || range_is(
        s,
        a,
        b,
        put.as_slice(),
    ) || range_is(s, a, b, patch.as_slice()) || range_is(s, a, b, delete.as_slice()) || range_is(
        s,
        a,
        b,
        head.as_slice(),
    ) || range_is(s, a, b, options.as_slice()) || range_is(s, a, b, connect.as_slice())
        || range_is(s, a, b, trace.as_slice())
}

fn head_end(bytes: &[u8]) -> (r: Option<usize>)
    ensures
        r is None <==> first_occurrence(bytes@, head_end_marker()) is None,
        r matches Some(i) ==> i + 4 <= bytes.len() && first_occurrence(bytes@, head_end_marker())
            == Some(i as int),
{
    let marker: [u8; 4] = [13u8, 10, 13, 10];
    assert(marker@ =~= head_end_marker());
    find_bytes(bytes, marker.as_slice())
}

fn first_line_of(header: &[u8]) -> (r: &[u8])
    ensures
        r@ == first_line(header@),
{
    let line_end = find_byte_from(header, 0, 10);
    let line = vstd::slice::slice_subrange(header, 0, line_end);
    assert(line@ =~= first_line(header@));
    line
}

/// Exec form of [`spec_request_line`].
pub fn request_line(header: &[u8]) -> (r: Option<bool>)
    ensures
        r == spec_request_line(header@),
{
    reveal(spec_request_line);
    if !utf8_is_valid(header) {
        return None;
    }
    let line = first_line_of(header);
    let (a0, b0) = next_word(line, 0)?;
    let (a1, b1) = next_word(line, b0)?;
    let (a2, b2) = next_word(line, b1)?;
    proof {
        let ws = words(line@);
        assert(ws.len() >= 3);
        assert(ws[0] == line@.subrange(a0 as int, b0 as int));
        assert(ws[2] == line@.subrange(a2 as int, b2 as int));
    }
    let http: [u8; 5] = [72u8, 84, 84, 80, 47];
    assert(http@ =~= lit_http_slash());
    if !is_request_method_range(line, a0, b0) || !range_starts_with(line, a2, b2, http.as_slice()) {
        return None;
    }
    let connect: [u8; 7] = [67u8, 79, 78, 78, 69, 67, 84];
    assert(connect@ =~= lit_connect());
    Some(range_is(line, a0, b0, connect.as_slice()))
}

/// Exec form of [`spec_status_line`].
pub fn status_line(header: &[u8]) -> (r: bool)
    ensures
        r == spec_status_line(header@),
{
    reveal(spec_status_line);
    if !utf8_is_valid(header) {
        return false;
    }
    let line = first_line_of(header);
    let a = skip_whitespace(line, 0);
    let e = trim_end_from(line, a, line.len());
    let http: [u8; 5] = [72u8, 84, 84, 80, 47];
    assert(http@ =~= lit_http_slash());
    let starts = range_starts_with(line, a, e, http.as_slice());
    assert(line@.subrange(a as int, e as int) =~= trimmed(line@));
    starts
}

/// Classifies `bytes` as an HTTP/1 request.
pub fn classify_http1_request(bytes: &[u8]) -> (r: Option<ClassifiedMessage>)
    ensures
        r == spec_classify_http1_request(bytes@),
{
    let header_end = match head_end(bytes) {
        Some(i) => i,
        None => return None,
    };
    let header = vstd::slice::slice_subrange(bytes, 0, header_end);
    let is_connect = request_line(header)?;
    if is_connect {
        return Some(ClassifiedMessage { stream_id: None, llm: false, summary_only_safe: true });
    }
    let body = http1_body(bytes, header, header_end + 4)?;
    let body_bytes = vstd::slice::slice_subrange(bytes, body.start, body.end);
    let llm = crate::http2::body_looks_like_llm_request(body_bytes);
    if !llm && !body.complete && body.start == body.end {
        return None;
    }
    Some(ClassifiedMessage { stream_id: None, llm, summary_only_safe: body.complete })
}

/// Classifies `bytes` as an HTTP/1 response.
pub fn classify_http1_response(bytes: &[u8]) -> (r: Option<ClassifiedMessage>)
    ensures
        r == spec_classify_http1_response(bytes@),
{
    let header_end = match head_end(bytes) {
        Some(i) => i,
        None => return None,
    };
    let header = vstd::slice::slice_subrange(bytes, 0, header_end);
    if !status_line(header) {
        return None;
    }
    let body = http1_body(bytes, header, header_end + 4)?;
    let body_bytes = vstd::slice::slice_subrange(bytes, body.start, body.end);
    Some(ClassifiedMessage {
        stream_id: None,
        llm: crate::http2::body_looks_like_llm_response(body_bytes),
        summary_only_safe: false,
    })
}


/// How much of a payload body is kept.
#[derive(Clone, Copy, Debug, PartialEq, Eq, Structural)]
pub enum PayloadBodyRetention {
    Full,
    SummaryOnly,
}

/// A retention decision, and whether the retention store remembers it for the stream
/// (and the HTTP/2 stream id it is remembered under).
#[derive(Clone, Copy, Debug, PartialEq, Eq, Structural)]
pub struct PayloadBodyRetentionDecision {
    pub mode: PayloadBodyRetention,
    pub remember: bool,
    pub stream_id: Option<u32>,
}

impl PayloadBodyRetentionDecision {
    /// A decision that the retention store remembers for the stream.
    pub fn remember(mode: PayloadBodyRetention, stream_id: Option<u32>) -> (r: Self)
        ensures
            r == (PayloadBodyRetentionDecision { mode, remember: true, stream_id }),
    {
        PayloadBodyRetentionDecision { mode, remember: true, stream_id }
    }

    /// A decision for this segment only.
    pub fn transient(mode: PayloadBodyRetention) -> (r: Self)
        ensures
            r == (PayloadBodyRetentionDecision { mode, remember: false, stream_id: None }),
    {
        PayloadBodyRetentionDecision { mode, remember: false, stream_id: None }
    }
}

pub open spec fn remembered(mode: PayloadBodyRetention, stream_id: Option<u32>) -> PayloadBodyRetentionDecision {
    PayloadBodyRetentionDecision { mode, remember: true, stream_id }
}

pub open spec fn transient(mode: PayloadBodyRetention) -> PayloadBodyRetentionDecision {
    PayloadBodyRetentionDecision { mode, remember: false, stream_id: None }
}

/// The stream a retention decision is remembered for.
pub struct BodyStreamKey {
    pub trace_id: u64,
    pub process: u64,
    pub source_boundary: PayloadSourceBoundary,
    pub stream_key: String,
    pub stream_id: Option<u32>,
}

pub type BodyKey = (u64, u64, PayloadSourceBoundary, Seq<char>, Option<u32>);

impl BodyStreamKey {
    pub open spec fn key(&self) -> BodyKey {
        (self.trace_id, self.process, self.source_boundary, self.stream_key@, self.stream_id)
    }

    pub fn new(segment: &PayloadSegment, stream_id: Option<u32>) -> (r: Self)
        ensures
            r.key() == segment_key(segment, stream_id),
    {
        BodyStreamKey {
            trace_id: segment.trace_id,
            process: segment.process,
            source_boundary: segment.source_boundary,
            stream_key: segment.stream_key.clone(),
            stream_id,
        }
    }

    fn same(&self, other: &Self) -> (r: bool)
        ensures
            r == (self.key() == other.key()),
    {
        self.trace_id == other.trace_id && self.process == other.process && self.source_boundary
            == other.source_boundary && self.stream_id == other.stream_id && str_eq(
            self.stream_key.as_str(),
            other.stream_key.as_str(),
        )
    }
}

pub open spec fn segment_key(segment: &PayloadSegment, stream_id: Option<u32>) -> BodyKey {
    (segment.trace_id, segment.process, segment.source_boundary, segment.stream_key@, stream_id)
}

/// Remembered per-stream retention modes and the bytes probed so far on
/// HTTP/2 streams whose messages could not yet be classified.
pub struct PayloadBodyRetentionGate {
    streams: Vec<(BodyStreamKey, PayloadBodyRetention)>,
    http2_probe_bytes: Vec<(BodyStreamKey, u64)>,
    http2_probe_max_bytes: u64,
}

/// The state of a retention store.
#[verifier::ext_equal]
pub struct GateView {
    pub streams: Map<BodyKey, PayloadBodyRetention>,
    pub probes: Map<BodyKey, u64>,
    pub max_probe: u64,
}

pub open spec fn entry_keys<V>(s: Seq<(BodyStreamKey, V)>) -> Seq<(BodyKey, V)> {
    s.map_values(|e: (BodyStreamKey, V)| (e.0.key(), e.1))
}

impl PayloadBodyRetentionGate {
    pub closed spec fn view(&self) -> GateView {
        GateView {
            streams: assoc_view(entry_keys(self.streams@)),
            probes: assoc_view(entry_keys(self.http2_probe_bytes@)),
            max_probe: self.http2_probe_max_bytes,
        }
    }

    pub closed spec fn wf(&self) -> bool {
        keys_unique(entry_keys(self.streams@)) && keys_unique(entry_keys(self.http2_probe_bytes@))
    }
}

/// The plaintext HTTP transports whose bodies the retention store classifies.
pub open spec fn plaintext_http_transport(segment: &PayloadSegment) -> bool {
    segment.content_state == PayloadContentState::Plaintext && (segment.source_boundary
        == PayloadSourceBoundary::TlsUserSpace || segment.source_boundary
        == PayloadSourceBoundary::Syscall)
}

pub open spec fn lookup_exact(g: GateView, segment: &PayloadSegment, stream_id: Option<u32>) -> Option<PayloadBodyRetention> {
    let k = segment_key(segment, stream_id);
    if g.streams.contains_key(k) {
        Some(g.streams[k])
    } else {
        None
    }
}

pub open spec fn lookup_with_fallback(g: GateView, segment: &PayloadSegment, stream_id: Option<u32>) -> Option<PayloadBodyRetention> {
    match lookup_exact(g, segment, stream_id) {
        Some(m) => Some(m),
        None => lookup_exact(g, segment, None),
    }
}

pub open spec fn or_mode(m: Option<PayloadBodyRetention>, d: PayloadBodyRetention) -> PayloadBodyRetention {
    match m {
        Some(x) => x,
        None => d,
    }
}

/// An unclassified HTTP/2 stream keeps full bodies while the bytes probed on
/// it stay within the probe budget; past the budget (or on counter overflow)
/// it is remembered as summary-only. A remembered mode wins.
pub open spec fn spec_probe(g: GateView, segment: &PayloadSegment, stream_id: Option<u32>) -> (GateView, PayloadBodyRetentionDecision) {
    let k = segment_key(segment, stream_id);
    match lookup_exact(g, segment, stream_id) {
        Some(m) => (g, transient(m)),
        None => {
            let used: int = if g.probes.contains_key(k) { g.probes[k] as int } else { 0 };
            let next = used + segment.captured_size;
            if next > u64::MAX || next > g.max_probe {
                (g, remembered(PayloadBodyRetention::SummaryOnly, stream_id))
            } else {
                (GateView { probes: g.probes.insert(k, next as u64), ..g }, transient(PayloadBodyRetention::Full))
            }
        },
    }
}

/// Outbound decision: an HTTP/1 LLM request keeps full bodies, a complete
/// non-LLM HTTP/1 request (or `CONNECT`) is summary-only; an HTTP/2 LLM
/// request keeps full bodies and other HTTP/2 traffic goes through the
/// probe budget; anything else follows what the stream remembered (full by
/// default).
pub open spec fn spec_decide_outbound(g: GateView, segment: &PayloadSegment) -> (GateView, PayloadBodyRetentionDecision) {
    let b = segment.bytes@;
    let h1 = spec_classify_http1_request(b);
    if h1 is Some && h1.unwrap().llm {
        (g, remembered(PayloadBodyRetention::Full, h1.unwrap().stream_id))
    } else if h1 is Some && h1.unwrap().summary_only_safe {
        (g, remembered(PayloadBodyRetention::SummaryOnly, h1.unwrap().stream_id))
    } else {
        match spec_classify_request(b) {
            Some(req) => if req.llm {
                (g, remembered(PayloadBodyRetention::Full, req.stream_id))
            } else {
                spec_probe(g, segment, req.stream_id)
            },
            None => match spec_candidate_stream_id(b) {
                Some(sid) => spec_probe(g, segment, sid),
                None => (g, transient(or_mode(lookup_with_fallback(g, segment, None), PayloadBodyRetention::Full))),
            },
        }
    }
}

/// Inbound decision: LLM responses keep full bodies and are remembered;
/// other responses follow the stream's remembered mode (summary-only by
/// default); unrecognised bytes follow the stream (full by default).
pub open spec fn spec_decide_inbound(g: GateView, segment: &PayloadSegment) -> PayloadBodyRetentionDecision {
    let b = segment.bytes@;
    match spec_classify_http1_response(b) {
        Some(resp) => if resp.llm {
            remembered(PayloadBodyRetention::Full, resp.stream_id)
        } else {
            transient(or_mode(lookup_with_fallback(g, segment, resp.stream_id), PayloadBodyRetention::SummaryOnly))
        },
        None => match spec_classify_response(b) {
            Some(resp) => if resp.llm {
                remembered(PayloadBodyRetention::Full, resp.stream_id)
            } else {
                transient(or_mode(lookup_exact(g, segment, resp.stream_id), PayloadBodyRetention::SummaryOnly))
            },
            None => match spec_candidate_stream_id(b) {
                Some(sid) => transient(or_mode(lookup_exact(g, segment, sid), PayloadBodyRetention::SummaryOnly)),
                None => transient(or_mode(lookup_with_fallback(g, segment, None), PayloadBodyRetention::Full)),
            },
        },
    }
}

/// The retention decision for `segment` and the retention store state after it.
/// Only outbound HTTP/2 probing changes the state; remembering a decision
/// happens in `apply`.
pub open spec fn spec_decide(g: GateView, segment: &PayloadSegment) -> (GateView, PayloadBodyRetentionDecision) {
    if !plaintext_http_transport(segment) {
        (g, transient(PayloadBodyRetention::Full))
    } else if segment.direction == PayloadDirection::Outbound {
        spec_decide_outbound(g, segment)
    } else {
        (g, spec_decide_inbound(g, segment))
    }
}

/// The retention store after applying `decision` to `segment`: a remembered decision
/// records the mode for the stream and drops its probe counter.
pub open spec fn spec_apply(g: GateView, segment: &PayloadSegment, decision: PayloadBodyRetentionDecision) -> GateView {
    if decision.remember {
        let k = segment_key(segment, decision.stream_id);
        GateView { streams: g.streams.insert(k, decision.mode), probes: g.probes.remove(k), ..g }
    } else {
        g
    }
}

/// The retention store without any state of trace `trace_id`.
pub open spec fn spec_forget_trace(g: GateView, trace_id: u64) -> GateView {
    GateView {
        streams: g.streams.restrict(g.streams.dom().filter(|k: BodyKey| k.0 != trace_id)),
        probes: g.probes.restrict(g.probes.dom().filter(|k: BodyKey| k.0 != trace_id)),
        ..g
    }
}


/// Index of the entry whose key equals `key`.
fn position<V>(entries: &Vec<(BodyStreamKey, V)>, key: &BodyStreamKey) -> (r: Option<usize>)
    ensures
        match r {
            Some(i) => i < entries@.len() && entries@[i as int].0.key() == key.key(),
            None => !has_key(entry_keys(entries@), key.key()),
        },
{
    let mut i: usize = 0;
    while i < entries.len()
        invariant
            i <= entries@.len(),
            forall|j: int| 0 <= j < i ==> entries@[j].0.key() != key.key(),
        decreases entries.len() - i,
    {
        if entries[i].0.same(key) {
            return Some(i);
        }
        i += 1;
    }
    proof {
        if has_key(entry_keys(entries@), key.key()) {
            let j = choose|j: int| 0 <= j < entry_keys(entries@).len() && #[trigger] entry_keys(entries@)[j].0 == key.key();
            assert(entry_keys(entries@)[j].0 == entries@[j].0.key());
        }
    }
    None
}

impl PayloadBodyRetentionGate {
    /// An empty admission filter whose HTTP/2 probe budget is `http2_probe_max_bytes`.
    pub fn new(http2_probe_max_bytes: u64) -> (r: Self)
        ensures
            r.wf(),
            r@.streams == Map::<BodyKey, PayloadBodyRetention>::empty(),
            r@.probes == Map::<BodyKey, u64>::empty(),
            r@.max_probe == http2_probe_max_bytes,
    {
        let r = PayloadBodyRetentionGate { streams: Vec::new(), http2_probe_bytes: Vec::new(), http2_probe_max_bytes };
        proof {
            assert(entry_keys(r.streams@) =~= Seq::empty());
            assert(entry_keys(r.http2_probe_bytes@) =~= Seq::empty());
            lemma_view_empty::<BodyKey, PayloadBodyRetention>();
            lemma_view_empty::<BodyKey, u64>();
        }
        r
    }

    /// The mode remembered for the segment's stream under `stream_id`.
    pub fn lookup_exact(&self, segment: &PayloadSegment, stream_id: Option<u32>) -> (r: Option<PayloadBodyRetention>)
        requires
            self.wf(),
        ensures
            r == lookup_exact(self@, segment, stream_id),
    {
        let key = BodyStreamKey::new(segment, stream_id);
        match position(&self.streams, &key) {
            Some(i) => {
                proof {
                    assert(entry_keys(self.streams@)[i as int] == (self.streams@[i as int].0.key(), self.streams@[i as int].1));
                    lemma_view_at(entry_keys(self.streams@), i as int);
                }
                Some(self.streams[i].1)
            },
            None => None,
        }
    }

    /// The mode remembered under `stream_id`, else the one remembered for the
    /// stream as a whole.
    pub fn lookup_with_fallback(&self, segment: &PayloadSegment, stream_id: Option<u32>) -> (r: Option<PayloadBodyRetention>)
        requires
            self.wf(),
        ensures
            r == lookup_with_fallback(self@, segment, stream_id),
    {
        match self.lookup_exact(segment, stream_id) {
            Some(m) => Some(m),
            None => self.lookup_exact(segment, None),
        }
    }

    fn decide_http2_probe(&mut self, segment: &PayloadSegment, stream_id: Option<u32>) -> (r: PayloadBodyRetentionDecision)
        requires
            old(self).wf(),
        ensures
            final(self).wf(),
            (final(self)@, r) == spec_probe(old(self)@, segment, stream_id),
    {
        if let Some(mode) = self.lookup_exact(segment, stream_id) {
            return PayloadBodyRetentionDecision::transient(mode);
        }
        let key = BodyStreamKey::new(segment, stream_id);
        let pos = position(&self.http2_probe_bytes, &key);
        let used = match pos {
            Some(i) => {
                proof {
                    assert(entry_keys(self.http2_probe_bytes@)[i as int] == (self.http2_probe_bytes@[i as int].0.key(), self.http2_probe_bytes@[i as int].1));
                    lemma_view_at(entry_keys(self.http2_probe_bytes@), i as int);
                }
                self.http2_probe_bytes[i].1
            },
            None => 0,
        };
        if used > u64::MAX - segment.captured_size {
            return PayloadBodyRetentionDecision::remember(PayloadBodyRetention::SummaryOnly, stream_id);
        }
        let next = used + segment.captured_size;
        if next > self.http2_probe_max_bytes {
            return PayloadBodyRetentionDecision::remember(PayloadBodyRetention::SummaryOnly, stream_id);
        }
        let ghost old_entries = self.http2_probe_bytes@;
        match pos {
            Some(i) => {
                let old_key = BodyStreamKey::new(segment, stream_id);
                self.http2_probe_bytes.set(i, (old_key, next));
                proof {
                    assert(entry_keys(self.http2_probe_bytes@) =~= entry_keys(old_entries).update(i as int, (entry_keys(old_entries)[i as int].0, next)));
                    lemma_view_update(entry_keys(old_entries), i as int, next);
                }
            },
            None => {
                self.http2_probe_bytes.push((key, next));
                proof {
                    assert(entry_keys(self.http2_probe_bytes@) =~= entry_keys(old_entries).push((segment_key(segment, stream_id), next)));
                    lemma_view_push(entry_keys(old_entries), segment_key(segment, stream_id), next);
                }
            },
        }
        PayloadBodyRetentionDecision::transient(PayloadBodyRetention::Full)
    }

    /// Records `mode` for the segment's stream under `stream_id` and drops
    /// its probe counter.
    fn remember(&mut self, segment: &PayloadSegment, stream_id: Option<u32>, mode: PayloadBodyRetention)
        requires
            old(self).wf(),
        ensures
            final(self).wf(),
            final(self)@ == spec_apply(old(self)@, segment, remembered(mode, stream_id)),
    {
        let key = BodyStreamKey::new(segment, stream_id);
        let ghost k = segment_key(segment, stream_id);
        let ghost old_probes = self.http2_probe_bytes@;
        match position(&self.http2_probe_bytes, &key) {
            Some(i) => {
                self.http2_probe_bytes.remove(i);
                proof {
                    assert(entry_keys(self.http2_probe_bytes@) =~= entry_keys(old_probes).remove(i as int));
                    assert(entry_keys(old_probes)[i as int].0 == k);
                    lemma_view_remove(entry_keys(old_probes), i as int);
                }
            },
            None => {
                proof {
                    assert(assoc_view(entry_keys(old_probes)).remove(k) =~= assoc_view(entry_keys(old_probes)));
                }
            },
        }
        let ghost old_streams = self.streams@;
        match position(&self.streams, &key) {
            Some(i) => {
                self.streams.set(i, (key, mode));
                proof {
                    assert(entry_keys(self.streams@) =~= entry_keys(old_streams).update(i as int, (entry_keys(old_streams)[i as int].0, mode)));
                    lemma_view_update(entry_keys(old_streams), i as int, mode);
                }
            },
            None => {
                self.streams.push((key, mode));
                proof {
                    assert(entry_keys(self.streams@) =~= entry_keys(old_streams).push((k, mode)));
                    lemma_view_push(entry_keys(old_streams), k, mode);
                }
            },
        }
    }
}

impl PayloadBodyRetentionGate {
    fn decide_outbound(&mut self, segment: &PayloadSegment) -> (r: PayloadBodyRetentionDecision)
        requires
            old(self).wf(),
        ensures
            final(self).wf(),
            (final(self)@, r) == spec_decide_outbound(old(self)@, segment),
    {
        let bytes = segment.bytes.as_slice();
        if let Some(request) = classify_http1_request(bytes) {
            if request.llm {
                return PayloadBodyRetentionDecision::remember(PayloadBodyRetention::Full, request.stream_id);
            }
            if request.summary_only_safe {
                return PayloadBodyRetentionDecision::remember(PayloadBodyRetention::SummaryOnly, request.stream_id);
            }
        }
        if let Some(request) = crate::http2::classify_request(bytes) {
            if request.llm {
                return PayloadBodyRetentionDecision::remember(PayloadBodyRetention::Full, request.stream_id);
            }
            return self.decide_http2_probe(segment, request.stream_id);
        }
        if let Some(stream_id) = crate::http2::candidate_stream_id(bytes) {
            return self.decide_http2_probe(segment, stream_id);
        }
        let mode = match self.lookup_with_fallback(segment, None) {
            Some(m) => m,
            None => PayloadBodyRetention::Full,
        };
        PayloadBodyRetentionDecision::transient(mode)
    }

    fn decide_inbound(&self, segment: &PayloadSegment) -> (r: PayloadBodyRetentionDecision)
        requires
            self.wf(),
        ensures
            r == spec_decide_inbound(self@, segment),
    {
        let bytes = segment.bytes.as_slice();
        if let Some(response) = classify_http1_response(bytes) {
            if response.llm {
                return PayloadBodyRetentionDecision::remember(PayloadBodyRetention::Full, response.stream_id);
            }
            let mode = match self.lookup_with_fallback(segment, response.stream_id) {
                Some(m) => m,
                None => PayloadBodyRetention::SummaryOnly,
            };
            return PayloadBodyRetentionDecision::transient(mode);
        }
        if let Some(response) = crate::http2::classify_response(bytes) {
            if response.llm {
                return PayloadBodyRetentionDecision::remember(PayloadBodyRetention::Full, response.stream_id);
            }
            let mode = match self.lookup_exact(segment, response.stream_id) {
                Some(m) => m,
                None => PayloadBodyRetention::SummaryOnly,
            };
            return PayloadBodyRetentionDecision::transient(mode);
        }
        if let Some(stream_id) = crate::http2::candidate_stream_id(bytes) {
            let mode = match self.lookup_exact(segment, stream_id) {
                Some(m) => m,
                None => PayloadBodyRetention::SummaryOnly,
            };
            return PayloadBodyRetentionDecision::transient(mode);
        }
        let mode = match self.lookup_with_fallback(segment, None) {
            Some(m) => m,
            None => PayloadBodyRetention::Full,
        };
        PayloadBodyRetentionDecision::transient(mode)
    }

    /// Decides how much of `segment`'s body to keep.
    pub fn decide(&mut self, segment: &PayloadSegment) -> (r: PayloadBodyRetentionDecision)
        requires
            old(self).wf(),
        ensures
            final(self).wf(),
            (final(self)@, r) == spec_decide(old(self)@, segment),
    {
        let plaintext = match segment.content_state {
            PayloadContentState::Plaintext => match segment.source_boundary {
                PayloadSourceBoundary::TlsUserSpace | PayloadSourceBoundary::Syscall => true,
                PayloadSourceBoundary::Stdio => false,
            },
            PayloadContentState::Undecoded => false,
        };
        if !plaintext {
            return PayloadBodyRetentionDecision::transient(PayloadBodyRetention::Full);
        }
        match segment.direction {
            PayloadDirection::Outbound => self.decide_outbound(segment),
            PayloadDirection::Inbound => self.decide_inbound(segment),
        }
    }

    /// Records a remembered decision for the segment's stream.
    pub fn apply(&mut self, segment: &PayloadSegment, decision: PayloadBodyRetentionDecision)
        requires
            old(self).wf(),
        ensures
            final(self).wf(),
            final(self)@ == spec_apply(old(self)@, segment, decision),
    {
        if decision.remember {
            self.remember(segment, decision.stream_id, decision.mode);
        }
    }

    /// Drops all state of trace `trace_id`.
    pub fn forget_trace(&mut self, trace_id: u64)
        requires
            old(self).wf(),
        ensures
            final(self).wf(),
            final(self)@ == spec_forget_trace(old(self)@, trace_id),
    {
        let streams = retain_other_traces(&self.streams, trace_id);
        let probes = retain_other_traces(&self.http2_probe_bytes, trace_id);
        self.streams = streams;
        self.http2_probe_bytes = probes;
        proof {
            let g = old(self)@;
            assert(self@.streams =~= g.streams.restrict(g.streams.dom().filter(|k: BodyKey| k.0 != trace_id)));
            assert(self@.probes =~= g.probes.restrict(g.probes.dom().filter(|k: BodyKey| k.0 != trace_id)));
            assert(self@ =~= spec_forget_trace(g, trace_id));
        }
    }
}

/// The entries of `entries` whose trace is not `trace_id`, in order.
fn retain_other_traces<V: Copy>(entries: &Vec<(BodyStreamKey, V)>, trace_id: u64) -> (r: Vec<(BodyStreamKey, V)>)
    requires
        keys_unique(entry_keys(entries@)),
    ensures
        keys_unique(entry_keys(r@)),
        assoc_view(entry_keys(r@)) == assoc_view(entry_keys(entries@)).restrict(
            assoc_view(entry_keys(entries@)).dom().filter(|k: BodyKey| k.0 != trace_id),
        ),
{
    let mut out: Vec<(BodyStreamKey, V)> = Vec::new();
    let mut i: usize = 0;
    let ghost src = entry_keys(entries@);
    proof {
        lemma_view_empty::<BodyKey, V>();
        assert(entry_keys(out@) =~= Seq::empty());
    }
    while i < entries.len()
        invariant
            i <= entries@.len(),
            src == entry_keys(entries@),
            keys_unique(src),
            keys_unique(entry_keys(out@)),
            forall|k: BodyKey| #[trigger] has_key(entry_keys(out@), k) <==> (exists|j: int| 0 <= j < i && src[j].0 == k) && k.0 != trace_id,
            forall|j: int| 0 <= j < out@.len() ==> exists|m: int| 0 <= m < i && #[trigger] entry_keys(out@)[j] == src[m],
        decreases entries.len() - i,
    {
        if entries[i].0.trace_id != trace_id {
            let key = BodyStreamKey {
                trace_id: entries[i].0.trace_id,
                process: entries[i].0.process,
                source_boundary: entries[i].0.source_boundary,
                stream_key: entries[i].0.stream_key.clone(),
                stream_id: entries[i].0.stream_id,
            };
            let ghost old_out = entry_keys(out@);
            proof {
                if has_key(old_out, src[i as int].0) {
                    let j = choose|j: int| 0 <= j < old_out.len() && #[trigger] old_out[j].0 == src[i as int].0;
                    let m = choose|m: int| 0 <= m < i && #[trigger] old_out[j] == src[m];
                    assert(src[m].0 != src[i as int].0);
                }
            }
            out.push((key, entries[i].1));
            proof {
                assert(entry_keys(out@) =~= old_out.push(src[i as int]));
                lemma_view_push(old_out, src[i as int].0, src[i as int].1);
                assert forall|k: BodyKey| #[trigger] has_key(entry_keys(out@), k) <==> (exists|j: int| 0 <= j < i + 1 && src[j].0 == k) && k.0 != trace_id by {
                    if has_key(entry_keys(out@), k) {
                        let j = choose|j: int| 0 <= j < entry_keys(out@).len() && #[trigger] entry_keys(out@)[j].0 == k;
                        if j < old_out.len() {
                            assert(old_out[j].0 == k);
                            assert(has_key(old_out, k));
                        }
                    }
                    if (exists|j: int| 0 <= j < i + 1 && src[j].0 == k) && k.0 != trace_id {
                        let j = choose|j: int| 0 <= j < i + 1 && src[j].0 == k;
                        if j < i {
                            assert(has_key(old_out, k));
                            let jj = choose|jj: int| 0 <= jj < old_out.len() && #[trigger] old_out[jj].0 == k;
                            assert(entry_keys(out@)[jj].0 == k);
                        } else {
                            assert(entry_keys(out@)[old_out.len() as int].0 == k);
                        }
                    }
                }
                assert forall|j: int| 0 <= j < out@.len() implies exists|m: int| 0 <= m < i + 1 && #[trigger] entry_keys(out@)[j] == src[m] by {
                    if j < old_out.len() {
                        let m = choose|m: int| 0 <= m < i && #[trigger] old_out[j] == src[m];
                        assert(entry_keys(out@)[j] == src[m]);
                    } else {
                        assert(entry_keys(out@)[j] == src[i as int]);
                    }
                }
            }
        } else {
            proof {
                assert forall|k: BodyKey| #[trigger] has_key(entry_keys(out@), k) <==> (exists|j: int| 0 <= j < i + 1 && src[j].0 == k) && k.0 != trace_id by {
                    if (exists|j: int| 0 <= j < i + 1 && src[j].0 == k) && k.0 != trace_id {
                        let j = choose|j: int| 0 <= j < i + 1 && src[j].0 == k;
                        if j == i {
                            assert(src[i as int].0.0 == trace_id);
                        }
                    }
                }
            }
        }
        i += 1;
    }
    proof {
        let a = assoc_view(entry_keys(out@));
        let b = assoc_view(src).restrict(assoc_view(src).dom().filter(|k: BodyKey| k.0 != trace_id));
        assert forall|k: BodyKey| #[trigger] a.contains_key(k) <==> b.contains_key(k) by {
            if has_key(src, k) {
                let j = choose|j: int| 0 <= j < src.len() && #[trigger] src[j].0 == k;
                assert(src[j].0 == k);
            }
        }
        assert forall|k: BodyKey| a.contains_key(k) implies #[trigger] a[k] == b[k] by {
            let j = choose|j: int| 0 <= j < entry_keys(out@).len() && #[trigger] entry_keys(out@)[j].0 == k;
            lemma_view_at(entry_keys(out@), j);
            let m = choose|m: int| 0 <= m < entries@.len() && #[trigger] entry_keys(out@)[j] == src[m];
            lemma_view_at(src, m);
        }
        assert(a =~= b);
    }
    out
}

/// Two segments of the same stream (the same trace, process, source
/// boundary and stream key).
pub open spec fn same_stream(a: &PayloadSegment, b: &PayloadSegment) -> bool {
    a.trace_id == b.trace_id && a.process == b.process && a.source_boundary == b.source_boundary
        && a.stream_key@ == b.stream_key@
}

/// Law: a remembered decision is read back for every later segment of the
/// stream under the same stream id, and it wins over the HTTP/2 probe
/// budget, which then neither counts nor changes.
pub proof fn law_remembered_mode_is_read_back(
    g: GateView,
    segment: &PayloadSegment,
    later: &PayloadSegment,
    mode: PayloadBodyRetention,
    stream_id: Option<u32>,
)
    requires
        same_stream(segment, later),
    ensures
        lookup_exact(spec_apply(g, segment, remembered(mode, stream_id)), later, stream_id) == Some(mode),
        spec_probe(spec_apply(g, segment, remembered(mode, stream_id)), later, stream_id) == (
        spec_apply(g, segment, remembered(mode, stream_id)),
        transient(mode),
        ),
{
    assert(segment_key(segment, stream_id) == segment_key(later, stream_id));
}

/// No probe counter exceeds the probe budget.
pub open spec fn probes_within_budget(g: GateView) -> bool {
    forall|k: BodyKey| #[trigger] g.probes.contains_key(k) ==> g.probes[k] <= g.max_probe
}

/// Law: deciding, applying a decision and forgetting a trace keep every
/// HTTP/2 probe counter within the probe budget.
pub proof fn law_probe_counters_stay_within_budget(
    g: GateView,
    segment: &PayloadSegment,
    decision: PayloadBodyRetentionDecision,
    trace_id: u64,
)
    requires
        probes_within_budget(g),
    ensures
        probes_within_budget(spec_decide(g, segment).0),
        probes_within_budget(spec_apply(g, segment, decision)),
        probes_within_budget(spec_forget_trace(g, trace_id)),
{
    let b = segment.bytes@;
    assert forall|sid: Option<u32>| probes_within_budget(#[trigger] spec_probe(g, segment, sid).0) by {
        let r = spec_probe(g, segment, sid).0;
        assert forall|k: BodyKey| #[trigger] r.probes.contains_key(k) implies r.probes[k] <= r.max_probe by {
            if k != segment_key(segment, sid) {
                assert(g.probes.contains_key(k));
            }
        }
    }
    match spec_classify_request(b) {
        Some(req) => {
            assert(probes_within_budget(spec_probe(g, segment, req.stream_id).0));
        },
        None => match spec_candidate_stream_id(b) {
            Some(sid) => {
                assert(probes_within_budget(spec_probe(g, segment, sid).0));
            },
            None => {},
        },
    }
    let a = spec_apply(g, segment, decision);
    assert forall|k: BodyKey| #[trigger] a.probes.contains_key(k) implies a.probes[k] <= a.max_probe by {
        assert(g.probes.contains_key(k));
    }
    let f = spec_forget_trace(g, trace_id);
    assert forall|k: BodyKey| #[trigger] f.probes.contains_key(k) implies f.probes[k] <= f.max_probe by {
        assert(g.probes.contains_key(k));
    }
}

/// Law: after forgetting a trace nothing is remembered or probed for any of
/// its streams, and the other traces' state is unchanged.
pub proof fn law_forget_trace_clears_only_that_trace(g: GateView, trace_id: u64, segment: &PayloadSegment, stream_id: Option<u32>)
    ensures
        segment.trace_id == trace_id ==> lookup_exact(spec_forget_trace(g, trace_id), segment, stream_id) is None
            && !spec_forget_trace(g, trace_id).probes.contains_key(segment_key(segment, stream_id)),
        segment.trace_id != trace_id ==> lookup_exact(spec_forget_trace(g, trace_id), segment, stream_id)
            == lookup_exact(g, segment, stream_id) && spec_probe(spec_forget_trace(g, trace_id), segment, stream_id).1
            == spec_probe(g, segment, stream_id).1,
{
    let k = segment_key(segment, stream_id);
    let f = spec_forget_trace(g, trace_id);
    if segment.trace_id != trace_id {
        assert(f.streams.contains_key(k) == g.streams.contains_key(k));
        assert(f.probes.contains_key(k) == g.probes.contains_key(k));
    }
}

} // verus!
