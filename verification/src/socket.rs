//! Socket plaintext HTTP admission: sniffing socket streams for HTTP and
//! dropping everything that is not.

use vstd::prelude::*;
use crate::assoc::{assoc_view, has_key, keys_unique, lemma_view_at, lemma_view_empty, lemma_view_len, lemma_view_push, lemma_view_remove, lemma_view_update};
use crate::body_retention::{lit_http_slash, starts_with};
use crate::connect::{
    is_http1_version, lit_connect_method, spec_tunnel_observe, ClientConnectTunnelGate,
    ConnectStateView, ConnectTunnelDecision,
};
use crate::http2::{has_connection_preface, preface, starts_with_preface};
use crate::payload::{
    PayloadOperationCompletionState, PayloadSourceBoundary, PayloadTruncationState,
    RawPayloadSegment, SegmentView, msg_result, segment_views, str_eq,
};
use crate::text::{decimal, u64_to_decimal, utf8_is_valid};
use crate::words::{
    byte_pos_from, find_byte_from, next_word, range_is, range_starts_with, skip_whitespace,
    trim_end_from, trimmed, words,
};

verus! {

/// The HTTP protocol recognised on a stream, as the hint attached to its
/// segments, and whether the client opened a `CONNECT` tunnel.
pub struct SniffedHttpProtocol {
    pub protocol_hint: String,
    pub client_connect: bool,
}

pub enum SocketSniffOutcome {
    Accept(SniffedHttpProtocol),
    Reject,
    NeedMore,
}

pub enum SniffView {
    Accept(Seq<char>, bool),
    Reject,
    NeedMore,
}

impl SocketSniffOutcome {
    pub open spec fn view(&self) -> SniffView {
        match self {
            SocketSniffOutcome::Accept(p) => SniffView::Accept(p.protocol_hint@, p.client_connect),
            SocketSniffOutcome::Reject => SniffView::Reject,
            SocketSniffOutcome::NeedMore => SniffView::NeedMore,
        }
    }
}

pub open spec fn hint_http2() -> Seq<char> {
    "http/2"@
}

pub open spec fn hint_http1() -> Seq<char> {
    "http/1.x"@
}

/// What the first bytes of a socket stream say about HTTP: the HTTP/2
/// preface, or a first line that is an HTTP/1 status line or a three-word
/// request line ending in an `HTTP/` version, is HTTP; a proper prefix of
/// the preface or an unfinished first line needs more bytes; anything else
/// (including a first line that is not UTF-8) is not HTTP.
pub open spec fn spec_sniff(b: Seq<u8>) -> SniffView {
    if starts_with_preface(b) {
        SniffView::Accept(hint_http2(), false)
    } else if b.len() <= 24 && preface().subrange(0, b.len() as int) == b {
        SniffView::NeedMore
    } else if byte_pos_from(b, 0, 10) >= b.len() {
        SniffView::NeedMore
    } else {
        let line = b.subrange(0, byte_pos_from(b, 0, 10));
        let ws = words(line);
        if !vstd::utf8::valid_utf8(line) {
            SniffView::Reject
        } else if starts_with(trimmed(line), lit_http_slash()) {
            SniffView::Accept(hint_http1(), false)
        } else if ws.len() == 3 && starts_with(ws[2], lit_http_slash()) {
            SniffView::Accept(hint_http1(), ws[0] == lit_connect_method() && is_http1_version(ws[2]))
        } else {
            SniffView::Reject
        }
    }
}

fn is_preface_prefix(bytes: &[u8]) -> (r: bool)
    ensures
        r == (bytes@.len() <= 24 && preface().subrange(0, bytes@.len() as int) == bytes@),
{
    if bytes.len() > 24 {
        return false;
    }
    let p = crate::http2::connection_preface();
    let r = crate::text::bytes_at(p.as_slice(), bytes, 0);
    assert(p@.subrange(0, bytes@.len() as int) =~= preface().subrange(0, bytes@.len() as int));
    r
}

fn http1_hint() -> (s: String)
    ensures
        s@ == hint_http1(),
{
    proof {
        reveal_strlit("http/1.x");
    }
    String::from_str("http/1.x")
}

/// Sniffs the buffered first bytes of a socket stream.
pub fn sniff_http_protocol(bytes: &[u8]) -> (r: SocketSniffOutcome)
    ensures
        r@ == spec_sniff(bytes@),
{
    if has_connection_preface(bytes) {
        return SocketSniffOutcome::Accept(SniffedHttpProtocol { protocol_hint: String::from_str("http/2"), client_connect: false });
    }
    if is_preface_prefix(bytes) {
        return SocketSniffOutcome::NeedMore;
    }
    let line_end = find_byte_from(bytes, 0, 10);
    if line_end >= bytes.len() {
        return SocketSniffOutcome::NeedMore;
    }
    let line = vstd::slice::slice_subrange(bytes, 0, line_end);
    if !utf8_is_valid(line) {
        return SocketSniffOutcome::Reject;
    }
    let http: [u8; 5] = [72u8, 84, 84, 80, 47];
    assert(http@ =~= lit_http_slash());
    let a = skip_whitespace(line, 0);
    let e = trim_end_from(line, a, line.len());
    assert(line@.subrange(a as int, e as int) =~= trimmed(line@));
    if range_starts_with(line, a, e, http.as_slice()) {
        return SocketSniffOutcome::Accept(SniffedHttpProtocol { protocol_hint: http1_hint(), client_connect: false });
    }
    let (a0, b0) = match next_word(line, 0) {
        Some(w) => w,
        None => return SocketSniffOutcome::Reject,
    };
    let (a1, b1) = match next_word(line, b0) {
        Some(w) => w,
        None => return SocketSniffOutcome::Reject,
    };
    let (a2, b2) = match next_word(line, b1) {
        Some(w) => w,
        None => return SocketSniffOutcome::Reject,
    };
    let extra = next_word(line, b2);
    proof {
        let ws = words(line@);
        assert(ws[0] == line@.subrange(a0 as int, b0 as int));
        assert(ws[2] == line@.subrange(a2 as int, b2 as int));
        if extra is None {
            assert(ws.len() == 3);
        } else {
            assert(ws.len() > 3);
        }
    }
    if extra.is_none() && range_starts_with(line, a2, b2, http.as_slice()) {
        let connect: [u8; 7] = [67u8, 79, 78, 78, 69, 67, 84];
        assert(connect@ =~= lit_connect_method());
        let v10: [u8; 8] = [72u8, 84, 84, 80, 47, 49, 46, 48];
        let v11: [u8; 8] = [72u8, 84, 84, 80, 47, 49, 46, 49];
        assert(v10@ =~= crate::connect::lit_http10());
        assert(v11@ =~= crate::connect::lit_http11());
        let client_connect = range_is(line, a0, b0, connect.as_slice()) && (range_is(line, a2, b2, v10.as_slice()) || range_is(line, a2, b2, v11.as_slice()));
        return SocketSniffOutcome::Accept(SniffedHttpProtocol { protocol_hint: http1_hint(), client_connect });
    }
    SocketSniffOutcome::Reject
}

/// Whether the first bytes of a socket stream may still be HTTP: they sniff
/// as HTTP, or need more bytes while the sniff limit is not yet reached.
pub fn socket_payload_prefix_is_http_candidate(bytes: &[u8], reached_sniff_limit: bool) -> (r: bool)
    ensures
        r == match spec_sniff(bytes@) {
            SniffView::Accept(_, _) => true,
            SniffView::NeedMore => !reached_sniff_limit,
            SniffView::Reject => false,
        },
{
    match sniff_http_protocol(bytes) {
        SocketSniffOutcome::Accept(_) => true,
        SocketSniffOutcome::NeedMore => !reached_sniff_limit,
        SocketSniffOutcome::Reject => false,
    }
}

/// The first bytes of a socket stream are a TLS ClientHello or ServerHello
/// record: handshake content type, TLS 1.0-1.2 record version, hello
/// message type, and record and handshake lengths that fit each other and
/// the TLS plaintext record limit.
pub open spec fn spec_tls_hello(b: Seq<u8>) -> bool {
    &&& b.len() >= 9
    &&& b[0] == 22
    &&& b[1] == 3
    &&& 1 <= b[2] <= 3
    &&& (b[5] == 1 || b[5] == 2)
    &&& b[3] * 256 + b[4] >= 4
    &&& b[3] * 256 + b[4] <= 16384
    &&& b[6] * 65536 + b[7] * 256 + b[8] >= 38
    &&& b[6] * 65536 + b[7] * 256 + b[8] + 4 <= b[3] * 256 + b[4]
}

pub fn socket_payload_prefix_is_tls_hello(bytes: &[u8]) -> (r: bool)
    ensures
        r == spec_tls_hello(bytes@),
{
    if bytes.len() < 9 || bytes[0] != 22 || bytes[1] != 3 || !(1 <= bytes[2] && bytes[2] <= 3)
        || (bytes[5] != 1 && bytes[5] != 2) {
        return false;
    }
    let record_size = (bytes[3] as u32) * 256 + (bytes[4] as u32);
    let handshake_size = (bytes[6] as u32) * 65536 + (bytes[7] as u32) * 256 + (bytes[8] as u32);
    record_size >= 4 && record_size <= 16384 && handshake_size >= 38 && handshake_size + 4 <= record_size
}


/// `segment` with `hint` as its protocol hint.
pub open spec fn with_hint(segment: SegmentView, hint: Seq<char>) -> SegmentView {
    SegmentView { protocol_hint: Some(hint), ..segment }
}

/// Attaches the protocol hint `protocol_hint` to `segment`.
pub fn with_protocol_hint(segment: RawPayloadSegment, protocol_hint: &str) -> (r: RawPayloadSegment)
    ensures
        r@ == with_hint(segment@, protocol_hint@),
{
    let mut segment = segment;
    segment.protocol_hint = Some(String::from_str(protocol_hint));
    segment
}

pub open spec fn prefix_exceeds_message(n: int, len: int) -> Seq<char> {
    "CONNECT response prefix "@ + decimal(n as nat) + " exceeds captured segment size "@ + decimal(len as nat)
}

pub open spec fn captured_underflow_message() -> Seq<char> {
    "CONNECT response captured size underflow"@
}

/// Cutting a segment down to the HTTP bytes before an established tunnel:
/// the first `n` bytes stay, the captured sizes shrink by what was removed,
/// and a shortened segment is marked truncated and partial. Fails (with the
/// segment untouched) when `n` exceeds the bytes, and fails after shrinking
/// the bytes and `captured_size` when the operation's captured size is
/// smaller than what was removed.
pub open spec fn spec_truncate(s: SegmentView, n: int) -> (SegmentView, Result<(), Seq<char>>) {
    if n > s.bytes.len() {
        (s, Err(prefix_exceeds_message(n, s.bytes.len() as int)))
    } else {
        let removed = s.bytes.len() - n;
        let cut = SegmentView { bytes: s.bytes.subrange(0, n), captured_size: n as u64, ..s };
        if s.operation_captured_size < removed {
            (cut, Err(captured_underflow_message()))
        } else {
            let shrunk = SegmentView { operation_captured_size: (s.operation_captured_size - removed) as u64, ..cut };
            if removed != 0 {
                (
                    SegmentView {
                        truncation: PayloadTruncationState::Truncated,
                        operation_completion_state: PayloadOperationCompletionState::Partial,
                        ..shrunk
                    },
                    Ok(()),
                )
            } else {
                (shrunk, Ok(()))
            }
        }
    }
}

/// Keeps only the first `admitted_prefix_len` bytes of `segment`.
pub fn truncate_to_http_prefix(segment: &mut RawPayloadSegment, admitted_prefix_len: usize) -> (r: Result<(), String>)
    ensures
        (final(segment)@, msg_result(r)) == spec_truncate(old(segment)@, admitted_prefix_len as int),
{
    let len = segment.bytes.len();
    if admitted_prefix_len > len {
        let mut m = String::from_str("CONNECT response prefix ");
        m.append(u64_to_decimal(admitted_prefix_len as u64).as_str());
        m.append(" exceeds captured segment size ");
        m.append(u64_to_decimal(len as u64).as_str());
        proof {
            reveal_strlit("CONNECT response prefix ");
            reveal_strlit(" exceeds captured segment size ");
        }
        return Err(m);
    }
    let removed = len - admitted_prefix_len;
    segment.bytes.truncate(admitted_prefix_len);
    segment.captured_size = admitted_prefix_len as u64;
    if segment.operation_captured_size < removed as u64 {
        proof {
            assert(segment.bytes@ =~= old(segment).bytes@.subrange(0, admitted_prefix_len as int));
        }
        return Err(String::from_str("CONNECT response captured size underflow"));
    }
    segment.operation_captured_size = segment.operation_captured_size - removed as u64;
    assert(segment.bytes@ =~= old(segment).bytes@.subrange(0, admitted_prefix_len as int));
    if removed != 0 {
        segment.truncation = PayloadTruncationState::Truncated;
        segment.operation_completion_state = PayloadOperationCompletionState::Partial;
    }
    Ok(())
}


/// The sniffing verdict a stream keeps once reached.
pub enum SocketSniffDecision {
    Accept(SniffedHttpProtocol),
    Reject,
}

pub enum DecisionView {
    Accept(Seq<char>, bool),
    Reject,
}

pub open spec fn decision_view(d: Option<SocketSniffDecision>) -> Option<DecisionView> {
    match d {
        None => None,
        Some(SocketSniffDecision::Accept(p)) => Some(DecisionView::Accept(p.protocol_hint@, p.client_connect)),
        Some(SocketSniffDecision::Reject) => Some(DecisionView::Reject),
    }
}

/// A stream whose first bytes are still being sniffed: the bytes seen so
/// far, the segments held back until the verdict, and the verdict.
pub struct SniffingSocketStream {
    pub max_sniff_bytes: u64,
    pub observed_bytes: u64,
    pub buffer: Vec<u8>,
    pub pending: Vec<RawPayloadSegment>,
    pub decision: Option<SocketSniffDecision>,
}

pub struct SniffingView {
    pub max_sniff_bytes: u64,
    pub observed_bytes: u64,
    pub buffer: Seq<u8>,
    pub pending: Seq<SegmentView>,
    pub decision: Option<DecisionView>,
}

impl SniffingSocketStream {
    pub open spec fn view(&self) -> SniffingView {
        SniffingView {
            max_sniff_bytes: self.max_sniff_bytes,
            observed_bytes: self.observed_bytes,
            buffer: self.buffer@,
            pending: segment_views(self.pending@),
            decision: decision_view(self.decision),
        }
    }

    pub fn new(max_sniff_bytes: u64) -> (r: Self)
        ensures
            r@ == (SniffingView { max_sniff_bytes, observed_bytes: 0, buffer: Seq::empty(), pending: Seq::empty(), decision: None }),
    {
        let r = SniffingSocketStream { max_sniff_bytes, observed_bytes: 0, buffer: Vec::new(), pending: Vec::new(), decision: None };
        assert(r@.pending =~= Seq::<SegmentView>::empty());
        assert(r@.buffer =~= Seq::<u8>::empty());
        r
    }
}

pub open spec fn sniff_overflow_message() -> Seq<char> {
    "socket HTTP sniff byte count overflow"@
}

pub open spec fn cleared(st: SniffingView, observed: u64, d: DecisionView) -> SniffingView {
    SniffingView { observed_bytes: observed, buffer: Seq::empty(), pending: Seq::empty(), decision: Some(d), ..st }
}

/// A segment arriving on a sniffing stream: after a verdict it passes with
/// the hint (accepted) or is dropped (rejected). Before one, it is held and
/// its bytes added to the sniff buffer; an accepting sniff releases all held
/// segments with the hint, a rejecting sniff (or reaching the sniff limit
/// without a verdict) drops them.
pub open spec fn spec_sniffing_admit(st: SniffingView, seg: SegmentView) -> (SniffingView, Result<Seq<SegmentView>, Seq<char>>) {
    match st.decision {
        Some(DecisionView::Accept(h, _)) => (st, Ok(seq![with_hint(seg, h)])),
        Some(DecisionView::Reject) => (st, Ok(Seq::empty())),
        None => if st.observed_bytes + seg.bytes.len() > u64::MAX {
            (st, Err(sniff_overflow_message()))
        } else {
            let observed = (st.observed_bytes + seg.bytes.len()) as u64;
            let buffer = st.buffer + seg.bytes;
            let pending = st.pending.push(seg);
            match spec_sniff(buffer) {
                SniffView::Accept(h, c) => (
                    cleared(st, observed, DecisionView::Accept(h, c)),
                    Ok(pending.map_values(|x: SegmentView| with_hint(x, h))),
                ),
                SniffView::Reject => (cleared(st, observed, DecisionView::Reject), Ok(Seq::empty())),
                SniffView::NeedMore => if observed >= st.max_sniff_bytes {
                    (cleared(st, observed, DecisionView::Reject), Ok(Seq::empty()))
                } else {
                    (SniffingView { observed_bytes: observed, buffer, pending, ..st }, Ok(Seq::empty()))
                },
            }
        },
    }
}

pub open spec fn views_result(r: Result<Vec<RawPayloadSegment>, String>) -> Result<Seq<SegmentView>, Seq<char>> {
    match r {
        Ok(v) => Ok(segment_views(v@)),
        Err(e) => Err(e@),
    }
}

/// Every segment of `v`, with the hint `h` attached.
fn attach_hint_all(v: Vec<RawPayloadSegment>, h: &str) -> (r: Vec<RawPayloadSegment>)
    ensures
        segment_views(r@) == segment_views(v@).map_values(|x: SegmentView| with_hint(x, h@)),
{
    let mut out: Vec<RawPayloadSegment> = Vec::new();
    let mut v = v;
    let ghost orig = segment_views(v@);
    let mut rev: Vec<RawPayloadSegment> = Vec::new();
    // Pop from the back into `rev`, then pop `rev` into `out` to keep order.
    while v.len() > 0
        invariant
            segment_views(v@) + segment_views(rev@).reverse() == orig,
        decreases v.len(),
    {
        let x = v.pop().unwrap();
        proof {
            assert(segment_views(rev@.push(x)).reverse() =~= seq![x@] + segment_views(rev@).reverse());
        }
        let ghost old_v = v@;
        rev.push(x);
        proof {
            assert(segment_views(old_v) + seq![x@] + segment_views(rev@.drop_last()).reverse() =~= orig);
            assert(segment_views(rev@).reverse() =~= seq![x@] + segment_views(rev@.drop_last()).reverse()) by {
                assert(rev@.drop_last() =~= rev@.subrange(0, rev@.len() - 1));
            }
        }
    }
    assert(segment_views(rev@).reverse() =~= orig);
    while rev.len() > 0
        invariant
            segment_views(out@) + segment_views(rev@).reverse().map_values(|x: SegmentView| with_hint(x, h@))
                == orig.map_values(|x: SegmentView| with_hint(x, h@)),
        decreases rev.len(),
    {
        let x = rev.pop().unwrap();
        let ghost old_rev = rev@;
        let y = with_protocol_hint(x, h);
        out.push(y);
        proof {
            assert(segment_views(old_rev.push(x)).reverse() =~= seq![x@] + segment_views(old_rev).reverse());
        }
        assert(segment_views(out@) + segment_views(rev@).reverse().map_values(|x: SegmentView| with_hint(x, h@))
            =~= orig.map_values(|x: SegmentView| with_hint(x, h@)));
    }
    assert(segment_views(rev@).reverse().map_values(|x: SegmentView| with_hint(x, h@)) =~= Seq::<SegmentView>::empty());
    assert(segment_views(out@) =~= orig.map_values(|x: SegmentView| with_hint(x, h@)));
    out
}

impl SniffingSocketStream {
    /// Admits one segment of a sniffing stream.
    pub fn admit_segment(&mut self, segment: RawPayloadSegment) -> (r: Result<Vec<RawPayloadSegment>, String>)
        ensures
            (final(self)@, views_result(r)) == spec_sniffing_admit(old(self)@, segment@),
    {
        match &self.decision {
            Some(SocketSniffDecision::Accept(sniffed)) => {
                let out = vec![with_protocol_hint(segment, sniffed.protocol_hint.as_str())];
                assert(segment_views(out@) =~= seq![with_hint(segment@, sniffed.protocol_hint@)]);
                return Ok(out);
            },
            Some(SocketSniffDecision::Reject) => {
                let out: Vec<RawPayloadSegment> = Vec::new();
                assert(segment_views(out@) =~= Seq::<SegmentView>::empty());
                return Ok(out);
            },
            None => {},
        }
        let n = segment.bytes.len() as u64;
        if self.observed_bytes > u64::MAX - n {
            return Err(String::from_str("socket HTTP sniff byte count overflow"));
        }
        self.observed_bytes = self.observed_bytes + n;
        let ghost old_buf = self.buffer@;
        let ghost old_pending = segment_views(self.pending@);
        let ghost seg = segment@;
        self.buffer.extend_from_slice(segment.bytes.as_slice());
        assert(self.buffer@ =~= old_buf + seg.bytes);
        self.pending.push(segment);
        assert(segment_views(self.pending@) =~= old_pending.push(seg));
        match sniff_http_protocol(self.buffer.as_slice()) {
            SocketSniffOutcome::Accept(sniffed) => {
                let hint = sniffed.protocol_hint.clone();
                self.decision = Some(SocketSniffDecision::Accept(sniffed));
                let mut pending: Vec<RawPayloadSegment> = Vec::new();
                std::mem::swap(&mut pending, &mut self.pending);
                let out = attach_hint_all(pending, hint.as_str());
                self.buffer.clear();
                assert(self.buffer@ =~= Seq::<u8>::empty());
                assert(segment_views(self.pending@) =~= Seq::<SegmentView>::empty());
                Ok(out)
            },
            SocketSniffOutcome::Reject => {
                self.decision = Some(SocketSniffDecision::Reject);
                self.pending.clear();
                self.buffer.clear();
                assert(self.buffer@ =~= Seq::<u8>::empty());
                assert(segment_views(self.pending@) =~= Seq::<SegmentView>::empty());
                let out: Vec<RawPayloadSegment> = Vec::new();
                assert(segment_views(out@) =~= Seq::<SegmentView>::empty());
                Ok(out)
            },
            SocketSniffOutcome::NeedMore => {
                if self.observed_bytes >= self.max_sniff_bytes {
                    self.decision = Some(SocketSniffDecision::Reject);
                    self.pending.clear();
                    self.buffer.clear();
                    assert(self.buffer@ =~= Seq::<u8>::empty());
                    assert(segment_views(self.pending@) =~= Seq::<SegmentView>::empty());
                }
                let out: Vec<RawPayloadSegment> = Vec::new();
                assert(segment_views(out@) =~= Seq::<SegmentView>::empty());
                Ok(out)
            },
        }
    }
}


/// An accepted HTTP stream on which the client opened a `CONNECT` tunnel.
pub struct ClientConnectSocketStream {
    pub protocol_hint: String,
    pub connect_tunnel: ClientConnectTunnelGate,
}

pub struct ClientConnectView {
    pub protocol_hint: Seq<char>,
    pub max_head_bytes: usize,
    pub tunnel: ConnectStateView,
}

impl ClientConnectSocketStream {
    pub open spec fn view(&self) -> ClientConnectView {
        ClientConnectView {
            protocol_hint: self.protocol_hint@,
            max_head_bytes: self.connect_tunnel.max_head_bytes,
            tunnel: self.connect_tunnel.state@,
        }
    }

    pub fn new(protocol_hint: String, max_sniff_bytes: u64) -> (r: Result<Self, String>)
        ensures
            max_sniff_bytes <= usize::MAX ==> (r matches Ok(s) && s@ == (ClientConnectView {
                protocol_hint: protocol_hint@,
                max_head_bytes: max_sniff_bytes as usize,
                tunnel: ConnectStateView::AwaitingResponse(Seq::empty()),
            })),
            max_sniff_bytes > usize::MAX ==> (r matches Err(m) && m@ == crate::connect::head_limit_overflow_message()),
    {
        let connect_tunnel = ClientConnectTunnelGate::awaiting_response(max_sniff_bytes)?;
        Ok(ClientConnectSocketStream { protocol_hint, connect_tunnel })
    }
}

/// What a segment on a `CONNECT` stream becomes.
pub enum AcceptedSocketDecision {
    Admit(RawPayloadSegment),
    TunnelEstablished(Option<RawPayloadSegment>),
}

pub enum AcceptedView {
    Admit(SegmentView),
    TunnelEstablished(Option<SegmentView>),
}

pub open spec fn accepted_view(r: Result<AcceptedSocketDecision, String>) -> Result<AcceptedView, Seq<char>> {
    match r {
        Ok(AcceptedSocketDecision::Admit(s)) => Ok(AcceptedView::Admit(s@)),
        Ok(AcceptedSocketDecision::TunnelEstablished(None)) => Ok(AcceptedView::TunnelEstablished(None)),
        Ok(AcceptedSocketDecision::TunnelEstablished(Some(s))) => Ok(AcceptedView::TunnelEstablished(Some(s@))),
        Err(e) => Err(e@),
    }
}

/// A segment on a `CONNECT` stream: it carries the stream's hint; while the
/// tunnel is not established it is admitted whole; the segment that
/// establishes it keeps only the bytes up to the end of the response head
/// (none when the head ended in earlier segments).
pub open spec fn spec_connect_admit(st: ClientConnectView, seg: SegmentView) -> (ClientConnectView, Result<AcceptedView, Seq<char>>) {
    let hinted = with_hint(seg, st.protocol_hint);
    let (tunnel, decision) = spec_tunnel_observe(st.tunnel, st.max_head_bytes as int, seg.direction, seg.bytes);
    let st2 = ClientConnectView { tunnel, ..st };
    match decision {
        ConnectTunnelDecision::Admit => (st2, Ok(AcceptedView::Admit(hinted))),
        ConnectTunnelDecision::Established { admitted_prefix_len } => if admitted_prefix_len == 0 {
            (st2, Ok(AcceptedView::TunnelEstablished(None)))
        } else {
            let (cut, res) = spec_truncate(hinted, admitted_prefix_len as int);
            match res {
                Ok(_) => (st2, Ok(AcceptedView::TunnelEstablished(Some(cut)))),
                Err(e) => (st2, Err(e)),
            }
        },
    }
}

impl ClientConnectSocketStream {
    pub fn admit_segment(&mut self, segment: RawPayloadSegment) -> (r: Result<AcceptedSocketDecision, String>)
        ensures
            (final(self)@, accepted_view(r)) == spec_connect_admit(old(self)@, segment@),
    {
        let mut segment = with_protocol_hint(segment, self.protocol_hint.as_str());
        match self.connect_tunnel.observe(segment.direction, segment.bytes.as_slice()) {
            ConnectTunnelDecision::Admit => Ok(AcceptedSocketDecision::Admit(segment)),
            ConnectTunnelDecision::Established { admitted_prefix_len } => {
                if admitted_prefix_len == 0 {
                    return Ok(AcceptedSocketDecision::TunnelEstablished(None));
                }
                truncate_to_http_prefix(&mut segment, admitted_prefix_len)?;
                Ok(AcceptedSocketDecision::TunnelEstablished(Some(segment)))
            },
        }
    }
}


/// The socket stream a segment belongs to.
pub struct SocketStreamKey {
    pub trace_id: u64,
    pub process: u64,
    pub stream_key: String,
}

pub type SockKey = (u64, u64, Seq<char>);

impl SocketStreamKey {
    pub open spec fn key(&self) -> SockKey {
        (self.trace_id, self.process, self.stream_key@)
    }

    pub fn from_segment(segment: &RawPayloadSegment) -> (r: Self)
        ensures
            r.key() == (segment.trace_id, segment.process, segment.stream_key@),
    {
        SocketStreamKey { trace_id: segment.trace_id, process: segment.process, stream_key: segment.stream_key.clone() }
    }

    fn same(&self, other: &Self) -> (r: bool)
        ensures
            r == (self.key() == other.key()),
    {
        self.trace_id == other.trace_id && self.process == other.process && str_eq(
            self.stream_key.as_str(),
            other.stream_key.as_str(),
        )
    }
}

/// Where a socket stream stands.
pub enum SocketStreamState {
    Sniffing(SniffingSocketStream),
    Accepted { protocol_hint: String },
    ClientConnect(ClientConnectSocketStream),
    Rejected,
}

pub enum StreamView {
    Sniffing(SniffingView),
    Accepted(Seq<char>),
    ClientConnect(ClientConnectView),
    Rejected,
}

impl SocketStreamState {
    pub open spec fn view(&self) -> StreamView {
        match self {
            SocketStreamState::Sniffing(s) => StreamView::Sniffing(s@),
            SocketStreamState::Accepted { protocol_hint } => StreamView::Accepted(protocol_hint@),
            SocketStreamState::ClientConnect(c) => StreamView::ClientConnect(c@),
            SocketStreamState::Rejected => StreamView::Rejected,
        }
    }
}

/// Keeps socket-syscall payload only for streams that sniff as HTTP.
pub struct SocketHttpPayloadGate {
    max_sniff_bytes: u64,
    max_streams: u32,
    streams: Vec<(SocketStreamKey, SocketStreamState)>,
}

#[verifier::ext_equal]
pub struct SocketGateView {
    pub max_sniff_bytes: u64,
    pub max_streams: u32,
    pub streams: Map<SockKey, StreamView>,
}

pub open spec fn sock_entries(s: Seq<(SocketStreamKey, SocketStreamState)>) -> Seq<(SockKey, StreamView)> {
    s.map_values(|e: (SocketStreamKey, SocketStreamState)| (e.0.key(), e.1@))
}

impl SocketHttpPayloadGate {
    pub closed spec fn view(&self) -> SocketGateView {
        SocketGateView {
            max_sniff_bytes: self.max_sniff_bytes,
            max_streams: self.max_streams,
            streams: assoc_view(sock_entries(self.streams@)),
        }
    }

    pub closed spec fn wf(&self) -> bool {
        keys_unique(sock_entries(self.streams@))
    }

    /// An empty admission filter.
    pub fn new(max_sniff_bytes: u64, max_streams: u32) -> (r: Self)
        ensures
            r.wf(),
            r@ == (SocketGateView { max_sniff_bytes, max_streams, streams: Map::empty() }),
    {
        let r = SocketHttpPayloadGate { max_sniff_bytes, max_streams, streams: Vec::new() };
        proof {
            assert(sock_entries(r.streams@) =~= Seq::empty());
            lemma_view_empty::<SockKey, StreamView>();
        }
        r
    }
}

pub open spec fn socket_library() -> Seq<char> {
    "socket-syscall"@
}

pub open spec fn stream_limit_message(max: u32) -> Seq<char> {
    "socket HTTP payload stream count would exceed configured maximum "@ + decimal(max as nat)
}

pub open spec fn opt_seq(o: Option<SegmentView>) -> Seq<SegmentView> {
    match o {
        Some(x) => seq![x],
        None => Seq::empty(),
    }
}

pub open spec fn set_stream(g: SocketGateView, k: SockKey, v: StreamView) -> SocketGateView {
    SocketGateView { streams: g.streams.insert(k, v), ..g }
}

/// Admitting a segment: segments other than socket-syscall ones pass
/// untouched. A known stream follows its state: accepted streams pass with
/// their hint, rejected ones drop, sniffing ones go through the sniffer,
/// and `CONNECT` streams through the tunnel tracker (the stream is rejected
/// from the established tunnel on). A new stream is refused past the stream
/// limit; otherwise it is sniffed and recorded with the verdict reached.
pub open spec fn spec_gate_admit(g: SocketGateView, seg: SegmentView) -> (SocketGateView, Result<Seq<SegmentView>, Seq<char>>) {
    let k = (seg.trace_id, seg.process, seg.stream_key);
    if seg.source_boundary != PayloadSourceBoundary::Syscall || seg.library != socket_library() {
        (g, Ok(seq![seg]))
    } else if g.streams.contains_key(k) {
        match g.streams[k] {
            StreamView::Accepted(h) => (g, Ok(seq![with_hint(seg, h)])),
            StreamView::Rejected => (g, Ok(Seq::empty())),
            StreamView::Sniffing(st) => {
                let (st2, r) = spec_sniffing_admit(st, seg);
                (set_stream(g, k, StreamView::Sniffing(st2)), r)
            },
            StreamView::ClientConnect(c) => {
                let (c2, r) = spec_connect_admit(c, seg);
                match r {
                    Err(e) => (set_stream(g, k, StreamView::ClientConnect(c2)), Err(e)),
                    Ok(AcceptedView::Admit(x)) => (set_stream(g, k, StreamView::ClientConnect(c2)), Ok(seq![x])),
                    Ok(AcceptedView::TunnelEstablished(o)) => (set_stream(g, k, StreamView::Rejected), Ok(opt_seq(o))),
                }
            },
        }
    } else if g.streams.dom().len() >= g.max_streams {
        (g, Err(stream_limit_message(g.max_streams)))
    } else {
        let fresh = SniffingView { max_sniff_bytes: g.max_sniff_bytes, observed_bytes: 0, buffer: Seq::empty(), pending: Seq::empty(), decision: None };
        let (st, r) = spec_sniffing_admit(fresh, seg);
        match r {
            Err(e) => (g, Err(e)),
            Ok(out) => match st.decision {
                Some(DecisionView::Accept(h, true)) => if g.max_sniff_bytes > usize::MAX {
                    (g, Err(crate::connect::head_limit_overflow_message()))
                } else {
                    (set_stream(g, k, StreamView::ClientConnect(ClientConnectView {
                        protocol_hint: h,
                        max_head_bytes: g.max_sniff_bytes as usize,
                        tunnel: ConnectStateView::AwaitingResponse(Seq::empty()),
                    })), Ok(out))
                },
                Some(DecisionView::Accept(h, false)) => (set_stream(g, k, StreamView::Accepted(h)), Ok(out)),
                Some(DecisionView::Reject) => (set_stream(g, k, StreamView::Rejected), Ok(out)),
                None => (set_stream(g, k, StreamView::Sniffing(st)), Ok(out)),
            },
        }
    }
}

fn socket_position(entries: &Vec<(SocketStreamKey, SocketStreamState)>, key: &SocketStreamKey) -> (r: Option<usize>)
    ensures
        match r {
            Some(i) => i < entries@.len() && entries@[i as int].0.key() == key.key(),
            None => !has_key(sock_entries(entries@), key.key()),
        },
{
    let mut i: usize = 0;
    while i < entries.len()
        invariant
            i <= entries@.len(),
            forall|j: int| 0 <= j < i ==> entries@[j].0.key() != key.key(),
        decreases entries.len() - i,
    {
        if entries[i].0.same(key) {
            return Some(i);
        }
        i += 1;
    }
    proof {
        if has_key(sock_entries(entries@), key.key()) {
            let j = choose|j: int| 0 <= j < sock_entries(entries@).len() && #[trigger] sock_entries(entries@)[j].0 == key.key();
            assert(sock_entries(entries@)[j].0 == entries@[j].0.key());
        }
    }
    None
}

fn is_socket_library(library: &String) -> (r: bool)
    ensures
        r == (library@ == socket_library()),
{
    str_eq(library.as_str(), "socket-syscall")
}

impl SocketHttpPayloadGate {
    /// Puts `state` back as the state of the entry at `i`.
    fn restore(&mut self, i: usize, key: SocketStreamKey, state: SocketStreamState, Ghost(before): Ghost<Seq<(SocketStreamKey, SocketStreamState)>>)
        requires
            i < before.len(),
            keys_unique(sock_entries(before)),
            old(self).streams@ == before.remove(i as int),
            key.key() == before[i as int].0.key(),
        ensures
            final(self).wf(),
            final(self).max_sniff_bytes == old(self).max_sniff_bytes,
            final(self).max_streams == old(self).max_streams,
            assoc_view(sock_entries(final(self).streams@)) == assoc_view(sock_entries(before)).insert(key.key(), state@),
    {
        self.streams.insert(i, (key, state));
        proof {
            let k = sock_entries(before)[i as int].0;
            assert(sock_entries(self.streams@) =~= sock_entries(before).update(i as int, (k, state@)));
            lemma_view_update(sock_entries(before), i as int, state@);
        }
    }

    /// Admits one captured segment; returns the segments to keep.
    pub fn admit_segment(&mut self, segment: RawPayloadSegment) -> (r: Result<Vec<RawPayloadSegment>, String>)
        requires
            old(self).wf(),
        ensures
            final(self).wf(),
            (final(self)@, views_result(r)) == spec_gate_admit(old(self)@, segment@),
    {
        let ghost g = self@;
        let ghost seg = segment@;
        if segment.source_boundary != PayloadSourceBoundary::Syscall || !is_socket_library(&segment.library) {
            let out = vec![segment];
            assert(segment_views(out@) =~= seq![seg]);
            return Ok(out);
        }
        let key = SocketStreamKey::from_segment(&segment);
        let ghost k = key.key();
        match socket_position(&self.streams, &key) {
            Some(i) => {
                let ghost before = self.streams@;
                proof {
                    assert(sock_entries(before)[i as int] == (before[i as int].0.key(), before[i as int].1@));
                    lemma_view_at(sock_entries(before), i as int);
                }
                let (entry_key, state) = self.streams.remove(i);
                match state {
                    SocketStreamState::Accepted { protocol_hint } => {
                        let out = vec![with_protocol_hint(segment, protocol_hint.as_str())];
                        assert(segment_views(out@) =~= seq![with_hint(seg, protocol_hint@)]);
                        self.restore(i, entry_key, SocketStreamState::Accepted { protocol_hint }, Ghost(before));
                        proof {
                            assert(self@ =~= g);
                        }
                        Ok(out)
                    },
                    SocketStreamState::Rejected => {
                        self.restore(i, entry_key, SocketStreamState::Rejected, Ghost(before));
                        proof {
                            assert(self@ =~= g);
                        }
                        let out: Vec<RawPayloadSegment> = Vec::new();
                        assert(segment_views(out@) =~= Seq::<SegmentView>::empty());
                        Ok(out)
                    },
                    SocketStreamState::Sniffing(mut sniffing) => {
                        let r = sniffing.admit_segment(segment);
                        self.restore(i, entry_key, SocketStreamState::Sniffing(sniffing), Ghost(before));
                        proof {
                            assert(self@ =~= set_stream(g, k, StreamView::Sniffing(sniffing@)));
                        }
                        r
                    },
                    SocketStreamState::ClientConnect(mut connect) => {
                        let decision = connect.admit_segment(segment);
                        match decision {
                            Err(e) => {
                                self.restore(i, entry_key, SocketStreamState::ClientConnect(connect), Ghost(before));
                                proof {
                                    assert(self@ =~= set_stream(g, k, StreamView::ClientConnect(connect@)));
                                }
                                Err(e)
                            },
                            Ok(AcceptedSocketDecision::Admit(x)) => {
                                self.restore(i, entry_key, SocketStreamState::ClientConnect(connect), Ghost(before));
                                proof {
                                    assert(self@ =~= set_stream(g, k, StreamView::ClientConnect(connect@)));
                                }
                                let ghost xv = x@;
                                let out = vec![x];
                                assert(segment_views(out@) =~= seq![xv]);
                                Ok(out)
                            },
                            Ok(AcceptedSocketDecision::TunnelEstablished(opt)) => {
                                self.restore(i, entry_key, SocketStreamState::Rejected, Ghost(before));
                                proof {
                                    assert(self@ =~= set_stream(g, k, StreamView::Rejected));
                                }
                                let mut out: Vec<RawPayloadSegment> = Vec::new();
                                match opt {
                                    Some(x) => {
                                        let ghost xv = x@;
                                        out.push(x);
                                        assert(segment_views(out@) =~= seq![xv]);
                                    },
                                    None => {
                                        assert(segment_views(out@) =~= Seq::<SegmentView>::empty());
                                    },
                                }
                                Ok(out)
                            },
                        }
                    },
                }
            },
            None => {
                proof {
                    lemma_view_len(sock_entries(self.streams@));
                }
                if self.streams.len() >= self.max_streams as usize {
                    let mut m = String::from_str("socket HTTP payload stream count would exceed configured maximum ");
                    m.append(u64_to_decimal(self.max_streams as u64).as_str());
                    proof {
                        reveal_strlit("socket HTTP payload stream count would exceed configured maximum ");
                    }
                    return Err(m);
                }
                let mut state = SniffingSocketStream::new(self.max_sniff_bytes);
                let admitted = state.admit_segment(segment)?;
                let ghost before = self.streams@;
                let new_state = match state.decision {
                    Some(SocketSniffDecision::Accept(sniffed)) => {
                        if sniffed.client_connect {
                            let connect = ClientConnectSocketStream::new(sniffed.protocol_hint, self.max_sniff_bytes)?;
                            SocketStreamState::ClientConnect(connect)
                        } else {
                            SocketStreamState::Accepted { protocol_hint: sniffed.protocol_hint }
                        }
                    },
                    Some(SocketSniffDecision::Reject) => SocketStreamState::Rejected,
                    None => SocketStreamState::Sniffing(SniffingSocketStream {
                        max_sniff_bytes: state.max_sniff_bytes,
                        observed_bytes: state.observed_bytes,
                        buffer: state.buffer,
                        pending: state.pending,
                        decision: None,
                    }),
                };
                let ghost nv = new_state@;
                self.streams.push((key, new_state));
                proof {
                    assert(sock_entries(self.streams@) =~= sock_entries(before).push((k, nv)));
                    lemma_view_push(sock_entries(before), k, nv);
                    assert(self@ =~= set_stream(g, k, nv));
                }
                Ok(admitted)
            },
        }
    }
}


/// The streams a forget request covers: those of trace `trace_id`, and when
/// `target` is given only the one of that process and stream key.
pub open spec fn forgotten(k: SockKey, trace_id: u64, target: Option<(u64, Seq<char>)>) -> bool {
    k.0 == trace_id && match target {
        None => true,
        Some((p, sk)) => k.1 == p && k.2 == sk,
    }
}

pub open spec fn spec_gate_forget(g: SocketGateView, trace_id: u64, target: Option<(u64, Seq<char>)>) -> SocketGateView {
    SocketGateView { streams: g.streams.restrict(g.streams.dom().filter(|k: SockKey| !forgotten(k, trace_id, target))), ..g }
}

impl SocketHttpPayloadGate {
    fn forget_matching(&mut self, trace_id: u64, process: u64, stream_key: Option<&str>)
        requires
            old(self).wf(),
        ensures
            final(self).wf(),
            final(self)@ == spec_gate_forget(old(self)@, trace_id, match stream_key {
                None => None,
                Some(sk) => Some((process, sk@)),
            }),
    {
        let ghost target: Option<(u64, Seq<char>)> = match stream_key {
            None => None,
            Some(sk) => Some((process, sk@)),
        };
        let ghost orig = assoc_view(sock_entries(self.streams@));
        let ghost mut removed: Set<SockKey> = Set::empty();
        let mut i: usize = 0;
        while i < self.streams.len()
            invariant
                i <= self.streams@.len(),
                keys_unique(sock_entries(self.streams@)),
                assoc_view(sock_entries(self.streams@)) == orig.remove_keys(removed),
                forall|k: SockKey| #[trigger] removed.contains(k) ==> forgotten(k, trace_id, target),
                forall|j: int| 0 <= j < i ==> !forgotten(#[trigger] sock_entries(self.streams@)[j].0, trace_id, target),
                self.max_sniff_bytes == old(self).max_sniff_bytes,
                self.max_streams == old(self).max_streams,
                target == match stream_key {
                    None => None,
                    Some(sk) => Some((process, sk@)),
                },
            decreases self.streams.len() - i,
        {
            let hit = self.streams[i].0.trace_id == trace_id && match stream_key {
                None => true,
                Some(sk) => self.streams[i].0.process == process && str_eq(self.streams[i].0.stream_key.as_str(), sk),
            };
            assert(sock_entries(self.streams@)[i as int].0 == self.streams@[i as int].0.key());
            if hit {
                let ghost before = sock_entries(self.streams@);
                let ghost k = before[i as int].0;
                self.streams.remove(i);
                proof {
                    assert(sock_entries(self.streams@) =~= before.remove(i as int));
                    lemma_view_remove(before, i as int);
                    removed = removed.insert(k);
                    assert(orig.remove_keys(removed) =~= orig.remove_keys(removed.remove(k)).remove(k));
                    assert(orig.remove_keys(removed.remove(k)) =~= assoc_view(before)) by {
                        assert(removed.remove(k) =~= removed.remove(k));
                    }
                    assert forall|j: int| 0 <= j < i implies !forgotten(#[trigger] sock_entries(self.streams@)[j].0, trace_id, target) by {
                        assert(sock_entries(self.streams@)[j] == before[j]);
                    }
                }
            } else {
                i += 1;
            }
        }
        proof {
            let cur = assoc_view(sock_entries(self.streams@));
            let want = orig.restrict(orig.dom().filter(|k: SockKey| !forgotten(k, trace_id, target)));
            assert forall|k: SockKey| #[trigger] cur.contains_key(k) <==> want.contains_key(k) by {
                if cur.contains_key(k) {
                    let j = choose|j: int| 0 <= j < sock_entries(self.streams@).len() && #[trigger] sock_entries(self.streams@)[j].0 == k;
                    assert(!forgotten(sock_entries(self.streams@)[j].0, trace_id, target));
                }
            }
            assert(cur =~= want);
            assert(self@ =~= spec_gate_forget(old(self)@, trace_id, target));
        }
    }

    /// Drops the state of every stream of trace `trace_id`.
    pub fn forget_trace(&mut self, trace_id: u64)
        requires
            old(self).wf(),
        ensures
            final(self).wf(),
            final(self)@ == spec_gate_forget(old(self)@, trace_id, None),
    {
        self.forget_matching(trace_id, 0, None);
    }

    /// Drops the state of the closed stream.
    pub fn forget_stream(&mut self, trace_id: u64, process: u64, stream_key: &str)
        requires
            old(self).wf(),
        ensures
            final(self).wf(),
            final(self)@ == spec_gate_forget(old(self)@, trace_id, Some((process, stream_key@))),
    {
        self.forget_matching(trace_id, process, Some(stream_key));
    }
}

/// At most `max_streams` socket streams are tracked.
pub open spec fn within_stream_limit(g: SocketGateView) -> bool {
    g.streams.dom().finite() && g.streams.dom().len() <= g.max_streams
}

/// Law: admitting segments and forgetting streams keep the number of
/// tracked socket streams within the configured maximum.
pub proof fn law_stream_count_within_limit(g: SocketGateView, seg: SegmentView, trace_id: u64, target: Option<(u64, Seq<char>)>)
    requires
        within_stream_limit(g),
    ensures
        within_stream_limit(spec_gate_admit(g, seg).0),
        within_stream_limit(spec_gate_forget(g, trace_id, target)),
{
    let k = (seg.trace_id, seg.process, seg.stream_key);
    assert forall|v: StreamView| g.streams.contains_key(k) implies #[trigger] g.streams.insert(k, v).dom() =~= g.streams.dom() by {}
    assert forall|v: StreamView| !g.streams.contains_key(k) implies #[trigger] g.streams.insert(k, v).dom() =~= g.streams.dom().insert(k) by {}
    let f = spec_gate_forget(g, trace_id, target);
    let kept = g.streams.dom().filter(|q: SockKey| !forgotten(q, trace_id, target));
    assert(f.streams.dom() =~= kept);
    vstd::set_lib::lemma_len_subset(kept, g.streams.dom());
}

/// Law: a rejected stream stays rejected and drops every later segment.
pub proof fn law_rejected_stream_drops_everything(g: SocketGateView, seg: SegmentView)
    requires
        seg.source_boundary == PayloadSourceBoundary::Syscall,
        seg.library == socket_library(),
        g.streams.contains_key((seg.trace_id, seg.process, seg.stream_key)),
        g.streams[(seg.trace_id, seg.process, seg.stream_key)] is Rejected,
    ensures
        spec_gate_admit(g, seg) == (g, Ok::<Seq<SegmentView>, Seq<char>>(Seq::empty())),
{
}

} // verus!
