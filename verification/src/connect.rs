//! Client-side HTTP/1 `CONNECT` tunnel tracking on a socket stream.

use vstd::prelude::*;
use crate::body_retention::{head_end_marker, starts_with};
use crate::payload::PayloadDirection;
use crate::text::{find_bytes, first_occurrence, lemma_first_occurrence, occurs_at, utf8_is_valid};
use crate::words::{byte_pos_from, find_byte_from, is_digit, next_word, range_is, words};

verus! {

pub open spec fn crlf() -> Seq<u8> {
    seq![13u8, 10]
}

pub open spec fn lit_http10() -> Seq<u8> {
    seq![72u8, 84, 84, 80, 47, 49, 46, 48]
}

pub open spec fn lit_http11() -> Seq<u8> {
    seq![72u8, 84, 84, 80, 47, 49, 46, 49]
}

pub open spec fn is_http1_version(w: Seq<u8>) -> bool {
    w == lit_http10() || w == lit_http11()
}

/// Value of three ASCII digits.
pub open spec fn three_digit_value(w: Seq<u8>) -> int {
    (w[0] - 48) * 100 + (w[1] - 48) * 10 + (w[2] - 48)
}

/// The status code of a response head: its first `\r\n`-terminated line,
/// in valid UTF-8, reads `HTTP/1.0` or `HTTP/1.1` then a three-digit status.
pub open spec fn spec_status_code(head: Seq<u8>) -> Option<u16> {
    match first_occurrence(head, crlf()) {
        None => None,
        Some(le) => {
            let line = head.subrange(0, le);
            let ws = words(line);
            if !vstd::utf8::valid_utf8(line) || ws.len() < 2 || !is_http1_version(ws[0])
                || ws[1].len() != 3 || !(is_digit(ws[1][0]) && is_digit(ws[1][1]) && is_digit(
                ws[1][2],
            )) {
                None
            } else {
                Some(three_digit_value(ws[1]) as u16)
            }
        },
    }
}

fn is_http1_version_range(s: &[u8], a: usize, b: usize) -> (r: bool)
    requires
        a <= b <= s.len(),
    ensures
        r == is_http1_version(s@.subrange(a as int, b as int)),
{
    let v10: [u8; 8] = [72u8, 84, 84, 80, 47, 49, 46, 48];
    let v11: [u8; 8] = [72u8, 84, 84, 80, 47, 49, 46, 49];
    assert(v10@ =~= lit_http10());
    assert(v11@ =~= lit_http11());
    range_is(s, a, b, v10.as_slice()) || range_is(s, a, b, v11.as_slice())
}

/// Response head parsing for a pending `CONNECT`.
pub struct ConnectResponseHead;

impl ConnectResponseHead {
/// Parses the status code of a response head.
pub fn status_code(head: &[u8]) -> (r: Option<u16>)
    ensures
        r == spec_status_code(head@),
{
    let marker: [u8; 2] = [13u8, 10];
    assert(marker@ =~= crlf());
    let line_end = match find_bytes(head, marker.as_slice()) {
        Some(i) => i,
        None => return None,
    };
    proof {
        lemma_first_occurrence(head@, crlf());
    }
    let line = vstd::slice::slice_subrange(head, 0, line_end);
    if !utf8_is_valid(line) {
        return None;
    }
    let (a0, b0) = match next_word(line, 0) {
        Some(w) => w,
        None => return None,
    };
    let (a1, b1) = match next_word(line, b0) {
        Some(w) => w,
        None => return None,
    };
    proof {
        let ws = words(line@);
        assert(ws.len() >= 2);
        assert(ws[0] == line@.subrange(a0 as int, b0 as int));
        assert(ws[1] == line@.subrange(a1 as int, b1 as int));
    }
    if !is_http1_version_range(line, a0, b0) || b1 - a1 != 3 {
        return None;
    }
    let d0 = line[a1];
    let d1 = line[a1 + 1];
    let d2 = line[a1 + 2];
    if !(48 <= d0 && d0 <= 57 && 48 <= d1 && d1 <= 57 && 48 <= d2 && d2 <= 57) {
        return None;
    }
    Some(((d0 - 48) as u16) * 100 + ((d1 - 48) as u16) * 10 + ((d2 - 48) as u16))
}
}

/// What a response head observation concluded.
#[derive(Clone, Copy, Debug, PartialEq, Eq, Structural)]
pub enum ConnectResponseOutcome {
    NeedMore,
    Established { admitted_prefix_len: usize },
    Retry,
    StopTracking,
}

/// Walk over the complete response heads buffered in `buf` from `offset`:
/// informational (1xx) heads are skipped, a 2xx head establishes the tunnel
/// (admitting the bytes of the new segment up to that head's end), any other
/// status asks for a retried `CONNECT`, and an unparsable head stops
/// tracking. Without a complete head, tracking stops once the head limit is
/// hit (`full`), otherwise more bytes are awaited.
pub open spec fn scan_heads(
    buf: Seq<u8>,
    offset: int,
    previous_len: int,
    new_len: int,
    full: bool,
) -> ConnectResponseOutcome
    decreases buf.len() - offset,
{
    if offset < 0 || offset > buf.len() {
        ConnectResponseOutcome::StopTracking
    } else {
        match first_occurrence(buf.subrange(offset, buf.len() as int), head_end_marker()) {
            None => if full {
                ConnectResponseOutcome::StopTracking
            } else {
                ConnectResponseOutcome::NeedMore
            },
            Some(rel) => {
                let head_end = offset + rel + 4;
                proof {
                    lemma_first_occurrence(buf.subrange(offset, buf.len() as int), head_end_marker());
                }
                match spec_status_code(buf.subrange(offset, head_end)) {
                    None => ConnectResponseOutcome::StopTracking,
                    Some(status) => if 100 <= status <= 199 {
                        scan_heads(buf, head_end, previous_len, new_len, full)
                    } else if 200 <= status <= 299 {
                        let past = if head_end > previous_len { head_end - previous_len } else { 0 };
                        ConnectResponseOutcome::Established {
                            admitted_prefix_len: (if past < new_len { past } else { new_len }) as usize,
                        }
                    } else {
                        ConnectResponseOutcome::Retry
                    },
                }
            },
        }
    }
}

/// The bytes of `bytes` that fit in a head buffer of `buffer_len` bytes
/// under the limit `max`.
pub open spec fn head_copy_len(buffer_len: int, bytes_len: int, max: int) -> int {
    if max - buffer_len < bytes_len { max - buffer_len } else { bytes_len }
}

/// Observing response bytes: the buffer takes what fits under the head limit
/// and the buffered heads are scanned; a buffer already over the limit stops
/// tracking.
pub open spec fn spec_observe_response(buf: Seq<u8>, bytes: Seq<u8>, max: int) -> (Seq<u8>, ConnectResponseOutcome) {
    if buf.len() > max {
        (buf, ConnectResponseOutcome::StopTracking)
    } else {
        let c = head_copy_len(buf.len() as int, bytes.len() as int, max);
        let nb = buf + bytes.subrange(0, c);
        (nb, scan_heads(nb, 0, buf.len() as int, bytes.len() as int, c < bytes.len() || nb.len() >= max))
    }
}

impl ConnectResponseHead {
/// Observes inbound bytes while a `CONNECT` response is awaited.
pub fn observe(buffer: &mut Vec<u8>, bytes: &[u8], max_head_bytes: usize) -> (r: ConnectResponseOutcome)
    ensures
        (final(buffer)@, r) == spec_observe_response(old(buffer)@, bytes@, max_head_bytes as int),
{
    let previous_len = buffer.len();
    if previous_len > max_head_bytes {
        return ConnectResponseOutcome::StopTracking;
    }
    let remaining = max_head_bytes - previous_len;
    let copy_len = if remaining < bytes.len() { remaining } else { bytes.len() };
    let ghost old_buf = buffer@;
    buffer.extend_from_slice(vstd::slice::slice_subrange(bytes, 0, copy_len));
    assert(buffer@ =~= old_buf + bytes@.subrange(0, copy_len as int));
    let full = copy_len < bytes.len() || buffer.len() >= max_head_bytes;
    let mut offset: usize = 0;
    let marker: [u8; 4] = [13u8, 10, 13, 10];
    assert(marker@ =~= head_end_marker());
    loop
        invariant
            offset <= buffer@.len(),
            marker@ == head_end_marker(),
            buffer@ == old_buf + bytes@.subrange(0, copy_len as int),
            previous_len == old_buf.len(),
            old(buffer)@ == old_buf,
            old_buf.len() <= max_head_bytes,
            copy_len as int == head_copy_len(old_buf.len() as int, bytes@.len() as int, max_head_bytes as int),
            full == (copy_len < bytes@.len() || buffer@.len() >= max_head_bytes),
            scan_heads(buffer@, offset as int, previous_len as int, bytes@.len() as int, full)
                == scan_heads(buffer@, 0, previous_len as int, bytes@.len() as int, full),
        decreases buffer@.len() - offset,
    {
        let rest = vstd::slice::slice_subrange(buffer.as_slice(), offset, buffer.len());
        assert(rest@ =~= buffer@.subrange(offset as int, buffer@.len() as int));
        proof {
            lemma_first_occurrence(rest@, head_end_marker());
        }
        let relative_end = match find_bytes(rest, marker.as_slice()) {
            Some(i) => i,
            None => {
                return if full {
                    ConnectResponseOutcome::StopTracking
                } else {
                    ConnectResponseOutcome::NeedMore
                };
            },
        };
        let head_end = offset + relative_end + 4;
        let head = vstd::slice::slice_subrange(buffer.as_slice(), offset, head_end);

        assert(head@ =~= buffer@.subrange(offset as int, head_end as int));
        let status = match ConnectResponseHead::status_code(head) {
            Some(s) => s,
            None => return ConnectResponseOutcome::StopTracking,
        };
        if 100 <= status && status <= 199 {
            offset = head_end;
        } else if 200 <= status && status <= 299 {
            let past = if head_end > previous_len { head_end - previous_len } else { 0 };
            return ConnectResponseOutcome::Established {
                admitted_prefix_len: if past < bytes.len() { past } else { bytes.len() },
            };
        } else {
            return ConnectResponseOutcome::Retry;
        }
    }
}
}


pub open spec fn lit_connect_method() -> Seq<u8> {
    seq![67u8, 79, 78, 78, 69, 67, 84]
}

/// What a request line observation concluded.
#[derive(Clone, Copy, Debug, PartialEq, Eq, Structural)]
pub enum ConnectRequestOutcome {
    NeedMore,
    Connect,
    Other,
}

/// Observing outbound bytes after a refused `CONNECT`: the buffer takes what
/// fits under the limit; once a line is complete it is a new `CONNECT` when
/// it reads exactly `CONNECT authority HTTP/1.x` in valid UTF-8.
pub open spec fn spec_observe_request(buf: Seq<u8>, bytes: Seq<u8>, max: int) -> (Seq<u8>, ConnectRequestOutcome) {
    if buf.len() > max {
        (buf, ConnectRequestOutcome::Other)
    } else {
        let c = head_copy_len(buf.len() as int, bytes.len() as int, max);
        let nb = buf + bytes.subrange(0, c);
        let le = byte_pos_from(nb, 0, 10);
        if le >= nb.len() {
            (nb, if c < bytes.len() || nb.len() >= max {
                ConnectRequestOutcome::Other
            } else {
                ConnectRequestOutcome::NeedMore
            })
        } else {
            let line = nb.subrange(0, le);
            let ws = words(line);
            if vstd::utf8::valid_utf8(line) && ws.len() == 3 && ws[0] == lit_connect_method()
                && is_http1_version(ws[2]) {
                (nb, ConnectRequestOutcome::Connect)
            } else {
                (nb, ConnectRequestOutcome::Other)
            }
        }
    }
}

/// Request line parsing after a refused `CONNECT`.
pub struct ConnectRequestLine;

impl ConnectRequestLine {
/// Observes outbound bytes while a retried `CONNECT` is awaited.
pub fn observe(buffer: &mut Vec<u8>, bytes: &[u8], max_head_bytes: usize) -> (r: ConnectRequestOutcome)
    ensures
        (final(buffer)@, r) == spec_observe_request(old(buffer)@, bytes@, max_head_bytes as int),
{
    if buffer.len() > max_head_bytes {
        return ConnectRequestOutcome::Other;
    }
    let remaining = max_head_bytes - buffer.len();
    let copy_len = if remaining < bytes.len() { remaining } else { bytes.len() };
    let ghost old_buf = buffer@;
    buffer.extend_from_slice(vstd::slice::slice_subrange(bytes, 0, copy_len));
    assert(buffer@ =~= old_buf + bytes@.subrange(0, copy_len as int));
    let line_end = find_byte_from(buffer.as_slice(), 0, 10);
    if line_end >= buffer.len() {
        return if copy_len < bytes.len() || buffer.len() >= max_head_bytes {
            ConnectRequestOutcome::Other
        } else {
            ConnectRequestOutcome::NeedMore
        };
    }
    let line = vstd::slice::slice_subrange(buffer.as_slice(), 0, line_end);
    if !utf8_is_valid(line) {
        return ConnectRequestOutcome::Other;
    }
    let (a0, b0) = match next_word(line, 0) {
        Some(w) => w,
        None => return ConnectRequestOutcome::Other,
    };
    let (a1, b1) = match next_word(line, b0) {
        Some(w) => w,
        None => return ConnectRequestOutcome::Other,
    };
    let (a2, b2) = match next_word(line, b1) {
        Some(w) => w,
        None => return ConnectRequestOutcome::Other,
    };
    let extra = next_word(line, b2);
    proof {
        let ws = words(line@);
        assert(ws[0] == line@.subrange(a0 as int, b0 as int));
        assert(ws[2] == line@.subrange(a2 as int, b2 as int));
        if extra is None {
            assert(ws.len() == 3);
        } else {
            assert(ws.len() > 3);
        }
    }
    let connect: [u8; 7] = [67u8, 79, 78, 78, 69, 67, 84];
    assert(connect@ =~= lit_connect_method());
    if extra.is_none() && range_is(line, a0, b0, connect.as_slice()) && is_http1_version_range(line, a2, b2) {
        ConnectRequestOutcome::Connect
    } else {
        ConnectRequestOutcome::Other
    }
}
}

/// Where a client `CONNECT` exchange stands.
pub enum ClientConnectState {
    Inactive,
    AwaitingResponse(Vec<u8>),
    AwaitingRetry(Vec<u8>),
    Established,
}

pub enum ConnectStateView {
    Inactive,
    AwaitingResponse(Seq<u8>),
    AwaitingRetry(Seq<u8>),
    Established,
}

impl ClientConnectState {
    pub open spec fn view(&self) -> ConnectStateView {
        match self {
            ClientConnectState::Inactive => ConnectStateView::Inactive,
            ClientConnectState::AwaitingResponse(b) => ConnectStateView::AwaitingResponse(b@),
            ClientConnectState::AwaitingRetry(b) => ConnectStateView::AwaitingRetry(b@),
            ClientConnectState::Established => ConnectStateView::Established,
        }
    }
}

/// Whether a segment is admitted as HTTP, or ends the HTTP part of the stream
/// after `admitted_prefix_len` of its bytes.
#[derive(Clone, Copy, Debug, PartialEq, Eq, Structural)]
pub enum ConnectTunnelDecision {
    Admit,
    Established { admitted_prefix_len: usize },
}

/// One step of the tunnel tracker on a segment travelling in `direction`.
pub open spec fn spec_tunnel_observe(
    state: ConnectStateView,
    max: int,
    direction: PayloadDirection,
    bytes: Seq<u8>,
) -> (ConnectStateView, ConnectTunnelDecision) {
    match state {
        ConnectStateView::Inactive => (state, ConnectTunnelDecision::Admit),
        ConnectStateView::AwaitingResponse(buf) => if direction != PayloadDirection::Inbound {
            (state, ConnectTunnelDecision::Admit)
        } else {
            let (nb, outcome) = spec_observe_response(buf, bytes, max);
            match outcome {
                ConnectResponseOutcome::NeedMore => (ConnectStateView::AwaitingResponse(nb), ConnectTunnelDecision::Admit),
                ConnectResponseOutcome::Established { admitted_prefix_len } => (
                    ConnectStateView::Established,
                    ConnectTunnelDecision::Established { admitted_prefix_len },
                ),
                ConnectResponseOutcome::Retry => (ConnectStateView::AwaitingRetry(Seq::empty()), ConnectTunnelDecision::Admit),
                ConnectResponseOutcome::StopTracking => (ConnectStateView::Inactive, ConnectTunnelDecision::Admit),
            }
        },
        ConnectStateView::AwaitingRetry(buf) => if direction != PayloadDirection::Outbound {
            (state, ConnectTunnelDecision::Admit)
        } else {
            let (nb, outcome) = spec_observe_request(buf, bytes, max);
            match outcome {
                ConnectRequestOutcome::NeedMore => (ConnectStateView::AwaitingRetry(nb), ConnectTunnelDecision::Admit),
                ConnectRequestOutcome::Connect => (ConnectStateView::AwaitingResponse(Seq::empty()), ConnectTunnelDecision::Admit),
                ConnectRequestOutcome::Other => (ConnectStateView::Inactive, ConnectTunnelDecision::Admit),
            }
        },
        ConnectStateView::Established => (state, ConnectTunnelDecision::Established { admitted_prefix_len: 0 }),
    }
}

/// Tracks a client `CONNECT` on a socket stream so that the bytes after an
/// established tunnel are not taken for HTTP.
pub struct ClientConnectTunnelGate {
    pub max_head_bytes: usize,
    pub state: ClientConnectState,
}

impl ClientConnectTunnelGate {
    /// A tracker waiting for the `CONNECT` response, with heads limited to
    /// `max_head_bytes` bytes. Fails when the limit does not fit a `usize`.
    pub fn awaiting_response(max_head_bytes: u64) -> (r: Result<Self, String>)
        ensures
            max_head_bytes <= usize::MAX ==> (r matches Ok(g) && g.max_head_bytes == max_head_bytes
                && g.state@ == ConnectStateView::AwaitingResponse(Seq::empty())),
            max_head_bytes > usize::MAX ==> (r matches Err(m) && m@ == head_limit_overflow_message()),
    {
        if max_head_bytes > usize::MAX as u64 {
            let mut m = String::from_str("socket HTTP head limit overflow: ");
            m.append("out of range integral type conversion attempted");
            proof {
                reveal_strlit("socket HTTP head limit overflow: ");
                reveal_strlit("out of range integral type conversion attempted");
            }
            return Err(m);
        }
        let v: Vec<u8> = Vec::new();
        assert(v@ =~= Seq::<u8>::empty());
        Ok(ClientConnectTunnelGate { max_head_bytes: max_head_bytes as usize, state: ClientConnectState::AwaitingResponse(v) })
    }

    /// Observes one segment of the stream.
    pub fn observe(&mut self, direction: PayloadDirection, bytes: &[u8]) -> (r: ConnectTunnelDecision)
        ensures
            final(self).max_head_bytes == old(self).max_head_bytes,
            (final(self).state@, r) == spec_tunnel_observe(
                old(self).state@,
                old(self).max_head_bytes as int,
                direction,
                bytes@,
            ),
    {
        let mut state = ClientConnectState::Inactive;
        std::mem::swap(&mut state, &mut self.state);
        match state {
            ClientConnectState::Inactive => {
                self.state = ClientConnectState::Inactive;
                ConnectTunnelDecision::Admit
            },
            ClientConnectState::AwaitingResponse(mut buffer) => {
                if direction != PayloadDirection::Inbound {
                    self.state = ClientConnectState::AwaitingResponse(buffer);
                    return ConnectTunnelDecision::Admit;
                }
                match ConnectResponseHead::observe(&mut buffer, bytes, self.max_head_bytes) {
                    ConnectResponseOutcome::NeedMore => {
                        self.state = ClientConnectState::AwaitingResponse(buffer);
                        ConnectTunnelDecision::Admit
                    },
                    ConnectResponseOutcome::Established { admitted_prefix_len } => {
                        self.state = ClientConnectState::Established;
                        ConnectTunnelDecision::Established { admitted_prefix_len }
                    },
                    ConnectResponseOutcome::Retry => {
                        let v: Vec<u8> = Vec::new();
                        assert(v@ =~= Seq::<u8>::empty());
                        self.state = ClientConnectState::AwaitingRetry(v);
                        ConnectTunnelDecision::Admit
                    },
                    ConnectResponseOutcome::StopTracking => {
                        self.state = ClientConnectState::Inactive;
                        ConnectTunnelDecision::Admit
                    },
                }
            },
            ClientConnectState::AwaitingRetry(mut buffer) => {
                if direction != PayloadDirection::Outbound {
                    self.state = ClientConnectState::AwaitingRetry(buffer);
                    return ConnectTunnelDecision::Admit;
                }
                match ConnectRequestLine::observe(&mut buffer, bytes, self.max_head_bytes) {
                    ConnectRequestOutcome::NeedMore => {
                        self.state = ClientConnectState::AwaitingRetry(buffer);
                        ConnectTunnelDecision::Admit
                    },
                    ConnectRequestOutcome::Connect => {
                        let v: Vec<u8> = Vec::new();
                        assert(v@ =~= Seq::<u8>::empty());
                        self.state = ClientConnectState::AwaitingResponse(v);
                        ConnectTunnelDecision::Admit
                    },
                    ConnectRequestOutcome::Other => {
                        self.state = ClientConnectState::Inactive;
                        ConnectTunnelDecision::Admit
                    },
                }
            },
            ClientConnectState::Established => {
                self.state = ClientConnectState::Established;
                ConnectTunnelDecision::Established { admitted_prefix_len: 0 }
            },
        }
    }
}

pub open spec fn head_limit_overflow_message() -> Seq<char> {
    "socket HTTP head limit overflow: "@ + "out of range integral type conversion attempted"@
}

} // verus!
