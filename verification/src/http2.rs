//! HTTP/2 frame walking for payload body retention.

use vstd::prelude::*;
use crate::text::{bytes_at, contains_lower, contains_lowercase, occurs_at};

verus! {

/// Bytes of an HTTP/2 frame header.
pub const FRAME_HEADER_BYTES: usize = 9;

pub const DATA_FRAME_TYPE: u8 = 0;

pub const HEADERS_FRAME_TYPE: u8 = 1;

pub const CONTINUATION_FRAME_TYPE: u8 = 9;

pub const FLAG_PADDED: u8 = 8;

/// The HTTP/2 client connection preface `PRI * HTTP/2.0\r\n\r\nSM\r\n\r\n`.
pub open spec fn preface() -> Seq<u8> {
    seq![
        80u8, 82, 73, 32, 42, 32, 72, 84, 84, 80, 47, 50, 46, 48, 13, 10, 13, 10, 83, 77, 13,
        10, 13, 10,
    ]
}

/// The connection preface as bytes.
pub fn connection_preface() -> (r: [u8; 24])
    ensures
        r@ == preface(),
{
    let r: [u8; 24] = [
        80u8, 82, 73, 32, 42, 32, 72, 84, 84, 80, 47, 50, 46, 48, 13, 10, 13, 10, 83, 77, 13,
        10, 13, 10,
    ];
    assert(r@ =~= preface());
    r
}

pub open spec fn starts_with_preface(b: Seq<u8>) -> bool {
    occurs_at(b, preface(), 0)
}

/// Whether `bytes` begins with the connection preface.
pub fn has_connection_preface(bytes: &[u8]) -> (r: bool)
    ensures
        r == starts_with_preface(bytes@),
{
    let p = connection_preface();
    bytes_at(bytes, p.as_slice(), 0)
}

/// Whether a frame of type `frame_type` may carry `stream_id` (RFC 9113:
/// stream frames need a non-zero id, connection frames a zero id, unknown
/// types are refused).
pub open spec fn spec_stream_id_is_valid(frame_type: u8, stream_id: u32) -> bool {
    if frame_type == 0 || frame_type == 1 || frame_type == 2 || frame_type == 3 || frame_type == 5
        || frame_type == 9 {
        stream_id != 0
    } else if frame_type == 4 || frame_type == 6 || frame_type == 7 {
        stream_id == 0
    } else {
        frame_type == 8
    }
}

pub fn stream_id_is_valid(frame_type: u8, stream_id: u32) -> (r: bool)
    ensures
        r == spec_stream_id_is_valid(frame_type, stream_id),
{
    match frame_type {
        0 | 1 | 2 | 3 | 5 | 9 => stream_id != 0,
        4 | 6 | 7 => stream_id == 0,
        8 => true,
        _ => false,
    }
}

/// The 31-bit stream identifier in the frame header at `c`.
pub open spec fn header_stream_id(b: Seq<u8>, c: int) -> u32 {
    ((b[c + 5] % 128) * 16777216 + b[c + 6] * 65536 + b[c + 7] * 256 + b[c + 8]) as u32
}

/// The 24-bit payload length in the frame header at `c`.
pub open spec fn header_length(b: Seq<u8>, c: int) -> int {
    b[c] * 65536 + b[c + 1] * 256 + b[c + 2]
}

fn read_stream_id(bytes: &[u8], c: usize) -> (r: u32)
    requires
        c + 9 <= bytes.len(),
    ensures
        r == header_stream_id(bytes@, c as int),
{
    let b5 = (bytes[c + 5] % 128) as u32;
    let b6 = bytes[c + 6] as u32;
    let b7 = bytes[c + 7] as u32;
    let b8 = bytes[c + 8] as u32;
    b5 * 16777216 + b6 * 65536 + b7 * 256 + b8
}

/// The stream id of the frame header at the start of `bytes`, when a valid
/// header is there.
pub open spec fn spec_known_frame_stream_id(b: Seq<u8>) -> Option<u32> {
    if b.len() < 9 || !spec_stream_id_is_valid(b[3], header_stream_id(b, 0)) {
        None
    } else {
        Some(header_stream_id(b, 0))
    }
}

pub fn known_frame_stream_id(bytes: &[u8]) -> (r: Option<u32>)
    ensures
        r == spec_known_frame_stream_id(bytes@),
{
    if bytes.len() < FRAME_HEADER_BYTES {
        return None;
    }
    let frame_type = bytes[3];
    let stream_id = read_stream_id(bytes, 0);
    if stream_id_is_valid(frame_type, stream_id) {
        Some(stream_id)
    } else {
        None
    }
}

/// One decoded frame header; its payload is `bytes[9..encoded_len]` of the
/// slice it was decoded from.
#[derive(Clone, Copy, Debug, PartialEq, Eq, Structural)]
pub struct Frame {
    pub frame_type: u8,
    pub flags: u8,
    pub stream_id: u32,
    pub encoded_len: usize,
}

/// The frame at byte `c` of `b`, when a complete frame with a valid stream id
/// is there.
pub open spec fn spec_decode_frame_at(b: Seq<u8>, c: int) -> Option<Frame> {
    if c < 0 || c + 9 > b.len() || c + 9 + header_length(b, c) > b.len()
        || !spec_stream_id_is_valid(b[c + 3], header_stream_id(b, c)) {
        None
    } else {
        Some(
            Frame {
                frame_type: b[c + 3],
                flags: b[c + 4],
                stream_id: header_stream_id(b, c),
                encoded_len: (9 + header_length(b, c)) as usize,
            },
        )
    }
}

/// Decodes the frame at the start of `bytes`.
pub fn decode_frame(bytes: &[u8]) -> (r: Option<Frame>)
    ensures
        r == spec_decode_frame_at(bytes@, 0),
{
    decode_frame_at(bytes, 0)
}

/// Decodes the frame at byte `c` of `bytes`.
pub fn decode_frame_at(bytes: &[u8], c: usize) -> (r: Option<Frame>)
    ensures
        r == spec_decode_frame_at(bytes@, c as int),
        r matches Some(f) ==> c + f.encoded_len <= bytes.len() && f.encoded_len >= 9,
{
    if c > bytes.len() || bytes.len() - c < FRAME_HEADER_BYTES {
        return None;
    }
    let length = (bytes[c] as usize) * 65536 + (bytes[c + 1] as usize) * 256 + (bytes[c + 2] as usize);
    let encoded_len = FRAME_HEADER_BYTES + length;
    if bytes.len() - c < encoded_len {
        return None;
    }
    let frame_type = bytes[c + 3];
    let stream_id = read_stream_id(bytes, c);
    if !stream_id_is_valid(frame_type, stream_id) {
        return None;
    }
    Some(Frame { frame_type, flags: bytes[c + 4], stream_id, encoded_len })
}

/// Range of the data inside a DATA frame payload `p`, after removing the pad
/// length byte and the padding when the PADDED flag is set.
pub open spec fn spec_data_range(flags: u8, p: Seq<u8>) -> Option<(int, int)> {
    if flags & FLAG_PADDED != 0 {
        if p.len() == 0 || p[0] > p.len() || 1 > p.len() - p[0] {
            None
        } else {
            Some((1, p.len() - p[0]))
        }
    } else {
        Some((0, p.len() as int))
    }
}

/// The data carried by a DATA frame payload.
pub fn data_payload(flags: u8, payload: &[u8]) -> (r: Option<&[u8]>)
    ensures
        match spec_data_range(flags, payload@) {
            None => r is None,
            Some((a, e)) => r matches Some(d) && d@ == payload@.subrange(a, e),
        },
{
    let mut cursor: usize = 0;
    let mut data_end = payload.len();
    if flags & FLAG_PADDED != 0 {
        if payload.len() == 0 {
            return None;
        }
        let padding = payload[0] as usize;
        cursor = 1;
        if padding > data_end {
            return None;
        }
        data_end = data_end - padding;
    }
    if cursor <= data_end && data_end <= payload.len() {
        Some(vstd::slice::slice_subrange(payload, cursor, data_end))
    } else {
        None
    }
}

/// What a walk over the frames of a buffer collected.
pub struct FrameBodies {
    pub stream_id: Option<u32>,
    pub body: Vec<u8>,
    pub saw_http_frame: bool,
}

/// The data that a frame contributes to the collected body.
pub open spec fn frame_data(b: Seq<u8>, c: int, f: Frame) -> Seq<u8> {
    let p = b.subrange(c + 9, c + f.encoded_len);
    if f.frame_type == DATA_FRAME_TYPE {
        match spec_data_range(f.flags, p) {
            Some((a, e)) => p.subrange(a, e),
            None => Seq::empty(),
        }
    } else {
        Seq::empty()
    }
}

pub open spec fn is_http_frame_type(t: u8) -> bool {
    t == DATA_FRAME_TYPE || t == HEADERS_FRAME_TYPE || t == CONTINUATION_FRAME_TYPE
}

/// Walk over the frames of `b` from byte `c` while a full header fits,
/// carrying the first non-zero stream id, the DATA bodies and whether an
/// HTTP frame was seen; `None` when a frame does not decode. The result
/// ends with the cursor where the walk stopped.
pub open spec fn frames_walk(
    b: Seq<u8>,
    c: int,
    stream_id: Option<u32>,
    body: Seq<u8>,
    saw: bool,
) -> Option<(Option<u32>, Seq<u8>, bool, int)>
    decreases b.len() - c,
{
    if c < 0 || c + 9 > b.len() {
        Some((stream_id, body, saw, c))
    } else {
        match spec_decode_frame_at(b, c) {
            None => None,
            Some(f) => {
                if f.encoded_len < 9 {
                    None
                } else {
                    frames_walk(
                        b,
                        c + f.encoded_len,
                        if f.stream_id != 0 && stream_id is None {
                            Some(f.stream_id)
                        } else {
                            stream_id
                        },
                        body + frame_data(b, c, f),
                        saw || is_http_frame_type(f.frame_type),
                    )
                }
            },
        }
    }
}

/// The frames of `b` (after an optional connection preface): `None` unless
/// every complete header decodes and at least the preface or one frame was
/// read.
pub open spec fn spec_frames(b: Seq<u8>) -> Option<(Option<u32>, Seq<u8>, bool)> {
    let start = if starts_with_preface(b) { 24int } else { 0int };
    match frames_walk(b, start, None, Seq::empty(), false) {
        None => None,
        Some((sid, body, saw, cursor)) => if cursor > 0 || starts_with_preface(b) {
            Some((sid, body, saw))
        } else {
            None
        },
    }
}

/// Walks the HTTP/2 frames of `bytes`.
pub fn frames(bytes: &[u8]) -> (r: Option<FrameBodies>)
    ensures
        match spec_frames(bytes@) {
            None => r is None,
            Some((sid, body, saw)) => r matches Some(f) && f.stream_id == sid && f.body@ == body
                && f.saw_http_frame == saw,
        },
{
    let preface = has_connection_preface(bytes);
    let mut cursor: usize = if preface { 24 } else { 0 };
    let ghost start = cursor as int;
    let mut body: Vec<u8> = Vec::new();
    let mut stream_id: Option<u32> = None;
    let mut saw_http_frame = false;
    proof {
        assert(body@ =~= Seq::<u8>::empty());
        if preface {
            assert(bytes@.len() >= 24);
        }
    }
    while cursor <= bytes.len() && bytes.len() - cursor >= FRAME_HEADER_BYTES
        invariant
            cursor <= bytes.len(),
            frames_walk(bytes@, cursor as int, stream_id, body@, saw_http_frame) == frames_walk(
                bytes@,
                start,
                None,
                Seq::<u8>::empty(),
                false,
            ),
            cursor == 0 ==> start == 0,
            start == if preface { 24int } else { 0int },
            preface == starts_with_preface(bytes@),
        decreases bytes.len() - cursor,
    {
        let frame = match decode_frame_at(bytes, cursor) {
            Some(frame) => frame,
            None => {
                return None;
            },
        };
        if frame.stream_id != 0 && stream_id.is_none() {
            stream_id = Some(frame.stream_id);
        }
        if frame.frame_type == DATA_FRAME_TYPE || frame.frame_type == HEADERS_FRAME_TYPE
            || frame.frame_type == CONTINUATION_FRAME_TYPE {
            saw_http_frame = true;
        }
        let payload = vstd::slice::slice_subrange(bytes, cursor + FRAME_HEADER_BYTES, cursor + frame.encoded_len);
        let ghost old_body = body@;
        if frame.frame_type == DATA_FRAME_TYPE {
            match data_payload(frame.flags, payload) {
                Some(data) => {
                    body.extend_from_slice(data);
                    assert(body@ =~= old_body + data@);
                },
                None => {},
            }
        }
        assert(body@ =~= old_body + frame_data(bytes@, cursor as int, frame));
        cursor = cursor + frame.encoded_len;
    }
    if cursor > 0 || preface {
        Some(FrameBodies { stream_id, body, saw_http_frame })
    } else {
        None
    }
}


/// A message classified from payload bytes: the HTTP/2 stream it belongs to
/// and whether its body looks like an LLM API exchange.
#[derive(Clone, Copy, Debug, PartialEq, Eq, Structural)]
pub struct ClassifiedMessage {
    pub stream_id: Option<u32>,
    pub llm: bool,
}

/// The ASCII needles of the LLM body heuristics.
pub open spec fn q_model() -> Seq<u8> { seq![34u8, 109, 111, 100, 101, 108, 34] }
pub open spec fn q_messages() -> Seq<u8> { seq![34u8, 109, 101, 115, 115, 97, 103, 101, 115, 34] }
pub open spec fn q_prompt() -> Seq<u8> { seq![34u8, 112, 114, 111, 109, 112, 116, 34] }
pub open spec fn q_input() -> Seq<u8> { seq![34u8, 105, 110, 112, 117, 116, 34] }
pub open spec fn message_stop() -> Seq<u8> { seq![109u8, 101, 115, 115, 97, 103, 101, 95, 115, 116, 111, 112] }
pub open spec fn done_marker() -> Seq<u8> { seq![91u8, 100, 111, 110, 101, 93] }
pub open spec fn q_choices() -> Seq<u8> { seq![34u8, 99, 104, 111, 105, 99, 101, 115, 34] }
pub open spec fn q_content() -> Seq<u8> { seq![34u8, 99, 111, 110, 116, 101, 110, 116, 34] }
pub open spec fn q_output() -> Seq<u8> { seq![34u8, 111, 117, 116, 112, 117, 116, 34] }

/// A request body names a `"model"` together with `"messages"`,
/// `"prompt"` or `"input"` (ASCII case ignored).
#[verifier::opaque]
pub open spec fn llm_request_body(b: Seq<u8>) -> bool {
    contains_lower(b, q_model()) && (contains_lower(b, q_messages()) || contains_lower(b, q_prompt())
        || contains_lower(b, q_input()))
}

/// A response body holds `message_stop` or `[done]`, or names a `"model"`
/// together with `"choices"`, `"content"` or `"output"` (ASCII case ignored).
#[verifier::opaque]
pub open spec fn llm_response_body(b: Seq<u8>) -> bool {
    contains_lower(b, message_stop()) || contains_lower(b, done_marker()) || (contains_lower(
        b,
        q_model(),
    ) && (contains_lower(b, q_choices()) || contains_lower(b, q_content()) || contains_lower(
        b,
        q_output(),
    )))
}

pub fn body_looks_like_llm_request(bytes: &[u8]) -> (r: bool)
    ensures
        r == llm_request_body(bytes@),
{
    let model: [u8; 7] = [34u8, 109, 111, 100, 101, 108, 34];
    let messages: [u8; 10] = [34u8, 109, 101, 115, 115, 97, 103, 101, 115, 34];
    let prompt: [u8; 8] = [34u8, 112, 114, 111, 109, 112, 116, 34];
    let input: [u8; 7] = [34u8, 105, 110, 112, 117, 116, 34];
    assert(model@ =~= q_model());
    assert(messages@ =~= q_messages());
    assert(prompt@ =~= q_prompt());
    assert(input@ =~= q_input());
    reveal(llm_request_body);
    contains_lowercase(bytes, model.as_slice()) && (contains_lowercase(bytes, messages.as_slice())
        || contains_lowercase(bytes, prompt.as_slice()) || contains_lowercase(bytes, input.as_slice()))
}

pub fn body_looks_like_llm_response(bytes: &[u8]) -> (r: bool)
    ensures
        r == llm_response_body(bytes@),
{
    let stop: [u8; 12] = [109u8, 101, 115, 115, 97, 103, 101, 95, 115, 116, 111, 112];
    let done: [u8; 6] = [91u8, 100, 111, 110, 101, 93];
    let model: [u8; 7] = [34u8, 109, 111, 100, 101, 108, 34];
    let choices: [u8; 9] = [34u8, 99, 104, 111, 105, 99, 101, 115, 34];
    let content: [u8; 9] = [34u8, 99, 111, 110, 116, 101, 110, 116, 34];
    let output: [u8; 8] = [34u8, 111, 117, 116, 112, 117, 116, 34];
    assert(stop@ =~= message_stop());
    assert(done@ =~= done_marker());
    assert(model@ =~= q_model());
    assert(choices@ =~= q_choices());
    assert(content@ =~= q_content());
    assert(output@ =~= q_output());
    reveal(llm_response_body);
    contains_lowercase(bytes, stop.as_slice()) || contains_lowercase(bytes, done.as_slice()) || (
    contains_lowercase(bytes, model.as_slice()) && (contains_lowercase(bytes, choices.as_slice())
        || contains_lowercase(bytes, content.as_slice()) || contains_lowercase(
        bytes,
        output.as_slice(),
    )))
}

/// HTTP/2 request classification: frames decode and carry a non-empty body.
pub open spec fn spec_classify_request(b: Seq<u8>) -> Option<ClassifiedMessage> {
    match spec_frames(b) {
        None => None,
        Some((sid, body, saw)) => if body.len() == 0 {
            None
        } else {
            Some(ClassifiedMessage { stream_id: sid, llm: llm_request_body(body) })
        },
    }
}

/// HTTP/2 response classification: frames decode and carry a body or an
/// HTTP frame.
pub open spec fn spec_classify_response(b: Seq<u8>) -> Option<ClassifiedMessage> {
    match spec_frames(b) {
        None => None,
        Some((sid, body, saw)) => if body.len() == 0 && !saw {
            None
        } else {
            Some(ClassifiedMessage { stream_id: sid, llm: llm_response_body(body) })
        },
    }
}

pub fn classify_request(bytes: &[u8]) -> (r: Option<ClassifiedMessage>)
    ensures
        r == spec_classify_request(bytes@),
{
    let frames = match frames(bytes) {
        Some(f) => f,
        None => return None,
    };
    if frames.body.len() == 0 {
        return None;
    }
    Some(ClassifiedMessage {
        stream_id: frames.stream_id,
        llm: body_looks_like_llm_request(frames.body.as_slice()),
    })
}

pub fn classify_response(bytes: &[u8]) -> (r: Option<ClassifiedMessage>)
    ensures
        r == spec_classify_response(bytes@),
{
    let frames = match frames(bytes) {
        Some(f) => f,
        None => return None,
    };
    if frames.body.len() == 0 && !frames.saw_http_frame {
        return None;
    }
    Some(ClassifiedMessage {
        stream_id: frames.stream_id,
        llm: body_looks_like_llm_response(frames.body.as_slice()),
    })
}

/// The stream a bare HTTP/2 fragment may belong to: `Some(None)` for the
/// connection preface or a connection-level frame, `Some(Some(id))` for a
/// stream frame header, `None` when no valid header starts the bytes.
pub open spec fn spec_candidate_stream_id(b: Seq<u8>) -> Option<Option<u32>> {
    if starts_with_preface(b) {
        Some(None)
    } else {
        match spec_known_frame_stream_id(b) {
            None => None,
            Some(id) => if id == 0 {
                Some(None)
            } else {
                Some(Some(id))
            },
        }
    }
}

pub fn candidate_stream_id(bytes: &[u8]) -> (r: Option<Option<u32>>)
    ensures
        r == spec_candidate_stream_id(bytes@),
{
    if has_connection_preface(bytes) {
        return Some(None);
    }
    match known_frame_stream_id(bytes) {
        None => None,
        Some(stream_id) => if stream_id == 0 {
            Some(None)
        } else {
            Some(Some(stream_id))
        },
    }
}

} // verus!
