//! Payload segments as the retention stores and the reorderer read them.
//!
//! Trace and process identities are carried as plain keys: the logic only
//! compares them (and, for the reorderer, orders them).

use vstd::prelude::*;

verus! {

#[derive(Clone, Copy, Debug, PartialEq, Eq, Structural)]
pub enum PayloadDirection {
    Outbound,
    Inbound,
}

#[derive(Clone, Copy, Debug, PartialEq, Eq, Structural)]
pub enum PayloadSourceBoundary {
    TlsUserSpace,
    Syscall,
    Stdio,
}

/// Whether the captured bytes are application plaintext.
#[derive(Clone, Copy, Debug, PartialEq, Eq, Structural)]
pub enum PayloadContentState {
    Plaintext,
    Undecoded,
}

#[derive(Clone, Copy, Debug, PartialEq, Eq, Structural)]
pub enum PayloadTruncationState {
    Complete,
    Truncated,
}

#[derive(Clone, Copy, Debug, PartialEq, Eq, Structural)]
pub enum PayloadOperationCompletionState {
    Success,
    Partial,
    Failed,
}

/// A captured payload segment as it leaves the collector.
pub struct RawPayloadSegment {
    pub trace_id: u64,
    /// Capture time, in nanoseconds since the Unix epoch.
    pub observed_at: u128,
    pub process: u64,
    pub source_boundary: PayloadSourceBoundary,
    pub content_state: PayloadContentState,
    pub direction: PayloadDirection,
    pub stream_key: String,
    pub sequence: u64,
    pub original_size: u64,
    pub captured_size: u64,
    pub operation_id: u64,
    pub operation_offset: u64,
    pub operation_original_size: u64,
    pub operation_captured_size: u64,
    pub operation_completion_state: PayloadOperationCompletionState,
    pub truncation: PayloadTruncationState,
    pub library: String,
    pub symbol: String,
    pub protocol_hint: Option<String>,
    pub bytes: Vec<u8>,
}

/// The value of a [`RawPayloadSegment`].
pub struct SegmentView {
    pub trace_id: u64,
    pub observed_at: u128,
    pub process: u64,
    pub source_boundary: PayloadSourceBoundary,
    pub content_state: PayloadContentState,
    pub direction: PayloadDirection,
    pub stream_key: Seq<char>,
    pub sequence: u64,
    pub original_size: u64,
    pub captured_size: u64,
    pub operation_id: u64,
    pub operation_offset: u64,
    pub operation_original_size: u64,
    pub operation_captured_size: u64,
    pub operation_completion_state: PayloadOperationCompletionState,
    pub truncation: PayloadTruncationState,
    pub library: Seq<char>,
    pub symbol: Seq<char>,
    pub protocol_hint: Option<Seq<char>>,
    pub bytes: Seq<u8>,
}

pub open spec fn hint_view(h: Option<String>) -> Option<Seq<char>> {
    match h {
        Some(s) => Some(s@),
        None => None,
    }
}

impl RawPayloadSegment {
    pub open spec fn view(&self) -> SegmentView {
        SegmentView {
            trace_id: self.trace_id,
            observed_at: self.observed_at,
            process: self.process,
            source_boundary: self.source_boundary,
            content_state: self.content_state,
            direction: self.direction,
            stream_key: self.stream_key@,
            sequence: self.sequence,
            original_size: self.original_size,
            captured_size: self.captured_size,
            operation_id: self.operation_id,
            operation_offset: self.operation_offset,
            operation_original_size: self.operation_original_size,
            operation_captured_size: self.operation_captured_size,
            operation_completion_state: self.operation_completion_state,
            truncation: self.truncation,
            library: self.library@,
            symbol: self.symbol@,
            protocol_hint: hint_view(self.protocol_hint),
            bytes: self.bytes@,
        }
    }
}

/// The segments' values, in order.
pub open spec fn segment_views(s: Seq<RawPayloadSegment>) -> Seq<SegmentView> {
    s.map_values(|x: RawPayloadSegment| x@)
}

/// The fields of a persisted payload segment that body retention reads.
pub struct PayloadSegment {
    pub trace_id: u64,
    pub process: u64,
    pub source_boundary: PayloadSourceBoundary,
    pub content_state: PayloadContentState,
    pub direction: PayloadDirection,
    pub stream_key: String,
    pub captured_size: u64,
    pub bytes: Vec<u8>,
}

/// A result whose error message is taken by its text.
pub open spec fn msg_result<T>(r: Result<T, String>) -> Result<T, Seq<char>> {
    match r {
        Ok(v) => Ok(v),
        Err(e) => Err(e@),
    }
}

/// Exec equality of two strings.
pub fn str_eq(a: &str, b: &str) -> (r: bool)
    ensures
        r == (a@ == b@),
{
    let x = String::from_str(a);
    let y = String::from_str(b);
    x == y
}

/// The capabilities of a trace profile that ask for application-protocol
/// analysis of payloads; every other capability is `Other`.
#[derive(Clone, Copy, Debug, PartialEq, Eq, Structural)]
pub enum RequestedCapability {
    NetApplicationPlaintextHttp,
    NetApplicationHttp2Frames,
    Other,
}

/// One capability request of a trace profile, with whether its mode is
/// anything but disabled.
#[derive(Clone, Copy, Debug, PartialEq, Eq, Structural)]
pub struct CapabilityRequest {
    pub capability: RequestedCapability,
    pub enabled: bool,
}

pub open spec fn asks_application(r: CapabilityRequest) -> bool {
    r.enabled && !(r.capability is Other)
}

/// Some request asks for application-protocol analysis.
pub open spec fn any_application(rs: Seq<CapabilityRequest>) -> bool {
    exists|i: int| 0 <= i < rs.len() && asks_application(#[trigger] rs[i])
}

/// Whether the trace asked for application-protocol analysis, given its
/// profile's capability requests (`None` when the trace does not exist).
pub fn application_protocol_requested(requests: Option<&[CapabilityRequest]>) -> (r: Result<bool, crate::shutdown::ControlError>)
    ensures
        requests is None ==> (r matches Err(e) && e.code@ == "payload_match"@ && e.message@
            == "payload trace does not exist"@),
        requests matches Some(rs) ==> r == Ok::<bool, crate::shutdown::ControlError>(any_application(rs@)),
{
    match requests {
        None => Err(
            crate::shutdown::ControlError {
                code: String::from_str("payload_match"),
                message: String::from_str("payload trace does not exist"),
            },
        ),
        Some(rs) => {
            let mut i: usize = 0;
            while i < rs.len()
                invariant
                    i <= rs@.len(),
                    requests == Some(rs),
                    forall|j: int| 0 <= j < i ==> !asks_application(#[trigger] rs@[j]),
                decreases rs@.len() - i,
            {
                let q = rs[i];
                if q.enabled && !matches!(q.capability, RequestedCapability::Other) {
                    assert(asks_application(rs@[i as int]));
                    assert(any_application(rs@));
                    return Ok(true);
                }
                i += 1;
            }
            assert(!any_application(rs@));
            Ok(false)
        },
    }
}

} // verus!
