//! Text the live drain cycle derives from what the collectors report:
//! event-transport loss summaries, TLS diagnostic names, TLS summary hints
//! and metadata clean-up, and the outcome of a live OTEL publish.

use vstd::prelude::*;
use vstd::string::StringSliceAdditionalSpecFns;
use crate::shutdown::ControlError;
use crate::strmap::StringMap;
use crate::text::{decimal, lemma_ascii_boundary, substring, u64_to_decimal};
use crate::words::{byte_pos_from, find_byte_from, lemma_byte_pos_bounds};

verus! {

/// `parts` joined with `sep` between neighbours.
pub open spec fn joined(parts: Seq<Seq<char>>, sep: Seq<char>) -> Seq<char>
    decreases parts.len(),
{
    if parts.len() == 0 {
        Seq::empty()
    } else if parts.len() == 1 {
        parts[0]
    } else {
        joined(parts.drop_last(), sep) + sep + parts.last()
    }
}

pub open spec fn texts(s: Seq<String>) -> Seq<Seq<char>> {
    s.map_values(|x: String| x@)
}

/// The summary of the kernel event-transport losses of one drain cycle:
/// nothing, the one report, or their count and all of them.
pub open spec fn loss_message(losses: Seq<Seq<char>>) -> Seq<char> {
    if losses.len() == 0 {
        Seq::empty()
    } else if losses.len() == 1 {
        losses[0]
    } else {
        decimal(losses.len()) + " kernel event transport loss reports: "@ + joined(losses, "; "@)
    }
}

pub fn event_transport_loss_message(losses: &[String]) -> (r: String)
    ensures
        r@ == loss_message(texts(losses@)),
{
    let n = losses.len();
    if n == 0 {
        return String::new();
    }
    if n == 1 {
        return losses[0].clone();
    }
    let mut out = u64_to_decimal(n as u64);
    out.append(" kernel event transport loss reports: ");
    let ghost head = out@;
    out.append(losses[0].as_str());
    let mut i: usize = 1;
    while i < n
        invariant
            1 <= i <= n,
            n == losses@.len(),
            out@ == head + joined(texts(losses@).subrange(0, i as int), "; "@),
        decreases n - i,
    {
        proof {
            let p = texts(losses@).subrange(0, i as int + 1);
            assert(p.drop_last() =~= texts(losses@).subrange(0, i as int));
            assert(p.last() == losses@[i as int]@);
        }
        out.append("; ");
        out.append(losses[i].as_str());
        i += 1;
    }
    proof {
        assert(texts(losses@).subrange(0, n as int) =~= texts(losses@));
        assert(texts(losses@).subrange(0, 1) =~= seq![losses@[0]@]);
    }
    out
}

/// Drops `key` from `metadata` when its value equals the canonical path.
pub fn remove_if_matches_path(metadata: &mut StringMap, key: &str, canonical: Option<&str>)
    requires
        old(metadata).wf(),
    ensures
        final(metadata).wf(),
        final(metadata)@ == (match canonical {
            Some(c) => if old(metadata)@.contains_key(key@) && old(metadata)@[key@] == c@ {
                old(metadata)@.remove(key@)
            } else {
                old(metadata)@
            },
            None => old(metadata)@,
        }),
{
    let matches = match canonical {
        Some(c) => match metadata.get(key) {
            Some(candidate) => crate::payload::str_eq(candidate.as_str(), c),
            None => false,
        },
        None => false,
    };
    if matches {
        metadata.remove(key);
    }
}

pub open spec fn tls_summary_prefix() -> Seq<u8> {
    seq![116u8, 108, 115, 45, 115, 117, 109, 109, 97, 114, 121, 59]
}

/// The fields of a TLS summary hint from the item that starts at byte `i`:
/// items are separated by `;`, an item `key=value` splits at its first `=`,
/// items without `=` are skipped, and a later key replaces an earlier one.
pub open spec fn summary_fields_from(h: Seq<u8>, i: int, m: Map<Seq<char>, Seq<char>>) -> Map<Seq<char>, Seq<char>>
    decreases h.len() - i,
{
    if i < 0 || i > h.len() {
        m
    } else {
        let e = byte_pos_from(h, i, 59u8);
        let q = byte_pos_from(h, i, 61u8);
        let m2 = if q < e {
            m.insert(
                vstd::utf8::decode_utf8(h.subrange(i, q)),
                vstd::utf8::decode_utf8(h.subrange(q + 1, e)),
            )
        } else {
            m
        };
        if e < h.len() {
            proof {
                lemma_byte_pos_bounds(h, i, 59u8);
            }
            summary_fields_from(h, e + 1, m2)
        } else {
            m2
        }
    }
}

/// The fields of the hint `h`, or nothing when it is no TLS summary hint.
pub open spec fn tls_summary_fields(h: Seq<u8>) -> Option<Map<Seq<char>, Seq<char>>> {
    if h.len() >= 12 && h.subrange(0, 12) == tls_summary_prefix() {
        Some(summary_fields_from(h, 12, Map::empty()))
    } else {
        None
    }
}

/// Parses a `tls-summary;key=value;...` protocol hint into its fields.
pub fn parse_tls_summary_hint(hint: &str) -> (r: Option<StringMap>)
    ensures
        match r {
            Some(m) => m.wf() && tls_summary_fields(hint.spec_bytes()) == Some(m@),
            None => tls_summary_fields(hint.spec_bytes()) is None,
        },
{
    let h = hint.as_bytes();
    let prefix: [u8; 12] = [116, 108, 115, 45, 115, 117, 109, 109, 97, 114, 121, 59];
    assert(prefix@ =~= tls_summary_prefix());
    if h.len() < 12 || !crate::words::range_is(h, 0, 12, prefix.as_slice()) {
        return None;
    }
    let ghost hb = h@;
    proof {
        vstd::utf8::encode_utf8_valid_utf8(hint@);
        assert(hb.subrange(0, 12)[11] == 59u8);
    }
    let mut fields = StringMap::new();
    let mut i: usize = 12;
    loop
        invariant
            h@ == hb,
            hb == hint.spec_bytes(),
            vstd::utf8::valid_utf8(hb),
            12 <= i <= h.len(),
            hb.subrange(0, 12) == tls_summary_prefix(),
            i == h.len() || hb[i - 1] == 59u8,
            fields.wf(),
            summary_fields_from(hb, i as int, fields@) == summary_fields_from(hb, 12, Map::empty()),
        ensures
            fields.wf(),
            fields@ == summary_fields_from(hb, 12, Map::empty()),
        decreases h.len() - i,
    {
        let e = find_byte_from(h, i, 59u8);
        let q = find_byte_from(h, i, 61u8);
        proof {
            lemma_byte_pos_bounds(hb, i as int, 59u8);
            lemma_byte_pos_bounds(hb, i as int, 61u8);
            if i < h.len() {
                lemma_ascii_boundary(hb, i as int - 1);
            } else {
                vstd::utf8::is_char_boundary_start_end_of_seq(hb);
            }
            if e < h.len() {
                lemma_ascii_boundary(hb, e as int);
            } else {
                vstd::utf8::is_char_boundary_start_end_of_seq(hb);
            }
            if q < e {
                lemma_ascii_boundary(hb, q as int);
            }
        }
        let ghost before = fields@;
        if q < e {
            let key = substring(hint, i, q);
            let value = substring(hint, q + 1, e);
            fields.insert(key, value);
        }
        assert(summary_fields_from(hb, i as int, before) == if e < h.len() {
            summary_fields_from(hb, e + 1, fields@)
        } else {
            fields@
        });
        if e < h.len() {
            i = e + 1;
        } else {
            return Some(fields);
        }
    }
}

/// Name of the reason code of a TLS payload diagnostic event.
pub open spec fn tls_diag_reason_text(raw: u32) -> Seq<char> {
    if raw == 1 {
        "trace_lookup_miss"@
    } else if raw == 2 {
        "trace_lookup_host_fallback"@
    } else if raw == 3 {
        "empty_buffer"@
    } else if raw == 4 {
        "pending_update_fail"@
    } else if raw == 5 {
        "pending_namespace_update_fail"@
    } else if raw == 6 {
        "completion_missing_pending"@
    } else {
        "unknown"@
    }
}

pub fn tls_diag_reason(raw: u32) -> (s: &'static str)
    ensures
        s@ == tls_diag_reason_text(raw),
{
    if raw == 1 {
        "trace_lookup_miss"
    } else if raw == 2 {
        "trace_lookup_host_fallback"
    } else if raw == 3 {
        "empty_buffer"
    } else if raw == 4 {
        "pending_update_fail"
    } else if raw == 5 {
        "pending_namespace_update_fail"
    } else if raw == 6 {
        "completion_missing_pending"
    } else {
        "unknown"
    }
}

pub open spec fn tls_direction_text(raw: u32) -> Seq<char> {
    if raw == 1 {
        "outbound"@
    } else if raw == 2 {
        "inbound"@
    } else {
        "unknown"@
    }
}

pub fn tls_direction(raw: u32) -> (s: &'static str)
    ensures
        s@ == tls_direction_text(raw),
{
    if raw == 1 {
        "outbound"
    } else if raw == 2 {
        "inbound"
    } else {
        "unknown"
    }
}

pub open spec fn tls_symbol_text(raw: u32) -> Seq<char> {
    if raw == 1 {
        "SSL_write"@
    } else if raw == 2 {
        "SSL_read"@
    } else if raw == 3 {
        "SSL_write_ex"@
    } else if raw == 4 {
        "SSL_read_ex"@
    } else if raw == 5 {
        "rustls_write"@
    } else if raw == 6 {
        "rustls_write_vectored"@
    } else {
        "unknown"@
    }
}

pub fn tls_symbol(raw: u32) -> (s: &'static str)
    ensures
        s@ == tls_symbol_text(raw),
{
    if raw == 1 {
        "SSL_write"
    } else if raw == 2 {
        "SSL_read"
    } else if raw == 3 {
        "SSL_write_ex"
    } else if raw == 4 {
        "SSL_read_ex"
    } else if raw == 5 {
        "rustls_write"
    } else if raw == 6 {
        "rustls_write_vectored"
    } else {
        "unknown"
    }
}

pub open spec fn tls_library_text(raw: u32) -> Seq<char> {
    if raw == 1 {
        "openssl"@
    } else if raw == 2 {
        "boringssl"@
    } else if raw == 3 {
        "rustls"@
    } else {
        "unknown"@
    }
}

pub fn tls_library(raw: u32) -> (s: &'static str)
    ensures
        s@ == tls_library_text(raw),
{
    if raw == 1 {
        "openssl"
    } else if raw == 2 {
        "boringssl"
    } else if raw == 3 {
        "rustls"
    } else {
        "unknown"
    }
}

/// What publishing one span to the live OTEL sink came to.
#[derive(Clone, Copy, Debug, PartialEq, Eq, Structural)]
pub struct LiveOtelPublishResult {
    pub dropped_spans: u64,
}

impl LiveOtelPublishResult {
    pub fn dropped_spans(self) -> (r: u64)
        ensures
            r == self.dropped_spans,
    {
        self.dropped_spans
    }
}

/// How handing a rendered span line to the writer thread went.
#[derive(Clone, Copy, Debug, PartialEq, Eq, Structural)]
pub enum SpanSendOutcome {
    /// The sink is disabled; nothing was sent.
    Disabled,
    Queued,
    /// The bounded queue was full.
    Full,
    /// The writer thread is gone.
    Disconnected,
}

/// The health of the sink given the error its writer thread recorded.
pub fn writer_health(recorded: &Option<String>) -> (r: Result<(), ControlError>)
    ensures
        recorded is None ==> r is Ok,
        recorded matches Some(m) ==> (r matches Err(e) && e.code@ == "otel_live_export"@ && e.message@
            == m@),
{
    match recorded {
        Some(m) => Err(ControlError { code: String::from_str("otel_live_export"), message: m.clone() }),
        None => Ok(()),
    }
}

/// The result of a publish: a full queue drops the span, a lost writer is an
/// error, and otherwise nothing is dropped.
pub fn publish_outcome(outcome: SpanSendOutcome) -> (r: Result<LiveOtelPublishResult, ControlError>)
    ensures
        outcome is Full ==> r == Ok::<LiveOtelPublishResult, ControlError>(LiveOtelPublishResult { dropped_spans: 1 }),
        (outcome is Disabled || outcome is Queued) ==> r == Ok::<LiveOtelPublishResult, ControlError>(
            LiveOtelPublishResult { dropped_spans: 0 },
        ),
        outcome is Disconnected ==> (r matches Err(e) && e.code@ == "otel_live_export"@ && e.message@
            == "writer channel disconnected"@),
{
    match outcome {
        SpanSendOutcome::Disabled | SpanSendOutcome::Queued => Ok(LiveOtelPublishResult { dropped_spans: 0 }),
        SpanSendOutcome::Full => Ok(LiveOtelPublishResult { dropped_spans: 1 }),
        SpanSendOutcome::Disconnected => Err(
            ControlError {
                code: String::from_str("otel_live_export"),
                message: String::from_str("writer channel disconnected"),
            },
        ),
    }
}

} // verus!
