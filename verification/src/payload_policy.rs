//! Per-boundary payload policy, the per-trace payload retention budget and
//! its transactional byte counts, and the id counters of a payload
//! transaction.

use vstd::prelude::*;
use crate::assoc::{assoc_view, has_key, keys_unique, lemma_view_at, lemma_view_empty, lemma_view_push, lemma_view_remove, lemma_view_update};
use crate::payload::{PayloadOperationCompletionState, PayloadSourceBoundary, PayloadTruncationState, RawPayloadSegment, hint_view};
use crate::redaction::PayloadRedactionPolicy;
use crate::shutdown::ControlError;
use crate::text::{decimal, push_decimal};

verus! {

/// How much of a stdio stream's payload is stored.
#[derive(Clone, Copy, Debug, PartialEq, Eq, Structural)]
pub enum PayloadStdioStorageMode {
    Full,
    Drop,
}

/// The payload settings of the daemon, per source boundary.
#[derive(Clone, Copy, Debug, PartialEq, Eq, Structural)]
pub struct PayloadPolicyConfig {
    pub tls_enabled: bool,
    pub tls_redaction_policy: PayloadRedactionPolicy,
    pub tls_retention_max_bytes_per_trace: u64,
    pub stdio_enabled: bool,
    pub stdio_redaction_policy: PayloadRedactionPolicy,
    pub stdio_retention_max_bytes_per_trace: u64,
    pub stdio_stdin_storage_mode: PayloadStdioStorageMode,
    pub stdio_stdout_storage_mode: PayloadStdioStorageMode,
    pub stdio_stderr_storage_mode: PayloadStdioStorageMode,
    pub socket_enabled: bool,
    pub socket_redaction_policy: PayloadRedactionPolicy,
    pub socket_retention_max_bytes_per_trace: u64,
}

/// How one segment is processed.
#[derive(Clone, Copy, Debug, PartialEq, Eq, Structural)]
pub struct PayloadProcessingPolicy {
    pub redaction: PayloadRedactionPolicy,
    pub retention_max_bytes_per_trace: u64,
    pub stdio_storage_mode: PayloadStdioStorageMode,
}

/// A policy result with its error taken as (code, message) text.
pub open spec fn outcome<T>(r: Result<T, ControlError>) -> Result<T, (Seq<char>, Seq<char>)> {
    match r {
        Ok(v) => Ok(v),
        Err(e) => Err((e.code@, e.message@)),
    }
}

/// The storage mode of the stdio stream named by a segment's protocol hint.
pub open spec fn stdio_mode(c: PayloadPolicyConfig, hint: Option<Seq<char>>) -> Result<PayloadStdioStorageMode, (Seq<char>, Seq<char>)> {
    match hint {
        Some(h) => if h == "stdin"@ {
            Ok(c.stdio_stdin_storage_mode)
        } else if h == "stdout"@ {
            Ok(c.stdio_stdout_storage_mode)
        } else if h == "stderr"@ {
            Ok(c.stdio_stderr_storage_mode)
        } else {
            Err(("payload_policy"@, "unsupported stdio payload stream "@ + h))
        },
        None => Err(("payload_policy"@, "stdio payload segment missing protocol_hint"@)),
    }
}

/// The policy for a segment from `boundary`: refused when that capture is
/// disabled; stdio segments also need a known stream.
pub open spec fn segment_policy(c: PayloadPolicyConfig, boundary: PayloadSourceBoundary, hint: Option<Seq<char>>) -> Result<PayloadProcessingPolicy, (Seq<char>, Seq<char>)> {
    match boundary {
        PayloadSourceBoundary::TlsUserSpace => if !c.tls_enabled {
            Err(("payload_policy"@, "TLS payload segment received while payload_tls_enabled=false"@))
        } else {
            Ok(PayloadProcessingPolicy {
                redaction: c.tls_redaction_policy,
                retention_max_bytes_per_trace: c.tls_retention_max_bytes_per_trace,
                stdio_storage_mode: PayloadStdioStorageMode::Full,
            })
        },
        PayloadSourceBoundary::Stdio => if !c.stdio_enabled {
            Err(("payload_policy"@, "stdio payload segment received while payload_stdio_enabled=false"@))
        } else {
            match stdio_mode(c, hint) {
                Ok(m) => Ok(PayloadProcessingPolicy {
                    redaction: c.stdio_redaction_policy,
                    retention_max_bytes_per_trace: c.stdio_retention_max_bytes_per_trace,
                    stdio_storage_mode: m,
                }),
                Err(e) => Err(e),
            }
        },
        PayloadSourceBoundary::Syscall => if !c.socket_enabled {
            Err(("payload_policy"@, "socket payload segment received while payload_socket_enabled=false"@))
        } else {
            Ok(PayloadProcessingPolicy {
                redaction: c.socket_redaction_policy,
                retention_max_bytes_per_trace: c.socket_retention_max_bytes_per_trace,
                stdio_storage_mode: PayloadStdioStorageMode::Full,
            })
        },
    }
}

fn policy_error(message: &str) -> (e: ControlError)
    ensures
        e.code@ == "payload_policy"@,
        e.message@ == message@,
{
    ControlError { code: String::from_str("payload_policy"), message: String::from_str(message) }
}

impl PayloadPolicyConfig {
    /// The processing policy for `raw`.
    pub fn for_segment(&self, raw: &RawPayloadSegment) -> (r: Result<PayloadProcessingPolicy, ControlError>)
        ensures
            outcome(r) == segment_policy(*self, raw.source_boundary, hint_view(raw.protocol_hint)),
    {
        match raw.source_boundary {
            PayloadSourceBoundary::TlsUserSpace => {
                if !self.tls_enabled {
                    return Err(policy_error("TLS payload segment received while payload_tls_enabled=false"));
                }
                Ok(PayloadProcessingPolicy {
                    redaction: self.tls_redaction_policy,
                    retention_max_bytes_per_trace: self.tls_retention_max_bytes_per_trace,
                    stdio_storage_mode: PayloadStdioStorageMode::Full,
                })
            },
            PayloadSourceBoundary::Stdio => {
                if !self.stdio_enabled {
                    return Err(policy_error("stdio payload segment received while payload_stdio_enabled=false"));
                }
                match self.stdio_storage_mode(raw) {
                    Ok(m) => Ok(PayloadProcessingPolicy {
                        redaction: self.stdio_redaction_policy,
                        retention_max_bytes_per_trace: self.stdio_retention_max_bytes_per_trace,
                        stdio_storage_mode: m,
                    }),
                    Err(e) => Err(e),
                }
            },
            PayloadSourceBoundary::Syscall => {
                if !self.socket_enabled {
                    return Err(policy_error("socket payload segment received while payload_socket_enabled=false"));
                }
                Ok(PayloadProcessingPolicy {
                    redaction: self.socket_redaction_policy,
                    retention_max_bytes_per_trace: self.socket_retention_max_bytes_per_trace,
                    stdio_storage_mode: PayloadStdioStorageMode::Full,
                })
            },
        }
    }

    /// The storage mode of a stdio segment's stream.
    pub fn stdio_storage_mode(&self, raw: &RawPayloadSegment) -> (r: Result<PayloadStdioStorageMode, ControlError>)
        ensures
            outcome(r) == stdio_mode(*self, hint_view(raw.protocol_hint)),
    {
        proof {
            reveal_strlit("stdin");
            reveal_strlit("stdout");
            reveal_strlit("stderr");
        }
        match &raw.protocol_hint {
            Some(stream) => {
                let s = stream.as_str();
                if crate::payload::str_eq(s, "stdin") {
                    Ok(self.stdio_stdin_storage_mode)
                } else if crate::payload::str_eq(s, "stdout") {
                    Ok(self.stdio_stdout_storage_mode)
                } else if crate::payload::str_eq(s, "stderr") {
                    Ok(self.stdio_stderr_storage_mode)
                } else {
                    let mut m = String::from_str("unsupported stdio payload stream ");
                    m.append(s);
                    Err(ControlError { code: String::from_str("payload_policy"), message: m })
                }
            },
            None => Err(policy_error("stdio payload segment missing protocol_hint")),
        }
    }
}

/// Whether the segment ends its operation's capture without the whole
/// operation having been captured (truncated, partial or failed, or short).
pub open spec fn spec_operation_incomplete(
    operation_offset: u64,
    captured_size: u64,
    operation_captured_size: u64,
    truncation: PayloadTruncationState,
    completion: PayloadOperationCompletionState,
    operation_original_size: u64,
) -> bool {
    let end: int = if operation_offset + captured_size > u64::MAX { u64::MAX as int } else { operation_offset + captured_size };
    end >= operation_captured_size && (truncation == PayloadTruncationState::Truncated || completion
        == PayloadOperationCompletionState::Partial || completion == PayloadOperationCompletionState::Failed
        || operation_original_size != operation_captured_size)
}

pub fn operation_incomplete(raw: &RawPayloadSegment) -> (r: bool)
    ensures
        r == spec_operation_incomplete(
            raw.operation_offset,
            raw.captured_size,
            raw.operation_captured_size,
            raw.truncation,
            raw.operation_completion_state,
            raw.operation_original_size,
        ),
{
    let ended = raw.operation_offset.saturating_add(raw.captured_size) >= raw.operation_captured_size;
    ended && (raw.truncation == PayloadTruncationState::Truncated || raw.operation_completion_state
        == PayloadOperationCompletionState::Partial || raw.operation_completion_state
        == PayloadOperationCompletionState::Failed || raw.operation_original_size != raw.operation_captured_size)
}

/// The retained bytes of a trace after keeping `body_bytes` more, within
/// the per-trace maximum.
pub open spec fn retention_after(trace_id: u64, retained: u64, body_bytes: u64, max: u64) -> Result<u64, (Seq<char>, Seq<char>)> {
    if retained + body_bytes > u64::MAX {
        Err(("payload_retention"@, "payload retention overflow"@))
    } else if retained + body_bytes > max {
        Err((
            "payload_retention"@,
            "trace "@ + decimal(trace_id as nat) + " payload retention would exceed configured maximum "@
                + decimal(max as nat) + " bytes"@,
        ))
    } else {
        Ok((retained + body_bytes) as u64)
    }
}

/// Checks the per-trace payload retention budget for `body_bytes` more.
pub fn check_retention_budget(trace_id: u64, retained: u64, body_bytes: u64, max: u64) -> (r: Result<u64, ControlError>)
    ensures
        outcome(r) == retention_after(trace_id, retained, body_bytes, max),
{
    match retained.checked_add(body_bytes) {
        None => Err(
            ControlError {
                code: String::from_str("payload_retention"),
                message: String::from_str("payload retention overflow"),
            },
        ),
        Some(next) => {
            if next > max {
                let mut m = String::from_str("trace ");
                push_decimal(&mut m, trace_id);
                m.append(" payload retention would exceed configured maximum ");
                push_decimal(&mut m, max);
                m.append(" bytes");
                Err(ControlError { code: String::from_str("payload_retention"), message: m })
            } else {
                Ok(next)
            }
        },
    }
}

/// Takes the next id from `next`, which moves on by one; none when the
/// counter is exhausted.
pub fn take_next_id(next: &mut u64) -> (r: Option<u64>)
    ensures
        *old(next) < u64::MAX ==> r == Some(*old(next)) && *final(next) == *old(next) + 1,
        *old(next) == u64::MAX ==> r is None && *final(next) == *old(next),
{
    let raw = *next;
    match raw.checked_add(1) {
        Some(v) => {
            *next = v;
            Some(raw)
        },
        None => None,
    }
}

/// The next payload segment id.
pub fn next_payload_segment_id(next: &mut u64) -> (r: Result<u64, ControlError>)
    ensures
        *old(next) < u64::MAX ==> r == Ok::<u64, ControlError>(*old(next)) && *final(next) == *old(next) + 1,
        *old(next) == u64::MAX ==> *final(next) == *old(next) && (r matches Err(e) && e.code@
            == "payload_segment_id_overflow"@ && e.message@ == "payload segment id overflow"@),
{
    match take_next_id(next) {
        Some(id) => Ok(id),
        None => Err(
            ControlError {
                code: String::from_str("payload_segment_id_overflow"),
                message: String::from_str("payload segment id overflow"),
            },
        ),
    }
}

/// The next event id.
pub fn next_event_id(next: &mut u64) -> (r: Result<u64, ControlError>)
    ensures
        *old(next) < u64::MAX ==> r == Ok::<u64, ControlError>(*old(next)) && *final(next) == *old(next) + 1,
        *old(next) == u64::MAX ==> *final(next) == *old(next) && (r matches Err(e) && e.code@
            == "event_id_overflow"@ && e.message@ == "event id overflow"@),
{
    match take_next_id(next) {
        Some(id) => Ok(id),
        None => Err(
            ControlError { code: String::from_str("event_id_overflow"), message: String::from_str("event id overflow") },
        ),
    }
}

/// Retained payload bytes by trace.
pub struct TraceBytes {
    entries: Vec<(u64, u64)>,
}

impl View for TraceBytes {
    type V = Map<u64, u64>;

    closed spec fn view(&self) -> Map<u64, u64> {
        assoc_view(self.entries@)
    }
}

impl TraceBytes {
    pub closed spec fn wf(&self) -> bool {
        keys_unique(self.entries@)
    }

    pub fn new() -> (r: Self)
        ensures
            r.wf(),
            r@ == Map::<u64, u64>::empty(),
    {
        proof {
            lemma_view_empty::<u64, u64>();
        }
        TraceBytes { entries: Vec::new() }
    }

    fn position(&self, trace_id: u64) -> (r: Option<usize>)
        requires
            self.wf(),
        ensures
            match r {
                Some(i) => i < self.entries@.len() && self.entries@[i as int].0 == trace_id,
                None => !self@.contains_key(trace_id),
            },
    {
        let mut i: usize = 0;
        while i < self.entries.len()
            invariant
                i <= self.entries@.len(),
                forall|j: int| 0 <= j < i ==> self.entries@[j].0 != trace_id,
            decreases self.entries@.len() - i,
        {
            if self.entries[i].0 == trace_id {
                return Some(i);
            }
            i += 1;
        }
        None
    }

    /// The bytes held for `trace_id`.
    pub fn get(&self, trace_id: u64) -> (r: Option<u64>)
        requires
            self.wf(),
        ensures
            r == (if self@.contains_key(trace_id) { Some(self@[trace_id]) } else { None::<u64> }),
    {
        match self.position(trace_id) {
            Some(i) => {
                proof {
                    lemma_view_at(self.entries@, i as int);
                }
                Some(self.entries[i].1)
            },
            None => None,
        }
    }

    pub fn insert(&mut self, trace_id: u64, bytes: u64)
        requires
            old(self).wf(),
        ensures
            final(self).wf(),
            final(self)@ == old(self)@.insert(trace_id, bytes),
    {
        let ghost s = self.entries@;
        match self.position(trace_id) {
            Some(i) => {
                self.entries.set(i, (trace_id, bytes));
                proof {
                    assert(self.entries@ =~= s.update(i as int, (s[i as int].0, bytes)));
                    lemma_view_update(s, i as int, bytes);
                }
            },
            None => {
                self.entries.push((trace_id, bytes));
                proof {
                    lemma_view_push(s, trace_id, bytes);
                }
            },
        }
    }

    pub fn remove(&mut self, trace_id: u64)
        requires
            old(self).wf(),
        ensures
            final(self).wf(),
            final(self)@ == old(self)@.remove(trace_id),
    {
        let ghost s = self.entries@;
        match self.position(trace_id) {
            Some(i) => {
                self.entries.remove(i);
                proof {
                    lemma_view_remove(s, i as int);
                }
            },
            None => {
                assert(self@ =~= self@.remove(trace_id));
            },
        }
    }
}

/// The payload bytes a transaction counts per trace, and the traces whose
/// counts it persisted; the shared per-trace cache learns them only when
/// the transaction commits.
pub struct RetainedPayloadTransaction {
    retained_bytes: TraceBytes,
    persisted_traces: Vec<u64>,
}

impl RetainedPayloadTransaction {
    pub closed spec fn wf(&self) -> bool {
        self.retained_bytes.wf() && forall|i: int| 0 <= i < self.persisted_traces@.len()
            ==> self.retained_bytes@.contains_key(#[trigger] self.persisted_traces@[i])
    }

    /// The byte counts the transaction works with.
    pub closed spec fn counts(&self) -> Map<u64, u64> {
        self.retained_bytes@
    }

    /// The traces whose counts the transaction persisted.
    pub closed spec fn persisted(&self) -> Set<u64> {
        self.persisted_traces@.to_set()
    }

    pub fn new() -> (r: Self)
        ensures
            r.wf(),
            r.counts() == Map::<u64, u64>::empty(),
            r.persisted() == Set::<u64>::empty(),
    {
        let r = RetainedPayloadTransaction { retained_bytes: TraceBytes::new(), persisted_traces: Vec::new() };
        assert(r.persisted_traces@.to_set() =~= Set::<u64>::empty());
        r
    }

    /// The retained bytes of `trace_id` as far as the transaction or the
    /// cache knows them (the transaction's own count first); a count found
    /// in the cache is taken into the transaction. `None` means the count has
    /// to be read from storage and handed to [`Self::loaded_bytes`].
    pub fn known_bytes(&mut self, cache: &TraceBytes, trace_id: u64) -> (r: Option<u64>)
        requires
            old(self).wf(),
            cache.wf(),
        ensures
            final(self).wf(),
            final(self).persisted() == old(self).persisted(),
            old(self).counts().contains_key(trace_id) ==> r == Some(old(self).counts()[trace_id])
                && final(self).counts() == old(self).counts(),
            !old(self).counts().contains_key(trace_id) && cache@.contains_key(trace_id) ==> r == Some(cache@[trace_id])
                && final(self).counts() == old(self).counts().insert(trace_id, cache@[trace_id]),
            !old(self).counts().contains_key(trace_id) && !cache@.contains_key(trace_id) ==> r is None
                && final(self).counts() == old(self).counts(),
    {
        match self.retained_bytes.get(trace_id) {
            Some(b) => Some(b),
            None => match cache.get(trace_id) {
                Some(b) => {
                    self.retained_bytes.insert(trace_id, b);
                    Some(b)
                },
                None => None,
            },
        }
    }

    /// Takes the count read from storage into the cache and the transaction.
    pub fn loaded_bytes(&mut self, cache: &mut TraceBytes, trace_id: u64, bytes: u64)
        requires
            old(self).wf(),
            old(cache).wf(),
        ensures
            final(self).wf(),
            final(cache).wf(),
            final(cache)@ == old(cache)@.insert(trace_id, bytes),
            final(self).counts() == old(self).counts().insert(trace_id, bytes),
            final(self).persisted() == old(self).persisted(),
    {
        cache.insert(trace_id, bytes);
        self.retained_bytes.insert(trace_id, bytes);
    }

    /// Records that the trace's count `retained_bytes` is persisted.
    pub fn record_persisted(&mut self, trace_id: u64, retained_bytes: u64)
        requires
            old(self).wf(),
        ensures
            final(self).wf(),
            final(self).counts() == old(self).counts().insert(trace_id, retained_bytes),
            final(self).persisted() == old(self).persisted().insert(trace_id),
    {
        self.retained_bytes.insert(trace_id, retained_bytes);
        let ghost before = self.persisted_traces@;
        self.persisted_traces.push(trace_id);
        assert(self.persisted_traces@.to_set() =~= before.to_set().insert(trace_id)) by {
            assert forall|x: u64| self.persisted_traces@.to_set().contains(x) <==> before.to_set().insert(
                trace_id,
            ).contains(x) by {
                if before.contains(x) {
                    let j = choose|j: int| 0 <= j < before.len() && #[trigger] before[j] == x;
                    assert(self.persisted_traces@[j] == x);
                }
                if self.persisted_traces@.contains(x) && x != trace_id {
                    let j = choose|j: int| 0 <= j < self.persisted_traces@.len() && #[trigger] self.persisted_traces@[j] == x;
                    assert(before[j] == x);
                }
                if x == trace_id {
                    assert(self.persisted_traces@[before.len() as int] == x);
                }
            }
        }
    }

    /// Ends the transaction: on success the cache takes the persisted
    /// traces' counts; on failure it forgets those traces.
    pub fn apply_result(self, cache: &mut TraceBytes, ok: bool)
        requires
            self.wf(),
            old(cache).wf(),
        ensures
            final(cache).wf(),
            final(cache)@ == committed(old(cache)@, self.counts(), self.persisted(), ok),
    {
        let RetainedPayloadTransaction { retained_bytes, persisted_traces } = self;
        let ghost counts = retained_bytes@;
        let ghost ps = persisted_traces@;
        let mut i: usize = 0;
        while i < persisted_traces.len()
            invariant
                i <= ps.len(),
                ps == persisted_traces@,
                counts == retained_bytes@,
                retained_bytes.wf(),
                cache.wf(),
                forall|j: int| 0 <= j < ps.len() ==> counts.contains_key(#[trigger] ps[j]),
                cache@ == committed(old(cache)@, counts, ps.subrange(0, i as int).to_set(), ok),
            decreases ps.len() - i,
        {
            let t = persisted_traces[i];
            let ghost prev = ps.subrange(0, i as int).to_set();
            assert(ps.subrange(0, i as int + 1).to_set() =~= prev.insert(t)) by {
                assert forall|x: u64| ps.subrange(0, i as int + 1).to_set().contains(x) <==> prev.insert(t).contains(x) by {
                    if ps.subrange(0, i as int + 1).contains(x) {
                        let j = choose|j: int| 0 <= j < i + 1 && #[trigger] ps.subrange(0, i as int + 1)[j] == x;
                        if j < i {
                            assert(ps.subrange(0, i as int)[j] == x);
                        }
                    }
                    if prev.contains(x) {
                        let j = choose|j: int| 0 <= j < i && #[trigger] ps.subrange(0, i as int)[j] == x;
                        assert(ps.subrange(0, i as int + 1)[j] == x);
                    }
                    if x == t {
                        assert(ps.subrange(0, i as int + 1)[i as int] == x);
                    }
                }
            }
            if ok {
                match retained_bytes.get(t) {
                    Some(b) => cache.insert(t, b),
                    None => {},
                }
            } else {
                cache.remove(t);
            }
            assert(cache@ =~= committed(old(cache)@, counts, prev.insert(t), ok));
            i += 1;
        }
        assert(ps.subrange(0, ps.len() as int) =~= ps);
    }
}

/// The cache after a transaction with `counts` that persisted `persisted`
/// ended: a commit takes the persisted counts, a failure drops those traces.
pub open spec fn committed(cache: Map<u64, u64>, counts: Map<u64, u64>, persisted: Set<u64>, ok: bool) -> Map<u64, u64> {
    Map::new(
        |t: u64| if persisted.contains(t) { ok && counts.contains_key(t) } else { cache.contains_key(t) },
        |t: u64| if persisted.contains(t) { counts[t] } else { cache[t] },
    )
}

/// Law: a failed transaction leaves the cache without any trace it
/// persisted and with every other count as it was; a committed one leaves
/// the cache holding the transaction's count for every persisted trace.
pub proof fn law_retention_transaction_is_atomic(
    cache: Map<u64, u64>,
    counts: Map<u64, u64>,
    persisted: Set<u64>,
    t: u64,
)
    requires
        forall|x: u64| #[trigger] persisted.contains(x) ==> counts.contains_key(x),
    ensures
        persisted.contains(t) ==> !committed(cache, counts, persisted, false).contains_key(t),
        persisted.contains(t) ==> committed(cache, counts, persisted, true).contains_key(t) && committed(
            cache,
            counts,
            persisted,
            true,
        )[t] == counts[t],
        !persisted.contains(t) ==> (committed(cache, counts, persisted, false).contains_key(t) == cache.contains_key(t)
            && committed(cache, counts, persisted, true).contains_key(t) == cache.contains_key(t) && (cache.contains_key(t)
            ==> committed(cache, counts, persisted, false)[t] == cache[t] && committed(cache, counts, persisted, true)[t]
            == cache[t])),
{
}

} // verus!
