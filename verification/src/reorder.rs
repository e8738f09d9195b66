//! Cross-drain reordering of captured payload segments within a stream.
//!
//! Ring buffers are drained per CPU, so chunks of one stream can reach user
//! space out of capture order. The reorderer holds each stream's segments
//! and hands them on in sequence order, waiting only while a gap suggests an
//! earlier chunk may still arrive. Synchronous TLS segments (stream keys
//! starting with `tls-sync:`) are already ordered and pass straight through.
//! The reorderer only delays delivery; it never changes a segment.

use vstd::prelude::*;
use crate::payload::{PayloadDirection, PayloadSourceBoundary, RawPayloadSegment, SegmentView, str_eq};

verus! {

/// How long to wait for an out-of-order predecessor (50 ms, in ns).
pub const REORDER_WINDOW_NS: u128 = 50_000_000;

/// The first sequence of socket payload streams.
pub const FIRST_SOCKET_SEQUENCE: u64 = 1;

/// How long an idle stream's ordering state is kept (60 s, in ns).
pub const STREAM_RETENTION_NS: u128 = 60_000_000_000;

/// Order rank of a source boundary (`TlsUserSpace < Syscall < Stdio`).
pub open spec fn boundary_rank(b: PayloadSourceBoundary) -> int {
    match b {
        PayloadSourceBoundary::TlsUserSpace => 0,
        PayloadSourceBoundary::Syscall => 1,
        PayloadSourceBoundary::Stdio => 2,
    }
}

/// Order rank of a direction (`Outbound < Inbound`).
pub open spec fn direction_rank(d: PayloadDirection) -> int {
    match d {
        PayloadDirection::Outbound => 0,
        PayloadDirection::Inbound => 1,
    }
}

/// Lexicographic byte order of `a` and `b` from position `i` on.
pub open spec fn lex_lt_from(a: Seq<u8>, b: Seq<u8>, i: int) -> bool
    decreases a.len() - i,
{
    if i < 0 || i >= a.len() {
        i >= 0 && i < b.len()
    } else if i >= b.len() {
        false
    } else if a[i] < b[i] {
        true
    } else if a[i] > b[i] {
        false
    } else {
        lex_lt_from(a, b, i + 1)
    }
}

/// Lexicographic byte order (the order of `String`).
pub open spec fn lex_lt(a: Seq<u8>, b: Seq<u8>) -> bool {
    lex_lt_from(a, b, 0)
}

/// The stream a segment is ordered within.
pub type RKey = (u64, u64, PayloadSourceBoundary, Seq<u8>, PayloadDirection);

/// The order of stream keys: by trace, process, source boundary, stream key
/// bytes and direction.
pub open spec fn key_lt(a: RKey, b: RKey) -> bool {
    if a.0 != b.0 {
        a.0 < b.0
    } else if a.1 != b.1 {
        a.1 < b.1
    } else if a.2 != b.2 {
        boundary_rank(a.2) < boundary_rank(b.2)
    } else if a.3 != b.3 {
        lex_lt(a.3, b.3)
    } else {
        direction_rank(a.4) < direction_rank(b.4)
    }
}

/// The stream key of a segment.
pub open spec fn seg_key(s: SegmentView) -> RKey {
    (s.trace_id, s.process, s.source_boundary, vstd::utf8::encode_utf8(s.stream_key), s.direction)
}

/// A segment as delivered, with whether a sequence gap was concluded lost
/// just before it (reported only for socket-syscall segments).
pub struct AdmittedPayloadSegment {
    pub segment: RawPayloadSegment,
    pub discontinuity_before: bool,
}

pub open spec fn admitted_views(s: Seq<AdmittedPayloadSegment>) -> Seq<(SegmentView, bool)> {
    s.map_values(|a: AdmittedPayloadSegment| (a.segment@, a.discontinuity_before))
}

/// The ordering state of one stream.
pub struct StreamV {
    pub key: RKey,
    pub pending: Seq<SegmentView>,
    pub last_emitted: Option<u64>,
    pub last_activity: u128,
}

pub open spec fn socket_library_name() -> Seq<char> {
    "socket-syscall"@
}

/// Whether `s` extends the emitted prefix ending at `last` without a gap.
pub open spec fn continuous(last: Option<u64>, s: u64) -> bool {
    match last {
        None => s == FIRST_SOCKET_SEQUENCE,
        Some(l) => s == l || s == l + 1,
    }
}

/// Draining the held segments `p` (in order) of a stream: a segment behind
/// the emitted prefix is dropped; one that continues the prefix is emitted;
/// one after a gap is emitted (marked discontinuous) only once it was
/// observed no later than `cutoff`, otherwise draining stops. Each emission
/// advances the prefix and refreshes the activity time to `now`.
pub open spec fn drain_loop(
    p: Seq<SegmentView>,
    last: Option<u64>,
    activity: u128,
    now: u128,
    cutoff: int,
) -> (Seq<SegmentView>, Option<u64>, u128, Seq<(SegmentView, bool)>)
    decreases p.len(),
{
    if p.len() == 0 {
        (p, last, activity, Seq::empty())
    } else {
        let s = p[0];
        if last is Some && s.sequence < last.unwrap() {
            drain_loop(p.drop_first(), last, activity, now, cutoff)
        } else if !continuous(last, s.sequence) && s.observed_at > cutoff {
            (p, last, activity, Seq::empty())
        } else {
            let disc = !continuous(last, s.sequence) && s.source_boundary == PayloadSourceBoundary::Syscall
                && s.library == socket_library_name();
            let prev: u64 = match last {
                Some(l) => l,
                None => 0,
            };
            let new_last = Some(if s.sequence > prev { s.sequence } else { prev });
            let r = drain_loop(p.drop_first(), new_last, now, now, cutoff);
            (r.0, r.1, r.2, seq![(s, disc)] + r.3)
        }
    }
}

/// One stream after draining.
pub open spec fn drain_stream(st: StreamV, now: u128, cutoff: int) -> (StreamV, Seq<(SegmentView, bool)>) {
    let r = drain_loop(st.pending, st.last_emitted, st.last_activity, now, cutoff);
    (StreamV { pending: r.0, last_emitted: r.1, last_activity: r.2, ..st }, r.3)
}

/// All streams drained in key order, with their emissions concatenated.
pub open spec fn drain_all(streams: Seq<StreamV>, now: u128, cutoff: int) -> (Seq<StreamV>, Seq<(SegmentView, bool)>)
    decreases streams.len(),
{
    if streams.len() == 0 {
        (streams, Seq::empty())
    } else {
        let r = drain_all(streams.drop_last(), now, cutoff);
        let d = drain_stream(streams.last(), now, cutoff);
        (r.0.push(d.0), r.1 + d.1)
    }
}

/// Position at which a segment with sequence `s` joins the held segments:
/// after every held segment whose sequence is not greater.
pub open spec fn insert_pos(p: Seq<SegmentView>, s: u64, i: int) -> int
    decreases p.len() - i,
{
    if i < 0 || i >= p.len() {
        p.len() as int
    } else if p[i].sequence > s {
        i
    } else {
        insert_pos(p, s, i + 1)
    }
}

/// Position of the first stream whose key is not below `k`.
pub open spec fn stream_pos(streams: Seq<StreamV>, k: RKey, i: int) -> int
    decreases streams.len() - i,
{
    if i < 0 || i >= streams.len() {
        streams.len() as int
    } else if !key_lt(streams[i].key, k) {
        i
    } else {
        stream_pos(streams, k, i + 1)
    }
}

/// Holding one segment: it joins its stream's held segments (creating the
/// stream in key order if needed), and the stream's activity time becomes
/// `now`.
pub open spec fn hold(streams: Seq<StreamV>, now: u128, s: SegmentView) -> Seq<StreamV> {
    let k = seg_key(s);
    let j = stream_pos(streams, k, 0);
    if j < streams.len() && streams[j].key == k {
        let st = streams[j];
        let q = insert_pos(st.pending, s.sequence, 0);
        streams.update(j, StreamV {
            pending: st.pending.subrange(0, q).push(s) + st.pending.subrange(q, st.pending.len() as int),
            last_activity: now,
            ..st
        })
    } else {
        streams.insert(j, StreamV { key: k, pending: seq![s], last_emitted: None, last_activity: now })
    }
}

pub open spec fn tls_sync_prefix() -> Seq<char> {
    seq!['t', 'l', 's', '-', 's', 'y', 'n', 'c', ':']
}

/// A synchronous TLS segment, which keeps FIFO arrival order.
pub open spec fn is_tls_sync(s: SegmentView) -> bool {
    s.source_boundary == PayloadSourceBoundary::TlsUserSpace && s.stream_key.len() >= 9
        && s.stream_key.subrange(0, 9) == tls_sync_prefix()
}

/// Taking in `segs` in order: synchronous TLS segments are ready at once,
/// the others are held.
pub open spec fn take_in(streams: Seq<StreamV>, now: u128, segs: Seq<SegmentView>) -> (Seq<StreamV>, Seq<(SegmentView, bool)>)
    decreases segs.len(),
{
    if segs.len() == 0 {
        (streams, Seq::empty())
    } else {
        let r = take_in(streams, now, segs.drop_last());
        let s = segs.last();
        if is_tls_sync(s) {
            (r.0, r.1.push((s, false)))
        } else {
            (hold(r.0, now, s), r.1)
        }
    }
}

/// A stream is kept while it holds segments or was active less than the
/// retention time before `now` (an activity time after `now` counts as
/// recent).
pub open spec fn keep_stream(st: StreamV, now: u128) -> bool {
    st.pending.len() > 0 || now < st.last_activity || now - st.last_activity < STREAM_RETENTION_NS
}

pub open spec fn retain_streams(streams: Seq<StreamV>, now: u128) -> Seq<StreamV> {
    streams.filter(|st: StreamV| keep_stream(st, now))
}

/// One call of `admit_segments`: the reorderer state after it and the
/// segments delivered, synchronous TLS ones first, then each stream's in key
/// order.
pub open spec fn spec_admit(streams: Seq<StreamV>, now: u128, segs: Seq<SegmentView>) -> (Seq<StreamV>, Seq<(SegmentView, bool)>) {
    if segs.len() == 0 && streams.len() == 0 {
        (streams, Seq::empty())
    } else {
        let t = take_in(streams, now, segs);
        let d = drain_all(t.0, now, now - REORDER_WINDOW_NS);
        (retain_streams(d.0, now), t.1 + d.1)
    }
}


/// Whether `a` sorts before `b` in byte order.
pub fn bytes_less(a: &[u8], b: &[u8]) -> (r: bool)
    ensures
        r == lex_lt(a@, b@),
{
    let mut i: usize = 0;
    loop
        invariant
            i <= a.len(),
            i <= b.len(),
            lex_lt_from(a@, b@, i as int) == lex_lt(a@, b@),
        decreases a.len() - i,
    {
        if i == a.len() {
            return i < b.len();
        }
        if i == b.len() {
            return false;
        }
        if a[i] < b[i] {
            return true;
        }
        if a[i] > b[i] {
            return false;
        }
        i += 1;
    }
}

/// Whether two byte strings are equal.
pub fn bytes_equal(a: &[u8], b: &[u8]) -> (r: bool)
    ensures
        r == (a@ == b@),
{
    if a.len() != b.len() {
        return false;
    }
    let r = crate::text::bytes_at(a, b, 0);
    assert(a@.subrange(0, b@.len() as int) =~= a@);
    r
}

fn boundary_rank_of(b: PayloadSourceBoundary) -> (r: u8)
    ensures
        r as int == boundary_rank(b),
{
    match b {
        PayloadSourceBoundary::TlsUserSpace => 0,
        PayloadSourceBoundary::Syscall => 1,
        PayloadSourceBoundary::Stdio => 2,
    }
}

fn direction_rank_of(d: PayloadDirection) -> (r: u8)
    ensures
        r as int == direction_rank(d),
{
    match d {
        PayloadDirection::Outbound => 0,
        PayloadDirection::Inbound => 1,
    }
}

/// The stream a segment is ordered within.
pub struct ReorderStreamKey {
    pub trace_id: u64,
    pub process: u64,
    pub source_boundary: PayloadSourceBoundary,
    pub stream_key: String,
    pub direction: PayloadDirection,
}

impl ReorderStreamKey {
    pub open spec fn key(&self) -> RKey {
        (self.trace_id, self.process, self.source_boundary, vstd::utf8::encode_utf8(self.stream_key@), self.direction)
    }

    pub fn of_segment(segment: &RawPayloadSegment) -> (r: Self)
        ensures
            r.key() == seg_key(segment@),
    {
        ReorderStreamKey {
            trace_id: segment.trace_id,
            process: segment.process,
            source_boundary: segment.source_boundary,
            stream_key: segment.stream_key.clone(),
            direction: segment.direction,
        }
    }

    pub fn less(&self, other: &Self) -> (r: bool)
        ensures
            r == key_lt(self.key(), other.key()),
    {
        if self.trace_id != other.trace_id {
            return self.trace_id < other.trace_id;
        }
        if self.process != other.process {
            return self.process < other.process;
        }
        let ra = boundary_rank_of(self.source_boundary);
        let rb = boundary_rank_of(other.source_boundary);
        if ra != rb {
            return ra < rb;
        }
        assert(self.source_boundary == other.source_boundary);
        let a = self.stream_key.as_str().as_bytes();
        let b = other.stream_key.as_str().as_bytes();
        if !bytes_equal(a, b) {
            return bytes_less(a, b);
        }
        direction_rank_of(self.direction) < direction_rank_of(other.direction)
    }

    pub fn equal(&self, other: &Self) -> (r: bool)
        ensures
            r == (self.key() == other.key()),
    {
        self.trace_id == other.trace_id && self.process == other.process && self.source_boundary
            == other.source_boundary && self.direction == other.direction && bytes_equal(
            self.stream_key.as_str().as_bytes(),
            other.stream_key.as_str().as_bytes(),
        )
    }
}

/// The ordering state of one stream: its held segments in delivery order,
/// the last sequence delivered and the last time it saw activity.
pub struct ReorderStreamState {
    pub key: ReorderStreamKey,
    pub pending: Vec<RawPayloadSegment>,
    pub last_emitted: Option<u64>,
    pub last_activity: u128,
}

impl ReorderStreamState {
    pub open spec fn view(&self) -> StreamV {
        StreamV {
            key: self.key.key(),
            pending: crate::payload::segment_views(self.pending@),
            last_emitted: self.last_emitted,
            last_activity: self.last_activity,
        }
    }
}

pub open spec fn stream_views(s: Seq<ReorderStreamState>) -> Seq<StreamV> {
    s.map_values(|x: ReorderStreamState| x@)
}

fn is_socket_syscall_library(library: &String) -> (r: bool)
    ensures
        r == (library@ == socket_library_name()),
{
    str_eq(library.as_str(), "socket-syscall")
}

/// Delivers what is ready of one stream's held segments into `ready`.
fn drain_ready(state: &mut ReorderStreamState, now: u128, ready: &mut Vec<AdmittedPayloadSegment>)
    ensures
        final(state)@ == drain_stream(old(state)@, now, now - REORDER_WINDOW_NS).0,
        admitted_views(final(ready)@) == admitted_views(old(ready)@) + drain_stream(old(state)@, now, now - REORDER_WINDOW_NS).1,
{
    let ghost c = now - REORDER_WINDOW_NS;
    let ghost start = old(state)@;
    let ghost ready0 = admitted_views(ready@);
    loop
        invariant
            c == now - REORDER_WINDOW_NS,
            state.key.key() == start.key,
            ready0 == admitted_views(old(ready)@),
            ({
                let d = drain_loop(state@.pending, state.last_emitted, state.last_activity, now, c);
                let full = drain_loop(start.pending, start.last_emitted, start.last_activity, now, c);
                &&& d.0 == full.0
                &&& d.1 == full.1
                &&& d.2 == full.2
                &&& admitted_views(ready@) + d.3 == ready0 + full.3
            }),
        ensures
            ({
                let full = drain_loop(start.pending, start.last_emitted, start.last_activity, now, c);
                &&& state@.pending == full.0
                &&& state.last_emitted == full.1
                &&& state.last_activity == full.2
                &&& admitted_views(ready@) == ready0 + full.3
                &&& state.key.key() == start.key
            }),
        decreases state.pending.len(),
    {
        if state.pending.len() == 0 {
            assert(admitted_views(ready@) + Seq::<(SegmentView, bool)>::empty() =~= admitted_views(ready@));
            break;
        }
        let sequence = state.pending[0].sequence;
        let ghost p = crate::payload::segment_views(state.pending@);
        assert(p[0] == state.pending@[0]@);
        let late = match state.last_emitted {
            Some(last) => sequence < last,
            None => false,
        };
        if late {
            state.pending.remove(0);
            assert(crate::payload::segment_views(state.pending@) =~= p.drop_first());
            continue;
        }
        let cont = match state.last_emitted {
            None => sequence == FIRST_SOCKET_SEQUENCE,
            Some(last) => sequence == last || (last < u64::MAX && sequence == last + 1),
        };
        assert(cont == continuous(state.last_emitted, sequence));
        let fresh = if now >= REORDER_WINDOW_NS {
            state.pending[0].observed_at > now - REORDER_WINDOW_NS
        } else {
            true
        };
        if !cont && fresh {
            assert(admitted_views(ready@) + Seq::<(SegmentView, bool)>::empty() =~= admitted_views(ready@));
            break;
        }
        let segment = state.pending.remove(0);
        assert(crate::payload::segment_views(state.pending@) =~= p.drop_first());
        let prev = match state.last_emitted {
            Some(l) => l,
            None => 0,
        };
        state.last_emitted = Some(if sequence > prev { sequence } else { prev });
        state.last_activity = now;
        let discontinuity_before = !cont && segment.source_boundary == PayloadSourceBoundary::Syscall
            && is_socket_syscall_library(&segment.library);
        let ghost before = admitted_views(ready@);
        ready.push(AdmittedPayloadSegment { segment, discontinuity_before });
        assert(admitted_views(ready@) =~= before.push((p[0], discontinuity_before)));
        assert(before.push((p[0], discontinuity_before)) + drain_loop(p.drop_first(), state.last_emitted, now, now, c).3
            =~= before + (seq![(p[0], discontinuity_before)] + drain_loop(p.drop_first(), state.last_emitted, now, now, c).3));
    }
    assert(admitted_views(ready@) =~= ready0 + drain_stream(start, now, c).1);
    assert(state@ == drain_stream(start, now, c).0);
}

/// Whether the segment is a synchronous TLS segment.
fn tls_sync_segment(segment: &RawPayloadSegment) -> (r: bool)
    ensures
        r == is_tls_sync(segment@),
{
    if segment.source_boundary != PayloadSourceBoundary::TlsUserSpace {
        return false;
    }
    let key = segment.stream_key.as_str();
    if key.unicode_len() < 9 {
        return false;
    }
    let prefix: [char; 9] = ['t', 'l', 's', '-', 's', 'y', 'n', 'c', ':'];
    assert(prefix@ =~= tls_sync_prefix());
    let mut i: usize = 0;
    while i < 9
        invariant
            i <= 9,
            key@.len() >= 9,
            key@ == segment@.stream_key,
            segment.source_boundary == PayloadSourceBoundary::TlsUserSpace,
            prefix@ == tls_sync_prefix(),
            forall|j: int| 0 <= j < i ==> key@[j] == prefix@[j],
        decreases 9 - i,
    {
        if key.get_char(i) != prefix[i] {
            assert(key@.subrange(0, 9)[i as int] != tls_sync_prefix()[i as int]);
            assert(key@.subrange(0, 9) != tls_sync_prefix());
            return false;
        }
        i += 1;
    }
    assert(key@.subrange(0, 9) =~= tls_sync_prefix());
    true
}

/// Holds back segments per stream and delivers them in capture order.
pub struct PayloadSegmentReorderer {
    streams: Vec<ReorderStreamState>,
}

impl PayloadSegmentReorderer {
    pub closed spec fn view(&self) -> Seq<StreamV> {
        stream_views(self.streams@)
    }

    /// A reorderer holding nothing.
    pub fn new() -> (r: Self)
        ensures
            r@ == Seq::<StreamV>::empty(),
    {
        let r = PayloadSegmentReorderer { streams: Vec::new() };
        assert(r@ =~= Seq::<StreamV>::empty());
        r
    }

    fn hold_segment(&mut self, now: u128, segment: RawPayloadSegment)
        ensures
            final(self)@ == hold(old(self)@, now, segment@),
    {
        let ghost s0 = self@;
        let ghost sv = segment@;
        let key = ReorderStreamKey::of_segment(&segment);
        let mut j: usize = 0;
        while j < self.streams.len() && self.streams[j].key.less(&key)
            invariant
                j <= self.streams@.len(),
                self@ == s0,
                key.key() == seg_key(sv),
                stream_pos(s0, seg_key(sv), j as int) == stream_pos(s0, seg_key(sv), 0),
            decreases self.streams.len() - j,
        {
            j += 1;
        }
        if j < self.streams.len() && self.streams[j].key.equal(&key) {
            let mut state = self.streams.remove(j);
            let ghost st = state@;
            assert(st == s0[j as int]);
            let mut q: usize = 0;
            while q < state.pending.len() && state.pending[q].sequence <= segment.sequence
                invariant
                    q <= state.pending@.len(),
                    state@ == st,
                    sv == segment@,
                    insert_pos(st.pending, sv.sequence, q as int) == insert_pos(st.pending, sv.sequence, 0),
                decreases state.pending.len() - q,
            {
                assert(st.pending[q as int] == state.pending@[q as int]@);
                q += 1;
            }
            if q < state.pending.len() {
                assert(st.pending[q as int] == state.pending@[q as int]@);
            }
            state.pending.insert(q, segment);
            state.last_activity = now;
            assert(crate::payload::segment_views(state.pending@) =~= st.pending.subrange(0, q as int).push(sv) + st.pending.subrange(q as int, st.pending.len() as int));
            let ghost nv = state@;
            self.streams.insert(j, state);
            assert(self@ =~= s0.update(j as int, nv));
        } else {
            let mut pending: Vec<RawPayloadSegment> = Vec::new();
            pending.push(segment);
            assert(crate::payload::segment_views(pending@) =~= seq![sv]);
            let state = ReorderStreamState { key, pending, last_emitted: None, last_activity: now };
            let ghost nv = state@;
            self.streams.insert(j, state);
            assert(self@ =~= s0.insert(j as int, nv));
        }
    }
}


impl PayloadSegmentReorderer {
    /// Takes in freshly captured segments and returns those whose capture
    /// order is now settled (see [`spec_admit`]). `now` is in nanoseconds
    /// since the Unix epoch.
    pub fn admit_segments(&mut self, now: u128, segments: Vec<RawPayloadSegment>) -> (r: Vec<AdmittedPayloadSegment>)
        ensures
            (final(self)@, admitted_views(r@)) == spec_admit(old(self)@, now, crate::payload::segment_views(segments@)),
    {
        let ghost s0 = self@;
        let ghost orig = crate::payload::segment_views(segments@);
        if segments.len() == 0 && self.streams.len() == 0 {
            let r: Vec<AdmittedPayloadSegment> = Vec::new();
            assert(admitted_views(r@) =~= Seq::<(SegmentView, bool)>::empty());
            return r;
        }
        let mut segs = segments;
        let mut rev: Vec<RawPayloadSegment> = Vec::new();
        while segs.len() > 0
            invariant
                crate::payload::segment_views(segs@) + crate::payload::segment_views(rev@).reverse() == orig,
            decreases segs.len(),
        {
            let ghost old_segs = segs@;
            let x = segs.pop().unwrap();
            let ghost old_rev = rev@;
            rev.push(x);
            proof {
                assert(crate::payload::segment_views(rev@).reverse() =~= seq![x@] + crate::payload::segment_views(old_rev).reverse());
                assert(crate::payload::segment_views(old_segs) =~= crate::payload::segment_views(segs@).push(x@));
                assert(crate::payload::segment_views(segs@) + crate::payload::segment_views(rev@).reverse() =~= orig);
            }
        }
        assert(crate::payload::segment_views(rev@).reverse() =~= orig);
        let mut ready: Vec<AdmittedPayloadSegment> = Vec::new();
        let ghost mut i: int = 0;
        proof {
            assert(orig.subrange(0, 0) =~= Seq::<SegmentView>::empty());
            assert(admitted_views(ready@) =~= Seq::<(SegmentView, bool)>::empty());
        }
        while rev.len() > 0
            invariant
                0 <= i <= orig.len(),
                crate::payload::segment_views(rev@).reverse() == orig.subrange(i, orig.len() as int),
                (self@, admitted_views(ready@)) == take_in(s0, now, orig.subrange(0, i)),
            decreases rev.len(),
        {
            let ghost old_rev = rev@;
            let x = rev.pop().unwrap();
            proof {
                assert(crate::payload::segment_views(old_rev).reverse() =~= seq![x@] + crate::payload::segment_views(rev@).reverse());
                assert(orig.subrange(i, orig.len() as int)[0] == orig[i]);
                assert(x@ == orig[i]);
                assert(orig.subrange(0, i + 1).drop_last() =~= orig.subrange(0, i));
                assert(orig.subrange(i, orig.len() as int).drop_first() =~= orig.subrange(i + 1, orig.len() as int));
                assert((seq![x@] + crate::payload::segment_views(rev@).reverse()).drop_first() =~= crate::payload::segment_views(rev@).reverse());
                assert(crate::payload::segment_views(rev@).reverse() =~= orig.subrange(i + 1, orig.len() as int));
            }
            if tls_sync_segment(&x) {
                let ghost before = admitted_views(ready@);
                ready.push(AdmittedPayloadSegment { segment: x, discontinuity_before: false });
                assert(admitted_views(ready@) =~= before.push((orig[i], false)));
            } else {
                self.hold_segment(now, x);
            }
            proof {
                i = i + 1;
            }
        }
        assert(orig.subrange(0, orig.len() as int) =~= orig);
        let ghost t = take_in(s0, now, orig);
        let ghost c = now - REORDER_WINDOW_NS;
        let mut taken: Vec<ReorderStreamState> = Vec::new();
        std::mem::swap(&mut taken, &mut self.streams);
        let ghost tv = stream_views(taken@);
        let mut rev2: Vec<ReorderStreamState> = Vec::new();
        while taken.len() > 0
            invariant
                stream_views(taken@) + stream_views(rev2@).reverse() == tv,
            decreases taken.len(),
        {
            let ghost old_taken = taken@;
            let x = taken.pop().unwrap();
            let ghost old_rev = rev2@;
            rev2.push(x);
            proof {
                assert(stream_views(rev2@).reverse() =~= seq![x@] + stream_views(old_rev).reverse());
                assert(stream_views(old_taken) =~= stream_views(taken@).push(x@));
                assert(stream_views(taken@) + stream_views(rev2@).reverse() =~= tv);
            }
        }
        assert(stream_views(rev2@).reverse() =~= tv);
        let mut kept: Vec<ReorderStreamState> = Vec::new();
        let ghost mut k: int = 0;
        proof {
            assert(tv.subrange(0, 0) =~= Seq::<StreamV>::empty());
            assert(stream_views(kept@) =~= Seq::<StreamV>::empty());
            assert(admitted_views(ready@) + Seq::<(SegmentView, bool)>::empty() =~= admitted_views(ready@));
            reveal_with_fuel(Seq::<_>::filter, 1);
        }
        while rev2.len() > 0
            invariant
                0 <= k <= tv.len(),
                tv == t.0,
                c == now - REORDER_WINDOW_NS,
                stream_views(rev2@).reverse() == tv.subrange(k, tv.len() as int),
                stream_views(kept@) == retain_streams(drain_all(tv.subrange(0, k), now, c).0, now),
                admitted_views(ready@) == t.1 + drain_all(tv.subrange(0, k), now, c).1,
            decreases rev2.len(),
        {
            let ghost old_rev = rev2@;
            let mut st = rev2.pop().unwrap();
            proof {
                assert(stream_views(old_rev).reverse() =~= seq![st@] + stream_views(rev2@).reverse());
                assert(tv.subrange(k, tv.len() as int)[0] == tv[k]);
                assert(st@ == tv[k]);
                assert(tv.subrange(0, k + 1).drop_last() =~= tv.subrange(0, k));
                assert(tv.subrange(0, k + 1).last() == tv[k]);
                assert(tv.subrange(k, tv.len() as int).drop_first() =~= tv.subrange(k + 1, tv.len() as int));
                assert((seq![st@] + stream_views(rev2@).reverse()).drop_first() =~= stream_views(rev2@).reverse());
                assert(stream_views(rev2@).reverse() =~= tv.subrange(k + 1, tv.len() as int));
            }
            let ghost before_ready = admitted_views(ready@);
            let ghost prev = drain_all(tv.subrange(0, k), now, c);
            drain_ready(&mut st, now, &mut ready);
            let ghost ds = drain_stream(tv[k], now, c);
            assert(st@ == ds.0);
            let keep = st.pending.len() > 0 || now < st.last_activity || now - st.last_activity < STREAM_RETENTION_NS;
            assert(keep == keep_stream(st@, now));
            let ghost old_kept = stream_views(kept@);
            if keep {
                kept.push(st);
                assert(stream_views(kept@) =~= old_kept.push(ds.0));
            }
            proof {
                let next = drain_all(tv.subrange(0, k + 1), now, c);
                assert(next.0 == prev.0.push(ds.0));
                assert(next.0.drop_last() =~= prev.0);
                reveal_with_fuel(Seq::<_>::filter, 1);
                assert(retain_streams(next.0, now) == if keep_stream(ds.0, now) {
                    retain_streams(prev.0, now).push(ds.0)
                } else {
                    retain_streams(prev.0, now)
                });
                assert(admitted_views(ready@) =~= t.1 + next.1);
                k = k + 1;
            }
        }
        assert(tv.subrange(0, tv.len() as int) =~= tv);
        self.streams = kept;
        ready
    }

    /// Drops the ordering state of every stream of trace `trace_id`.
    pub fn forget_trace(&mut self, trace_id: u64)
        ensures
            final(self)@ == old(self)@.filter(|st: StreamV| st.key.0 != trace_id),
    {
        let ghost s0 = self@;
        let mut taken: Vec<ReorderStreamState> = Vec::new();
        std::mem::swap(&mut taken, &mut self.streams);
        let kept = retain_streams_where(taken, trace_id, None);
        self.streams = kept;
        proof {
            let none_target: Option<(u64, PayloadSourceBoundary, &str)> = None;
            lemma_filter_ext(s0, |st: StreamV| !closes(st.key, trace_id, match none_target {
                None => None,
                Some((p, b, sk)) => Some((p, b, vstd::utf8::encode_utf8(sk@))),
            }), |st: StreamV| st.key.0 != trace_id);
        }
    }

    /// Drops the ordering state of the closed stream, in both directions.
    pub fn forget_stream(&mut self, trace_id: u64, process: u64, source_boundary: PayloadSourceBoundary, stream_key: &str)
        ensures
            final(self)@ == old(self)@.filter(|st: StreamV| !closes(st.key, trace_id, Some((process, source_boundary, vstd::utf8::encode_utf8(stream_key@))))),
    {
        let ghost s0 = self@;
        let mut taken: Vec<ReorderStreamState> = Vec::new();
        std::mem::swap(&mut taken, &mut self.streams);
        let target = Some((process, source_boundary, stream_key));
        let kept = retain_streams_where(taken, trace_id, target);
        self.streams = kept;
        proof {
            lemma_filter_ext(s0, |st: StreamV| !closes(st.key, trace_id, match target {
                None => None,
                Some((p, b, sk)) => Some((p, b, vstd::utf8::encode_utf8(sk@))),
            }), |st: StreamV| !closes(st.key, trace_id, Some((process, source_boundary, vstd::utf8::encode_utf8(stream_key@)))));
        }
    }

    /// Number of segments held back (saturating at `usize::MAX`).
    pub fn pending_segment_count(&self) -> (r: usize)
        ensures
            r == if held_count(self@) > usize::MAX { usize::MAX as int } else { held_count(self@) },
    {
        let mut total: usize = 0;
        let mut i: usize = 0;
        while i < self.streams.len()
            invariant
                i <= self.streams@.len(),
                total == held_count(self@.subrange(0, i as int)),
            decreases self.streams.len() - i,
        {
            proof {
                assert(self@.subrange(0, i + 1).drop_last() =~= self@.subrange(0, i as int));
                assert(self@[i as int].pending.len() == self.streams@[i as int].pending@.len());
            }
            let n = self.streams[i].pending.len();
            if total > usize::MAX - n {
                proof {
                    lemma_held_count_prefix(self@, i as int + 1);
                }
                return usize::MAX;
            }
            total = total + n;
            i += 1;
        }
        assert(self@.subrange(0, i as int) =~= self@);
        total
    }
}

/// Total number of held segments.
pub open spec fn held_count(s: Seq<StreamV>) -> int
    decreases s.len(),
{
    if s.len() == 0 {
        0
    } else {
        held_count(s.drop_last()) + s.last().pending.len()
    }
}

pub proof fn lemma_held_count_prefix(s: Seq<StreamV>, n: int)
    requires
        0 <= n <= s.len(),
    ensures
        held_count(s.subrange(0, n)) <= held_count(s),
    decreases s.len(),
{
    if n == s.len() {
        assert(s.subrange(0, n) =~= s);
    } else {
        assert(s.drop_last().subrange(0, n) =~= s.subrange(0, n));
        lemma_held_count_prefix(s.drop_last(), n);
    }
}

/// Whether a stream is covered by a forget request for `trace_id` (and,
/// when given, the process, boundary and stream key of a closed stream).
pub open spec fn closes(k: RKey, trace_id: u64, target: Option<(u64, PayloadSourceBoundary, Seq<u8>)>) -> bool {
    k.0 == trace_id && match target {
        None => true,
        Some((p, b, sk)) => k.1 == p && k.2 == b && k.3 == sk,
    }
}

pub proof fn lemma_filter_ext(s: Seq<StreamV>, f: spec_fn(StreamV) -> bool, g: spec_fn(StreamV) -> bool)
    requires
        forall|x: StreamV| #[trigger] f(x) == g(x),
    ensures
        s.filter(f) == s.filter(g),
    decreases s.len(),
{
    reveal_with_fuel(Seq::<_>::filter, 1);
    if s.len() > 0 {
        lemma_filter_ext(s.drop_last(), f, g);
    }
}

fn retain_streams_where(
    streams: Vec<ReorderStreamState>,
    trace_id: u64,
    target: Option<(u64, PayloadSourceBoundary, &str)>,
) -> (r: Vec<ReorderStreamState>)
    ensures
        stream_views(r@) == stream_views(streams@).filter(|st: StreamV| !closes(st.key, trace_id, match target {
            None => None,
            Some((p, b, sk)) => Some((p, b, vstd::utf8::encode_utf8(sk@))),
        })),
{
    let ghost tgt = match target {
        None => None,
        Some((p, b, sk)) => Some((p, b, vstd::utf8::encode_utf8(sk@))),
    };
    let ghost pred = |st: StreamV| !closes(st.key, trace_id, tgt);
    let ghost tv = stream_views(streams@);
    let mut taken = streams;
    let mut rev: Vec<ReorderStreamState> = Vec::new();
    while taken.len() > 0
        invariant
            stream_views(taken@) + stream_views(rev@).reverse() == tv,
        decreases taken.len(),
    {
        let ghost old_taken = taken@;
        let x = taken.pop().unwrap();
        let ghost old_rev = rev@;
        rev.push(x);
        proof {
            assert(stream_views(rev@).reverse() =~= seq![x@] + stream_views(old_rev).reverse());
            assert(stream_views(old_taken) =~= stream_views(taken@).push(x@));
            assert(stream_views(taken@) + stream_views(rev@).reverse() =~= tv);
        }
    }
    assert(stream_views(rev@).reverse() =~= tv);
    let mut kept: Vec<ReorderStreamState> = Vec::new();
    let ghost mut k: int = 0;
    proof {
        assert(tv.subrange(0, 0) =~= Seq::<StreamV>::empty());
        assert(stream_views(kept@) =~= Seq::<StreamV>::empty());
        reveal_with_fuel(Seq::<_>::filter, 1);
    }
    while rev.len() > 0
        invariant
            0 <= k <= tv.len(),
            stream_views(rev@).reverse() == tv.subrange(k, tv.len() as int),
            stream_views(kept@) == tv.subrange(0, k).filter(pred),
            pred == (|st: StreamV| !closes(st.key, trace_id, tgt)),
            tgt == match target {
                None => None,
                Some((p, b, sk)) => Some((p, b, vstd::utf8::encode_utf8(sk@))),
            },
        decreases rev.len(),
    {
        let ghost old_rev = rev@;
        let st = rev.pop().unwrap();
        proof {
            assert(stream_views(old_rev).reverse() =~= seq![st@] + stream_views(rev@).reverse());
            assert(tv.subrange(k, tv.len() as int)[0] == tv[k]);
            assert(st@ == tv[k]);
            assert(tv.subrange(0, k + 1).drop_last() =~= tv.subrange(0, k));
            assert(tv.subrange(0, k + 1).last() == tv[k]);
            assert(tv.subrange(k, tv.len() as int).drop_first() =~= tv.subrange(k + 1, tv.len() as int));
            assert((seq![st@] + stream_views(rev@).reverse()).drop_first() =~= stream_views(rev@).reverse());
            assert(stream_views(rev@).reverse() =~= tv.subrange(k + 1, tv.len() as int));
        }
        let hit = st.key.trace_id == trace_id && match target {
            None => true,
            Some((p, b, sk)) => st.key.process == p && st.key.source_boundary == b && bytes_equal(
                st.key.stream_key.as_str().as_bytes(),
                sk.as_bytes(),
            ),
        };
        assert(hit == closes(st@.key, trace_id, tgt));
        let ghost old_kept = stream_views(kept@);
        if !hit {
            kept.push(st);
            assert(stream_views(kept@) =~= old_kept.push(tv[k]));
        }
        proof {
            reveal_with_fuel(Seq::<_>::filter, 1);
            assert(tv.subrange(0, k + 1).filter(pred) == if pred(tv[k]) {
                tv.subrange(0, k).filter(pred).push(tv[k])
            } else {
                tv.subrange(0, k).filter(pred)
            });
            k = k + 1;
        }
    }
    assert(tv.subrange(0, tv.len() as int) =~= tv);
    proof {
        lemma_filter_ext(tv, pred, |st: StreamV| !closes(st.key, trace_id, match target {
            None => None,
            Some((p, b, sk)) => Some((p, b, vstd::utf8::encode_utf8(sk@))),
        }));
    }
    kept
}

} // verus!
