//! What the payload reorderer keeps true across its operations: streams stay
//! in key order with one state per stream, each stream's held segments stay
//! in sequence order and belong to it, and deliveries follow capture order.

use vstd::prelude::*;
use crate::payload::{PayloadDirection, PayloadSourceBoundary, SegmentView};
use crate::reorder::{
    RKey, StreamV, boundary_rank, direction_rank, drain_all, drain_loop, drain_stream, hold,
    insert_pos, is_tls_sync, key_lt, keep_stream, lex_lt, lex_lt_from, retain_streams, seg_key,
    spec_admit, stream_pos, take_in, REORDER_WINDOW_NS,
};

verus! {

/// The held segments are in nondecreasing sequence order.
pub open spec fn seq_sorted(p: Seq<SegmentView>) -> bool {
    forall|a: int, b: int| #![trigger p[a], p[b]] 0 <= a < b < p.len() ==> p[a].sequence <= p[b].sequence
}

/// A stream's held segments are sorted, belong to the stream, and are not
/// synchronous TLS segments (those are never held).
pub open spec fn stream_wf(st: StreamV) -> bool {
    &&& seq_sorted(st.pending)
    &&& forall|a: int| 0 <= a < st.pending.len() ==> seg_key(#[trigger] st.pending[a]) == st.key
        && !is_tls_sync(st.pending[a])
}

/// The streams are in strictly increasing key order (so no stream occurs
/// twice).
pub open spec fn keys_ordered(s: Seq<StreamV>) -> bool {
    forall|i: int, j: int| #![trigger s[i], s[j]] 0 <= i < j < s.len() ==> key_lt(s[i].key, s[j].key)
}

/// The reorderer's invariant.
pub open spec fn reorderer_wf(s: Seq<StreamV>) -> bool {
    &&& keys_ordered(s)
    &&& forall|i: int| 0 <= i < s.len() ==> stream_wf(#[trigger] s[i])
}

proof fn lemma_lex_irrefl_from(a: Seq<u8>, i: int)
    ensures
        !lex_lt_from(a, a, i),
    decreases a.len() - i,
{
    if i >= 0 && i < a.len() {
        lemma_lex_irrefl_from(a, i + 1);
    }
}

proof fn lemma_lex_trans_from(a: Seq<u8>, b: Seq<u8>, c: Seq<u8>, i: int)
    requires
        0 <= i,
        lex_lt_from(a, b, i),
        lex_lt_from(b, c, i),
    ensures
        lex_lt_from(a, c, i),
    decreases a.len() - i,
{
    if i < a.len() && i < b.len() && i < c.len() && a[i] == b[i] && b[i] == c[i] {
        lemma_lex_trans_from(a, b, c, i + 1);
    }
}

proof fn lemma_lex_total_from(a: Seq<u8>, b: Seq<u8>, i: int)
    requires
        0 <= i <= a.len(),
        i <= b.len(),
        a.subrange(0, i) == b.subrange(0, i),
        a != b,
    ensures
        lex_lt_from(a, b, i) || lex_lt_from(b, a, i),
    decreases a.len() - i,
{
    if i == a.len() && i == b.len() {
        assert(a =~= a.subrange(0, i));
        assert(b =~= b.subrange(0, i));
    } else if i < a.len() && i < b.len() && a[i] == b[i] {
        assert(a.subrange(0, i + 1) =~= a.subrange(0, i).push(a[i]));
        assert(b.subrange(0, i + 1) =~= b.subrange(0, i).push(b[i]));
        lemma_lex_total_from(a, b, i + 1);
    }
}

/// The order of stream keys is a strict total order.
pub proof fn lemma_key_order(a: RKey, b: RKey, c: RKey)
    ensures
        !key_lt(a, a),
        key_lt(a, b) && key_lt(b, c) ==> key_lt(a, c),
        a != b ==> key_lt(a, b) || key_lt(b, a),
        key_lt(a, b) ==> !key_lt(b, a),
{
    lemma_lex_irrefl_from(a.3, 0);
    if lex_lt(a.3, b.3) && lex_lt(b.3, c.3) {
        lemma_lex_trans_from(a.3, b.3, c.3, 0);
    }
    if lex_lt(a.3, b.3) && lex_lt(b.3, a.3) {
        lemma_lex_trans_from(a.3, b.3, a.3, 0);
        lemma_lex_irrefl_from(a.3, 0);
    }
    if a.3 != b.3 {
        assert(a.3.subrange(0, 0) =~= b.3.subrange(0, 0));
        lemma_lex_total_from(a.3, b.3, 0);
    }
    assert(boundary_rank(a.2) == boundary_rank(b.2) ==> a.2 == b.2);
    assert(direction_rank(a.4) == direction_rank(b.4) ==> a.4 == b.4);
}

proof fn lemma_stream_pos(s: Seq<StreamV>, k: RKey, i: int)
    requires
        0 <= i <= s.len(),
    ensures
        i <= stream_pos(s, k, i) <= s.len(),
        forall|m: int| i <= m < stream_pos(s, k, i) ==> key_lt(#[trigger] s[m].key, k),
        stream_pos(s, k, i) < s.len() ==> !key_lt(s[stream_pos(s, k, i)].key, k),
    decreases s.len() - i,
{
    if i < s.len() && key_lt(s[i].key, k) {
        lemma_stream_pos(s, k, i + 1);
    }
}

proof fn lemma_insert_pos(p: Seq<SegmentView>, x: u64, i: int)
    requires
        0 <= i <= p.len(),
    ensures
        i <= insert_pos(p, x, i) <= p.len(),
        forall|m: int| i <= m < insert_pos(p, x, i) ==> (#[trigger] p[m]).sequence <= x,
        insert_pos(p, x, i) < p.len() ==> p[insert_pos(p, x, i)].sequence > x,
    decreases p.len() - i,
{
    if i < p.len() && p[i].sequence <= x {
        lemma_insert_pos(p, x, i + 1);
    }
}

/// Holding a segment keeps the invariant.
pub proof fn lemma_hold_wf(streams: Seq<StreamV>, now: u128, x: SegmentView)
    requires
        reorderer_wf(streams),
        !is_tls_sync(x),
    ensures
        reorderer_wf(hold(streams, now, x)),
{
    let k = seg_key(x);
    let j = stream_pos(streams, k, 0);
    lemma_stream_pos(streams, k, 0);
    let r = hold(streams, now, x);
    if j < streams.len() && streams[j].key == k {
        let st = streams[j];
        let p = st.pending;
        let q = insert_pos(p, x.sequence, 0);
        lemma_insert_pos(p, x.sequence, 0);
        let np = p.subrange(0, q).push(x) + p.subrange(q, p.len() as int);
        assert(stream_wf(st));
        assert forall|m: int| 0 <= m < np.len() implies np[m] == (if m < q {
            p[m]
        } else if m == q {
            x
        } else {
            p[m - 1]
        }) by {}
        assert forall|a: int, b: int| #![trigger np[a], np[b]] 0 <= a < b < np.len() implies np[a].sequence
            <= np[b].sequence by {
            if b < q {
                assert(p[a].sequence <= p[b].sequence);
            } else if b == q {
                assert(p[a].sequence <= x.sequence);
            } else if a < q {
                assert(p[a].sequence <= x.sequence);
                assert(p[q].sequence > x.sequence);
                assert(q <= b - 1);
                if q < b - 1 {
                    assert(p[q].sequence <= p[b - 1].sequence);
                }
            } else if a == q {
                assert(p[q].sequence > x.sequence);
                if q < b - 1 {
                    assert(p[q].sequence <= p[b - 1].sequence);
                }
            } else {
                assert(p[a - 1].sequence <= p[b - 1].sequence);
            }
        }
        assert forall|m: int| 0 <= m < np.len() implies seg_key(#[trigger] np[m]) == st.key && !is_tls_sync(
            np[m],
        ) by {
            if m < q {
                assert(np[m] == p[m]);
            } else if m > q {
                assert(np[m] == p[m - 1]);
            }
        }
        let nst = StreamV { pending: np, last_activity: now, ..st };
        assert(stream_wf(nst));
        assert(r == streams.update(j, nst));
        assert forall|i: int, jj: int| #![trigger r[i], r[jj]] 0 <= i < jj < r.len() implies key_lt(
            r[i].key,
            r[jj].key,
        ) by {
            assert(streams[i].key == r[i].key);
            assert(streams[jj].key == r[jj].key);
        }
        assert forall|i: int| 0 <= i < r.len() implies stream_wf(#[trigger] r[i]) by {
            if i != j {
                assert(r[i] == streams[i]);
            }
        }
    } else {
        let nst = StreamV { key: k, pending: seq![x], last_emitted: None, last_activity: now };
        assert(r == streams.insert(j, nst));
        if j < streams.len() {
            lemma_key_order(streams[j].key, k, k);
            assert(key_lt(k, streams[j].key));
        }
        assert forall|i: int| 0 <= i < r.len() implies r[i] == (if i < j {
            streams[i]
        } else if i == j {
            nst
        } else {
            streams[i - 1]
        }) by {}
        assert forall|a: int, b: int| #![trigger r[a], r[b]] 0 <= a < b < r.len() implies key_lt(
            r[a].key,
            r[b].key,
        ) by {
            if b < j {
                assert(key_lt(streams[a].key, streams[b].key));
            } else if b == j {
                assert(key_lt(streams[a].key, k));
            } else if a < j {
                assert(key_lt(streams[a].key, k));
                if b - 1 > j {
                    assert(key_lt(streams[j].key, streams[b - 1].key));
                    lemma_key_order(k, streams[j].key, streams[b - 1].key);
                }
                lemma_key_order(streams[a].key, k, streams[b - 1].key);
            } else if a == j {
                if b - 1 > j {
                    assert(key_lt(streams[j].key, streams[b - 1].key));
                    lemma_key_order(k, streams[j].key, streams[b - 1].key);
                }
            } else {
                assert(key_lt(streams[a - 1].key, streams[b - 1].key));
            }
        }
        assert(stream_wf(nst));
        assert forall|i: int| 0 <= i < r.len() implies stream_wf(#[trigger] r[i]) by {
            if i < j {
                assert(r[i] == streams[i]);
            } else if i > j {
                assert(r[i] == streams[i - 1]);
            }
        }
    }
}

/// Taking in segments keeps the invariant.
pub proof fn lemma_take_in_wf(streams: Seq<StreamV>, now: u128, segs: Seq<SegmentView>)
    requires
        reorderer_wf(streams),
    ensures
        reorderer_wf(take_in(streams, now, segs).0),
    decreases segs.len(),
{
    if segs.len() > 0 {
        lemma_take_in_wf(streams, now, segs.drop_last());
        let r = take_in(streams, now, segs.drop_last());
        if !is_tls_sync(segs.last()) {
            lemma_hold_wf(r.0, now, segs.last());
        }
    }
}

/// What draining leaves held is the tail of what was held.
pub proof fn lemma_drain_loop_suffix(p: Seq<SegmentView>, last: Option<u64>, activity: u128, now: u128, cutoff: int)
    ensures
        drain_loop(p, last, activity, now, cutoff).0.len() <= p.len(),
        drain_loop(p, last, activity, now, cutoff).0 == p.subrange(
            p.len() - drain_loop(p, last, activity, now, cutoff).0.len(),
            p.len() as int,
        ),
    decreases p.len(),
{
    if p.len() == 0 {
        assert(p.subrange(0, 0) =~= p);
    } else {
        let s = p[0];
        let prev: u64 = match last {
            Some(l) => l,
            None => 0,
        };
        let new_last = Some(if s.sequence > prev { s.sequence } else { prev });
        if last is Some && s.sequence < last.unwrap() {
            lemma_drain_loop_suffix(p.drop_first(), last, activity, now, cutoff);
            let r = drain_loop(p.drop_first(), last, activity, now, cutoff);
            assert(p.drop_first().subrange(p.drop_first().len() - r.0.len(), p.drop_first().len() as int)
                =~= p.subrange(p.len() - r.0.len(), p.len() as int));
        } else if !crate::reorder::continuous(last, s.sequence) && s.observed_at > cutoff {
            assert(p.subrange(0, p.len() as int) =~= p);
        } else {
            lemma_drain_loop_suffix(p.drop_first(), new_last, now, now, cutoff);
            let r = drain_loop(p.drop_first(), new_last, now, now, cutoff);
            assert(p.drop_first().subrange(p.drop_first().len() - r.0.len(), p.drop_first().len() as int)
                =~= p.subrange(p.len() - r.0.len(), p.len() as int));
        }
    }
}

/// Draining a stream keeps it well formed.
pub proof fn lemma_drain_stream_wf(st: StreamV, now: u128, cutoff: int)
    requires
        stream_wf(st),
    ensures
        stream_wf(drain_stream(st, now, cutoff).0),
        drain_stream(st, now, cutoff).0.key == st.key,
{
    let p = st.pending;
    lemma_drain_loop_suffix(p, st.last_emitted, st.last_activity, now, cutoff);
    let q = drain_stream(st, now, cutoff).0.pending;
    let off = p.len() - q.len();
    assert forall|m: int| 0 <= m < q.len() implies q[m] == p[m + off] by {}
    assert forall|a: int, b: int| #![trigger q[a], q[b]] 0 <= a < b < q.len() implies q[a].sequence
        <= q[b].sequence by {
        assert(p[a + off].sequence <= p[b + off].sequence);
    }
    assert forall|m: int| 0 <= m < q.len() implies seg_key(#[trigger] q[m]) == st.key && !is_tls_sync(q[m]) by {
        assert(q[m] == p[m + off]);
    }
}

/// Draining all streams drains each one in place.
pub proof fn lemma_drain_all_pointwise(streams: Seq<StreamV>, now: u128, cutoff: int)
    ensures
        drain_all(streams, now, cutoff).0.len() == streams.len(),
        forall|i: int| 0 <= i < streams.len() ==> #[trigger] drain_all(streams, now, cutoff).0[i]
            == drain_stream(streams[i], now, cutoff).0,
    decreases streams.len(),
{
    if streams.len() > 0 {
        lemma_drain_all_pointwise(streams.drop_last(), now, cutoff);
        let r = drain_all(streams.drop_last(), now, cutoff);
        assert forall|i: int| 0 <= i < streams.len() implies #[trigger] drain_all(streams, now, cutoff).0[i]
            == drain_stream(streams[i], now, cutoff).0 by {
            if i < streams.len() - 1 {
                assert(r.0[i] == drain_stream(streams.drop_last()[i], now, cutoff).0);
            }
        }
    }
}

/// Keeping the streams that satisfy `f` keeps their relative order.
pub proof fn lemma_filter_wf(s: Seq<StreamV>, f: spec_fn(StreamV) -> bool)
    requires
        reorderer_wf(s),
    ensures
        reorderer_wf(s.filter(f)),
        forall|m: int| 0 <= m < s.filter(f).len() ==> exists|n: int| 0 <= n < s.len() && #[trigger] s.filter(f)[m]
            == s[n],
    decreases s.len(),
{
    reveal_with_fuel(Seq::<_>::filter, 1);
    if s.len() > 0 {
        let t = s.drop_last();
        assert(reorderer_wf(t)) by {
            assert forall|i: int, j: int| #![trigger t[i], t[j]] 0 <= i < j < t.len() implies key_lt(
                t[i].key,
                t[j].key,
            ) by {
                assert(key_lt(s[i].key, s[j].key));
            }
            assert forall|i: int| 0 <= i < t.len() implies stream_wf(#[trigger] t[i]) by {
                assert(t[i] == s[i]);
            }
        }
        lemma_filter_wf(t, f);
        let ft = t.filter(f);
        assert(s.filter(f) == if f(s.last()) { ft.push(s.last()) } else { ft });
        if f(s.last()) {
            let r = ft.push(s.last());
            assert forall|m: int| 0 <= m < r.len() implies exists|n: int| 0 <= n < s.len() && #[trigger] r[m]
                == s[n] by {
                if m < ft.len() {
                    let n = choose|n: int| 0 <= n < t.len() && ft[m] == t[n];
                    assert(r[m] == s[n]);
                } else {
                    assert(r[m] == s[s.len() - 1]);
                }
            }
            assert forall|i: int, j: int| #![trigger r[i], r[j]] 0 <= i < j < r.len() implies key_lt(
                r[i].key,
                r[j].key,
            ) by {
                if j < ft.len() {
                    assert(key_lt(ft[i].key, ft[j].key));
                } else {
                    let n = choose|n: int| 0 <= n < t.len() && ft[i] == t[n];
                    assert(key_lt(s[n].key, s[s.len() - 1].key));
                }
            }
            assert forall|i: int| 0 <= i < r.len() implies stream_wf(#[trigger] r[i]) by {
                if i < ft.len() {
                    assert(r[i] == ft[i]);
                } else {
                    assert(r[i] == s[s.len() - 1]);
                }
            }
        } else {
            assert forall|m: int| 0 <= m < ft.len() implies exists|n: int| 0 <= n < s.len() && #[trigger] ft[m]
                == s[n] by {
                let n = choose|n: int| 0 <= n < t.len() && ft[m] == t[n];
                assert(ft[m] == s[n]);
            }
        }
    }
}

/// Law: a reorderer starts well formed, and taking in segments and
/// delivering what is ready keeps it so: streams in key order, one state per
/// stream, each stream's held segments in sequence order.
pub proof fn law_admit_keeps_invariant(streams: Seq<StreamV>, now: u128, segs: Seq<SegmentView>)
    requires
        reorderer_wf(streams),
    ensures
        reorderer_wf(Seq::<StreamV>::empty()),
        reorderer_wf(spec_admit(streams, now, segs).0),
{
    if !(segs.len() == 0 && streams.len() == 0) {
        let c = now - REORDER_WINDOW_NS;
        lemma_take_in_wf(streams, now, segs);
        let t = take_in(streams, now, segs);
        lemma_drain_all_pointwise(t.0, now, c);
        let d = drain_all(t.0, now, c);
        assert forall|i: int| 0 <= i < d.0.len() implies stream_wf(#[trigger] d.0[i]) && d.0[i].key == t.0[i].key by {
            lemma_drain_stream_wf(t.0[i], now, c);
        }
        assert forall|i: int, j: int| #![trigger d.0[i], d.0[j]] 0 <= i < j < d.0.len() implies key_lt(
            d.0[i].key,
            d.0[j].key,
        ) by {
            assert(d.0[i].key == t.0[i].key);
            assert(d.0[j].key == t.0[j].key);
        }
        lemma_filter_wf(d.0, |st: StreamV| keep_stream(st, now));
    }
}

/// Law: forgetting streams (of a trace, or one closed stream) keeps the
/// reorderer well formed.
pub proof fn law_forget_keeps_invariant(streams: Seq<StreamV>, forget: spec_fn(StreamV) -> bool)
    requires
        reorderer_wf(streams),
    ensures
        reorderer_wf(streams.filter(|st: StreamV| !forget(st))),
{
    lemma_filter_wf(streams, |st: StreamV| !forget(st));
}

/// What draining one stream delivers: in sequence order, never behind the
/// delivered prefix, and only segments it held; the prefix only grows.
pub proof fn lemma_drain_loop_order(p: Seq<SegmentView>, last: Option<u64>, activity: u128, now: u128, cutoff: int)
    requires
        seq_sorted(p),
    ensures
        ({
            let r = drain_loop(p, last, activity, now, cutoff);
            &&& forall|a: int, b: int| #![trigger r.3[a], r.3[b]] 0 <= a < b < r.3.len() ==> r.3[a].0.sequence
                <= r.3[b].0.sequence
            &&& forall|a: int| 0 <= a < r.3.len() && last is Some ==> (#[trigger] r.3[a]).0.sequence
                >= last.unwrap()
            &&& forall|a: int| 0 <= a < r.3.len() ==> exists|n: int| 0 <= n < p.len() && p[n] == (#[trigger] r.3[a]).0
            &&& last is Some ==> r.1 is Some && r.1.unwrap() >= last.unwrap()
        }),
    decreases p.len(),
{
    if p.len() > 0 {
        let s = p[0];
        let t = p.drop_first();
        assert(seq_sorted(t)) by {
            assert forall|a: int, b: int| #![trigger t[a], t[b]] 0 <= a < b < t.len() implies t[a].sequence
                <= t[b].sequence by {
                assert(p[a + 1].sequence <= p[b + 1].sequence);
            }
        }
        let prev: u64 = match last {
            Some(l) => l,
            None => 0,
        };
        let new_last = Some(if s.sequence > prev { s.sequence } else { prev });
        if last is Some && s.sequence < last.unwrap() {
            lemma_drain_loop_order(t, last, activity, now, cutoff);
            let r = drain_loop(t, last, activity, now, cutoff);
            assert forall|a: int| 0 <= a < r.3.len() implies exists|n: int| 0 <= n < p.len() && p[n] == (
            #[trigger] r.3[a]).0 by {
                let n = choose|n: int| 0 <= n < t.len() && t[n] == r.3[a].0;
                assert(p[n + 1] == t[n]);
            }
        } else if !crate::reorder::continuous(last, s.sequence) && s.observed_at > cutoff {
        } else {
            lemma_drain_loop_order(t, new_last, now, now, cutoff);
            let r = drain_loop(t, new_last, now, now, cutoff);
            let disc = !crate::reorder::continuous(last, s.sequence) && s.source_boundary
                == PayloadSourceBoundary::Syscall && s.library == crate::reorder::socket_library_name();
            let out = seq![(s, disc)] + r.3;
            assert(new_last == Some(s.sequence));
            assert forall|a: int| 0 <= a < out.len() implies exists|n: int| 0 <= n < p.len() && p[n] == (
            #[trigger] out[a]).0 by {
                if a == 0 {
                    assert(p[0] == out[0].0);
                } else {
                    assert(out[a] == r.3[a - 1]);
                    let n = choose|n: int| 0 <= n < t.len() && t[n] == r.3[a - 1].0;
                    assert(p[n + 1] == t[n]);
                }
            }
            assert forall|a: int, b: int| #![trigger out[a], out[b]] 0 <= a < b < out.len() implies out[a].0.sequence
                <= out[b].0.sequence by {
                assert(out[b] == r.3[b - 1]);
                if a > 0 {
                    assert(out[a] == r.3[a - 1]);
                }
            }
            assert forall|a: int| 0 <= a < out.len() && last is Some implies (#[trigger] out[a]).0.sequence
                >= last.unwrap() by {
                if a > 0 {
                    assert(out[a] == r.3[a - 1]);
                }
            }
        }
    }
}

/// The segments the stream at position `m` of `streams` holds.
pub open spec fn held_by(streams: Seq<StreamV>, x: SegmentView) -> bool {
    exists|m: int, n: int| 0 <= m < streams.len() && 0 <= n < streams[m].pending.len() && #[trigger] streams[m].pending[n]
        == x
}

/// Draining every stream delivers, per stream key, in sequence order, never
/// behind that stream's delivered prefix, and only segments that were held.
pub proof fn lemma_drain_all_order(streams: Seq<StreamV>, now: u128, cutoff: int)
    requires
        reorderer_wf(streams),
    ensures
        ({
            let out = drain_all(streams, now, cutoff).1;
            &&& forall|a: int| 0 <= a < out.len() ==> !is_tls_sync((#[trigger] out[a]).0) && held_by(streams, out[a].0)
            &&& forall|a: int, b: int| #![trigger out[a], out[b]] 0 <= a < b < out.len() && seg_key(out[a].0) == seg_key(
                out[b].0,
            ) ==> out[a].0.sequence <= out[b].0.sequence
            &&& forall|a: int, m: int| #![trigger out[a], streams[m]] 0 <= a < out.len() && 0 <= m < streams.len()
                && streams[m].key == seg_key(out[a].0) && streams[m].last_emitted is Some ==> out[a].0.sequence
                >= streams[m].last_emitted.unwrap()
        }),
    decreases streams.len(),
{
    if streams.len() > 0 {
        let t = streams.drop_last();
        let lst = streams.last();
        let li = streams.len() - 1;
        assert(reorderer_wf(t)) by {
            assert forall|i: int, j: int| #![trigger t[i], t[j]] 0 <= i < j < t.len() implies key_lt(
                t[i].key,
                t[j].key,
            ) by {
                assert(key_lt(streams[i].key, streams[j].key));
            }
            assert forall|i: int| 0 <= i < t.len() implies stream_wf(#[trigger] t[i]) by {
                assert(t[i] == streams[i]);
            }
        }
        lemma_drain_all_order(t, now, cutoff);
        let r = drain_all(t, now, cutoff);
        assert(stream_wf(streams[li]));
        lemma_drain_loop_order(lst.pending, lst.last_emitted, lst.last_activity, now, cutoff);
        let d = drain_stream(lst, now, cutoff).1;
        let out = r.1 + d;
        assert(out == drain_all(streams, now, cutoff).1);
        assert forall|a: int| 0 <= a < d.len() implies !is_tls_sync((#[trigger] d[a]).0) && seg_key(d[a].0) == lst.key
            && held_by(streams, d[a].0) by {
            let n = choose|n: int| 0 <= n < lst.pending.len() && lst.pending[n] == d[a].0;
            assert(streams[li].pending[n] == d[a].0);
        }
        assert forall|a: int| 0 <= a < r.1.len() implies (exists|m: int| 0 <= m < t.len() && seg_key((#[trigger] r.1[a]).0)
            == t[m].key) by {
            let (m, n) = choose|m: int, n: int| 0 <= m < t.len() && 0 <= n < t[m].pending.len() && #[trigger] t[m].pending[n]
                == r.1[a].0;
            assert(stream_wf(t[m]));
        }
        assert forall|a: int| 0 <= a < out.len() implies !is_tls_sync((#[trigger] out[a]).0) && held_by(streams, out[a].0) by {
            if a < r.1.len() {
                assert(out[a] == r.1[a]);
                let (m, n) = choose|m: int, n: int| 0 <= m < t.len() && 0 <= n < t[m].pending.len() && #[trigger] t[m].pending[n]
                    == r.1[a].0;
                assert(streams[m].pending[n] == out[a].0);
            } else {
                assert(out[a] == d[a - r.1.len()]);
            }
        }
        assert forall|a: int, b: int| #![trigger out[a], out[b]] 0 <= a < b < out.len() && seg_key(out[a].0) == seg_key(
            out[b].0,
        ) implies out[a].0.sequence <= out[b].0.sequence by {
            if b < r.1.len() {
                assert(out[a] == r.1[a] && out[b] == r.1[b]);
            } else if a >= r.1.len() {
                assert(out[a] == d[a - r.1.len()] && out[b] == d[b - r.1.len()]);
            } else {
                assert(out[a] == r.1[a] && out[b] == d[b - r.1.len()]);
                let m = choose|m: int| 0 <= m < t.len() && seg_key(r.1[a].0) == t[m].key;
                assert(key_lt(streams[m].key, streams[li].key));
                lemma_key_order(streams[m].key, streams[li].key, streams[li].key);
            }
        }
        assert forall|a: int, m: int| #![trigger out[a], streams[m]] 0 <= a < out.len() && 0 <= m < streams.len()
            && streams[m].key == seg_key(out[a].0) && streams[m].last_emitted is Some implies out[a].0.sequence
            >= streams[m].last_emitted.unwrap() by {
            if a < r.1.len() {
                assert(out[a] == r.1[a]);
                let m2 = choose|m2: int| 0 <= m2 < t.len() && seg_key(r.1[a].0) == t[m2].key;
                if m == li {
                    assert(key_lt(streams[m2].key, streams[li].key));
                    lemma_key_order(streams[m2].key, streams[li].key, streams[li].key);
                } else {
                    assert(t[m] == streams[m]);
                }
            } else {
                assert(out[a] == d[a - r.1.len()]);
                if m != li {
                    if m < li {
                        assert(key_lt(streams[m].key, streams[li].key));
                    }
                    lemma_key_order(streams[m].key, streams[li].key, streams[li].key);
                }
            }
        }
    }
}

/// Every stream of `before` survives in `after` with its delivered prefix.
pub open spec fn prefixes_kept(before: Seq<StreamV>, after: Seq<StreamV>) -> bool {
    forall|m: int| 0 <= m < before.len() ==> exists|m2: int| 0 <= m2 < after.len() && #[trigger] after[m2].key
        == (#[trigger] before[m]).key && after[m2].last_emitted == before[m].last_emitted
}

/// Holding a segment changes no delivered prefix and holds nothing but
/// what was held and the new segment.
pub proof fn lemma_hold_facts(streams: Seq<StreamV>, now: u128, x: SegmentView)
    requires
        reorderer_wf(streams),
        !is_tls_sync(x),
    ensures
        prefixes_kept(streams, hold(streams, now, x)),
        forall|y: SegmentView| #[trigger] held_by(hold(streams, now, x), y) ==> y == x || held_by(streams, y),
{
    let k = seg_key(x);
    let j = stream_pos(streams, k, 0);
    lemma_stream_pos(streams, k, 0);
    let h = hold(streams, now, x);
    if j < streams.len() && streams[j].key == k {
        let st = streams[j];
        let p = st.pending;
        let q = insert_pos(p, x.sequence, 0);
        lemma_insert_pos(p, x.sequence, 0);
        let np = p.subrange(0, q).push(x) + p.subrange(q, p.len() as int);
        let nst = StreamV { pending: np, last_activity: now, ..st };
        assert(h == streams.update(j, nst));
        assert forall|m: int| 0 <= m < streams.len() implies exists|m2: int| 0 <= m2 < h.len() && #[trigger] h[m2].key
            == (#[trigger] streams[m]).key && h[m2].last_emitted == streams[m].last_emitted by {
            assert(h[m].key == streams[m].key);
        }
        assert forall|y: SegmentView| #[trigger] held_by(h, y) implies y == x || held_by(streams, y) by {
            let (m, n) = choose|m: int, n: int| 0 <= m < h.len() && 0 <= n < h[m].pending.len() && #[trigger] h[m].pending[n]
                == y;
            if m != j {
                assert(h[m] == streams[m]);
            } else if n < q {
                assert(np[n] == p[n]);
                assert(streams[j].pending[n] == y);
            } else if n > q {
                assert(np[n] == p[n - 1]);
                assert(streams[j].pending[n - 1] == y);
            }
        }
    } else {
        let nst = StreamV { key: k, pending: seq![x], last_emitted: None, last_activity: now };
        assert(h == streams.insert(j, nst));
        assert forall|m: int| 0 <= m < streams.len() implies exists|m2: int| 0 <= m2 < h.len() && #[trigger] h[m2].key
            == (#[trigger] streams[m]).key && h[m2].last_emitted == streams[m].last_emitted by {
            if m < j {
                assert(h[m] == streams[m]);
            } else {
                assert(h[m + 1] == streams[m]);
            }
        }
        assert forall|y: SegmentView| #[trigger] held_by(h, y) implies y == x || held_by(streams, y) by {
            let (m, n) = choose|m: int, n: int| 0 <= m < h.len() && 0 <= n < h[m].pending.len() && #[trigger] h[m].pending[n]
                == y;
            if m < j {
                assert(h[m] == streams[m]);
            } else if m > j {
                assert(h[m] == streams[m - 1]);
                assert(streams[m - 1].pending[n] == y);
            }
        }
    }
}

/// The synchronous TLS segments of `segs`, in arrival order, as delivered.
pub open spec fn tls_part(segs: Seq<SegmentView>) -> Seq<(SegmentView, bool)> {
    segs.filter(|s: SegmentView| is_tls_sync(s)).map_values(|s: SegmentView| (s, false))
}

/// Taking in segments delivers the synchronous TLS ones in arrival order,
/// changes no delivered prefix, and holds nothing but what was held and the
/// other new segments.
pub proof fn lemma_take_in_facts(streams: Seq<StreamV>, now: u128, segs: Seq<SegmentView>)
    requires
        reorderer_wf(streams),
    ensures
        take_in(streams, now, segs).1 == tls_part(segs),
        prefixes_kept(streams, take_in(streams, now, segs).0),
        forall|y: SegmentView| #[trigger] held_by(take_in(streams, now, segs).0, y) ==> segs.contains(y) || held_by(
            streams,
            y,
        ),
    decreases segs.len(),
{
    reveal_with_fuel(Seq::<_>::filter, 1);
    if segs.len() == 0 {
        assert(tls_part(segs) =~= Seq::<(SegmentView, bool)>::empty());
        assert forall|m: int| 0 <= m < streams.len() implies exists|m2: int| 0 <= m2 < streams.len()
            && #[trigger] streams[m2].key == (#[trigger] streams[m]).key && streams[m2].last_emitted
            == streams[m].last_emitted by {
            assert(streams[m].key == streams[m].key);
        }
    } else {
        let init = segs.drop_last();
        let x = segs.last();
        lemma_take_in_facts(streams, now, init);
        lemma_take_in_wf(streams, now, init);
        let r = take_in(streams, now, init);
        let f = |s: SegmentView| is_tls_sync(s);
        assert(segs.filter(f) == if f(x) { init.filter(f).push(x) } else { init.filter(f) });
        if is_tls_sync(x) {
            assert(tls_part(segs) =~= tls_part(init).push((x, false)));
            assert forall|y: SegmentView| #[trigger] held_by(r.0, y) implies segs.contains(y) || held_by(streams, y) by {
                if init.contains(y) {
                    let i = choose|i: int| 0 <= i < init.len() && init[i] == y;
                    assert(segs[i] == y);
                }
            }
        } else {
            assert(tls_part(segs) =~= tls_part(init));
            lemma_hold_facts(r.0, now, x);
            let h = hold(r.0, now, x);
            assert forall|m: int| 0 <= m < streams.len() implies exists|m2: int| 0 <= m2 < h.len() && #[trigger] h[m2].key
                == (#[trigger] streams[m]).key && h[m2].last_emitted == streams[m].last_emitted by {
                let m1 = choose|m1: int| 0 <= m1 < r.0.len() && #[trigger] r.0[m1].key == streams[m].key
                    && r.0[m1].last_emitted == streams[m].last_emitted;
                assert(r.0[m1].key == r.0[m1].key);
                let m2 = choose|m2: int| 0 <= m2 < h.len() && #[trigger] h[m2].key == (#[trigger] r.0[m1]).key
                    && h[m2].last_emitted == r.0[m1].last_emitted;
            }
            assert forall|y: SegmentView| #[trigger] held_by(h, y) implies segs.contains(y) || held_by(streams, y) by {
                if y == x {
                    assert(segs[segs.len() - 1] == y);
                } else {
                    assert(held_by(r.0, y));
                    if init.contains(y) {
                        let i = choose|i: int| 0 <= i < init.len() && init[i] == y;
                        assert(segs[i] == y);
                    }
                }
            }
        }
    }
}

proof fn lemma_filter_subset(s: Seq<SegmentView>, f: spec_fn(SegmentView) -> bool)
    ensures
        forall|i: int| 0 <= i < s.filter(f).len() ==> s.contains(#[trigger] s.filter(f)[i]),
    decreases s.len(),
{
    reveal_with_fuel(Seq::<_>::filter, 1);
    if s.len() > 0 {
        let t = s.drop_last();
        lemma_filter_subset(t, f);
        assert forall|i: int| 0 <= i < s.filter(f).len() implies s.contains(#[trigger] s.filter(f)[i]) by {
            if i < t.filter(f).len() {
                assert(s.filter(f)[i] == t.filter(f)[i]);
                let j = choose|j: int| 0 <= j < t.len() && t[j] == t.filter(f)[i];
                assert(s[j] == t[j]);
            } else {
                assert(s.filter(f)[i] == s[s.len() - 1]);
            }
        }
    }
}

proof fn lemma_filter_all(s: Seq<(SegmentView, bool)>, f: spec_fn((SegmentView, bool)) -> bool)
    requires
        forall|i: int| 0 <= i < s.len() ==> f(#[trigger] s[i]),
    ensures
        s.filter(f) == s,
    decreases s.len(),
{
    reveal_with_fuel(Seq::<_>::filter, 1);
    if s.len() > 0 {
        lemma_filter_all(s.drop_last(), f);
        assert(s.drop_last().push(s.last()) =~= s);
    }
}

proof fn lemma_filter_none(s: Seq<(SegmentView, bool)>, f: spec_fn((SegmentView, bool)) -> bool)
    requires
        forall|i: int| 0 <= i < s.len() ==> !f(#[trigger] s[i]),
    ensures
        s.filter(f) == Seq::<(SegmentView, bool)>::empty(),
    decreases s.len(),
{
    reveal_with_fuel(Seq::<_>::filter, 1);
    if s.len() > 0 {
        lemma_filter_none(s.drop_last(), f);
    }
}

/// Law: one call of `admit_segments` on a well-formed reorderer delivers
/// - the synchronous TLS segments it was given, in the order given;
/// - for each other stream, segments in nondecreasing sequence order, none
///   behind the sequence that stream had delivered before;
/// - nothing that was neither given now nor held before.
pub proof fn law_admit_delivers_in_capture_order(streams: Seq<StreamV>, now: u128, segs: Seq<SegmentView>)
    requires
        reorderer_wf(streams),
    ensures
        ({
            let out = spec_admit(streams, now, segs).1;
            &&& out.filter(|e: (SegmentView, bool)| is_tls_sync(e.0)) == tls_part(segs)
            &&& forall|a: int, b: int| #![trigger out[a], out[b]] 0 <= a < b < out.len() && !is_tls_sync(out[a].0)
                && !is_tls_sync(out[b].0) && seg_key(out[a].0) == seg_key(out[b].0) ==> out[a].0.sequence
                <= out[b].0.sequence
            &&& forall|a: int, m: int| #![trigger out[a], streams[m]] 0 <= a < out.len() && 0 <= m < streams.len()
                && !is_tls_sync(out[a].0) && streams[m].key == seg_key(out[a].0) && streams[m].last_emitted is Some
                ==> out[a].0.sequence >= streams[m].last_emitted.unwrap()
            &&& forall|a: int| 0 <= a < out.len() ==> segs.contains((#[trigger] out[a]).0) || held_by(streams, out[a].0)
        }),
{
    let g = |e: (SegmentView, bool)| is_tls_sync(e.0);
    if segs.len() == 0 && streams.len() == 0 {
        let out = spec_admit(streams, now, segs).1;
        assert(out =~= Seq::<(SegmentView, bool)>::empty());
        lemma_filter_none(out, g);
        assert(tls_part(segs) =~= Seq::<(SegmentView, bool)>::empty()) by {
            reveal_with_fuel(Seq::<_>::filter, 1);
        }
    } else {
        let c = now - REORDER_WINDOW_NS;
        lemma_take_in_wf(streams, now, segs);
        lemma_take_in_facts(streams, now, segs);
        let t = take_in(streams, now, segs);
        lemma_drain_all_order(t.0, now, c);
        let d = drain_all(t.0, now, c);
        let out = t.1 + d.1;
        assert(out == spec_admit(streams, now, segs).1);
        let tp = tls_part(segs);
        let fs = segs.filter(|s: SegmentView| is_tls_sync(s));
        assert forall|i: int| 0 <= i < tp.len() implies g(#[trigger] tp[i]) by {
            segs.lemma_filter_pred(|s: SegmentView| is_tls_sync(s), i);
            assert(tp[i] == (fs[i], false));
        }
        lemma_filter_all(tp, g);
        lemma_filter_none(d.1, g);
        Seq::filter_distributes_over_add(t.1, d.1, g);
        assert(out.filter(g) =~= tp);
        assert forall|a: int, b: int| #![trigger out[a], out[b]] 0 <= a < b < out.len() && !is_tls_sync(out[a].0)
            && !is_tls_sync(out[b].0) && seg_key(out[a].0) == seg_key(out[b].0) implies out[a].0.sequence
            <= out[b].0.sequence by {
            if a < t.1.len() {
                assert(g(tp[a]));
            } else {
                assert(out[a] == d.1[a - t.1.len()] && out[b] == d.1[b - t.1.len()]);
            }
        }
        assert forall|a: int, m: int| #![trigger out[a], streams[m]] 0 <= a < out.len() && 0 <= m < streams.len()
            && !is_tls_sync(out[a].0) && streams[m].key == seg_key(out[a].0) && streams[m].last_emitted is Some
            implies out[a].0.sequence >= streams[m].last_emitted.unwrap() by {
            if a < t.1.len() {
                assert(g(tp[a]));
            } else {
                assert(out[a] == d.1[a - t.1.len()]);
                let m2 = choose|m2: int| 0 <= m2 < t.0.len() && #[trigger] t.0[m2].key == (#[trigger] streams[m]).key
                    && t.0[m2].last_emitted == streams[m].last_emitted;
                assert(t.0[m2].key == t.0[m2].key);
            }
        }
        assert forall|a: int| 0 <= a < out.len() implies segs.contains((#[trigger] out[a]).0) || held_by(streams, out[a].0) by {
            if a < t.1.len() {
                assert(out[a] == tp[a]);
                assert(tp[a] == (fs[a], false));
                lemma_filter_subset(segs, |s: SegmentView| is_tls_sync(s));
            } else {
                assert(out[a] == d.1[a - t.1.len()]);
                assert(held_by(t.0, out[a].0));
            }
        }
    }
}

} // verus!
