//! Terminal-trace finalization: the queue of traces that ended and wait to
//! be finalized, when a queued trace is ready, and how the daemon's
//! shutdown waits for the queue to empty.
//!
//! Reading the trace runtime, draining events and sleeping are the
//! caller's; times are nanoseconds of a monotonic clock.

use vstd::prelude::*;
use crate::shutdown::ControlError;
use crate::text::{decimal, push_decimal, push_decimal_u128};

verus! {

/// The finalization queue.
pub struct FinalizationQueue {
    pending: Vec<u64>,
    queued_at: Vec<(u64, u128)>,
    finalized: Vec<u64>,
}

pub struct QueueView {
    pub pending: Seq<u64>,
    pub queued_at: Map<u64, u128>,
    pub finalized: Set<u64>,
}

pub open spec fn ids_increasing(s: Seq<u64>) -> bool {
    forall|i: int, j: int| 0 <= i < j < s.len() ==> s[i] < s[j]
}

pub open spec fn queued_map(s: Seq<(u64, u128)>) -> Map<u64, u128> {
    Map::new(
        |t: u64| exists|i: int| 0 <= i < s.len() && (#[trigger] s[i]).0 == t,
        |t: u64| s[choose|i: int| 0 <= i < s.len() && (#[trigger] s[i]).0 == t].1,
    )
}

pub open spec fn first_keys_unique(s: Seq<(u64, u128)>) -> bool {
    forall|i: int, j: int| 0 <= i < j < s.len() ==> (#[trigger] s[i]).0 != (#[trigger] s[j]).0
}

impl View for FinalizationQueue {
    type V = QueueView;

    closed spec fn view(&self) -> QueueView {
        QueueView { pending: self.pending@, queued_at: queued_map(self.queued_at@), finalized: self.finalized@.to_set() }
    }
}

/// What to do with a queued trace in this cycle.
#[derive(Clone, Copy, Debug, PartialEq, Eq, Structural)]
pub enum QueuedTraceDisposition {
    /// Finalized already, or no longer terminal: leave the queue.
    Drop,
    /// Still settling since it was queued: look again next cycle.
    Settle,
    /// Go on checking memberships, the barrier and post-trace work.
    Proceed,
}

/// A queued trace leaves the queue when it was finalized or is not
/// terminal; it waits while less than the settle delay passed since it was
/// queued.
pub open spec fn disposition_spec(finalized: bool, terminal: bool, queued_at: Option<u128>, now: u128, settle_delay: u128) -> QueuedTraceDisposition {
    if finalized || !terminal {
        QueuedTraceDisposition::Drop
    } else if queued_at matches Some(q) && (if now >= q {
        now - q
    } else {
        0
    }) < settle_delay {
        QueuedTraceDisposition::Settle
    } else {
        QueuedTraceDisposition::Proceed
    }
}

impl FinalizationQueue {
    pub closed spec fn wf(&self) -> bool {
        &&& ids_increasing(self.pending@)
        &&& first_keys_unique(self.queued_at@)
        &&& self.finalized@.no_duplicates()
    }

    pub fn new() -> (r: FinalizationQueue)
        ensures
            r.wf(),
            r@.pending == Seq::<u64>::empty(),
            r@.queued_at == Map::<u64, u128>::empty(),
            r@.finalized == Set::<u64>::empty(),
    {
        let r = FinalizationQueue { pending: Vec::new(), queued_at: Vec::new(), finalized: Vec::new() };
        assert(queued_map(r.queued_at@) =~= Map::<u64, u128>::empty());
        assert(r.finalized@.to_set() =~= Set::<u64>::empty());
        r
    }

    /// The queued traces, in id order.
    pub fn pending(&self) -> (r: &[u64])
        ensures
            r@ == self@.pending,
    {
        self.pending.as_slice()
    }

    pub fn is_finalized(&self, trace_id: u64) -> (r: bool)
        ensures
            r == self@.finalized.contains(trace_id),
    {
        let mut i: usize = 0;
        while i < self.finalized.len()
            invariant
                i <= self.finalized@.len(),
                forall|k: int| 0 <= k < i ==> self.finalized@[k] != trace_id,
            decreases self.finalized@.len() - i,
        {
            if self.finalized[i] == trace_id {
                assert(self.finalized@[i as int] == trace_id);
                return true;
            }
            i += 1;
        }
        false
    }

    fn queued_position(&self, trace_id: u64) -> (r: Option<usize>)
        ensures
            match r {
                Some(i) => i < self.queued_at@.len() && self.queued_at@[i as int].0 == trace_id,
                None => !self@.queued_at.contains_key(trace_id),
            },
    {
        let mut i: usize = 0;
        while i < self.queued_at.len()
            invariant
                i <= self.queued_at@.len(),
                forall|k: int| 0 <= k < i ==> (#[trigger] self.queued_at@[k]).0 != trace_id,
            decreases self.queued_at@.len() - i,
        {
            if self.queued_at[i].0 == trace_id {
                return Some(i);
            }
            i += 1;
        }
        None
    }

    /// When the trace was queued, if it is.
    pub fn queued_at(&self, trace_id: u64) -> (r: Option<u128>)
        requires
            self.wf(),
        ensures
            r == (if self@.queued_at.contains_key(trace_id) {
                Some(self@.queued_at[trace_id])
            } else {
                None
            }),
    {
        match self.queued_position(trace_id) {
            Some(i) => {
                proof {
                    let s = self.queued_at@;
                    let j = choose|j: int| 0 <= j < s.len() && (#[trigger] s[j]).0 == trace_id;
                    if j != i {
                        if j < i {
                            assert(s[j].0 != s[i as int].0);
                        } else {
                            assert(s[i as int].0 != s[j].0);
                        }
                    }
                }
                Some(self.queued_at[i].1)
            },
            None => None,
        }
    }

    /// Queues the trace, keeping when it was first queued.
    pub fn queue_terminal_finalization(&mut self, trace_id: u64, now: u128)
        requires
            old(self).wf(),
        ensures
            final(self).wf(),
            final(self)@.pending.to_set() == old(self)@.pending.to_set().insert(trace_id),
            final(self)@.queued_at == if old(self)@.queued_at.contains_key(trace_id) {
                old(self)@.queued_at
            } else {
                old(self)@.queued_at.insert(trace_id, now)
            },
            final(self)@.finalized == old(self)@.finalized,
    {
        let mut p: usize = 0;
        while p < self.pending.len() && self.pending[p] < trace_id
            invariant
                p <= self.pending@.len(),
                forall|k: int| 0 <= k < p ==> self.pending@[k] < trace_id,
            decreases self.pending@.len() - p,
        {
            p += 1;
        }
        let ghost before = self.pending@;
        if p == self.pending.len() || self.pending[p] != trace_id {
            self.pending.insert(p, trace_id);
            proof {
                let after = self.pending@;
                assert(after =~= before.insert(p as int, trace_id));
                assert forall|a: int, b: int| 0 <= a < b < after.len() implies after[a] < after[b] by {
                    if a < p && b == p {
                    } else if a == p {
                        assert(after[b] == before[b - 1]);
                    } else if a < p && b > p {
                        assert(after[b] == before[b - 1]);
                    } else if a > p {
                        assert(after[a] == before[a - 1] && after[b] == before[b - 1]);
                    }
                }
                assert forall|x: u64| #[trigger] after.contains(x) <==> (before.contains(x) || x == trace_id) by {
                    if after.contains(x) {
                        let k = choose|k: int| 0 <= k < after.len() && after[k] == x;
                        if k < p {
                            assert(before[k] == x);
                        } else if k > p {
                            assert(before[k - 1] == x);
                        }
                    }
                    if before.contains(x) {
                        let k = choose|k: int| 0 <= k < before.len() && before[k] == x;
                        if k < p {
                            assert(after[k] == x);
                        } else {
                            assert(after[k + 1] == x);
                        }
                    }
                    if x == trace_id {
                        assert(after[p as int] == x);
                    }
                }
                assert(after.to_set() =~= before.to_set().insert(trace_id));
            }
        } else {
            assert(before[p as int] == trace_id);
            assert(before.to_set().insert(trace_id) =~= before.to_set());
        }
        match self.queued_position(trace_id) {
            Some(_) => {},
            None => {
                let ghost qb = self.queued_at@;
                self.queued_at.push((trace_id, now));
                proof {
                    let qa = self.queued_at@;
                    assert forall|a: int, b: int| 0 <= a < b < qa.len() implies (#[trigger] qa[a]).0 != (#[trigger] qa[b]).0 by {
                        if b == qb.len() {
                            assert(qa[a] == qb[a]);
                        } else {
                            assert(qa[a] == qb[a] && qa[b] == qb[b]);
                        }
                    }
                    assert forall|t: u64| #[trigger] queued_map(qa).contains_key(t) <==> queued_map(qb).insert(trace_id, now).contains_key(t) by {
                        if queued_map(qb).contains_key(t) {
                            let k = choose|k: int| 0 <= k < qb.len() && (#[trigger] qb[k]).0 == t;
                            assert(qa[k].0 == t);
                        }
                        if t == trace_id {
                            assert(qa[qb.len() as int].0 == t);
                        }
                        if queued_map(qa).contains_key(t) && t != trace_id {
                            let k = choose|k: int| 0 <= k < qa.len() && (#[trigger] qa[k]).0 == t;
                            assert(qb[k].0 == t);
                        }
                    }
                    assert forall|t: u64| #[trigger] queued_map(qa).contains_key(t) implies queued_map(qa)[t] == queued_map(qb).insert(
                        trace_id,
                        now,
                    )[t] by {
                        let k = choose|k: int| 0 <= k < qa.len() && (#[trigger] qa[k]).0 == t;
                        if t == trace_id {
                            assert(qa[qb.len() as int].0 == t);
                            if k != qb.len() {
                                assert(qa[k] == qb[k]);
                            }
                        } else {
                            assert(qa[k] == qb[k]);
                            let k2 = choose|k2: int| 0 <= k2 < qb.len() && (#[trigger] qb[k2]).0 == t;
                            if k2 != k {
                                if k2 < k {
                                    assert(qb[k2].0 != qb[k].0);
                                } else {
                                    assert(qb[k].0 != qb[k2].0);
                                }
                            }
                        }
                    }
                    assert(queued_map(qa) =~= queued_map(qb).insert(trace_id, now));
                }
            },
        }
    }

    /// Queues the trace when it is terminal and not finalized yet.
    pub fn enqueue_if_terminal(&mut self, trace_id: u64, terminal: bool, now: u128)
        requires
            old(self).wf(),
        ensures
            final(self).wf(),
            terminal && !old(self)@.finalized.contains(trace_id) ==> {
                &&& final(self)@.pending.to_set() == old(self)@.pending.to_set().insert(trace_id)
                &&& final(self)@.queued_at == if old(self)@.queued_at.contains_key(trace_id) {
                    old(self)@.queued_at
                } else {
                    old(self)@.queued_at.insert(trace_id, now)
                }
                &&& final(self)@.finalized == old(self)@.finalized
            },
            !(terminal && !old(self)@.finalized.contains(trace_id)) ==> final(self)@ == old(self)@,
    {
        if terminal && !self.is_finalized(trace_id) {
            self.queue_terminal_finalization(trace_id, now);
        }
    }

    /// What to do with queued trace `trace_id` at `now`.
    pub fn disposition(&self, trace_id: u64, terminal: bool, now: u128, settle_delay: u128) -> (r: QueuedTraceDisposition)
        requires
            self.wf(),
        ensures
            r == disposition_spec(
                self@.finalized.contains(trace_id),
                terminal,
                if self@.queued_at.contains_key(trace_id) {
                    Some(self@.queued_at[trace_id])
                } else {
                    None
                },
                now,
                settle_delay,
            ),
    {
        if self.is_finalized(trace_id) || !terminal {
            return QueuedTraceDisposition::Drop;
        }
        match self.queued_at(trace_id) {
            Some(q) => {
                let elapsed = if now >= q {
                    now - q
                } else {
                    0
                };
                if elapsed < settle_delay {
                    QueuedTraceDisposition::Settle
                } else {
                    QueuedTraceDisposition::Proceed
                }
            },
            None => QueuedTraceDisposition::Proceed,
        }
    }

    fn unqueue(&mut self, trace_id: u64)
        requires
            old(self).wf(),
        ensures
            final(self).wf(),
            final(self)@.pending.to_set() == old(self)@.pending.to_set().remove(trace_id),
            final(self)@.queued_at == old(self)@.queued_at.remove(trace_id),
            final(self)@.finalized == old(self)@.finalized,
    {
        let mut p: usize = 0;
        while p < self.pending.len() && self.pending[p] != trace_id
            invariant
                p <= self.pending@.len(),
                forall|k: int| 0 <= k < p ==> self.pending@[k] != trace_id,
            decreases self.pending@.len() - p,
        {
            p += 1;
        }
        let ghost before = self.pending@;
        if p < self.pending.len() {
            self.pending.remove(p);
            proof {
                let after = self.pending@;
                assert(after =~= before.remove(p as int));
                assert forall|a: int, b: int| 0 <= a < b < after.len() implies after[a] < after[b] by {
                    let a2 = if a < p { a } else { a + 1 };
                    let b2 = if b < p { b } else { b + 1 };
                    assert(after[a] == before[a2] && after[b] == before[b2]);
                }
                assert forall|x: u64| #[trigger] after.contains(x) <==> (before.contains(x) && x != trace_id) by {
                    if after.contains(x) {
                        let k = choose|k: int| 0 <= k < after.len() && after[k] == x;
                        let k2 = if k < p { k } else { k + 1 };
                        assert(before[k2] == x);
                        if x == trace_id {
                            if k2 < p {
                            } else {
                                assert(before[p as int] < before[k2]);
                            }
                        }
                    }
                    if before.contains(x) && x != trace_id {
                        let k = choose|k: int| 0 <= k < before.len() && before[k] == x;
                        if k < p {
                            assert(after[k] == x);
                        } else {
                            assert(k != p);
                            assert(after[k - 1] == x);
                        }
                    }
                }
                assert(after.to_set() =~= before.to_set().remove(trace_id));
            }
        } else {
            assert(before.to_set().remove(trace_id) =~= before.to_set());
        }
        match self.queued_position(trace_id) {
            Some(i) => {
                let ghost qb = self.queued_at@;
                self.queued_at.remove(i);
                proof {
                    let qa = self.queued_at@;
                    assert(qa =~= qb.remove(i as int));
                    assert forall|a: int, b: int| 0 <= a < b < qa.len() implies (#[trigger] qa[a]).0 != (#[trigger] qa[b]).0 by {
                        let a2 = if a < i { a } else { a + 1 };
                        let b2 = if b < i { b } else { b + 1 };
                        assert(qa[a] == qb[a2] && qa[b] == qb[b2]);
                    }
                    assert forall|t: u64| #[trigger] queued_map(qa).contains_key(t) <==> queued_map(qb).remove(trace_id).contains_key(t) by {
                        if queued_map(qa).contains_key(t) {
                            let k = choose|k: int| 0 <= k < qa.len() && (#[trigger] qa[k]).0 == t;
                            let k2 = if k < i { k } else { k + 1 };
                            assert(qb[k2].0 == t);
                            if t == trace_id {
                                assert(k2 != i);
                                if k2 < i {
                                    assert(qb[k2].0 != qb[i as int].0);
                                } else {
                                    assert(qb[i as int].0 != qb[k2].0);
                                }
                            }
                        }
                        if queued_map(qb).contains_key(t) && t != trace_id {
                            let k = choose|k: int| 0 <= k < qb.len() && (#[trigger] qb[k]).0 == t;
                            assert(k != i);
                            if k < i {
                                assert(qa[k].0 == t);
                            } else {
                                assert(qa[k - 1].0 == t);
                            }
                        }
                    }
                    assert forall|t: u64| #[trigger] queued_map(qa).contains_key(t) implies queued_map(qa)[t] == queued_map(qb)[t] by {
                        let k = choose|k: int| 0 <= k < qa.len() && (#[trigger] qa[k]).0 == t;
                        let k2 = if k < i { k } else { k + 1 };
                        assert(qa[k] == qb[k2]);
                        let k3 = choose|k3: int| 0 <= k3 < qb.len() && (#[trigger] qb[k3]).0 == t;
                        if k3 != k2 {
                            if k3 < k2 {
                                assert(qb[k3].0 != qb[k2].0);
                            } else {
                                assert(qb[k2].0 != qb[k3].0);
                            }
                        }
                    }
                    assert(queued_map(qa) =~= queued_map(qb).remove(trace_id));
                }
            },
            None => {
                assert(self@.queued_at.remove(trace_id) =~= self@.queued_at);
            },
        }
    }

    /// Takes a trace that was finalized already, or is no longer
    /// terminal, off the queue.
    pub fn drop_trace(&mut self, trace_id: u64)
        requires
            old(self).wf(),
        ensures
            final(self).wf(),
            final(self)@.pending.to_set() == old(self)@.pending.to_set().remove(trace_id),
            final(self)@.queued_at == old(self)@.queued_at.remove(trace_id),
            final(self)@.finalized == old(self)@.finalized,
    {
        self.unqueue(trace_id);
    }

    /// Records a finalized trace and takes it off the queue.
    pub fn complete_trace(&mut self, trace_id: u64)
        requires
            old(self).wf(),
        ensures
            final(self).wf(),
            final(self)@.pending.to_set() == old(self)@.pending.to_set().remove(trace_id),
            final(self)@.queued_at == old(self)@.queued_at.remove(trace_id),
            final(self)@.finalized == old(self)@.finalized.insert(trace_id),
    {
        self.unqueue(trace_id);
        if !self.is_finalized(trace_id) {
            let ghost before = self.finalized@;
            self.finalized.push(trace_id);
            proof {
                let after = self.finalized@;
                assert forall|x: u64| #[trigger] after.contains(x) <==> (before.contains(x) || x == trace_id) by {
                    if after.contains(x) {
                        let k = choose|k: int| 0 <= k < after.len() && after[k] == x;
                        if k < before.len() {
                            assert(before[k] == x);
                        }
                    }
                    if before.contains(x) {
                        let k = choose|k: int| 0 <= k < before.len() && before[k] == x;
                        assert(after[k] == x);
                    }
                    if x == trace_id {
                        assert(after[before.len() as int] == x);
                    }
                }
                assert(after.to_set() =~= before.to_set().insert(trace_id));
                assert forall|a: int, b: int| 0 <= a < b < after.len() implies after[a] != after[b] by {
                    if b == before.len() {
                        assert(before.contains(before[a]));
                    } else {
                        assert(before[a] == after[a] && before[b] == after[b]);
                    }
                }
            }
        } else {
            assert(self@.finalized.insert(trace_id) =~= self@.finalized);
        }
    }
}

/// The text of trace ids joined by commas.
pub open spec fn id_list(ids: Seq<u64>) -> Seq<char>
    decreases ids.len(),
{
    if ids.len() == 0 {
        Seq::empty()
    } else if ids.len() == 1 {
        decimal(ids[0] as nat)
    } else {
        id_list(ids.drop_last()) + ","@ + decimal(ids.last() as nat)
    }
}

/// The message of a shutdown that gave up on pending finalizations.
pub open spec fn pending_message(pending: Seq<u64>, elapsed_ms: u128) -> Seq<char> {
    "daemon shutdown left "@ + decimal(pending.len()) + " terminal trace(s) pending after "@ + decimal(elapsed_ms as nat)
        + "ms: "@ + id_list(pending)
}

/// The error of a shutdown that gave up on the pending finalizations
/// after `elapsed_ms`.
pub fn pending_finalizations_error(pending: &[u64], elapsed_ms: u128) -> (e: ControlError)
    ensures
        e.code@ == "trace_finalization_shutdown_timeout"@,
        e.message@ == pending_message(pending@, elapsed_ms),
{
    let mut m = String::from_str("daemon shutdown left ");
    push_decimal(&mut m, pending.len() as u64);
    m.append(" terminal trace(s) pending after ");
    push_decimal_u128(&mut m, elapsed_ms);
    m.append("ms: ");
    let ghost head = m@;
    let mut i: usize = 0;
    assert(pending@.subrange(0, 0) =~= Seq::<u64>::empty());
    while i < pending.len()
        invariant
            i <= pending@.len(),
            m@ == head + id_list(pending@.subrange(0, i as int)),
        decreases pending@.len() - i,
    {
        let ghost before = m@;
        assert(pending@.subrange(0, i as int + 1).drop_last() =~= pending@.subrange(0, i as int));
        if i > 0 {
            m.append(",");
        }
        push_decimal(&mut m, pending[i]);
        proof {
            if i == 0 {
                assert(pending@.subrange(0, 1).len() == 1);
                assert(m@ =~= head + id_list(pending@.subrange(0, 1)));
            } else {
                assert(m@ =~= head + id_list(pending@.subrange(0, i as int + 1)));
            }
        }
        i += 1;
    }
    assert(pending@.subrange(0, pending@.len() as int) =~= pending@);
    ControlError { code: String::from_str("trace_finalization_shutdown_timeout"), message: m }
}

/// What the shutdown's wait for pending finalizations does next.
#[derive(Clone, Copy, Debug, PartialEq, Eq, Structural)]
pub enum FinalizationWait {
    /// Nothing is pending: the wait is over.
    Done,
    /// The timeout passed: fail with the pending traces.
    TimedOut,
    /// Drain events (and so progress finalizations), then decide again.
    Drain,
    /// Progress was made: drain again at once.
    Retry,
    /// No progress: wait this long (nanoseconds; zero means yield), then
    /// drain again.
    Sleep(u128),
}

/// Before a drain: done when nothing is pending and no trace is terminal;
/// timed out once the timeout passed; otherwise drain.
pub fn before_drain(pending_count: usize, terminal_count: usize, elapsed: u128, timeout: u128) -> (r: FinalizationWait)
    ensures
        r == if pending_count == 0 && terminal_count == 0 {
            FinalizationWait::Done
        } else if elapsed >= timeout {
            FinalizationWait::TimedOut
        } else {
            FinalizationWait::Drain
        },
{
    if pending_count == 0 && terminal_count == 0 {
        FinalizationWait::Done
    } else if elapsed >= timeout {
        FinalizationWait::TimedOut
    } else {
        FinalizationWait::Drain
    }
}

/// After a drain: done when nothing is pending; timed out once the timeout
/// passed; at once again when fewer traces are pending than before;
/// otherwise a sleep of the poll interval, cut to what is left of the
/// timeout. The second value is the pending count to compare with next.
pub fn after_drain(pending_count: usize, previous_pending_count: usize, elapsed: u128, timeout: u128, poll_interval: u128) -> (r: (
    FinalizationWait,
    usize,
))
    ensures
        r.0 == if pending_count == 0 {
            FinalizationWait::Done
        } else if elapsed >= timeout {
            FinalizationWait::TimedOut
        } else if pending_count < previous_pending_count {
            FinalizationWait::Retry
        } else {
            FinalizationWait::Sleep(
                if poll_interval < timeout - elapsed {
                    poll_interval
                } else {
                    (timeout - elapsed) as u128
                },
            )
        },
        r.0 is Retry || r.0 is Sleep ==> r.1 == pending_count,
        !(r.0 is Retry || r.0 is Sleep) ==> r.1 == previous_pending_count,
{
    if pending_count == 0 {
        return (FinalizationWait::Done, previous_pending_count);
    }
    if elapsed >= timeout {
        return (FinalizationWait::TimedOut, previous_pending_count);
    }
    if pending_count < previous_pending_count {
        return (FinalizationWait::Retry, pending_count);
    }
    let remaining = timeout - elapsed;
    let sleep_for = if poll_interval < remaining {
        poll_interval
    } else {
        remaining
    };
    (FinalizationWait::Sleep(sleep_for), pending_count)
}

/// Law: the wait never sleeps past the timeout.
pub proof fn law_finalization_wait_stays_within_timeout(
    pending_count: usize,
    previous_pending_count: usize,
    elapsed: u128,
    timeout: u128,
    poll_interval: u128,
    sleep_for: u128,
)
    requires
        (if pending_count == 0 {
            FinalizationWait::Done
        } else if elapsed >= timeout {
            FinalizationWait::TimedOut
        } else if pending_count < previous_pending_count {
            FinalizationWait::Retry
        } else {
            FinalizationWait::Sleep(
                if poll_interval < timeout - elapsed {
                    poll_interval
                } else {
                    (timeout - elapsed) as u128
                },
            )
        }) == FinalizationWait::Sleep(sleep_for),
    ensures
        elapsed + sleep_for <= timeout,
        sleep_for <= poll_interval,
{
}

} // verus!
