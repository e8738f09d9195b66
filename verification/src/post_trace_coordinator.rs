//! Bookkeeping of post-trace analysis tasks: which tasks of a finished trace
//! are admitted, which run (with the trace lease each holds), which waited
//! too long for admission or did not stop in time, and which traces passed
//! their barrier.
//!
//! Acquiring and releasing trace leases and handing tasks to plugins is the
//! caller's work; it reports what came of it through
//! [`PostTraceCoordinator::finish_task_admission`] and
//! [`PostTraceCoordinator::finish_completion`]. Times are nanoseconds of a
//! monotonic clock; configured timeouts are milliseconds.

use vstd::prelude::*;
use crate::order::{lemma_text_less_asymmetric, lemma_text_less_irreflexive, lemma_text_less_total, lemma_text_less_transitive, str_less, text_less};
use crate::payload::str_eq;
use crate::post_trace::texts;
use crate::shutdown::ControlError;
use crate::task_table::{lemma_task_put_in, lemma_task_put_sorted, task_drop, task_find, task_in, task_keep, task_put, task_sorted, TaskKey, TaskTable};
use crate::text::{decimal, push_decimal};

verus! {

/// A note about one task.
pub struct PostTraceIssue {
    pub trace_id: u64,
    pub instance_id: String,
    pub code: String,
    pub message: String,
}

impl View for PostTraceIssue {
    type V = (u64, Seq<char>, Seq<char>, Seq<char>);

    open spec fn view(&self) -> (u64, Seq<char>, Seq<char>, Seq<char>) {
        (self.trace_id, self.instance_id@, self.code@, self.message@)
    }
}

pub open spec fn issue_views(v: Seq<PostTraceIssue>) -> Seq<(u64, Seq<char>, Seq<char>, Seq<char>)> {
    v.map_values(|x: PostTraceIssue| x@)
}

/// What the coordinator holds.
pub struct CoordinatorView<L> {
    pub running: Seq<((u64, Seq<char>), L)>,
    pub admitted: Seq<((u64, Seq<char>), ())>,
    pub pending_since: Seq<((u64, Seq<char>), u128)>,
    pub diagnosed_admission_timeout: Seq<((u64, Seq<char>), ())>,
    pub diagnosed_drain_timeout: Seq<((u64, Seq<char>), ())>,
    pub barrier_ready: Set<u64>,
    pub admission_open: bool,
    pub max_in_flight_tasks: usize,
    pub admission_timeout_ms: u64,
    pub execution_timeout_ms: u64,
    pub shutdown_drain_timeout_ms: u64,
    pub cancellation_grace_ms: u64,
}

pub struct PostTraceCoordinator<L> {
    running: TaskTable<L>,
    admitted: TaskTable<()>,
    pending_since: TaskTable<u128>,
    diagnosed_admission_timeout: TaskTable<()>,
    diagnosed_drain_timeout: TaskTable<()>,
    barrier_ready: Vec<u64>,
    admission_open: bool,
    max_in_flight_tasks: usize,
    admission_timeout_ms: u64,
    execution_timeout_ms: u64,
    shutdown_drain_timeout_ms: u64,
    cancellation_grace_ms: u64,
}

impl<L> View for PostTraceCoordinator<L> {
    type V = CoordinatorView<L>;

    closed spec fn view(&self) -> CoordinatorView<L> {
        CoordinatorView {
            running: self.running@,
            admitted: self.admitted@,
            pending_since: self.pending_since@,
            diagnosed_admission_timeout: self.diagnosed_admission_timeout@,
            diagnosed_drain_timeout: self.diagnosed_drain_timeout@,
            barrier_ready: self.barrier_ready@.to_set(),
            admission_open: self.admission_open,
            max_in_flight_tasks: self.max_in_flight_tasks,
            admission_timeout_ms: self.admission_timeout_ms,
            execution_timeout_ms: self.execution_timeout_ms,
            shutdown_drain_timeout_ms: self.shutdown_drain_timeout_ms,
            cancellation_grace_ms: self.cancellation_grace_ms,
        }
    }
}

/// What the next step of admitting one task is.
#[derive(Clone, Copy, Debug, PartialEq, Eq, Structural)]
pub enum TaskAdmission {
    /// The task was admitted before; nothing to do.
    AlreadyAdmitted,
    /// As many tasks run as allowed; the attempt fails with
    /// [`capacity_error`].
    AtCapacity,
    /// Acquire the trace lease and hand the task to the plugin.
    Enqueue,
}

/// A plugin instance has a running task.
pub open spec fn instance_running<L>(running: Seq<((u64, Seq<char>), L)>, instance_id: Seq<char>) -> bool {
    exists|i: int| 0 <= i < running.len() && (#[trigger] running[i]).0.1 == instance_id
}

pub open spec fn admission_timeout_message(timeout_ms: u64, error: ControlError) -> Seq<char> {
    "post-trace task admission exceeded "@ + decimal(timeout_ms as nat) + "ms: "@ + error.code@ + ": "@ + error.message@
}

pub open spec fn drain_timeout_message(timeout_ms: u64) -> Seq<char> {
    "post-trace task did not stop within configured drain timeout "@ + decimal(timeout_ms as nat) + "ms"@
}

/// Diagnosing the running tasks from position `i` on that `instance`
/// (or any, when none is named) selects; a task is reported the first time
/// only.
pub open spec fn drain_diagnosis<L>(
    running: Seq<((u64, Seq<char>), L)>,
    diagnosed: Seq<((u64, Seq<char>), ())>,
    instance: Option<Seq<char>>,
    timeout_ms: u64,
    i: int,
) -> (Seq<((u64, Seq<char>), ())>, Seq<(u64, Seq<char>, Seq<char>, Seq<char>)>)
    decreases running.len() - i,
{
    if i < 0 || i >= running.len() {
        (diagnosed, Seq::empty())
    } else {
        let k = running[i].0;
        let selected = match instance {
            Some(x) => k.1 == x,
            None => true,
        };
        if selected && !task_in(diagnosed, k) {
            let (d, issues) = drain_diagnosis(running, task_put(diagnosed, k, ()), instance, timeout_ms, i + 1);
            (d, seq![(k.0, k.1, "post_trace_drain_timeout"@, drain_timeout_message(timeout_ms))] + issues)
        } else {
            drain_diagnosis(running, diagnosed, instance, timeout_ms, i + 1)
        }
    }
}

/// The capacity refusal of an admission attempt.
pub fn capacity_error() -> (e: ControlError)
    ensures
        e.code@ == "post_trace_capacity"@,
        e.message@ == "post-trace in-flight task capacity is full"@,
{
    ControlError {
        code: String::from_str("post_trace_capacity"),
        message: String::from_str("post-trace in-flight task capacity is full"),
    }
}

fn error_text(code: &str, message: String) -> (e: ControlError)
    ensures
        e.code@ == code@,
        e.message@ == message@,
{
    ControlError { code: String::from_str(code), message }
}

/// Text order, strictly increasing.
pub open spec fn texts_sorted(s: Seq<Seq<char>>) -> bool {
    forall|i: int, j: int| 0 <= i < j < s.len() ==> text_less(#[trigger] s[i], #[trigger] s[j])
}

/// Law: a task handed out for enqueueing finds the running tasks below the
/// limit, so once it runs no more tasks run than the limit allows.
pub proof fn law_enqueued_task_fits_capacity<L>(running: Seq<((u64, Seq<char>), L)>, max_in_flight_tasks: usize, k: (u64, Seq<char>), lease: L)
    requires
        task_sorted(running),
        running.len() < max_in_flight_tasks,
    ensures
        task_put(running, k, lease).len() <= max_in_flight_tasks,
{
    crate::task_table::lemma_task_lower_bound_bounds(running, k);
}

pub open spec fn drain_selected(k: (u64, Seq<char>), instance: Option<Seq<char>>) -> bool {
    match instance {
        Some(x) => k.1 == x,
        None => true,
    }
}

proof fn lemma_drain_covers<L>(
    running: Seq<((u64, Seq<char>), L)>,
    d: Seq<((u64, Seq<char>), ())>,
    instance: Option<Seq<char>>,
    timeout_ms: u64,
    i: int,
)
    requires
        task_sorted(d),
        0 <= i,
    ensures
        task_sorted(drain_diagnosis(running, d, instance, timeout_ms, i).0),
        forall|x: (u64, Seq<char>)| task_in(d, x) ==> #[trigger] task_in(drain_diagnosis(running, d, instance, timeout_ms, i).0, x),
        forall|j: int| i <= j < running.len() && drain_selected(running[j].0, instance) ==> #[trigger] task_in(
            drain_diagnosis(running, d, instance, timeout_ms, i).0,
            running[j].0,
        ),
    decreases running.len() - i,
{
    if i < running.len() {
        let k = running[i].0;
        if drain_selected(k, instance) && !task_in(d, k) {
            let d2 = task_put(d, k, ());
            lemma_task_put_sorted(d, k, ());
            lemma_task_put_in(d, k, ());
            lemma_drain_covers(running, d2, instance, timeout_ms, i + 1);
        } else {
            lemma_drain_covers(running, d, instance, timeout_ms, i + 1);
        }
    }
}

proof fn lemma_drain_quiet<L>(
    running: Seq<((u64, Seq<char>), L)>,
    d: Seq<((u64, Seq<char>), ())>,
    instance: Option<Seq<char>>,
    timeout_ms: u64,
    i: int,
)
    requires
        0 <= i,
        forall|j: int| i <= j < running.len() && drain_selected(running[j].0, instance) ==> #[trigger] task_in(d, running[j].0),
    ensures
        drain_diagnosis(running, d, instance, timeout_ms, i).1.len() == 0,
    decreases running.len() - i,
{
    if i < running.len() {
        lemma_drain_quiet(running, d, instance, timeout_ms, i + 1);
    }
}

/// Law: a running task is reported as overdue at most once: diagnosing the
/// same running tasks again reports nothing new.
pub proof fn law_drain_timeout_reported_once<L>(
    running: Seq<((u64, Seq<char>), L)>,
    diagnosed: Seq<((u64, Seq<char>), ())>,
    instance: Option<Seq<char>>,
    timeout_ms: u64,
)
    requires
        task_sorted(diagnosed),
    ensures
        drain_diagnosis(running, drain_diagnosis(running, diagnosed, instance, timeout_ms, 0).0, instance, timeout_ms, 0).1.len()
            == 0,
{
    lemma_drain_covers(running, diagnosed, instance, timeout_ms, 0);
    let d1 = drain_diagnosis(running, diagnosed, instance, timeout_ms, 0).0;
    lemma_drain_quiet(running, d1, instance, timeout_ms, 0);
}

impl<L> PostTraceCoordinator<L> {
    pub closed spec fn wf(&self) -> bool {
        &&& self.running.wf()
        &&& self.admitted.wf()
        &&& self.pending_since.wf()
        &&& self.diagnosed_admission_timeout.wf()
        &&& self.diagnosed_drain_timeout.wf()
        &&& self.barrier_ready@.no_duplicates()
    }

    /// A coordinator with no task, admission open. The shutdown drain
    /// timeout must exceed the broker's reply timeout, and the task limit
    /// must fit the machine.
    pub fn new(
        shutdown_drain_timeout_ms: u64,
        broker_reply_timeout_ms: u64,
        max_in_flight_tasks: u64,
        admission_timeout_ms: u64,
        execution_timeout_ms: u64,
    ) -> (r: Result<PostTraceCoordinator<L>, ControlError>)
        ensures
            shutdown_drain_timeout_ms <= broker_reply_timeout_ms ==> (r matches Err(e) && e.code@ == "post_trace_config"@
                && e.message@ == "shutdown drain timeout must exceed broker reply timeout"@),
            shutdown_drain_timeout_ms > broker_reply_timeout_ms && max_in_flight_tasks > usize::MAX ==> (r matches Err(e)
                && e.code@ == "post_trace_config"@ && e.message@
                == "max in-flight task count overflow: out of range integral type conversion attempted"@),
            shutdown_drain_timeout_ms > broker_reply_timeout_ms && max_in_flight_tasks <= usize::MAX ==> (r matches Ok(c) && {
                &&& c.wf()
                &&& c@.running.len() == 0
                &&& c@.admitted.len() == 0
                &&& c@.pending_since.len() == 0
                &&& c@.diagnosed_admission_timeout.len() == 0
                &&& c@.diagnosed_drain_timeout.len() == 0
                &&& c@.barrier_ready == Set::<u64>::empty()
                &&& c@.admission_open
                &&& c@.max_in_flight_tasks == max_in_flight_tasks
                &&& c@.admission_timeout_ms == admission_timeout_ms
                &&& c@.execution_timeout_ms == execution_timeout_ms
                &&& c@.shutdown_drain_timeout_ms == shutdown_drain_timeout_ms
                &&& c@.cancellation_grace_ms == broker_reply_timeout_ms
            }),
    {
        if shutdown_drain_timeout_ms <= broker_reply_timeout_ms {
            return Err(
                error_text("post_trace_config", String::from_str("shutdown drain timeout must exceed broker reply timeout")),
            );
        }
        if max_in_flight_tasks > usize::MAX as u64 {
            return Err(
                error_text(
                    "post_trace_config",
                    String::from_str("max in-flight task count overflow: out of range integral type conversion attempted"),
                ),
            );
        }
        let c = PostTraceCoordinator {
            running: TaskTable::new(),
            admitted: TaskTable::new(),
            pending_since: TaskTable::new(),
            diagnosed_admission_timeout: TaskTable::new(),
            diagnosed_drain_timeout: TaskTable::new(),
            barrier_ready: Vec::new(),
            admission_open: true,
            max_in_flight_tasks: max_in_flight_tasks as usize,
            admission_timeout_ms,
            execution_timeout_ms,
            shutdown_drain_timeout_ms,
            cancellation_grace_ms: broker_reply_timeout_ms,
        };
        assert(c.barrier_ready@.to_set() =~= Set::<u64>::empty());
        Ok(c)
    }

    /// The trace's post-trace barrier has passed.
    pub fn barrier_ready(&self, trace_id: u64) -> (r: bool)
        ensures
            r == self@.barrier_ready.contains(trace_id),
    {
        let mut i: usize = 0;
        while i < self.barrier_ready.len()
            invariant
                i <= self.barrier_ready@.len(),
                forall|k: int| 0 <= k < i ==> self.barrier_ready@[k] != trace_id,
            decreases self.barrier_ready@.len() - i,
        {
            if self.barrier_ready[i] == trace_id {
                assert(self.barrier_ready@[i as int] == trace_id);
                return true;
            }
            i += 1;
        }
        false
    }

    pub fn has_running_tasks(&self) -> (r: bool)
        ensures
            r == (self@.running.len() > 0),
    {
        self.running.len() > 0
    }

    /// A task of the plugin instance runs.
    pub fn has_running_tasks_for(&self, instance_id: &str) -> (r: bool)
        ensures
            r == instance_running(self@.running, instance_id@),
    {
        let mut i: usize = 0;
        while i < self.running.len()
            invariant
                i <= self@.running.len(),
                forall|k: int| 0 <= k < i ==> (#[trigger] self@.running[k]).0.1 != instance_id@,
            decreases self@.running.len() - i,
        {
            if str_eq(self.running.key_at(i).instance_id.as_str(), instance_id) {
                return true;
            }
            i += 1;
        }
        false
    }

    /// A task of the trace runs.
    pub fn has_running_tasks_for_trace(&self, trace_id: u64) -> (r: bool)
        ensures
            r == exists|i: int| 0 <= i < self@.running.len() && (#[trigger] self@.running[i]).0.0 == trace_id,
    {
        let mut i: usize = 0;
        while i < self.running.len()
            invariant
                i <= self@.running.len(),
                forall|k: int| 0 <= k < i ==> (#[trigger] self@.running[k]).0.0 != trace_id,
            decreases self@.running.len() - i,
        {
            if self.running.key_at(i).trace_id == trace_id {
                return true;
            }
            i += 1;
        }
        false
    }

    /// The plugin instances that have running tasks, each once, in text
    /// order.
    pub fn running_instance_ids(&self) -> (r: Vec<String>)
        ensures
            texts_sorted(texts(r@)),
            forall|x: Seq<char>| #[trigger] texts(r@).contains(x) <==> instance_running(self@.running, x),
    {
        let mut out: Vec<String> = Vec::new();
        let mut i: usize = 0;
        assert(texts(out@) =~= Seq::<Seq<char>>::empty());
        while i < self.running.len()
            invariant
                i <= self@.running.len(),
                texts_sorted(texts(out@)),
                forall|x: Seq<char>| #[trigger] texts(out@).contains(x) <==> exists|k: int| 0 <= k < i && (
                #[trigger] self@.running[k]).0.1 == x,
            decreases self@.running.len() - i,
        {
            let id = &self.running.key_at(i).instance_id;
            let ghost t = texts(out@);
            let mut j: usize = 0;
            while j < out.len() && str_less(out[j].as_str(), id.as_str())
                invariant
                    t == texts(out@),
                    j <= out@.len(),
                    forall|k: int| 0 <= k < j ==> text_less(#[trigger] t[k], id@),
                decreases out@.len() - j,
            {
                j += 1;
            }
            let present = j < out.len() && str_eq(out[j].as_str(), id.as_str());
            if !present {
                proof {
                    assert forall|k: int| j <= k < t.len() implies text_less(id@, #[trigger] t[k]) by {
                        lemma_text_less_total(t[j as int], id@);
                        if k > j {
                            lemma_text_less_transitive(id@, t[j as int], t[k]);
                        }
                    }
                }
                out.insert(j, id.clone());
                proof {
                    let u = texts(out@);
                    assert(u =~= t.insert(j as int, id@));
                    assert forall|a: int, b: int| 0 <= a < b < u.len() implies text_less(#[trigger] u[a], #[trigger] u[b]) by {
                        if a < j && b == j {
                        } else if a == j {
                            assert(u[b] == t[b - 1]);
                        } else if a < j && b > j {
                            assert(u[b] == t[b - 1]);
                            lemma_text_less_transitive(t[a], id@, t[b - 1]);
                        } else if a > j {
                            assert(u[a] == t[a - 1] && u[b] == t[b - 1]);
                        }
                    }
                    assert forall|x: Seq<char>| #[trigger] u.contains(x) <==> (t.contains(x) || x == id@) by {
                        if u.contains(x) {
                            let k = choose|k: int| 0 <= k < u.len() && u[k] == x;
                            if k < j {
                                assert(t[k] == x);
                            } else if k > j {
                                assert(t[k - 1] == x);
                            }
                        }
                        if t.contains(x) {
                            let k = choose|k: int| 0 <= k < t.len() && t[k] == x;
                            if k < j {
                                assert(u[k] == x);
                            } else {
                                assert(u[k + 1] == x);
                            }
                        }
                        if x == id@ {
                            assert(u[j as int] == x);
                        }
                    }
                }
            } else {
                assert(t[j as int] == id@);
            }
            proof {
                assert forall|x: Seq<char>| #[trigger] texts(out@).contains(x) <==> exists|k: int| 0 <= k < i + 1 && (
                #[trigger] self@.running[k]).0.1 == x by {
                    if x == id@ {
                        assert(self@.running[i as int].0.1 == x);
                        if present {
                            assert(texts(out@)[j as int] == x);
                        }
                    }
                    if exists|k: int| 0 <= k < i + 1 && (#[trigger] self@.running[k]).0.1 == x {
                        let k = choose|k: int| 0 <= k < i + 1 && (#[trigger] self@.running[k]).0.1 == x;
                        if k < i {
                            assert(t.contains(x));
                        }
                    }
                }
            }
            i += 1;
        }
        proof {
            assert forall|x: Seq<char>| #[trigger] texts(out@).contains(x) <==> instance_running(self@.running, x) by {
                if instance_running(self@.running, x) {
                    let k = choose|k: int| 0 <= k < self@.running.len() && (#[trigger] self@.running[k]).0.1 == x;
                    assert(exists|k2: int| 0 <= k2 < i && (#[trigger] self@.running[k2]).0.1 == x);
                }
            }
        }
        out
    }

    pub fn shutdown_drain_timeout_ms(&self) -> (r: u64)
        ensures
            r == self@.shutdown_drain_timeout_ms,
    {
        self.shutdown_drain_timeout_ms
    }

    pub fn cancellation_grace_ms(&self) -> (r: u64)
        ensures
            r == self@.cancellation_grace_ms,
    {
        self.cancellation_grace_ms
    }

    /// Refuses new tasks from now on (daemon shutdown).
    pub fn close_admission(&mut self)
        requires
            old(self).wf(),
        ensures
            final(self).wf(),
            final(self)@ == (CoordinatorView { admission_open: false, ..old(self)@ }),
    {
        self.admission_open = false;
    }

    /// Records that the trace's barrier passed.
    pub fn mark_barrier_ready(&mut self, trace_id: u64)
        requires
            old(self).wf(),
        ensures
            final(self).wf(),
            final(self)@ == (CoordinatorView { barrier_ready: old(self)@.barrier_ready.insert(trace_id), ..old(self)@ }),
    {
        if !self.barrier_ready(trace_id) {
            let ghost before = self.barrier_ready@;
            self.barrier_ready.push(trace_id);
            proof {
                assert(self.barrier_ready@ =~= before.push(trace_id));
                assert forall|y: u64| #[trigger] self.barrier_ready@.contains(y) <==> (before.contains(y) || y == trace_id) by {
                    if self.barrier_ready@.contains(y) {
                        let k = choose|k: int| 0 <= k < self.barrier_ready@.len() && self.barrier_ready@[k] == y;
                        if k < before.len() {
                            assert(before[k] == y);
                        }
                    }
                    if before.contains(y) {
                        let k = choose|k: int| 0 <= k < before.len() && before[k] == y;
                        assert(self.barrier_ready@[k] == y);
                    }
                    if y == trace_id {
                        assert(self.barrier_ready@[before.len() as int] == y);
                    }
                }
                assert(self.barrier_ready@.to_set() =~= before.to_set().insert(trace_id));
                assert forall|a: int, b: int| 0 <= a < b < self.barrier_ready@.len() implies self.barrier_ready@[a]
                    != self.barrier_ready@[b] by {
                    if b == before.len() {
                        assert(before.contains(before[a]));
                    }
                }
            }
        } else {
            assert(self.barrier_ready@.to_set().insert(trace_id) =~= self.barrier_ready@.to_set());
        }
    }

    /// Forgets a trace whose post-trace work is over: its barrier, its
    /// admitted and pending tasks, and their admission diagnoses.
    pub fn mark_trace_finalized(&mut self, trace_id: u64)
        requires
            old(self).wf(),
        ensures
            final(self).wf(),
            final(self)@ == (CoordinatorView {
                barrier_ready: old(self)@.barrier_ready.remove(trace_id),
                admitted: task_keep(old(self)@.admitted, true, trace_id, Seq::empty()),
                pending_since: task_keep(old(self)@.pending_since, true, trace_id, Seq::empty()),
                diagnosed_admission_timeout: task_keep(old(self)@.diagnosed_admission_timeout, true, trace_id, Seq::empty()),
                ..old(self)@
            }),
    {
        let ghost before = self.barrier_ready@;
        let mut i: usize = 0;
        let mut kept: Vec<u64> = Vec::new();
        while i < self.barrier_ready.len()
            invariant
                before == self.barrier_ready@,
                before.no_duplicates(),
                i <= before.len(),
                kept@.no_duplicates(),
                forall|x: u64| #[trigger] kept@.contains(x) <==> (exists|k: int| 0 <= k < i && #[trigger] before[k] == x) && x != trace_id,
            decreases before.len() - i,
        {
            let x = self.barrier_ready[i];
            let ghost kb = kept@;
            proof {
                assert(!kb.contains(x)) by {
                    if kb.contains(x) {
                        let k = choose|k: int| 0 <= k < i && #[trigger] before[k] == x;
                        assert(before[k] == before[i as int]);
                    }
                }
            }
            if x != trace_id {
                kept.push(x);
                proof {
                    assert forall|a: int, b: int| 0 <= a < b < kept@.len() implies kept@[a] != kept@[b] by {
                        if b == kb.len() {
                            assert(kb.contains(kb[a]));
                        } else {
                            assert(kb[a] == kept@[a] && kb[b] == kept@[b]);
                        }
                    }
                }
            }
            proof {
                assert forall|y: u64| #[trigger] kept@.contains(y) <==> (exists|k: int| 0 <= k < i + 1 && #[trigger] before[k] == y) && y != trace_id by {
                    if kept@.contains(y) {
                        let k = choose|k: int| 0 <= k < kept@.len() && kept@[k] == y;
                        if k < kb.len() {
                            assert(kb[k] == y);
                            assert(kb.contains(y));
                        } else {
                            assert(before[i as int] == y);
                        }
                    }
                    if (exists|k: int| 0 <= k < i + 1 && #[trigger] before[k] == y) && y != trace_id {
                        let k = choose|k: int| 0 <= k < i + 1 && #[trigger] before[k] == y;
                        if k < i {
                            assert(kb.contains(y));
                            let q = choose|q: int| 0 <= q < kb.len() && kb[q] == y;
                            assert(kept@[q] == y);
                        } else {
                            assert(kept@[kb.len() as int] == y);
                        }
                    }
                }
            }
            i += 1;
        }
        proof {
            assert forall|y: u64| #[trigger] kept@.to_set().contains(y) <==> before.to_set().remove(trace_id).contains(y) by {
                if before.contains(y) && y != trace_id {
                    let k = choose|k: int| 0 <= k < before.len() && before[k] == y;
                    assert(exists|k2: int| 0 <= k2 < i && #[trigger] before[k2] == y);
                }
            }
            assert(kept@.to_set() =~= before.to_set().remove(trace_id));
        }
        self.barrier_ready = kept;
        self.admitted.keep(true, trace_id, "");
        self.pending_since.keep(true, trace_id, "");
        self.diagnosed_admission_timeout.keep(true, trace_id, "");
        proof {
            reveal_strlit("");
            assert(""@ =~= Seq::<char>::empty());
        }
    }

    /// Forgets an unloading plugin instance's tasks; refused while one of
    /// them runs.
    pub fn forget_instance(&mut self, instance_id: &str) -> (r: Result<(), ControlError>)
        requires
            old(self).wf(),
        ensures
            final(self).wf(),
            instance_running(old(self)@.running, instance_id@) ==> {
                &&& r matches Err(e) && e.code@ == "post_trace_unload"@ && e.message@ == "plugin instance "@ + instance_id@
                    + " still has running post-trace tasks"@
                &&& final(self)@ == old(self)@
            },
            !instance_running(old(self)@.running, instance_id@) ==> {
                &&& r is Ok
                &&& final(self)@ == (CoordinatorView {
                    admitted: task_keep(old(self)@.admitted, false, 0, instance_id@),
                    pending_since: task_keep(old(self)@.pending_since, false, 0, instance_id@),
                    diagnosed_admission_timeout: task_keep(old(self)@.diagnosed_admission_timeout, false, 0, instance_id@),
                    diagnosed_drain_timeout: task_keep(old(self)@.diagnosed_drain_timeout, false, 0, instance_id@),
                    ..old(self)@
                })
            },
    {
        if self.has_running_tasks_for(instance_id) {
            let mut m = String::from_str("plugin instance ");
            m.append(instance_id);
            m.append(" still has running post-trace tasks");
            return Err(error_text("post_trace_unload", m));
        }
        self.admitted.keep(false, 0, instance_id);
        self.pending_since.keep(false, 0, instance_id);
        self.diagnosed_admission_timeout.keep(false, 0, instance_id);
        self.diagnosed_drain_timeout.keep(false, 0, instance_id);
        Ok(())
    }

    /// Reports, once each, the running tasks of `instance_id` (or all
    /// running tasks) as not having stopped within the drain timeout, in
    /// task order.
    pub fn diagnose_drain_timeout(&mut self, instance_id: Option<&str>) -> (r: Vec<PostTraceIssue>)
        requires
            old(self).wf(),
        ensures
            final(self).wf(),
            ({
                let (d, issues) = drain_diagnosis(
                    old(self)@.running,
                    old(self)@.diagnosed_drain_timeout,
                    crate::file_policy::opt_str_text(instance_id),
                    old(self)@.shutdown_drain_timeout_ms,
                    0,
                );
                &&& final(self)@ == (CoordinatorView { diagnosed_drain_timeout: d, ..old(self)@ })
                &&& issue_views(r@) == issues
            }),
    {
        let ghost target = crate::file_policy::opt_str_text(instance_id);
        let ghost m0 = self@;
        let ghost total = drain_diagnosis(m0.running, m0.diagnosed_drain_timeout, target, m0.shutdown_drain_timeout_ms, 0);
        let mut out: Vec<PostTraceIssue> = Vec::new();
        let mut i: usize = 0;
        assert(issue_views(out@) =~= Seq::<(u64, Seq<char>, Seq<char>, Seq<char>)>::empty());
        while i < self.running.len()
            invariant
                self.wf(),
                self@ == (CoordinatorView { diagnosed_drain_timeout: self@.diagnosed_drain_timeout, ..m0 }),
                target == crate::file_policy::opt_str_text(instance_id),
                i <= self@.running.len(),
                ({
                    let (d, rest) = drain_diagnosis(self@.running, self@.diagnosed_drain_timeout, target, m0.shutdown_drain_timeout_ms, i as int);
                    d == total.0 && issue_views(out@) + rest == total.1
                }),
            decreases self@.running.len() - i,
        {
            let key = self.running.key_at(i);
            let selected = match instance_id {
                Some(x) => str_eq(key.instance_id.as_str(), x),
                None => true,
            };
            let ghost k = key@;
            if selected && self.diagnosed_drain_timeout.find(key.trace_id, key.instance_id.as_str()).is_none() {
                let ghost before_out = issue_views(out@);
                let ghost before_d = self@.diagnosed_drain_timeout;
                let dup = key.duplicate();
                let trace_id = key.trace_id;
                let instance = key.instance_id.clone();
                self.diagnosed_drain_timeout.put(dup, ());
                let mut message = String::from_str("post-trace task did not stop within configured drain timeout ");
                push_decimal(&mut message, self.shutdown_drain_timeout_ms);
                message.append("ms");
                out.push(
                    PostTraceIssue {
                        trace_id,
                        instance_id: instance,
                        code: String::from_str("post_trace_drain_timeout"),
                        message,
                    },
                );
                proof {
                    assert(issue_views(out@) =~= before_out.push(
                        (k.0, k.1, "post_trace_drain_timeout"@, drain_timeout_message(m0.shutdown_drain_timeout_ms)),
                    ));
                    let (d2, rest2) = drain_diagnosis(
                        self@.running,
                        self@.diagnosed_drain_timeout,
                        target,
                        m0.shutdown_drain_timeout_ms,
                        i as int + 1,
                    );
                    assert(issue_views(out@) + rest2 =~= before_out + (seq![
                        (k.0, k.1, "post_trace_drain_timeout"@, drain_timeout_message(m0.shutdown_drain_timeout_ms)),
                    ] + rest2));
                }
            }
            i += 1;
        }
        proof {
            assert(issue_views(out@) + Seq::<(u64, Seq<char>, Seq<char>, Seq<char>)>::empty() =~= issue_views(out@));
        }
        out
    }

    /// Refuses to admit tasks once admission closed (there are tasks to
    /// admit).
    pub fn check_admission_open(&self, instance_ids: &[String]) -> (r: Result<(), ControlError>)
        ensures
            r is Err <==> (!self@.admission_open && instance_ids@.len() > 0),
            r matches Err(e) ==> e.code@ == "post_trace_closed"@ && e.message@
                == "post-trace task admission is closed during daemon shutdown"@,
    {
        if !self.admission_open && instance_ids.len() > 0 {
            return Err(
                error_text(
                    "post_trace_closed",
                    String::from_str("post-trace task admission is closed during daemon shutdown"),
                ),
            );
        }
        Ok(())
    }

    /// The first step of admitting the task (`trace_id`, `instance_id`) at
    /// time `now`: nothing when it was admitted already; otherwise it is
    /// pending from its first attempt on, and is handed out when fewer
    /// tasks than the limit run.
    pub fn begin_task_admission(&mut self, trace_id: u64, instance_id: &str, now: u128) -> (r: TaskAdmission)
        requires
            old(self).wf(),
        ensures
            final(self).wf(),
            task_in(old(self)@.admitted, (trace_id, instance_id@)) ==> r == TaskAdmission::AlreadyAdmitted && final(self)@
                == old(self)@,
            !task_in(old(self)@.admitted, (trace_id, instance_id@)) ==> {
                &&& r == if old(self)@.running.len() >= old(self)@.max_in_flight_tasks {
                    TaskAdmission::AtCapacity
                } else {
                    TaskAdmission::Enqueue
                }
                &&& final(self)@ == (CoordinatorView {
                    pending_since: if task_in(old(self)@.pending_since, (trace_id, instance_id@)) {
                        old(self)@.pending_since
                    } else {
                        task_put(old(self)@.pending_since, (trace_id, instance_id@), now)
                    },
                    ..old(self)@
                })
            },
    {
        if self.admitted.find(trace_id, instance_id).is_some() {
            return TaskAdmission::AlreadyAdmitted;
        }
        if self.pending_since.find(trace_id, instance_id).is_none() {
            self.pending_since.put(TaskKey { trace_id, instance_id: String::from_str(instance_id) }, now);
        }
        if self.running.len() >= self.max_in_flight_tasks {
            TaskAdmission::AtCapacity
        } else {
            TaskAdmission::Enqueue
        }
    }

    /// The last step of admitting a pending task: with its lease, it runs
    /// and is admitted; with the refusal, it stays pending, and the first
    /// refusal at or after the admission timeout is reported.
    pub fn finish_task_admission(&mut self, trace_id: u64, instance_id: &str, result: Result<L, ControlError>, now: u128) -> (r:
        Option<PostTraceIssue>)
        requires
            old(self).wf(),
            task_in(old(self)@.pending_since, (trace_id, instance_id@)),
        ensures
            final(self).wf(),
            ({
                let k = (trace_id, instance_id@);
                let since = old(self)@.pending_since[task_find(old(self)@.pending_since, k)->0].1;
                match result {
                    Ok(lease) => r is None && final(self)@ == (CoordinatorView {
                        running: task_put(old(self)@.running, k, lease),
                        admitted: task_put(old(self)@.admitted, k, ()),
                        pending_since: task_drop(old(self)@.pending_since, k),
                        ..old(self)@
                    }),
                    Err(e) => {
                        let elapsed = if now >= since {
                            now - since
                        } else {
                            0
                        };
                        let due = elapsed >= old(self)@.admission_timeout_ms * 1_000_000 && !task_in(
                            old(self)@.diagnosed_admission_timeout,
                            k,
                        );
                        &&& due ==> (r matches Some(issue) && issue@ == (
                            trace_id,
                            instance_id@,
                            "post_trace_admission_timeout"@,
                            admission_timeout_message(old(self)@.admission_timeout_ms, e),
                        ) && final(self)@ == (CoordinatorView {
                            diagnosed_admission_timeout: task_put(old(self)@.diagnosed_admission_timeout, k, ()),
                            ..old(self)@
                        }))
                        &&& !due ==> r is None && final(self)@ == old(self)@
                    },
                }
            }),
    {
        match result {
            Ok(lease) => {
                self.running.put(TaskKey { trace_id, instance_id: String::from_str(instance_id) }, lease);
                self.admitted.put(TaskKey { trace_id, instance_id: String::from_str(instance_id) }, ());
                self.pending_since.drop_key(trace_id, instance_id);
                None
            },
            Err(error) => {
                let p = self.pending_since.find(trace_id, instance_id).unwrap();
                let since = *self.pending_since.value_at(p);
                let elapsed = if now >= since {
                    now - since
                } else {
                    0
                };
                let timeout = self.admission_timeout_ms as u128 * 1_000_000;
                if elapsed >= timeout && self.diagnosed_admission_timeout.find(trace_id, instance_id).is_none() {
                    self.diagnosed_admission_timeout.put(TaskKey { trace_id, instance_id: String::from_str(instance_id) }, ());
                    let mut message = String::from_str("post-trace task admission exceeded ");
                    push_decimal(&mut message, self.admission_timeout_ms);
                    message.append("ms: ");
                    message.append(error.code.as_str());
                    message.append(": ");
                    message.append(error.message.as_str());
                    Some(
                        PostTraceIssue {
                            trace_id,
                            instance_id: String::from_str(instance_id),
                            code: String::from_str("post_trace_admission_timeout"),
                            message,
                        },
                    )
                } else {
                    None
                }
            },
        }
    }

    /// Every named instance has its task for the trace admitted.
    pub fn all_admitted(&self, trace_id: u64, instance_ids: &[String]) -> (r: bool)
        requires
            self.wf(),
        ensures
            r == forall|i: int| 0 <= i < instance_ids@.len() ==> task_in(self@.admitted, (trace_id, #[trigger] instance_ids@[i]@)),
    {
        let mut i: usize = 0;
        while i < instance_ids.len()
            invariant
                self.wf(),
                i <= instance_ids@.len(),
                forall|k: int| 0 <= k < i ==> task_in(self@.admitted, (trace_id, #[trigger] instance_ids@[k]@)),
            decreases instance_ids@.len() - i,
        {
            if self.admitted.find(trace_id, instance_ids[i].as_str()).is_none() {
                return false;
            }
            i += 1;
        }
        true
    }

    /// The lease of the running task a completion reports; a completion of
    /// a task that is not running is refused.
    pub fn completion_lease(&self, trace_id: u64, instance_id: &str) -> (r: Result<&L, ControlError>)
        requires
            self.wf(),
        ensures
            match task_find(self@.running, (trace_id, instance_id@)) {
                Some(p) => r matches Ok(lease) && *lease == self@.running[p].1,
                None => r matches Err(e) && e.code@ == "post_trace_completion"@ && e.message@ == "completion for untracked task trace="@
                    + decimal(trace_id as nat) + " instance="@ + instance_id@,
            },
    {
        match self.running.find(trace_id, instance_id) {
            Some(p) => Ok(self.running.value_at(p)),
            None => {
                let mut m = String::from_str("completion for untracked task trace=");
                push_decimal(&mut m, trace_id);
                m.append(" instance=");
                m.append(instance_id);
                Err(error_text("post_trace_completion", m))
            },
        }
    }

    /// Forgets a completed task whose lease was released: it no longer runs,
    /// and its drain diagnosis is forgotten.
    pub fn finish_completion(&mut self, trace_id: u64, instance_id: &str)
        requires
            old(self).wf(),
        ensures
            final(self).wf(),
            final(self)@ == (CoordinatorView {
                running: task_drop(old(self)@.running, (trace_id, instance_id@)),
                diagnosed_drain_timeout: task_drop(old(self)@.diagnosed_drain_timeout, (trace_id, instance_id@)),
                ..old(self)@
            }),
    {
        self.running.drop_key(trace_id, instance_id);
        self.diagnosed_drain_timeout.drop_key(trace_id, instance_id);
    }
}

} // verus!
