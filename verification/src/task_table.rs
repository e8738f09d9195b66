//! Tables keyed by post-trace task (trace id, plugin instance id), kept in
//! key order: by trace id, then by instance id in text order.

use vstd::prelude::*;
use crate::order::{lemma_text_less_asymmetric, lemma_text_less_irreflexive, lemma_text_less_total, lemma_text_less_transitive, str_less, text_less};
use crate::payload::str_eq;

verus! {

/// A post-trace task: one plugin instance analysing one trace.
#[derive(Debug)]
pub struct TaskKey {
    pub trace_id: u64,
    pub instance_id: String,
}

impl View for TaskKey {
    type V = (u64, Seq<char>);

    open spec fn view(&self) -> (u64, Seq<char>) {
        (self.trace_id, self.instance_id@)
    }
}

impl TaskKey {
    pub fn duplicate(&self) -> (r: TaskKey)
        ensures
            r@ == self@,
    {
        TaskKey { trace_id: self.trace_id, instance_id: self.instance_id.clone() }
    }
}

/// Task order: by trace id, then by instance id.
pub open spec fn task_less(a: (u64, Seq<char>), b: (u64, Seq<char>)) -> bool {
    a.0 < b.0 || (a.0 == b.0 && text_less(a.1, b.1))
}

pub proof fn lemma_task_less_facts(a: (u64, Seq<char>), b: (u64, Seq<char>), c: (u64, Seq<char>))
    ensures
        !task_less(a, a),
        !(task_less(a, b) && task_less(b, a)),
        task_less(a, b) && task_less(b, c) ==> task_less(a, c),
        a == b || task_less(a, b) || task_less(b, a),
{
    lemma_text_less_irreflexive(a.1);
    lemma_text_less_asymmetric(a.1, b.1);
    lemma_text_less_total(a.1, b.1);
    if text_less(a.1, b.1) && text_less(b.1, c.1) {
        lemma_text_less_transitive(a.1, b.1, c.1);
    }
}

pub open spec fn tkey<V>(e: ((u64, Seq<char>), V)) -> (u64, Seq<char>) {
    e.0
}

/// Strictly increasing keys.
pub open spec fn task_sorted<V>(s: Seq<((u64, Seq<char>), V)>) -> bool {
    forall|i: int, j: int| 0 <= i < j < s.len() ==> task_less(#[trigger] s[i].0, #[trigger] s[j].0)
}

/// The first position whose key is not below `k`.
pub open spec fn task_lower_bound<V>(s: Seq<((u64, Seq<char>), V)>, k: (u64, Seq<char>)) -> int
    decreases s.len(),
{
    if s.len() == 0 {
        0
    } else if task_less(s[0].0, k) {
        1 + task_lower_bound(s.drop_first(), k)
    } else {
        0
    }
}

pub proof fn lemma_task_lower_bound_at<V>(s: Seq<((u64, Seq<char>), V)>, k: (u64, Seq<char>), j: int)
    requires
        0 <= j <= s.len(),
        forall|i: int| 0 <= i < j ==> task_less(#[trigger] s[i].0, k),
        j == s.len() || !task_less(s[j].0, k),
    ensures
        task_lower_bound(s, k) == j,
    decreases j,
{
    if j > 0 {
        assert(task_less(s[0].0, k));
        assert forall|i: int| 0 <= i < j - 1 implies task_less(#[trigger] s.drop_first()[i].0, k) by {
            assert(s.drop_first()[i] == s[i + 1]);
        }
        if j < s.len() {
            assert(s.drop_first()[j - 1] == s[j]);
        }
        lemma_task_lower_bound_at(s.drop_first(), k, j - 1);
    }
}

pub proof fn lemma_task_lower_bound_bounds<V>(s: Seq<((u64, Seq<char>), V)>, k: (u64, Seq<char>))
    ensures
        0 <= task_lower_bound(s, k) <= s.len(),
        forall|i: int| 0 <= i < task_lower_bound(s, k) ==> task_less(#[trigger] s[i].0, k),
        task_lower_bound(s, k) < s.len() ==> !task_less(s[task_lower_bound(s, k)].0, k),
    decreases s.len(),
{
    if s.len() > 0 && task_less(s[0].0, k) {
        lemma_task_lower_bound_bounds(s.drop_first(), k);
        assert forall|i: int| 0 <= i < task_lower_bound(s, k) implies task_less(#[trigger] s[i].0, k) by {
            if i > 0 {
                assert(s[i] == s.drop_first()[i - 1]);
            }
        }
        if task_lower_bound(s, k) < s.len() {
            assert(s[task_lower_bound(s, k)] == s.drop_first()[task_lower_bound(s, k) - 1]);
        }
    }
}

/// Where key `k` is.
pub open spec fn task_find<V>(s: Seq<((u64, Seq<char>), V)>, k: (u64, Seq<char>)) -> Option<int> {
    let p = task_lower_bound(s, k);
    if p < s.len() && s[p].0 == k {
        Some(p)
    } else {
        None
    }
}

pub proof fn lemma_task_find<V>(s: Seq<((u64, Seq<char>), V)>, k: (u64, Seq<char>))
    requires
        task_sorted(s),
    ensures
        match task_find(s, k) {
            Some(p) => 0 <= p < s.len() && s[p].0 == k,
            None => forall|i: int| 0 <= i < s.len() ==> (#[trigger] s[i]).0 != k,
        },
{
    lemma_task_lower_bound_bounds(s, k);
    let p = task_lower_bound(s, k);
    assert forall|i: int| 0 <= i < s.len() && (#[trigger] s[i]).0 == k implies task_find(s, k) == Some(i) by {
        lemma_task_less_facts(k, k, k);
        if i > p {
            assert(task_less(s[p].0, s[i].0));
            lemma_task_less_facts(s[p].0, k, k);
        }
    }
}

/// The table with `(k, v)` stored, replacing any entry under `k`.
pub open spec fn task_put<V>(s: Seq<((u64, Seq<char>), V)>, k: (u64, Seq<char>), v: V) -> Seq<((u64, Seq<char>), V)> {
    let p = task_lower_bound(s, k);
    if p < s.len() && s[p].0 == k {
        s.update(p, (k, v))
    } else {
        s.insert(p, (k, v))
    }
}

/// The table without the entry under `k`.
pub open spec fn task_drop<V>(s: Seq<((u64, Seq<char>), V)>, k: (u64, Seq<char>)) -> Seq<((u64, Seq<char>), V)> {
    match task_find(s, k) {
        Some(p) => s.remove(p),
        None => s,
    }
}

/// The entries whose task does not belong to trace `t` (`by_trace`) or to
/// instance `i` (otherwise).
pub open spec fn task_keep<V>(s: Seq<((u64, Seq<char>), V)>, by_trace: bool, t: u64, i: Seq<char>) -> Seq<((u64, Seq<char>), V)>
    decreases s.len(),
{
    if s.len() == 0 {
        s
    } else {
        let p = task_keep(s.drop_last(), by_trace, t, i);
        let gone = if by_trace {
            s.last().0.0 == t
        } else {
            s.last().0.1 == i
        };
        if gone {
            p
        } else {
            p.push(s.last())
        }
    }
}

pub proof fn lemma_task_put_sorted<V>(s: Seq<((u64, Seq<char>), V)>, k: (u64, Seq<char>), v: V)
    requires
        task_sorted(s),
    ensures
        task_sorted(task_put(s, k, v)),
{
    lemma_task_lower_bound_bounds(s, k);
    let p = task_lower_bound(s, k);
    let t = task_put(s, k, v);
    assert forall|i: int, j: int| 0 <= i < j < t.len() implies task_less(#[trigger] t[i].0, #[trigger] t[j].0) by {
        if p < s.len() && s[p].0 == k {
            assert(task_less(s[i].0, s[j].0));
        } else {
            if i < p && j == p {
            } else if i == p {
                assert(t[j] == s[j - 1]);
                if p < s.len() {
                    lemma_task_less_facts(k, s[p].0, s[j - 1].0);
                    if j - 1 > p {
                        assert(task_less(s[p].0, s[j - 1].0));
                    }
                }
            } else if i < p && j > p {
                assert(t[j] == s[j - 1]);
                assert(task_less(s[i].0, s[j - 1].0));
            } else if i > p {
                assert(t[i] == s[i - 1] && t[j] == s[j - 1]);
                assert(task_less(s[i - 1].0, s[j - 1].0));
            } else {
                assert(t[i] == s[i] && t[j] == s[j]);
                assert(task_less(s[i].0, s[j].0));
            }
        }
    }
}

pub proof fn lemma_task_remove_sorted<V>(s: Seq<((u64, Seq<char>), V)>, i: int)
    requires
        task_sorted(s),
        0 <= i < s.len(),
    ensures
        task_sorted(s.remove(i)),
{
    let t = s.remove(i);
    assert forall|a: int, b: int| 0 <= a < b < t.len() implies task_less(#[trigger] t[a].0, #[trigger] t[b].0) by {
        let a2 = if a < i { a } else { a + 1 };
        let b2 = if b < i { b } else { b + 1 };
        assert(t[a] == s[a2] && t[b] == s[b2]);
        assert(task_less(s[a2].0, s[b2].0));
    }
}

pub proof fn lemma_task_keep<V>(s: Seq<((u64, Seq<char>), V)>, by_trace: bool, t: u64, i: Seq<char>)
    requires
        task_sorted(s),
    ensures
        task_sorted(task_keep(s, by_trace, t, i)),
        forall|x: ((u64, Seq<char>), V)| #[trigger] task_keep(s, by_trace, t, i).contains(x) <==> (s.contains(x) && if by_trace {
            x.0.0 != t
        } else {
            x.0.1 != i
        }),
    decreases s.len(),
{
    if s.len() > 0 {
        let q = s.drop_last();
        assert(task_sorted(q));
        lemma_task_keep(q, by_trace, t, i);
        let p = task_keep(q, by_trace, t, i);
        let r = task_keep(s, by_trace, t, i);
        assert forall|x: ((u64, Seq<char>), V)| #[trigger] r.contains(x) <==> (s.contains(x) && if by_trace {
            x.0.0 != t
        } else {
            x.0.1 != i
        }) by {
            if r.contains(x) {
                let k = choose|k: int| 0 <= k < r.len() && r[k] == x;
                if k < p.len() {
                    assert(p[k] == x);
                    assert(p.contains(x));
                    let j = choose|j: int| 0 <= j < q.len() && q[j] == x;
                    assert(s[j] == x);
                } else {
                    assert(s[s.len() - 1] == x);
                }
            }
            if s.contains(x) && (if by_trace {
                x.0.0 != t
            } else {
                x.0.1 != i
            }) {
                let k = choose|k: int| 0 <= k < s.len() && s[k] == x;
                if k < q.len() {
                    assert(q[k] == x);
                    assert(q.contains(x));
                    assert(p.contains(x));
                    let j = choose|j: int| 0 <= j < p.len() && p[j] == x;
                    assert(r[j] == x);
                } else {
                    assert(r[r.len() - 1] == x);
                }
            }
        }
        let gone = if by_trace {
            s.last().0.0 == t
        } else {
            s.last().0.1 == i
        };
        if !gone {
            assert forall|a: int, b: int| 0 <= a < b < r.len() implies task_less(#[trigger] r[a].0, #[trigger] r[b].0) by {
                if b == p.len() {
                    assert(p.contains(p[a]));
                    let j = choose|j: int| 0 <= j < q.len() && q[j] == p[a];
                    assert(s[j] == q[j]);
                    assert(task_less(s[j].0, s[s.len() - 1].0));
                } else {
                    assert(r[a] == p[a] && r[b] == p[b]);
                }
            }
        }
    }
}

/// After storing under `k`, the table holds an entry for `k` and for every
/// task it held before, and for no other.
pub proof fn lemma_task_put_in<V>(s: Seq<((u64, Seq<char>), V)>, k: (u64, Seq<char>), v: V)
    requires
        task_sorted(s),
    ensures
        forall|x: (u64, Seq<char>)| #[trigger] task_in(task_put(s, k, v), x) <==> (task_in(s, x) || x == k),
{
    lemma_task_lower_bound_bounds(s, k);
    let p = task_lower_bound(s, k);
    let t = task_put(s, k, v);
    assert forall|x: (u64, Seq<char>)| #[trigger] task_in(t, x) <==> (task_in(s, x) || x == k) by {
        if p < s.len() && s[p].0 == k {
            if task_in(t, x) {
                let i = choose|i: int| 0 <= i < t.len() && (#[trigger] t[i]).0 == x;
                if i != p {
                    assert(s[i] == t[i]);
                }
            }
            if task_in(s, x) {
                let i = choose|i: int| 0 <= i < s.len() && (#[trigger] s[i]).0 == x;
                if i != p {
                    assert(t[i] == s[i]);
                } else {
                    assert(t[p].0 == k);
                }
            }
            if x == k {
                assert(t[p].0 == k);
            }
        } else {
            if task_in(t, x) {
                let i = choose|i: int| 0 <= i < t.len() && (#[trigger] t[i]).0 == x;
                if i < p {
                    assert(s[i] == t[i]);
                } else if i > p {
                    assert(s[i - 1] == t[i]);
                }
            }
            if task_in(s, x) {
                let i = choose|i: int| 0 <= i < s.len() && (#[trigger] s[i]).0 == x;
                if i < p {
                    assert(t[i] == s[i]);
                } else {
                    assert(t[i + 1] == s[i]);
                }
            }
            if x == k {
                assert(t[p].0 == k);
            }
        }
    }
}

/// A table of values by task, in task order.
pub struct TaskTable<V> {
    entries: Vec<(TaskKey, V)>,
}

pub open spec fn entry_views<V>(v: Seq<(TaskKey, V)>) -> Seq<((u64, Seq<char>), V)> {
    v.map_values(|e: (TaskKey, V)| (e.0@, e.1))
}

impl<V> View for TaskTable<V> {
    type V = Seq<((u64, Seq<char>), V)>;

    closed spec fn view(&self) -> Seq<((u64, Seq<char>), V)> {
        entry_views(self.entries@)
    }
}

/// Whether the table holds an entry for task `k`.
pub open spec fn task_in<V>(s: Seq<((u64, Seq<char>), V)>, k: (u64, Seq<char>)) -> bool {
    exists|i: int| 0 <= i < s.len() && (#[trigger] s[i]).0 == k
}

impl<V> TaskTable<V> {
    pub closed spec fn wf(&self) -> bool {
        task_sorted(self@)
    }

    pub fn new() -> (r: TaskTable<V>)
        ensures
            r.wf(),
            r@ == Seq::<((u64, Seq<char>), V)>::empty(),
    {
        let r = TaskTable { entries: Vec::new() };
        assert(r@ =~= Seq::<((u64, Seq<char>), V)>::empty());
        r
    }

    pub fn len(&self) -> (n: usize)
        ensures
            n == self@.len(),
    {
        self.entries.len()
    }

    /// The key at position `i`.
    pub fn key_at(&self, i: usize) -> (k: &TaskKey)
        requires
            i < self@.len(),
        ensures
            k@ == self@[i as int].0,
    {
        &self.entries[i].0
    }

    /// The value at position `i`.
    pub fn value_at(&self, i: usize) -> (v: &V)
        requires
            i < self@.len(),
        ensures
            *v == self@[i as int].1,
    {
        &self.entries[i].1
    }

    fn below(&self, i: usize, trace_id: u64, instance_id: &str) -> (b: bool)
        requires
            i < self@.len(),
        ensures
            b == task_less(self@[i as int].0, (trace_id, instance_id@)),
    {
        let k = &self.entries[i].0;
        k.trace_id < trace_id || (k.trace_id == trace_id && str_less(k.instance_id.as_str(), instance_id))
    }

    fn lower_bound(&self, trace_id: u64, instance_id: &str) -> (p: usize)
        ensures
            p == task_lower_bound(self@, (trace_id, instance_id@)),
            p <= self@.len(),
    {
        let ghost k = (trace_id, instance_id@);
        let mut j: usize = 0;
        while j < self.entries.len() && self.below(j, trace_id, instance_id)
            invariant
                k == (trace_id, instance_id@),
                j <= self@.len(),
                forall|i: int| 0 <= i < j ==> task_less(#[trigger] self@[i].0, k),
            decreases self@.len() - j,
        {
            j += 1;
        }
        proof {
            lemma_task_lower_bound_at(self@, k, j as int);
        }
        j
    }

    /// The position of task (`trace_id`, `instance_id`).
    pub fn find(&self, trace_id: u64, instance_id: &str) -> (r: Option<usize>)
        requires
            self.wf(),
        ensures
            match r {
                Some(p) => task_find(self@, (trace_id, instance_id@)) == Some(p as int) && p < self@.len(),
                None => task_find(self@, (trace_id, instance_id@)) is None,
            },
            r is Some == task_in(self@, (trace_id, instance_id@)),
    {
        let p = self.lower_bound(trace_id, instance_id);
        proof {
            lemma_task_find(self@, (trace_id, instance_id@));
        }
        if p < self.entries.len() && self.entries[p].0.trace_id == trace_id && str_eq(
            self.entries[p].0.instance_id.as_str(),
            instance_id,
        ) {
            assert(self@[p as int].0 == (trace_id, instance_id@));
            Some(p)
        } else {
            None
        }
    }

    /// Stores `value` under `key`, replacing any value there.
    pub fn put(&mut self, key: TaskKey, value: V)
        requires
            old(self).wf(),
        ensures
            final(self).wf(),
            final(self)@ == task_put(old(self)@, key@, value),
    {
        let ghost s = self@;
        let ghost kv = key@;
        proof {
            lemma_task_put_sorted(s, kv, value);
        }
        let p = self.lower_bound(key.trace_id, key.instance_id.as_str());
        if p < self.entries.len() && self.entries[p].0.trace_id == key.trace_id && str_eq(
            self.entries[p].0.instance_id.as_str(),
            key.instance_id.as_str(),
        ) {
            let ghost vv = value;
            self.entries.set(p, (key, value));
            assert(self@ =~= s.update(p as int, (kv, vv)));
        } else {
            let ghost vv = value;
            self.entries.insert(p, (key, value));
            assert(self@ =~= s.insert(p as int, (kv, vv)));
        }
    }

    /// Removes the entry at position `i`, handing its value back.
    pub fn take_at(&mut self, i: usize) -> (v: V)
        requires
            old(self).wf(),
            i < old(self)@.len(),
        ensures
            final(self).wf(),
            final(self)@ == old(self)@.remove(i as int),
            v == old(self)@[i as int].1,
    {
        let ghost s = self@;
        proof {
            lemma_task_remove_sorted(s, i as int);
        }
        let (_, v) = self.entries.remove(i);
        assert(self@ =~= s.remove(i as int));
        v
    }

    /// Removes the entry of task (`trace_id`, `instance_id`), if any.
    pub fn drop_key(&mut self, trace_id: u64, instance_id: &str)
        requires
            old(self).wf(),
        ensures
            final(self).wf(),
            final(self)@ == task_drop(old(self)@, (trace_id, instance_id@)),
    {
        match self.find(trace_id, instance_id) {
            Some(p) => {
                self.take_at(p);
            },
            None => {},
        }
    }

    /// Keeps the entries whose task is not of trace `t` (`by_trace`) or not
    /// of instance `i` (otherwise).
    pub fn keep(&mut self, by_trace: bool, t: u64, i: &str)
        requires
            old(self).wf(),
        ensures
            final(self).wf(),
            final(self)@ == task_keep(old(self)@, by_trace, t, i@),
    {
        let ghost s = self@;
        let mut rest: Vec<(TaskKey, V)> = Vec::new();
        std::mem::swap(&mut rest, &mut self.entries);
        let mut kept: Vec<(TaskKey, V)> = Vec::new();
        let mut j: usize = 0;
        assert(s.subrange(0, 0) =~= Seq::<((u64, Seq<char>), V)>::empty());
        assert(entry_views(kept@) =~= Seq::<((u64, Seq<char>), V)>::empty());
        assert(entry_views(rest@) =~= s.subrange(0, s.len() as int));
        let total = rest.len();
        while rest.len() > 0
            invariant
                s.len() == total,
                entry_views(rest@) == s.subrange(j as int, s.len() as int),
                entry_views(kept@) == task_keep(s.subrange(0, j as int), by_trace, t, i@),
                j + rest@.len() == s.len(),
            decreases rest@.len(),
        {
            let ghost before_kept = entry_views(kept@);
            let ghost before_rest = rest@;
            let e = rest.remove(0);
            let ghost ev = (e.0@, e.1);
            proof {
                assert(entry_views(before_rest)[0] == ev);
                assert(ev == s[j as int]);
                assert forall|k: int| 0 <= k < rest@.len() implies entry_views(rest@)[k] == s.subrange(
                    j as int + 1,
                    s.len() as int,
                )[k] by {
                    assert(rest@[k] == before_rest[k + 1]);
                    assert(entry_views(before_rest)[k + 1] == s[j + 1 + k]);
                }
                assert(entry_views(rest@) =~= s.subrange(j as int + 1, s.len() as int));
                assert(s.subrange(0, j as int + 1).drop_last() =~= s.subrange(0, j as int));
                assert(s.subrange(0, j as int + 1).last() == ev);
            }
            let gone = if by_trace {
                e.0.trace_id == t
            } else {
                str_eq(e.0.instance_id.as_str(), i)
            };
            if !gone {
                kept.push(e);
                assert(entry_views(kept@) =~= before_kept.push(ev));
            }
            j += 1;
        }
        assert(s.subrange(0, j as int) =~= s);
        proof {
            lemma_task_keep(s, by_trace, t, i@);
        }
        self.entries = kept;
    }
}

} // verus!
