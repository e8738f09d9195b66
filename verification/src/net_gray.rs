//! The cache of gray network decisions a plugin marked reusable: kept per
//! trace, process generation, rule revision and remote, bounded, the
//! oldest leaving first.

use vstd::prelude::*;
use crate::net_rules::StoredNetworkRule;
use crate::rules::EnforcementDecision;
use crate::shutdown::ControlError;
use crate::sockaddr::SocketEndpoint;
use crate::net_policy::{same_endpoint, opt_text};
use crate::payload::str_eq;

verus! {

// ---------------------------------------------------------------------------
// Reusable decisions

/// What a reusable plugin decision is kept under: the trace, the process
/// generation, the rule at its revision, and the remote.
#[derive(Debug)]
pub struct ReusableDecisionKey {
    pub trace_id: u64,
    pub process_generation: u64,
    pub owner_instance_id: String,
    pub rule_id: String,
    pub rule_revision: u64,
    pub remote: SocketEndpoint,
}

pub struct KeyView {
    pub trace_id: u64,
    pub process_generation: u64,
    pub owner: Seq<char>,
    pub rule_id: Seq<char>,
    pub rule_revision: u64,
    pub remote: SocketEndpoint,
}

impl View for ReusableDecisionKey {
    type V = KeyView;

    open spec fn view(&self) -> KeyView {
        KeyView {
            trace_id: self.trace_id,
            process_generation: self.process_generation,
            owner: self.owner_instance_id@,
            rule_id: self.rule_id@,
            rule_revision: self.rule_revision,
            remote: self.remote,
        }
    }
}

impl ReusableDecisionKey {
    /// The key of a decision of `rule` on a connect to `remote` by the
    /// process generation `process_generation` of trace `trace_id`.
    pub fn new(trace_id: u64, process_generation: u64, rule: &StoredNetworkRule, remote: SocketEndpoint) -> (k: Self)
        ensures
            k@ == (KeyView {
                trace_id,
                process_generation,
                owner: rule.owner_instance_id@,
                rule_id: rule.rule_id@,
                rule_revision: rule.rule_revision,
                remote,
            }),
    {
        ReusableDecisionKey {
            trace_id,
            process_generation,
            owner_instance_id: rule.owner_instance_id.clone(),
            rule_id: rule.rule_id.clone(),
            rule_revision: rule.rule_revision,
            remote,
        }
    }

    pub fn duplicate(&self) -> (k: Self)
        ensures
            k@ == self@,
    {
        ReusableDecisionKey {
            trace_id: self.trace_id,
            process_generation: self.process_generation,
            owner_instance_id: self.owner_instance_id.clone(),
            rule_id: self.rule_id.clone(),
            rule_revision: self.rule_revision,
            remote: self.remote,
        }
    }

    fn same(&self, other: &ReusableDecisionKey) -> (r: bool)
        ensures
            r == (self@ == other@),
    {
        self.trace_id == other.trace_id && self.process_generation == other.process_generation && str_eq(
            self.owner_instance_id.as_str(),
            other.owner_instance_id.as_str(),
        ) && str_eq(self.rule_id.as_str(), other.rule_id.as_str()) && self.rule_revision == other.rule_revision
            && same_endpoint(&self.remote, &other.remote)
    }
}

/// A decision kept for reuse: the verdict, the plugin that gave it, its
/// reason, and when it was stored.
#[derive(Debug)]
pub struct CachedNetworkDecision {
    pub decision: EnforcementDecision,
    pub instance_id: String,
    pub reason: Option<String>,
    pub inserted_sequence: u64,
}

pub struct CacheEntryView {
    pub key: KeyView,
    pub decision: EnforcementDecision,
    pub instance_id: Seq<char>,
    pub reason: Option<Seq<char>>,
    pub inserted_sequence: u64,
}

pub open spec fn entry_view(e: (ReusableDecisionKey, CachedNetworkDecision)) -> CacheEntryView {
    CacheEntryView {
        key: e.0@,
        decision: e.1.decision,
        instance_id: e.1.instance_id@,
        reason: opt_text(e.1.reason),
        inserted_sequence: e.1.inserted_sequence,
    }
}

pub open spec fn entry_views(s: Seq<(ReusableDecisionKey, CachedNetworkDecision)>) -> Seq<CacheEntryView> {
    s.map_values(|e: (ReusableDecisionKey, CachedNetworkDecision)| entry_view(e))
}

/// The cache as a value: its bound, its sequence counter, and its entries
/// from oldest to newest.
pub struct CacheModel {
    pub max_entries: u32,
    pub next_sequence: u64,
    pub entries: Seq<CacheEntryView>,
}

/// No key is kept twice.
pub open spec fn keys_distinct(s: Seq<CacheEntryView>) -> bool {
    forall|i: int, j: int| 0 <= i < j < s.len() ==> (#[trigger] s[i]).key != (#[trigger] s[j]).key
}

/// The entries of `s` that satisfy `p`, in order.
pub open spec fn keep_where(s: Seq<CacheEntryView>, p: spec_fn(CacheEntryView) -> bool) -> Seq<CacheEntryView>
    decreases s.len(),
{
    if s.len() == 0 {
        Seq::empty()
    } else if p(s.last()) {
        keep_where(s.drop_last(), p).push(s.last())
    } else {
        keep_where(s.drop_last(), p)
    }
}

pub proof fn lemma_keep_where(s: Seq<CacheEntryView>, p: spec_fn(CacheEntryView) -> bool)
    ensures
        forall|i: int| 0 <= i < keep_where(s, p).len() ==> s.contains(#[trigger] keep_where(s, p)[i]),
        forall|i: int| 0 <= i < keep_where(s, p).len() ==> p(#[trigger] keep_where(s, p)[i]),
        forall|i: int| 0 <= i < s.len() && p(#[trigger] s[i]) ==> keep_where(s, p).contains(s[i]),
        keys_distinct(s) ==> keys_distinct(keep_where(s, p)),
        keep_where(s, p).len() <= s.len(),
    decreases s.len(),
{
    if s.len() > 0 {
        let q = s.drop_last();
        let x = s.last();
        let t0 = keep_where(q, p);
        lemma_keep_where(q, p);
        let t = keep_where(s, p);
        assert forall|i: int| 0 <= i < t.len() implies s.contains(#[trigger] t[i]) by {
            if i < t0.len() {
                assert(t[i] == t0[i]);
                let k = choose|k: int| 0 <= k < q.len() && q[k] == t0[i];
                assert(s[k] == q[k]);
            } else {
                assert(t[i] == x);
                assert(s[s.len() - 1] == x);
            }
        }
        assert forall|i: int| 0 <= i < s.len() && p(#[trigger] s[i]) implies t.contains(s[i]) by {
            if i < s.len() - 1 {
                assert(s[i] == q[i]);
                let k = choose|k: int| 0 <= k < t0.len() && t0[k] == q[i];
                if p(x) {
                    assert(t[k] == t0[k]);
                }
            } else {
                assert(t[t.len() - 1] == x);
            }
        }
        if keys_distinct(s) {
            assert(keys_distinct(q)) by {
                assert forall|i: int, j: int| 0 <= i < j < q.len() implies (#[trigger] q[i]).key != (#[trigger] q[j]).key by {
                    assert(q[i] == s[i] && q[j] == s[j]);
                }
            }
            if p(x) {
                assert forall|i: int, j: int| 0 <= i < j < t.len() implies (#[trigger] t[i]).key != (#[trigger] t[j]).key by {
                    if j < t0.len() {
                        assert(t[i] == t0[i] && t[j] == t0[j]);
                    } else {
                        assert(t[i] == t0[i] && t[j] == x);
                        let k = choose|k: int| 0 <= k < q.len() && q[k] == t0[i];
                        assert(s[k] == q[k] && s[s.len() - 1] == x);
                    }
                }
            }
        }
    }
}

pub open spec fn other_key(k: KeyView) -> spec_fn(CacheEntryView) -> bool {
    |e: CacheEntryView| e.key != k
}

pub open spec fn other_trace(t: u64) -> spec_fn(CacheEntryView) -> bool {
    |e: CacheEntryView| e.key.trace_id != t
}

pub open spec fn other_instance(id: Seq<char>) -> spec_fn(CacheEntryView) -> bool {
    |e: CacheEntryView| e.instance_id != id
}

/// The newest `max` entries.
pub open spec fn newest(s: Seq<CacheEntryView>, max: u32) -> Seq<CacheEntryView> {
    if s.len() > max {
        s.subrange(s.len() - max, s.len() as int)
    } else {
        s
    }
}

/// What storing a decision does: it replaces the key's entry as the
/// newest, and the oldest entries beyond the bound leave.
pub open spec fn cache_put_spec(c: CacheModel, key: KeyView, decision: EnforcementDecision, instance_id: Seq<char>, reason: Option<Seq<char>>) -> Result<CacheModel, Seq<char>> {
    if c.next_sequence == u64::MAX {
        Err("cache sequence overflow"@)
    } else {
        let sequence = (c.next_sequence + 1) as u64;
        let entry = CacheEntryView { key, decision, instance_id, reason, inserted_sequence: sequence };
        Ok(CacheModel {
            next_sequence: sequence,
            entries: newest(keep_where(c.entries, other_key(key)).push(entry), c.max_entries),
            ..c
        })
    }
}

/// The entry kept under `key`.
pub open spec fn cache_get_spec(c: CacheModel, key: KeyView) -> Option<CacheEntryView> {
    if exists|i: int| 0 <= i < c.entries.len() && (#[trigger] c.entries[i]).key == key {
        Some(c.entries[choose|i: int| 0 <= i < c.entries.len() && (#[trigger] c.entries[i]).key == key])
    } else {
        None
    }
}

/// Decisions plugins marked reusable, at most `max_entries` of them, the
/// oldest leaving first.
pub struct ReusableDecisionCache {
    max_entries: u32,
    next_sequence: u64,
    entries: Vec<(ReusableDecisionKey, CachedNetworkDecision)>,
}

impl View for ReusableDecisionCache {
    type V = CacheModel;

    closed spec fn view(&self) -> CacheModel {
        CacheModel { max_entries: self.max_entries, next_sequence: self.next_sequence, entries: entry_views(self.entries@) }
    }
}

fn copy_entry(e: &(ReusableDecisionKey, CachedNetworkDecision)) -> (r: (ReusableDecisionKey, CachedNetworkDecision))
    ensures
        entry_view(r) == entry_view(*e),
{
    (e.0.duplicate(), CachedNetworkDecision {
        decision: e.1.decision,
        instance_id: e.1.instance_id.clone(),
        reason: match &e.1.reason {
            Some(x) => Some(x.clone()),
            None => None,
        },
        inserted_sequence: e.1.inserted_sequence,
    })
}

impl ReusableDecisionCache {
    /// No key is kept twice, and the bound is kept.
    pub open spec fn wf(&self) -> bool {
        keys_distinct(self@.entries) && self@.entries.len() <= self@.max_entries
    }

    pub fn new(max_entries: u32) -> (r: Self)
        ensures
            r.wf(),
            r@ == (CacheModel { max_entries, next_sequence: 0, entries: Seq::empty() }),
    {
        let r = ReusableDecisionCache { max_entries, next_sequence: 0, entries: Vec::new() };
        assert(entry_views(r.entries@) =~= Seq::<CacheEntryView>::empty());
        r
    }

    pub fn len(&self) -> (n: usize)
        ensures
            n == self@.entries.len(),
    {
        self.entries.len()
    }

    /// The decision kept under `key`, if any.
    pub fn get(&self, key: &ReusableDecisionKey) -> (r: Option<&CachedNetworkDecision>)
        requires
            self.wf(),
        ensures
            match r {
                Some(d) => cache_get_spec(self@, key@) == Some(CacheEntryView {
                    key: key@,
                    decision: d.decision,
                    instance_id: d.instance_id@,
                    reason: opt_text(d.reason),
                    inserted_sequence: d.inserted_sequence,
                }),
                None => cache_get_spec(self@, key@) is None,
            },
    {
        let ghost s = entry_views(self.entries@);
        let mut i: usize = 0;
        while i < self.entries.len()
            invariant
                i <= self.entries@.len(),
                s == entry_views(self.entries@),
                keys_distinct(s),
                forall|k: int| 0 <= k < i ==> (#[trigger] s[k]).key != key@,
            decreases self.entries@.len() - i,
        {
            if self.entries[i].0.same(key) {
                proof {
                    assert(s[i as int].key == key@);
                    let c = choose|k: int| 0 <= k < s.len() && (#[trigger] s[k]).key == key@;
                    if c != i {
                        if c < i {
                            assert(s[c].key != s[i as int].key);
                        } else {
                            assert(s[i as int].key != s[c].key);
                        }
                    }
                }
                return Some(&self.entries[i].1);
            }
            i += 1;
        }
        None
    }

    /// Keeps the entries that `sweep` spares, in order.
    fn sweep(&mut self, sweep: &Sweep)
        requires
            old(self).wf(),
        ensures
            final(self).wf(),
            final(self)@ == (CacheModel { entries: keep_where(old(self)@.entries, spares(sweep@)), ..old(self)@ }),
    {
        let ghost s = entry_views(self.entries@);
        let ghost p = spares(sweep@);
        let mut out: Vec<(ReusableDecisionKey, CachedNetworkDecision)> = Vec::new();
        let mut i: usize = 0;
        assert(s.take(0) =~= Seq::<CacheEntryView>::empty());
        assert(entry_views(out@) =~= Seq::<CacheEntryView>::empty());
        while i < self.entries.len()
            invariant
                i <= self.entries@.len(),
                s == entry_views(self.entries@),
                p == spares(sweep@),
                entry_views(out@) == keep_where(s.take(i as int), p),
            decreases self.entries@.len() - i,
        {
            assert(s.take(i as int + 1).drop_last() =~= s.take(i as int));
            assert(s.take(i as int + 1).last() == s[i as int]);
            let e = &self.entries[i];
            let spare = match sweep {
                Sweep::Key(k) => !e.0.same(k),
                Sweep::Trace(t) => e.0.trace_id != *t,
                Sweep::Instance(id) => !str_eq(e.1.instance_id.as_str(), id.as_str()),
            };
            if spare {
                let ghost before = entry_views(out@);
                out.push(copy_entry(e));
                assert(entry_views(out@) =~= before.push(s[i as int]));
            }
            i += 1;
        }
        assert(s.take(i as int) =~= s);
        proof {
            lemma_keep_where(s, p);
        }
        self.entries = out;
    }

    /// Stores a reusable decision under `key`, replacing any older one; the
    /// oldest decisions leave while the cache is over its bound.
    pub fn cache_decision(&mut self, key: ReusableDecisionKey, decision: EnforcementDecision, instance_id: String, reason: Option<String>) -> (r: Result<(), ControlError>)
        requires
            old(self).wf(),
        ensures
            final(self).wf(),
            match cache_put_spec(old(self)@, key@, decision, instance_id@, opt_text(reason)) {
                Ok(c) => r is Ok && final(self)@ == c,
                Err(m) => r matches Err(e) && e.code@ == "network_control_cache"@ && e.message@ == m && final(self)@ == old(self)@,
            },
    {
        if self.next_sequence == u64::MAX {
            return Err(ControlError {
                code: String::from_str("network_control_cache"),
                message: String::from_str("cache sequence overflow"),
            });
        }
        let sequence = self.next_sequence + 1;
        self.next_sequence = sequence;
        let ghost kv = key@;
        self.sweep(&Sweep::Key(key.duplicate()));
        let ghost base = self@.entries;
        let entry = (key, CachedNetworkDecision { decision, instance_id, reason, inserted_sequence: sequence });
        let ghost ev = entry_view(entry);
        self.entries.push(entry);
        assert(entry_views(self.entries@) =~= base.push(ev));
        proof {
            lemma_keep_where(old(self)@.entries, other_key(kv));
            assert forall|i: int, j: int| 0 <= i < j < base.push(ev).len() implies (#[trigger] base.push(ev)[i]).key != (#[trigger] base.push(ev)[j]).key by {
                if j == base.len() {
                    assert(other_key(kv)(base[i]));
                }
            }
        }
        let ghost t = base.push(ev);
        while self.entries.len() > self.max_entries as usize
            invariant
                self.max_entries == old(self)@.max_entries,
                self.next_sequence == sequence,
                t.len() >= entry_views(self.entries@).len(),
                entry_views(self.entries@) == t.subrange(t.len() - entry_views(self.entries@).len(), t.len() as int),
                entry_views(self.entries@).len() >= self.max_entries || entry_views(self.entries@) == t,
                keys_distinct(t),
            decreases self.entries@.len(),
        {
            let ghost cur = entry_views(self.entries@);
            self.entries.remove(0);
            assert(entry_views(self.entries@) =~= cur.drop_first());
            assert(cur.drop_first() =~= t.subrange(t.len() - (cur.len() - 1), t.len() as int));
        }
        proof {
            let fin = entry_views(self.entries@);
            assert(fin =~= newest(t, self.max_entries)) by {
                if t.len() > self.max_entries {
                    assert(fin.len() == self.max_entries);
                } else {
                    assert(fin.len() == t.len());
                    assert(t.subrange(0, t.len() as int) =~= t);
                }
            }
            assert forall|i: int, j: int| 0 <= i < j < fin.len() implies (#[trigger] fin[i]).key != (#[trigger] fin[j]).key by {
                let off = t.len() - fin.len();
                assert(fin[i] == t[i + off] && fin[j] == t[j + off]);
            }
        }
        Ok(())
    }

    /// Forgets the decisions of trace `trace_id`.
    pub fn forget_trace(&mut self, trace_id: u64)
        requires
            old(self).wf(),
        ensures
            final(self).wf(),
            final(self)@ == (CacheModel { entries: keep_where(old(self)@.entries, other_trace(trace_id)), ..old(self)@ }),
    {
        self.sweep(&Sweep::Trace(trace_id));
    }

    /// Forgets the decisions plugin instance `instance_id` gave.
    pub fn remove_by_instance(&mut self, instance_id: &str)
        requires
            old(self).wf(),
        ensures
            final(self).wf(),
            final(self)@ == (CacheModel { entries: keep_where(old(self)@.entries, other_instance(instance_id@)), ..old(self)@ }),
    {
        self.sweep(&Sweep::Instance(String::from_str(instance_id)));
    }

    /// Forgets every decision.
    pub fn clear(&mut self)
        requires
            old(self).wf(),
        ensures
            final(self).wf(),
            final(self)@ == (CacheModel { entries: Seq::empty(), ..old(self)@ }),
    {
        self.entries = Vec::new();
        assert(entry_views(self.entries@) =~= Seq::<CacheEntryView>::empty());
    }
}

/// Which entries a sweep removes: those of a key, of a trace, or of a
/// plugin instance.
pub enum Sweep {
    Key(ReusableDecisionKey),
    Trace(u64),
    Instance(String),
}

pub enum SweepView {
    Key(KeyView),
    Trace(u64),
    Instance(Seq<char>),
}

impl View for Sweep {
    type V = SweepView;

    open spec fn view(&self) -> SweepView {
        match self {
            Sweep::Key(k) => SweepView::Key(k@),
            Sweep::Trace(t) => SweepView::Trace(*t),
            Sweep::Instance(i) => SweepView::Instance(i@),
        }
    }
}

pub open spec fn spares(s: SweepView) -> spec_fn(CacheEntryView) -> bool {
    match s {
        SweepView::Key(k) => other_key(k),
        SweepView::Trace(t) => other_trace(t),
        SweepView::Instance(i) => other_instance(i),
    }
}

} // verus!
