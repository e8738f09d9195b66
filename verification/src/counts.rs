//! In-flight counters keyed by rule or plugin instance, as the enforcement
//! and network control services keep them to bound concurrent plugin
//! decisions.

use vstd::prelude::*;
use crate::assoc::{assoc_view, has_key, keys_unique, lemma_view_at, lemma_view_empty, lemma_view_push, lemma_view_remove, lemma_view_update};
use crate::shutdown::ControlError;

verus! {

/// A counter key: one or more texts, compared by value.
pub trait CounterKey: Sized {
    /// The texts that make up the key.
    spec fn spec_key(&self) -> Seq<Seq<char>>;

    fn key_eq(&self, other: &Self) -> (r: bool)
        ensures
            r == (self.spec_key() == other.spec_key());

    fn key_clone(&self) -> (r: Self)
        ensures
            r.spec_key() == self.spec_key();
}

impl CounterKey for String {
    open spec fn spec_key(&self) -> Seq<Seq<char>> {
        seq![self@]
    }

    fn key_eq(&self, other: &Self) -> (r: bool) {
        let r = *self == *other;
        assert(r == (self@ == other@));
        assert(r ==> seq![self@] =~= seq![other@]);
        assert(seq![self@] == seq![other@] ==> seq![self@][0] == seq![other@][0]);
        r
    }

    fn key_clone(&self) -> (r: Self) {
        self.clone()
    }
}

/// A rule's key: its owner instance and its id.
impl CounterKey for (String, String) {
    open spec fn spec_key(&self) -> Seq<Seq<char>> {
        seq![self.0@, self.1@]
    }

    fn key_eq(&self, other: &Self) -> (r: bool) {
        let r = self.0 == other.0 && self.1 == other.1;
        assert(r ==> seq![self.0@, self.1@] =~= seq![other.0@, other.1@]);
        assert(seq![self.0@, self.1@] == seq![other.0@, other.1@] ==> seq![self.0@, self.1@][0]
            == seq![other.0@, other.1@][0] && seq![self.0@, self.1@][1] == seq![other.0@, other.1@][1]);
        r
    }

    fn key_clone(&self) -> (r: Self) {
        (self.0.clone(), self.1.clone())
    }
}

pub open spec fn key_view<K: CounterKey>(s: Seq<(K, u32)>) -> Seq<(Seq<Seq<char>>, u32)> {
    s.map_values(|e: (K, u32)| (e.0.spec_key(), e.1))
}

/// The key of a single text.
pub open spec fn text_key(t: Seq<char>) -> Seq<Seq<char>> {
    seq![t]
}

/// Counters by key; a key without an entry counts zero.
pub struct InFlightCounts<K> {
    entries: Vec<(K, u32)>,
}

impl<K: CounterKey> View for InFlightCounts<K> {
    type V = Map<Seq<Seq<char>>, u32>;

    closed spec fn view(&self) -> Map<Seq<Seq<char>>, u32> {
        assoc_view(key_view(self.entries@))
    }
}

/// The count held for `k`, zero when absent.
pub open spec fn count_of(m: Map<Seq<Seq<char>>, u32>, k: Seq<Seq<char>>) -> u32 {
    if m.contains_key(k) {
        m[k]
    } else {
        0
    }
}

/// The counters after one release of `k`: a count above one drops by one,
/// a count of one (or zero) leaves the map.
pub open spec fn released(m: Map<Seq<Seq<char>>, u32>, k: Seq<Seq<char>>) -> Map<Seq<Seq<char>>, u32> {
    if m.contains_key(k) {
        if m[k] > 1 {
            m.insert(k, (m[k] - 1) as u32)
        } else {
            m.remove(k)
        }
    } else {
        m
    }
}

impl<K: CounterKey> InFlightCounts<K> {
    pub closed spec fn wf(&self) -> bool {
        keys_unique(key_view(self.entries@))
    }

    pub fn new() -> (r: Self)
        ensures
            r.wf(),
            r@ == Map::<Seq<Seq<char>>, u32>::empty(),
    {
        proof {
            lemma_view_empty::<Seq<Seq<char>>, u32>();
        }
        let r = InFlightCounts { entries: Vec::new() };
        assert(key_view(r.entries@) =~= Seq::<(Seq<Seq<char>>, u32)>::empty());
        r
    }

    fn position(&self, key: &K) -> (r: Option<usize>)
        requires
            self.wf(),
        ensures
            match r {
                Some(i) => i < self.entries@.len() && self.entries@[i as int].0.spec_key() == key.spec_key(),
                None => !self@.contains_key(key.spec_key()),
            },
    {
        let mut i: usize = 0;
        while i < self.entries.len()
            invariant
                i <= self.entries@.len(),
                forall|j: int| 0 <= j < i ==> self.entries@[j].0.spec_key() != key.spec_key(),
            decreases self.entries@.len() - i,
        {
            if self.entries[i].0.key_eq(key) {
                return Some(i);
            }
            i += 1;
        }
        proof {
            if has_key(key_view(self.entries@), key.spec_key()) {
                let j = choose|j: int| 0 <= j < key_view(self.entries@).len() && #[trigger] key_view(self.entries@)[j].0
                    == key.spec_key();
                assert(key_view(self.entries@)[j].0 == self.entries@[j].0.spec_key());
            }
        }
        None
    }

    proof fn lemma_entry(&self, i: int)
        requires
            self.wf(),
            0 <= i < self.entries@.len(),
        ensures
            self@.contains_key(self.entries@[i].0.spec_key()),
            self@[self.entries@[i].0.spec_key()] == self.entries@[i].1,
    {
        assert(key_view(self.entries@)[i] == (self.entries@[i].0.spec_key(), self.entries@[i].1));
        lemma_view_at(key_view(self.entries@), i);
    }

    /// The count held for `key`.
    pub fn get(&self, key: &K) -> (r: u32)
        requires
            self.wf(),
        ensures
            r == count_of(self@, key.spec_key()),
    {
        match self.position(key) {
            Some(i) => {
                proof {
                    self.lemma_entry(i as int);
                }
                self.entries[i].1
            },
            None => 0,
        }
    }

    fn set_at(&mut self, i: usize, v: u32)
        requires
            old(self).wf(),
            i < old(self).entries@.len(),
        ensures
            final(self).wf(),
            final(self)@ == old(self)@.insert(old(self).entries@[i as int].0.spec_key(), v),
    {
        let ghost s = key_view(self.entries@);
        let k = self.entries[i].0.key_clone();
        self.entries.set(i, (k, v));
        proof {
            assert(key_view(self.entries@) =~= s.update(i as int, (s[i as int].0, v)));
            lemma_view_update(s, i as int, v);
        }
    }

    fn remove_at(&mut self, i: usize)
        requires
            old(self).wf(),
            i < old(self).entries@.len(),
        ensures
            final(self).wf(),
            final(self)@ == old(self)@.remove(old(self).entries@[i as int].0.spec_key()),
    {
        let ghost s = key_view(self.entries@);
        self.entries.remove(i);
        proof {
            assert(key_view(self.entries@) =~= s.remove(i as int));
            lemma_view_remove(s, i as int);
        }
    }

    /// Sets the count of `key` to `v`.
    pub fn insert(&mut self, key: K, v: u32)
        requires
            old(self).wf(),
        ensures
            final(self).wf(),
            final(self)@ == old(self)@.insert(key.spec_key(), v),
    {
        match self.position(&key) {
            Some(i) => self.set_at(i, v),
            None => {
                let ghost s = key_view(self.entries@);
                let ghost kv = key.spec_key();
                self.entries.push((key, v));
                proof {
                    assert(key_view(self.entries@) =~= s.push((kv, v)));
                    lemma_view_push(s, kv, v);
                }
            },
        }
    }

    /// Drops the entry of `key`, if any.
    pub fn remove(&mut self, key: &K)
        requires
            old(self).wf(),
        ensures
            final(self).wf(),
            final(self)@ == old(self)@.remove(key.spec_key()),
    {
        match self.position(key) {
            Some(i) => self.remove_at(i),
            None => {
                assert(self@ =~= self@.remove(key.spec_key()));
            },
        }
    }
}

/// Takes one in-flight slot for `rule_id`. A counter already at `u32::MAX`
/// is refused and left as it was.
pub fn reserve_in_flight(in_flight_by_rule: &mut InFlightCounts<String>, rule_id: &str) -> (r: Result<(), String>)
    requires
        old(in_flight_by_rule).wf(),
    ensures
        final(in_flight_by_rule).wf(),
        r is Ok <==> count_of(old(in_flight_by_rule)@, text_key(rule_id@)) < u32::MAX,
        r is Ok ==> final(in_flight_by_rule)@ == old(in_flight_by_rule)@.insert(
            text_key(rule_id@),
            (count_of(old(in_flight_by_rule)@, text_key(rule_id@)) + 1) as u32,
        ),
        r matches Err(e) ==> final(in_flight_by_rule)@ == old(in_flight_by_rule)@ && e@
            == "in-flight counter overflow for rule "@ + rule_id@,
{
    let key = String::from_str(rule_id);
    let current = in_flight_by_rule.get(&key);
    match current.checked_add(1) {
        Some(next) => {
            in_flight_by_rule.insert(key, next);
            Ok(())
        },
        None => {
            let mut m = String::from_str("in-flight counter overflow for rule ");
            m.append(rule_id);
            Err(m)
        },
    }
}

/// Gives back one in-flight slot of `rule_id`.
pub fn release_in_flight(in_flight_by_rule: &mut InFlightCounts<String>, rule_id: &str)
    requires
        old(in_flight_by_rule).wf(),
    ensures
        final(in_flight_by_rule).wf(),
        final(in_flight_by_rule)@ == released(old(in_flight_by_rule)@, text_key(rule_id@)),
{
    let key = String::from_str(rule_id);
    let c = in_flight_by_rule.get(&key);
    if c > 1 {
        in_flight_by_rule.insert(key, c - 1);
    } else {
        in_flight_by_rule.remove(&key);
        assert(!old(in_flight_by_rule)@.contains_key(text_key(rule_id@)) ==> in_flight_by_rule@ =~= old(
            in_flight_by_rule,
        )@);
    }
}

/// `value + 1`, or the accounting error naming `label` on overflow.
pub fn checked_increment(value: u32, label: &str) -> (r: Result<u32, ControlError>)
    ensures
        value < u32::MAX ==> r == Ok::<u32, ControlError>((value + 1) as u32),
        value == u32::MAX ==> (r matches Err(e) && e.code@ == "network_control_accounting"@
            && e.message@ == label@ + " overflow"@),
{
    match value.checked_add(1) {
        Some(v) => Ok(v),
        None => {
            let mut m = String::from_str(label);
            m.append(" overflow");
            Err(ControlError { code: String::from_str("network_control_accounting"), message: m })
        },
    }
}

/// Counts one more for `key`; on overflow the counters stay as they were.
pub fn increment_map<K: CounterKey>(values: &mut InFlightCounts<K>, key: K, label: &str) -> (r: Result<(), ControlError>)
    requires
        old(values).wf(),
    ensures
        final(values).wf(),
        r is Ok <==> count_of(old(values)@, key.spec_key()) < u32::MAX,
        r is Ok ==> final(values)@ == old(values)@.insert(key.spec_key(), (count_of(old(values)@, key.spec_key()) + 1) as u32),
        r matches Err(e) ==> final(values)@ == old(values)@ && e.code@ == "network_control_accounting"@
            && e.message@ == label@ + " overflow"@,
{
    let current = values.get(&key);
    match checked_increment(current, label) {
        Ok(next) => {
            values.insert(key, next);
            Ok(())
        },
        Err(e) => Err(e),
    }
}

/// Counts one less for `key`: a count of one leaves the map; a missing
/// count is an accounting underflow and changes nothing.
pub fn decrement_map<K: CounterKey>(values: &mut InFlightCounts<K>, key: &K, label: &str) -> (r: Result<(), ControlError>)
    requires
        old(values).wf(),
    ensures
        final(values).wf(),
        r is Ok <==> count_of(old(values)@, key.spec_key()) >= 1,
        r is Ok ==> final(values)@ == released(old(values)@, key.spec_key()),
        r matches Err(e) ==> final(values)@ == old(values)@ && e.code@ == "network_control_accounting"@
            && e.message@ == label@ + " underflow"@,
{
    let current = values.get(key);
    if current > 1 {
        values.insert(key.key_clone(), current - 1);
        Ok(())
    } else if current == 1 {
        values.remove(key);
        Ok(())
    } else {
        let mut m = String::from_str(label);
        m.append(" underflow");
        Err(ControlError { code: String::from_str("network_control_accounting"), message: m })
    }
}

/// Every key held has a count of at least one.
pub open spec fn counts_positive(m: Map<Seq<Seq<char>>, u32>) -> bool {
    forall|k: Seq<Seq<char>>| #[trigger] m.contains_key(k) ==> m[k] >= 1
}

/// Law: reserving and releasing keep every held count positive; releasing
/// right after a successful reservation of the same key gives back the
/// counters as they were.
pub proof fn law_release_undoes_reserve(m: Map<Seq<Seq<char>>, u32>, k: Seq<Seq<char>>)
    requires
        counts_positive(m),
        count_of(m, k) < u32::MAX,
    ensures
        counts_positive(m.insert(k, (count_of(m, k) + 1) as u32)),
        counts_positive(released(m, k)),
        released(m.insert(k, (count_of(m, k) + 1) as u32), k) == m,
{
    let up = m.insert(k, (count_of(m, k) + 1) as u32);
    assert(up[k] == count_of(m, k) + 1);
    if m.contains_key(k) {
        assert(m[k] >= 1);
        assert(up.insert(k, (up[k] - 1) as u32) =~= m);
    } else {
        assert(up.remove(k) =~= m);
    }
    assert forall|q: Seq<Seq<char>>| #[trigger] released(m, k).contains_key(q) implies released(m, k)[q] >= 1 by {
        if q != k {
            assert(m.contains_key(q));
        }
    }
}

} // verus!
