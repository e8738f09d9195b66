//! Text values by text key, the shape of an event's metadata map.

use vstd::prelude::*;
use crate::assoc::{assoc_view, has_key, keys_unique, lemma_view_at, lemma_view_empty, lemma_view_len, lemma_view_push, lemma_view_remove, lemma_view_update};

verus! {

pub open spec fn text_view(s: Seq<(String, String)>) -> Seq<(Seq<char>, Seq<char>)> {
    s.map_values(|e: (String, String)| (e.0@, e.1@))
}

/// A map from text keys to text values; inserting a present key replaces
/// its value.
pub struct StringMap {
    entries: Vec<(String, String)>,
}

impl View for StringMap {
    type V = Map<Seq<char>, Seq<char>>;

    closed spec fn view(&self) -> Map<Seq<char>, Seq<char>> {
        assoc_view(text_view(self.entries@))
    }
}

impl StringMap {
    pub closed spec fn wf(&self) -> bool {
        keys_unique(text_view(self.entries@))
    }

    pub fn new() -> (r: Self)
        ensures
            r.wf(),
            r@ == Map::<Seq<char>, Seq<char>>::empty(),
    {
        proof {
            lemma_view_empty::<Seq<char>, Seq<char>>();
        }
        let r = StringMap { entries: Vec::new() };
        assert(text_view(r.entries@) =~= Seq::<(Seq<char>, Seq<char>)>::empty());
        r
    }

    fn position(&self, key: &str) -> (r: Option<usize>)
        requires
            self.wf(),
        ensures
            match r {
                Some(i) => i < self.entries@.len() && self.entries@[i as int].0@ == key@,
                None => !self@.contains_key(key@),
            },
    {
        let k = String::from_str(key);
        let mut i: usize = 0;
        while i < self.entries.len()
            invariant
                i <= self.entries@.len(),
                k@ == key@,
                forall|j: int| 0 <= j < i ==> self.entries@[j].0@ != key@,
            decreases self.entries@.len() - i,
        {
            if self.entries[i].0 == k {
                return Some(i);
            }
            i += 1;
        }
        proof {
            if has_key(text_view(self.entries@), key@) {
                let j = choose|j: int| 0 <= j < text_view(self.entries@).len() && #[trigger] text_view(self.entries@)[j].0 == key@;
                assert(text_view(self.entries@)[j].0 == self.entries@[j].0@);
            }
        }
        None
    }

    proof fn lemma_entry(&self, i: int)
        requires
            self.wf(),
            0 <= i < self.entries@.len(),
        ensures
            self@.contains_key(self.entries@[i].0@),
            self@[self.entries@[i].0@] == self.entries@[i].1@,
    {
        assert(text_view(self.entries@)[i] == (self.entries@[i].0@, self.entries@[i].1@));
        lemma_view_at(text_view(self.entries@), i);
    }

    /// Number of keys.
    pub fn len(&self) -> (r: usize)
        requires
            self.wf(),
        ensures
            r == self@.dom().len(),
            self@.dom().finite(),
    {
        proof {
            lemma_view_len(text_view(self.entries@));
        }
        self.entries.len()
    }

    /// The value held under `key`.
    pub fn get(&self, key: &str) -> (r: Option<&String>)
        requires
            self.wf(),
        ensures
            match r {
                Some(v) => self@.contains_key(key@) && v@ == self@[key@],
                None => !self@.contains_key(key@),
            },
    {
        match self.position(key) {
            Some(i) => {
                proof {
                    self.lemma_entry(i as int);
                }
                Some(&self.entries[i].1)
            },
            None => None,
        }
    }

    /// Sets `key` to `value`, replacing any value it held.
    pub fn insert(&mut self, key: String, value: String)
        requires
            old(self).wf(),
        ensures
            final(self).wf(),
            final(self)@ == old(self)@.insert(key@, value@),
    {
        let ghost s = text_view(self.entries@);
        let ghost kv = key@;
        let ghost vv = value@;
        match self.position(key.as_str()) {
            Some(i) => {
                self.entries.set(i, (key, value));
                proof {
                    assert(text_view(self.entries@) =~= s.update(i as int, (s[i as int].0, vv)));
                    lemma_view_update(s, i as int, vv);
                }
            },
            None => {
                self.entries.push((key, value));
                proof {
                    assert(text_view(self.entries@) =~= s.push((kv, vv)));
                    lemma_view_push(s, kv, vv);
                }
            },
        }
    }

    /// Drops `key` and its value, if present.
    pub fn remove(&mut self, key: &str)
        requires
            old(self).wf(),
        ensures
            final(self).wf(),
            final(self)@ == old(self)@.remove(key@),
    {
        let ghost s = text_view(self.entries@);
        match self.position(key) {
            Some(i) => {
                self.entries.remove(i);
                proof {
                    assert(text_view(self.entries@) =~= s.remove(i as int));
                    lemma_view_remove(s, i as int);
                }
            },
            None => {
                assert(self@ =~= self@.remove(key@));
            },
        }
    }
}

} // verus!
