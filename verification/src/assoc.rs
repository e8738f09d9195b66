//! Association lists with unique keys, viewed as maps. The keyed stores of
//! the payload admission filters and rule counters keep their entries in a `Vec` and are
//! specified through this view.

use vstd::prelude::*;

verus! {

/// No key occurs twice.
pub open spec fn keys_unique<K, V>(s: Seq<(K, V)>) -> bool {
    forall|i: int, j: int| 0 <= i < j < s.len() ==> #[trigger] s[i].0 != #[trigger] s[j].0
}

/// `k` is the key of some entry.
pub open spec fn has_key<K, V>(s: Seq<(K, V)>, k: K) -> bool {
    exists|i: int| 0 <= i < s.len() && #[trigger] s[i].0 == k
}

/// The map that the entries describe.
pub open spec fn assoc_view<K, V>(s: Seq<(K, V)>) -> Map<K, V> {
    Map::new(
        |k: K| has_key(s, k),
        |k: K| s[choose|i: int| 0 <= i < s.len() && #[trigger] s[i].0 == k].1,
    )
}

pub proof fn lemma_view_at<K, V>(s: Seq<(K, V)>, i: int)
    requires
        keys_unique(s),
        0 <= i < s.len(),
    ensures
        assoc_view(s).contains_key(s[i].0),
        assoc_view(s)[s[i].0] == s[i].1,
{
    let k = s[i].0;
    assert(has_key(s, k));
    let j = choose|j: int| 0 <= j < s.len() && #[trigger] s[j].0 == k;
    if j != i {
        if j < i {
            assert(s[j].0 != s[i].0);
        } else {
            assert(s[i].0 != s[j].0);
        }
    }
}

pub proof fn lemma_view_empty<K, V>()
    ensures
        assoc_view(Seq::<(K, V)>::empty()) == Map::<K, V>::empty(),
        keys_unique(Seq::<(K, V)>::empty()),
{
    assert(assoc_view(Seq::<(K, V)>::empty()) =~= Map::<K, V>::empty());
}

pub proof fn lemma_view_push<K, V>(s: Seq<(K, V)>, k: K, v: V)
    requires
        keys_unique(s),
        !has_key(s, k),
    ensures
        keys_unique(s.push((k, v))),
        assoc_view(s.push((k, v))) == assoc_view(s).insert(k, v),
{
    let t = s.push((k, v));
    assert forall|i: int, j: int| 0 <= i < j < t.len() implies #[trigger] t[i].0 != #[trigger] t[j].0 by {
        if j == s.len() {
            assert(t[i].0 == s[i].0);
        } else {
            assert(t[i] == s[i] && t[j] == s[j]);
        }
    }
    assert forall|key: K| #[trigger] has_key(t, key) <==> has_key(s, key) || key == k by {
        if has_key(s, key) {
            let i = choose|i: int| 0 <= i < s.len() && #[trigger] s[i].0 == key;
            assert(t[i].0 == key);
        }
        if key == k {
            assert(t[s.len() as int].0 == k);
        }
        if has_key(t, key) && key != k {
            let i = choose|i: int| 0 <= i < t.len() && #[trigger] t[i].0 == key;
            assert(s[i].0 == key);
        }
    }
    assert forall|key: K| #[trigger] assoc_view(t).contains_key(key) implies assoc_view(t)[key] == assoc_view(s).insert(k, v)[key] by {
        let i = choose|i: int| 0 <= i < t.len() && #[trigger] t[i].0 == key;
        lemma_view_at(t, i);
        if i < s.len() {
            assert(t[i] == s[i]);
            lemma_view_at(s, i);
        }
    }
    assert(assoc_view(t) =~= assoc_view(s).insert(k, v));
}

pub proof fn lemma_view_update<K, V>(s: Seq<(K, V)>, i: int, v: V)
    requires
        keys_unique(s),
        0 <= i < s.len(),
    ensures
        keys_unique(s.update(i, (s[i].0, v))),
        assoc_view(s.update(i, (s[i].0, v))) == assoc_view(s).insert(s[i].0, v),
{
    let k = s[i].0;
    let t = s.update(i, (k, v));
    assert forall|a: int, b: int| 0 <= a < b < t.len() implies #[trigger] t[a].0 != #[trigger] t[b].0 by {
        assert(t[a].0 == s[a].0 && t[b].0 == s[b].0);
    }
    assert forall|key: K| #[trigger] has_key(t, key) <==> has_key(s, key) by {
        if has_key(s, key) {
            let j = choose|j: int| 0 <= j < s.len() && #[trigger] s[j].0 == key;
            assert(t[j].0 == key);
        }
        if has_key(t, key) {
            let j = choose|j: int| 0 <= j < t.len() && #[trigger] t[j].0 == key;
            assert(s[j].0 == key);
        }
    }
    assert(has_key(s, k)) by {
        assert(s[i].0 == k);
    }
    assert forall|key: K| #[trigger] assoc_view(t).contains_key(key) implies assoc_view(t)[key] == assoc_view(s).insert(k, v)[key] by {
        let j = choose|j: int| 0 <= j < t.len() && #[trigger] t[j].0 == key;
        lemma_view_at(t, j);
        if j != i {
            assert(t[j] == s[j]);
            lemma_view_at(s, j);
        }
    }
    assert(assoc_view(t) =~= assoc_view(s).insert(k, v));
}

pub proof fn lemma_view_remove<K, V>(s: Seq<(K, V)>, i: int)
    requires
        keys_unique(s),
        0 <= i < s.len(),
    ensures
        keys_unique(s.remove(i)),
        assoc_view(s.remove(i)) == assoc_view(s).remove(s[i].0),
{
    let k = s[i].0;
    let t = s.remove(i);
    assert forall|a: int, b: int| 0 <= a < b < t.len() implies #[trigger] t[a].0 != #[trigger] t[b].0 by {
        let a2 = if a < i { a } else { a + 1 };
        let b2 = if b < i { b } else { b + 1 };
        assert(t[a] == s[a2] && t[b] == s[b2]);
    }
    assert forall|key: K| #[trigger] has_key(t, key) <==> has_key(s, key) && key != k by {
        if has_key(s, key) && key != k {
            let j = choose|j: int| 0 <= j < s.len() && #[trigger] s[j].0 == key;
            if j < i {
                assert(t[j].0 == key);
            } else {
                assert(j != i);
                assert(t[j - 1].0 == key);
            }
        }
        if has_key(t, key) {
            let j = choose|j: int| 0 <= j < t.len() && #[trigger] t[j].0 == key;
            let j2 = if j < i { j } else { j + 1 };
            assert(s[j2].0 == key);
            if key == k {
                if j2 < i {
                    assert(s[j2].0 != s[i].0);
                } else {
                    assert(s[i].0 != s[j2].0);
                }
            }
        }
    }
    assert forall|key: K| #[trigger] assoc_view(t).contains_key(key) implies assoc_view(t)[key] == assoc_view(s)[key] by {
        let j = choose|j: int| 0 <= j < t.len() && #[trigger] t[j].0 == key;
        lemma_view_at(t, j);
        let j2 = if j < i { j } else { j + 1 };
        assert(t[j] == s[j2]);
        lemma_view_at(s, j2);
    }
    assert(assoc_view(t) =~= assoc_view(s).remove(k));
}

pub proof fn lemma_view_len<K, V>(s: Seq<(K, V)>)
    requires
        keys_unique(s),
    ensures
        assoc_view(s).dom().finite(),
        assoc_view(s).dom().len() == s.len(),
    decreases s.len(),
{
    if s.len() == 0 {
        lemma_view_empty::<K, V>();
        assert(s =~= Seq::<(K, V)>::empty());
    } else {
        let t = s.drop_last();
        let e = s.last();
        assert(keys_unique(t));
        assert(!has_key(t, e.0)) by {
            if has_key(t, e.0) {
                let i = choose|i: int| 0 <= i < t.len() && #[trigger] t[i].0 == e.0;
                assert(s[i].0 != s[s.len() - 1].0);
            }
        }
        lemma_view_len(t);
        lemma_view_push(t, e.0, e.1);
        assert(t.push(e) =~= s);
        assert(!assoc_view(t).dom().contains(e.0));
    }
}

} // verus!
