//! Association lists: sequences of key-value pairs in which no key occurs
//! twice, read as finite maps.

use vstd::prelude::*;

verus! {

/// No key occurs at two places.
pub open spec fn keys_distinct<K, V>(s: Seq<(K, V)>) -> bool {
    forall|i: int, j: int| 0 <= i < j < s.len() ==> (#[trigger] s[i]).0 != (#[trigger] s[j]).0
}

/// Whether `key` occurs in the list.
pub open spec fn has_key<K, V>(s: Seq<(K, V)>, key: K) -> bool {
    exists|i: int| 0 <= i < s.len() && (#[trigger] s[i]).0 == key
}

/// The place of `key` in the list; meaningful where the key occurs.
pub open spec fn index_of<K, V>(s: Seq<(K, V)>, key: K) -> int {
    choose|i: int| 0 <= i < s.len() && (#[trigger] s[i]).0 == key
}

/// The map that the list spells: every pair of it, a later one winning over
/// an earlier one with the same key.
pub open spec fn assoc_map<K, V>(s: Seq<(K, V)>) -> Map<K, V>
    decreases s.len(),
{
    if s.len() == 0 {
        Map::empty()
    } else {
        assoc_map(s.drop_last()).insert(s.last().0, s.last().1)
    }
}

/// The map's keys are the list's keys.
pub proof fn lemma_assoc_map_dom<K, V>(s: Seq<(K, V)>, key: K)
    ensures
        assoc_map(s).dom().contains(key) <==> has_key(s, key),
    decreases s.len(),
{
    if s.len() > 0 {
        let t = s.drop_last();
        lemma_assoc_map_dom(t, key);
        if has_key(s, key) {
            let i = index_of(s, key);
            if i < s.len() - 1 {
                assert(t[i].0 == key);
            }
        }
        if has_key(t, key) {
            let i = index_of(t, key);
            assert(s[i].0 == key);
        }
        if s.last().0 == key {
            assert(s[s.len() - 1].0 == key);
        }
    }
}

/// In a list without repeated keys the map gives each key the value that
/// stands beside it.
pub proof fn lemma_assoc_map_at<K, V>(s: Seq<(K, V)>, i: int)
    requires
        keys_distinct(s),
        0 <= i < s.len(),
    ensures
        assoc_map(s).dom().contains(s[i].0),
        assoc_map(s)[s[i].0] == s[i].1,
    decreases s.len(),
{
    let t = s.drop_last();
    if i < s.len() - 1 {
        assert(keys_distinct(t)) by {
            assert forall|a: int, b: int| 0 <= a < b < t.len() implies (#[trigger] t[a]).0 != (
            #[trigger] t[b]).0 by {
                assert(t[a] == s[a] && t[b] == s[b]);
            }
        }
        lemma_assoc_map_at(t, i);
        assert(t[i] == s[i]);
        assert(s[i].0 != s[s.len() - 1].0);
    }
}

/// A list without repeated keys stays one when its last pair is dropped.
pub proof fn lemma_distinct_drop_last<K, V>(s: Seq<(K, V)>)
    requires
        keys_distinct(s),
        s.len() > 0,
    ensures
        keys_distinct(s.drop_last()),
        !has_key(s.drop_last(), s.last().0),
{
    let t = s.drop_last();
    assert forall|a: int, b: int| 0 <= a < b < t.len() implies (#[trigger] t[a]).0 != (
    #[trigger] t[b]).0 by {
        assert(t[a] == s[a] && t[b] == s[b]);
    }
    if has_key(t, s.last().0) {
        let i = index_of(t, s.last().0);
        assert(t[i] == s[i]);
        assert(s[i].0 != s[s.len() - 1].0);
    }
}

/// Appending a pair inserts it into the map; with a fresh key the list
/// stays free of repeated keys.
pub proof fn lemma_assoc_push<K, V>(s: Seq<(K, V)>, key: K, value: V)
    ensures
        assoc_map(s.push((key, value))) == assoc_map(s).insert(key, value),
        keys_distinct(s) && !has_key(s, key) ==> keys_distinct(s.push((key, value))),
{
    let p = s.push((key, value));
    assert(p.drop_last() =~= s);
    assert(p.last() == (key, value));
    if keys_distinct(s) && !has_key(s, key) {
        assert forall|a: int, b: int| 0 <= a < b < p.len() implies (#[trigger] p[a]).0 != (
        #[trigger] p[b]).0 by {
            assert(p[a] == s[a]);
            if b < s.len() {
                assert(p[b] == s[b]);
            } else {
                assert(s[a].0 != key);
            }
        }
    }
}

/// Replacing the value beside a key inserts the new value into the map.
pub proof fn lemma_assoc_update<K, V>(s: Seq<(K, V)>, i: int, value: V)
    requires
        keys_distinct(s),
        0 <= i < s.len(),
    ensures
        keys_distinct(s.update(i, (s[i].0, value))),
        assoc_map(s.update(i, (s[i].0, value))) == assoc_map(s).insert(s[i].0, value),
    decreases s.len(),
{
    let u = s.update(i, (s[i].0, value));
    assert forall|a: int, b: int| 0 <= a < b < u.len() implies (#[trigger] u[a]).0 != (
    #[trigger] u[b]).0 by {
        assert(u[a].0 == s[a].0 && u[b].0 == s[b].0);
    }
    let t = s.drop_last();
    lemma_distinct_drop_last(s);
    if i == s.len() - 1 {
        assert(u.drop_last() =~= t);
        assert(assoc_map(u) =~= assoc_map(s).insert(s[i].0, value));
    } else {
        lemma_assoc_update(t, i, value);
        assert(t[i] == s[i]);
        assert(u.drop_last() =~= t.update(i, (s[i].0, value)));
        assert(u.last() == s.last());
        assert(s[i].0 != s[s.len() - 1].0);
        assert(assoc_map(u) =~= assoc_map(s).insert(s[i].0, value));
    }
}

/// Taking a pair out removes its key from the map.
pub proof fn lemma_assoc_remove<K, V>(s: Seq<(K, V)>, i: int)
    requires
        keys_distinct(s),
        0 <= i < s.len(),
    ensures
        keys_distinct(s.remove(i)),
        !has_key(s.remove(i), s[i].0),
        assoc_map(s.remove(i)) == assoc_map(s).remove(s[i].0),
    decreases s.len(),
{
    let r = s.remove(i);
    assert forall|a: int, b: int| 0 <= a < b < r.len() implies (#[trigger] r[a]).0 != (
    #[trigger] r[b]).0 by {
        let sa = if a < i {
            a
        } else {
            a + 1
        };
        let sb = if b < i {
            b
        } else {
            b + 1
        };
        assert(r[a] == s[sa] && r[b] == s[sb]);
    }
    if has_key(r, s[i].0) {
        let a = index_of(r, s[i].0);
        let sa = if a < i {
            a
        } else {
            a + 1
        };
        assert(r[a] == s[sa]);
        if sa < i {
            assert(s[sa].0 != s[i].0);
        } else {
            assert(s[i].0 != s[sa].0);
        }
    }
    let t = s.drop_last();
    lemma_distinct_drop_last(s);
    if i == s.len() - 1 {
        assert(r =~= t);
        lemma_assoc_map_dom(t, s[i].0);
        assert(assoc_map(r) =~= assoc_map(s).remove(s[i].0));
    } else {
        lemma_assoc_remove(t, i);
        assert(t[i] == s[i]);
        assert(r.drop_last() =~= t.remove(i));
        assert(r.last() == s.last());
        assert(s[i].0 != s[s.len() - 1].0);
        assert(assoc_map(r) =~= assoc_map(s).remove(s[i].0));
    }
}

/// A list without repeated keys has as many pairs as its map has keys.
pub proof fn lemma_assoc_len<K, V>(s: Seq<(K, V)>)
    requires
        keys_distinct(s),
    ensures
        assoc_map(s).dom().finite(),
        assoc_map(s).dom().len() == s.len(),
    decreases s.len(),
{
    if s.len() > 0 {
        let t = s.drop_last();
        lemma_distinct_drop_last(s);
        lemma_assoc_len(t);
        lemma_assoc_map_dom(t, s.last().0);
        assert(assoc_map(s).dom() =~= assoc_map(t).dom().insert(s.last().0));
    } else {
        assert(assoc_map(s).dom() =~= Set::<K>::empty());
    }
}

} // verus!
