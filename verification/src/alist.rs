//! Association sequences viewed as finite maps.
//!
//! The registries in this crate store their entries in insertion order
//! as sequences of key/value pairs with pairwise distinct keys.  This
//! module gives such a sequence its abstract reading as a `Map` and
//! proves how the map changes when an entry is appended, updated in
//! place or removed.

use vstd::prelude::*;

verus! {

/// The map read off an association sequence; on duplicate keys the
/// later entry wins (the registries never hold duplicates).
pub open spec fn alist_map<K, V>(s: Seq<(K, V)>) -> Map<K, V>
    decreases s.len(),
{
    if s.len() == 0 {
        Map::empty()
    } else {
        alist_map(s.drop_last()).insert(s.last().0, s.last().1)
    }
}

/// Pairwise distinct keys.
pub open spec fn distinct_keys<K, V>(s: Seq<(K, V)>) -> bool {
    forall|i: int, j: int| 0 <= i < j < s.len() ==> s[i].0 != s[j].0
}

/// Dropping the last entry keeps the keys distinct.
pub proof fn lemma_distinct_drop_last<K, V>(s: Seq<(K, V)>)
    requires
        distinct_keys(s),
        s.len() > 0,
    ensures
        distinct_keys(s.drop_last()),
{
    assert forall|i: int, j: int| 0 <= i < j < s.drop_last().len() implies s.drop_last()[i].0
        != s.drop_last()[j].0 by {
        assert(s.drop_last()[i] == s[i]);
        assert(s.drop_last()[j] == s[j]);
    }
}

/// A key is in the map exactly when some entry carries it.
pub proof fn lemma_alist_map_contains<K, V>(s: Seq<(K, V)>, k: K)
    ensures
        alist_map(s).contains_key(k) <==> exists|i: int| 0 <= i < s.len() && s[i].0 == k,
    decreases s.len(),
{
    if s.len() > 0 {
        lemma_alist_map_contains(s.drop_last(), k);
        if k == s.last().0 {
            assert(s[s.len() - 1].0 == k);
        } else {
            if alist_map(s).contains_key(k) {
                let i = choose|i: int| 0 <= i < s.drop_last().len() && s.drop_last()[i].0 == k;
                assert(s.drop_last()[i] == s[i]);
                assert(s[i].0 == k);
            }
            if exists|i: int| 0 <= i < s.len() && s[i].0 == k {
                let i = choose|i: int| 0 <= i < s.len() && s[i].0 == k;
                assert(s[s.len() - 1].0 != k);
                assert(s.drop_last()[i] == s[i]);
            }
        }
    }
}

/// With distinct keys, the entry at index `i` is what the map returns.
pub proof fn lemma_alist_map_get<K, V>(s: Seq<(K, V)>, i: int)
    requires
        distinct_keys(s),
        0 <= i < s.len(),
    ensures
        alist_map(s).contains_key(s[i].0),
        alist_map(s)[s[i].0] == s[i].1,
    decreases s.len(),
{
    if i < s.len() - 1 {
        lemma_distinct_drop_last(s);
        lemma_alist_map_get(s.drop_last(), i);
        assert(s.drop_last()[i] == s[i]);
        assert(s[i].0 != s[s.len() - 1].0);
    }
}

/// Appending a pair inserts it into the map.
pub proof fn lemma_alist_map_push<K, V>(s: Seq<(K, V)>, k: K, v: V)
    ensures
        alist_map(s.push((k, v))) == alist_map(s).insert(k, v),
{
    assert(s.push((k, v)).drop_last() =~= s);
    assert(s.push((k, v)).last() == (k, v));
}

/// Replacing the value at index `i` re-inserts that key.
pub proof fn lemma_alist_map_update<K, V>(s: Seq<(K, V)>, i: int, v: V)
    requires
        distinct_keys(s),
        0 <= i < s.len(),
    ensures
        alist_map(s.update(i, (s[i].0, v))) =~= alist_map(s).insert(s[i].0, v),
    decreases s.len(),
{
    let t = s.update(i, (s[i].0, v));
    if i == s.len() - 1 {
        assert(t.drop_last() =~= s.drop_last());
        assert(t.last() == (s[i].0, v));
    } else {
        lemma_distinct_drop_last(s);
        lemma_alist_map_update(s.drop_last(), i, v);
        assert(s.drop_last()[i] == s[i]);
        assert(t.drop_last() =~= s.drop_last().update(i, (s[i].0, v)));
        assert(t.last() == s.last());
        assert(s[i].0 != s[s.len() - 1].0);
    }
}

/// Removing the entry at index `i` removes that key from the map.
pub proof fn lemma_alist_map_remove<K, V>(s: Seq<(K, V)>, i: int)
    requires
        distinct_keys(s),
        0 <= i < s.len(),
    ensures
        alist_map(s.remove(i)) =~= alist_map(s).remove(s[i].0),
    decreases s.len(),
{
    let t = s.remove(i);
    if i == s.len() - 1 {
        assert(t =~= s.drop_last());
        lemma_alist_map_contains(s.drop_last(), s[i].0);
        if alist_map(s.drop_last()).contains_key(s[i].0) {
            let j = choose|j: int|
                0 <= j < s.drop_last().len() && s.drop_last()[j].0 == s[i].0;
            assert(s.drop_last()[j] == s[j]);
            assert(false);
        }
    } else {
        lemma_distinct_drop_last(s);
        lemma_alist_map_remove(s.drop_last(), i);
        assert(s.drop_last()[i] == s[i]);
        assert(t.drop_last() =~= s.drop_last().remove(i));
        assert(t.last() == s.last());
        assert(s[i].0 != s[s.len() - 1].0);
    }
}

} // verus!
