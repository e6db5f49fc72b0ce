//! Sequences of keyed rows viewed as maps from key to row.
//!
//! Each entity table is a vector of rows held in strictly increasing key
//! order; its mathematical content is the map from key to row.  The
//! lemmas here relate vector surgery (push, remove, update, insert) to
//! map operations, generically over the row type and its key function.

use vstd::prelude::*;

verus! {

/// The map view of a sequence of rows under a key function.
pub open spec fn rows_map<T>(s: Seq<T>, key: spec_fn(T) -> int) -> Map<int, T>
    decreases s.len(),
{
    if s.len() == 0 {
        Map::empty()
    } else {
        rows_map(s.drop_last(), key).insert(key(s.last()), s.last())
    }
}

/// Keys strictly increase along the sequence (so they are also distinct).
pub open spec fn keys_sorted<T>(s: Seq<T>, key: spec_fn(T) -> int) -> bool {
    forall|i: int, j: int| 0 <= i < j < s.len() ==> key(s[i]) < key(s[j])
}

/// The domain of the map view is exactly the set of keys in the sequence.
pub proof fn lemma_rows_map_dom<T>(s: Seq<T>, key: spec_fn(T) -> int)
    ensures
        forall|k: int|
            rows_map(s, key).dom().contains(k) <==> exists|i: int|
                0 <= i < s.len() && key(#[trigger] s[i]) == k,
    decreases s.len(),
{
    if s.len() > 0 {
        lemma_rows_map_dom(s.drop_last(), key);
        assert forall|k: int| rows_map(s, key).dom().contains(k) implies exists|i: int|
            0 <= i < s.len() && key(#[trigger] s[i]) == k by {
            if k == key(s.last()) {
                assert(key(s[s.len() - 1]) == k);
            } else {
                assert(rows_map(s.drop_last(), key).dom().contains(k));
                let i = choose|i: int|
                    0 <= i < s.drop_last().len() && key(#[trigger] s.drop_last()[i]) == k;
                assert(s.drop_last()[i] == s[i]);
                assert(key(s[i]) == k);
            }
        }
        assert forall|k: int|
            (exists|i: int| 0 <= i < s.len() && key(#[trigger] s[i]) == k) implies rows_map(
            s,
            key,
        ).dom().contains(k) by {
            let i = choose|i: int| 0 <= i < s.len() && key(#[trigger] s[i]) == k;
            if i < s.len() - 1 {
                assert(s.drop_last()[i] == s[i]);
                assert(0 <= i < s.drop_last().len() && key(s.drop_last()[i]) == k);
                assert(rows_map(s.drop_last(), key).dom().contains(k));
            } else {
                assert(k == key(s.last()));
            }
        }
    }
}

/// With distinct keys, each row is the map's value at its key.
pub proof fn lemma_rows_map_index<T>(s: Seq<T>, key: spec_fn(T) -> int, i: int)
    requires
        keys_sorted(s, key),
        0 <= i < s.len(),
    ensures
        rows_map(s, key).dom().contains(key(s[i])),
        rows_map(s, key)[key(s[i])] == s[i],
    decreases s.len(),
{
    if i == s.len() - 1 {
    } else {
        lemma_rows_map_index(s.drop_last(), key, i);
        assert(s.drop_last()[i] == s[i]);
    }
}

/// Removing the row at index `i` removes its key from the map view.
pub proof fn lemma_rows_map_remove<T>(s: Seq<T>, key: spec_fn(T) -> int, i: int)
    requires
        keys_sorted(s, key),
        0 <= i < s.len(),
    ensures
        rows_map(s.remove(i), key) =~= rows_map(s, key).remove(key(s[i])),
        keys_sorted(s.remove(i), key),
    decreases s.len(),
{
    if i == s.len() - 1 {
        assert(s.remove(i) =~= s.drop_last());
        lemma_rows_map_dom(s.drop_last(), key);
        assert(rows_map(s.drop_last(), key) =~= rows_map(s, key).remove(key(s[i])));
    } else {
        lemma_rows_map_remove(s.drop_last(), key, i);
        assert(s.remove(i).drop_last() =~= s.drop_last().remove(i));
        assert(s.remove(i).last() == s.last());
        assert(rows_map(s.remove(i), key) =~= rows_map(s.drop_last().remove(i), key).insert(
            key(s.last()),
            s.last(),
        ));
        assert(rows_map(s.remove(i), key) =~= rows_map(s, key).remove(key(s[i])));
    }
}

/// Replacing the row at index `i` by a row with the same key updates the
/// map view at that key.
pub proof fn lemma_rows_map_update<T>(s: Seq<T>, key: spec_fn(T) -> int, i: int, x: T)
    requires
        keys_sorted(s, key),
        0 <= i < s.len(),
        key(x) == key(s[i]),
    ensures
        rows_map(s.update(i, x), key) =~= rows_map(s, key).insert(key(x), x),
        keys_sorted(s.update(i, x), key),
    decreases s.len(),
{
    if i == s.len() - 1 {
        assert(s.update(i, x).drop_last() =~= s.drop_last());
        assert(s.update(i, x).last() == x);
    } else {
        lemma_rows_map_update(s.drop_last(), key, i, x);
        assert(s.update(i, x).drop_last() =~= s.drop_last().update(i, x));
        assert(s.update(i, x).last() == s.last());
        assert(rows_map(s.update(i, x), key) =~= rows_map(s, key).insert(key(x), x));
    }
}

/// Inserting a row at position `i`, with a key between its neighbours',
/// inserts it into the map view and keeps the order.
pub proof fn lemma_rows_map_insert<T>(s: Seq<T>, key: spec_fn(T) -> int, i: int, x: T)
    requires
        keys_sorted(s, key),
        0 <= i <= s.len(),
        forall|j: int| 0 <= j < i ==> key(#[trigger] s[j]) < key(x),
        forall|j: int| i <= j < s.len() ==> key(x) < key(#[trigger] s[j]),
    ensures
        rows_map(s.insert(i, x), key) =~= rows_map(s, key).insert(key(x), x),
        keys_sorted(s.insert(i, x), key),
    decreases s.len(),
{
    if i == s.len() {
        assert(s.insert(i, x).drop_last() =~= s);
        assert(s.insert(i, x).last() == x);
    } else {
        lemma_rows_map_insert(s.drop_last(), key, i, x);
        assert(s.insert(i, x).drop_last() =~= s.drop_last().insert(i, x));
        assert(s.insert(i, x).last() == s.last());
        assert(rows_map(s.insert(i, x), key) =~= rows_map(s, key).insert(key(x), x));
    }
}

/// The unique sequence in strictly increasing key order whose map view
/// is `m`, where one exists.
pub open spec fn sorted_rows<T>(m: Map<int, T>, key: spec_fn(T) -> int) -> Seq<T> {
    choose|s: Seq<T>| keys_sorted(s, key) && rows_map(s, key) == m
}

/// A sorted sequence is the canonical sequence of its own map view.
pub proof fn lemma_sorted_rows_of<T>(s: Seq<T>, key: spec_fn(T) -> int)
    requires
        keys_sorted(s, key),
    ensures
        sorted_rows(rows_map(s, key), key) == s,
{
    let m = rows_map(s, key);
    assert(keys_sorted(s, key) && rows_map(s, key) == m);
    let s2 = choose|s2: Seq<T>| keys_sorted(s2, key) && rows_map(s2, key) == m;
    lemma_rows_map_canonical(s, s2, key);
}

/// Two sequences in strictly increasing key order with the same map view
/// are the same sequence.
pub proof fn lemma_rows_map_canonical<T>(s1: Seq<T>, s2: Seq<T>, key: spec_fn(T) -> int)
    requires
        keys_sorted(s1, key),
        keys_sorted(s2, key),
        rows_map(s1, key) == rows_map(s2, key),
    ensures
        s1 == s2,
    decreases s1.len(),
{
    lemma_rows_map_dom(s1, key);
    lemma_rows_map_dom(s2, key);
    if s1.len() == 0 {
        if s2.len() > 0 {
            assert(rows_map(s2, key).dom().contains(key(s2[0])));
        }
        assert(s1 =~= s2);
    } else {
        assert(rows_map(s1, key).dom().contains(key(s1[s1.len() - 1])));
        assert(s2.len() > 0);
        // The largest key in each sequence is its last row's key, and the
        // map views agree, so the last rows agree.
        let k1 = key(s1.last());
        let k2 = key(s2.last());
        lemma_rows_map_index(s1, key, s1.len() - 1);
        lemma_rows_map_index(s2, key, s2.len() - 1);
        if k1 < k2 {
            let i = choose|i: int| 0 <= i < s1.len() && key(#[trigger] s1[i]) == k2;
            assert(key(s1[i]) <= k1);
        }
        if k2 < k1 {
            let i = choose|i: int| 0 <= i < s2.len() && key(#[trigger] s2[i]) == k1;
            assert(key(s2[i]) <= k2);
        }
        assert(k1 == k2);
        assert(s1.last() == s2.last());
        assert(rows_map(s1.drop_last(), key) =~= rows_map(s1, key).remove(k1)) by {
            lemma_rows_map_remove(s1, key, s1.len() - 1);
            assert(s1.remove(s1.len() - 1) =~= s1.drop_last());
        }
        assert(rows_map(s2.drop_last(), key) =~= rows_map(s2, key).remove(k2)) by {
            lemma_rows_map_remove(s2, key, s2.len() - 1);
            assert(s2.remove(s2.len() - 1) =~= s2.drop_last());
        }
        lemma_rows_map_canonical(s1.drop_last(), s2.drop_last(), key);
        assert(s1 =~= s1.drop_last().push(s1.last()));
        assert(s2 =~= s2.drop_last().push(s2.last()));
        assert(s1 == s2);
    }
}

} // verus!
