//! Association lists: sequences of key-value entries read as maps.

use vstd::prelude::*;

verus! {

/// No key occurs in two entries.
pub open spec fn keys_unique<K, V>(entries: Seq<(K, V)>) -> bool {
    forall|i: int, j: int|
        0 <= i < entries.len() && 0 <= j < entries.len() && #[trigger] entries[i].0
            == #[trigger] entries[j].0 ==> i == j
}

/// Whether some entry has key `k`.
pub open spec fn has_key<K, V>(entries: Seq<(K, V)>, k: K) -> bool {
    exists|i: int| 0 <= i < entries.len() && #[trigger] entries[i].0 == k
}

/// The map from each key to the value of an entry with that key.
pub open spec fn to_map<K, V>(entries: Seq<(K, V)>) -> Map<K, V> {
    Map::new(
        |k: K| has_key(entries, k),
        |k: K| entries[choose|i: int| 0 <= i < entries.len() && #[trigger] entries[i].0 == k].1,
    )
}

/// An entry's key maps to its value.
pub proof fn lemma_to_map_index<K, V>(entries: Seq<(K, V)>, i: int)
    requires
        keys_unique(entries),
        0 <= i < entries.len(),
    ensures
        to_map(entries).contains_key(entries[i].0),
        to_map(entries)[entries[i].0] == entries[i].1,
{
    let k = entries[i].0;
    assert(has_key(entries, k));
    let j = choose|j: int| 0 <= j < entries.len() && #[trigger] entries[j].0 == k;
    assert(entries[j].0 == entries[i].0);
}

/// A key of the map is the key of some entry, and maps to that entry's
/// value.
pub proof fn lemma_to_map_key<K, V>(entries: Seq<(K, V)>, k: K) -> (i: int)
    requires
        keys_unique(entries),
        to_map(entries).contains_key(k),
    ensures
        0 <= i < entries.len(),
        entries[i].0 == k,
        to_map(entries)[k] == entries[i].1,
{
    let i = choose|i: int| 0 <= i < entries.len() && #[trigger] entries[i].0 == k;
    lemma_to_map_index(entries, i);
    i
}

/// Replacing the value of one entry replaces it in the map.
pub proof fn lemma_to_map_update<K, V>(entries: Seq<(K, V)>, i: int, v: V)
    requires
        keys_unique(entries),
        0 <= i < entries.len(),
    ensures
        keys_unique(entries.update(i, (entries[i].0, v))),
        to_map(entries.update(i, (entries[i].0, v))) == to_map(entries).insert(entries[i].0, v),
{
    let k = entries[i].0;
    let updated = entries.update(i, (k, v));
    assert forall|a: int, b: int|
        0 <= a < updated.len() && 0 <= b < updated.len() && #[trigger] updated[a].0
            == #[trigger] updated[b].0 implies a == b by {
        assert(entries[a].0 == updated[a].0);
        assert(entries[b].0 == updated[b].0);
    }
    assert forall|key: K| #[trigger] has_key(updated, key) == has_key(entries, key) by {
        if has_key(updated, key) {
            let a = choose|a: int| 0 <= a < updated.len() && #[trigger] updated[a].0 == key;
            assert(entries[a].0 == key);
        }
        if has_key(entries, key) {
            let a = choose|a: int| 0 <= a < entries.len() && #[trigger] entries[a].0 == key;
            assert(updated[a].0 == key);
        }
    }
    assert forall|key: K| #[trigger] to_map(updated).contains_key(key) implies to_map(updated)[key]
        == to_map(entries).insert(k, v)[key] by {
        let a = lemma_to_map_key(updated, key);
        if a != i {
            lemma_to_map_index(entries, a);
        }
    }
    assert(to_map(updated) =~= to_map(entries).insert(k, v));
}

/// Adding an entry with a new key adds it to the map.
pub proof fn lemma_to_map_push<K, V>(entries: Seq<(K, V)>, k: K, v: V)
    requires
        keys_unique(entries),
        !has_key(entries, k),
    ensures
        keys_unique(entries.push((k, v))),
        to_map(entries.push((k, v))) == to_map(entries).insert(k, v),
{
    let pushed = entries.push((k, v));
    let n = entries.len() as int;
    assert forall|a: int, b: int|
        0 <= a < pushed.len() && 0 <= b < pushed.len() && #[trigger] pushed[a].0
            == #[trigger] pushed[b].0 implies a == b by {
        if a < n {
            assert(entries[a].0 == pushed[a].0);
        }
        if b < n {
            assert(entries[b].0 == pushed[b].0);
        }
    }
    assert forall|key: K| #[trigger] has_key(pushed, key) == (has_key(entries, key) || key == k) by {
        if has_key(pushed, key) {
            let a = choose|a: int| 0 <= a < pushed.len() && #[trigger] pushed[a].0 == key;
            if a < n {
                assert(entries[a].0 == key);
            }
        }
        if has_key(entries, key) {
            let a = choose|a: int| 0 <= a < entries.len() && #[trigger] entries[a].0 == key;
            assert(pushed[a].0 == key);
        }
        if key == k {
            assert(pushed[n].0 == key);
        }
    }
    assert forall|key: K| #[trigger] to_map(pushed).contains_key(key) implies to_map(pushed)[key]
        == to_map(entries).insert(k, v)[key] by {
        let a = lemma_to_map_key(pushed, key);
        if a < n {
            lemma_to_map_index(entries, a);
        }
    }
    assert(to_map(pushed) =~= to_map(entries).insert(k, v));
}

/// The map has one key for each entry.
pub proof fn lemma_to_map_len<K, V>(entries: Seq<(K, V)>)
    requires
        keys_unique(entries),
    ensures
        to_map(entries).dom().finite(),
        to_map(entries).dom().len() == entries.len(),
{
    let ks = entries.map_values(|e: (K, V)| e.0);
    assert forall|key: K| #[trigger] to_map(entries).dom().contains(key) == ks.to_set().contains(
        key,
    ) by {
        if has_key(entries, key) {
            let a = choose|a: int| 0 <= a < entries.len() && #[trigger] entries[a].0 == key;
            assert(ks[a] == key);
        }
        if ks.contains(key) {
            let a = choose|a: int| 0 <= a < ks.len() && ks[a] == key;
            assert(entries[a].0 == key);
        }
    }
    assert(to_map(entries).dom() =~= ks.to_set());
    assert(ks.no_duplicates()) by {
        assert forall|a: int, b: int| 0 <= a < ks.len() && 0 <= b < ks.len() && a != b implies ks[a]
            != ks[b] by {
            assert(entries[a].0 == ks[a]);
            assert(entries[b].0 == ks[b]);
        }
    }
    ks.unique_seq_to_set();
}

/// Removing an entry removes its key from the map.
pub proof fn lemma_to_map_remove<K, V>(entries: Seq<(K, V)>, i: int)
    requires
        keys_unique(entries),
        0 <= i < entries.len(),
    ensures
        keys_unique(entries.remove(i)),
        to_map(entries.remove(i)) == to_map(entries).remove(entries[i].0),
{
    let k = entries[i].0;
    let rest = entries.remove(i);
    assert forall|a: int, b: int|
        0 <= a < rest.len() && 0 <= b < rest.len() && #[trigger] rest[a].0 == #[trigger] rest[b].0
            implies a == b by {
        let a2 = if a < i { a } else { a + 1 };
        let b2 = if b < i { b } else { b + 1 };
        assert(entries[a2].0 == rest[a].0);
        assert(entries[b2].0 == rest[b].0);
    }
    assert forall|key: K| #[trigger] has_key(rest, key) == (has_key(entries, key) && key != k) by {
        if has_key(rest, key) {
            let a = choose|a: int| 0 <= a < rest.len() && #[trigger] rest[a].0 == key;
            let a2 = if a < i { a } else { a + 1 };
            assert(entries[a2].0 == key);
            assert(a2 != i);
        }
        if has_key(entries, key) && key != k {
            let a = choose|a: int| 0 <= a < entries.len() && #[trigger] entries[a].0 == key;
            assert(a != i);
            let a2 = if a < i { a } else { a - 1 };
            assert(rest[a2].0 == key);
        }
    }
    assert forall|key: K| #[trigger] to_map(rest).contains_key(key) implies to_map(rest)[key]
        == to_map(entries).remove(k)[key] by {
        let a = lemma_to_map_key(rest, key);
        let a2 = if a < i { a } else { a + 1 };
        assert(entries[a2] == rest[a]);
        lemma_to_map_index(entries, a2);
    }
    assert(to_map(rest) =~= to_map(entries).remove(k));
}

} // verus!
