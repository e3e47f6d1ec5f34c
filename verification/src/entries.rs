//! Finite maps written as sequences of entries.
//!
//! A sequence of key-value entries denotes the map that results when the
//! entries are applied in order, a later entry replacing an earlier one with
//! the same key. Where no key occurs twice the order does not matter.

use vstd::prelude::*;

verus! {

/// The map that a sequence of entries denotes.
pub open spec fn map_of<K, V>(entries: Seq<(K, V)>) -> Map<K, V>
    decreases entries.len(),
{
    if entries.len() == 0 {
        Map::empty()
    } else {
        map_of(entries.drop_last()).insert(entries.last().0, entries.last().1)
    }
}

/// No key occurs in two entries.
pub open spec fn distinct_keys<K, V>(entries: Seq<(K, V)>) -> bool {
    forall|i: int, j: int|
        0 <= i < j < entries.len() ==> (#[trigger] entries[i]).0 != (#[trigger] entries[j]).0
}

/// Whether some entry has the key.
pub open spec fn has_key<K, V>(entries: Seq<(K, V)>, key: K) -> bool {
    exists|i: int| 0 <= i < entries.len() && (#[trigger] entries[i]).0 == key
}

/// The keys of the map are the keys of the entries.
pub proof fn lemma_map_of_keys<K, V>(entries: Seq<(K, V)>)
    ensures
        forall|key: K| #[trigger] map_of(entries).contains_key(key) <==> has_key(entries, key),
        map_of(entries).dom().finite(),
    decreases entries.len(),
{
    if entries.len() > 0 {
        let before = entries.drop_last();
        lemma_map_of_keys(before);
        assert forall|key: K| #[trigger]
            map_of(entries).contains_key(key) <==> has_key(entries, key) by {
            if has_key(entries, key) {
                let i = choose|i: int| 0 <= i < entries.len() && (#[trigger] entries[i]).0 == key;
                if i < before.len() {
                    assert(before[i].0 == key);
                }
            }
        }
    }
}

/// Where no key occurs twice, each entry's key is bound to that entry's value.
pub proof fn lemma_map_of_entry<K, V>(entries: Seq<(K, V)>, i: int)
    requires
        distinct_keys(entries),
        0 <= i < entries.len(),
    ensures
        map_of(entries).contains_key(entries[i].0),
        map_of(entries)[entries[i].0] == entries[i].1,
    decreases entries.len(),
{
    if i < entries.len() - 1 {
        let before = entries.drop_last();
        lemma_map_of_entry(before, i);
    }
}

/// Where no key occurs twice, the map has as many keys as there are entries.
pub proof fn lemma_map_of_len<K, V>(entries: Seq<(K, V)>)
    requires
        distinct_keys(entries),
    ensures
        map_of(entries).dom().finite(),
        map_of(entries).len() == entries.len(),
    decreases entries.len(),
{
    if entries.len() > 0 {
        let before = entries.drop_last();
        lemma_map_of_len(before);
        lemma_map_of_keys(before);
        assert(!has_key(before, entries.last().0));
    }
}

/// One more entry binds its key, replacing what the key was bound to.
pub proof fn lemma_map_of_push<K, V>(entries: Seq<(K, V)>, key: K, value: V)
    ensures
        map_of(entries.push((key, value))) == map_of(entries).insert(key, value),
        distinct_keys(entries) && !has_key(entries, key) ==> distinct_keys(
            entries.push((key, value)),
        ),
{
    assert(entries.push((key, value)).drop_last() =~= entries);
}

/// Where no key occurs twice, replacing an entry's value rebinds its key.
pub proof fn lemma_map_of_update<K, V>(entries: Seq<(K, V)>, i: int, value: V)
    requires
        distinct_keys(entries),
        0 <= i < entries.len(),
    ensures
        distinct_keys(entries.update(i, (entries[i].0, value))),
        map_of(entries.update(i, (entries[i].0, value))) == map_of(entries).insert(
            entries[i].0,
            value,
        ),
{
    let key = entries[i].0;
    let updated = entries.update(i, (key, value));
    lemma_map_of_keys(entries);
    lemma_map_of_keys(updated);
    let target = map_of(entries).insert(key, value);
    assert forall|k: K| #[trigger] map_of(updated).contains_key(k) <==> target.contains_key(k) by {
        if has_key(entries, k) {
            let a = choose|a: int| 0 <= a < entries.len() && (#[trigger] entries[a]).0 == k;
            assert(updated[a].0 == k);
        }
    }
    assert forall|k: K| #[trigger] map_of(updated).contains_key(k) implies map_of(updated)[k]
        == target[k] by {
        let a = choose|a: int| 0 <= a < updated.len() && (#[trigger] updated[a]).0 == k;
        lemma_map_of_entry(updated, a);
        if a != i {
            lemma_map_of_entry(entries, a);
        }
    }
}

/// Where no key occurs twice, taking an entry out unbinds its key.
pub proof fn lemma_map_of_remove<K, V>(entries: Seq<(K, V)>, i: int)
    requires
        distinct_keys(entries),
        0 <= i < entries.len(),
    ensures
        distinct_keys(entries.remove(i)),
        !has_key(entries.remove(i), entries[i].0),
        map_of(entries.remove(i)) == map_of(entries).remove(entries[i].0),
{
    let key = entries[i].0;
    let rest = entries.remove(i);
    lemma_map_of_keys(entries);
    lemma_map_of_keys(rest);
    let target = map_of(entries).remove(key);
    assert forall|k: K| #[trigger] map_of(rest).contains_key(k) <==> target.contains_key(k) by {
        if has_key(entries, k) && k != key {
            let x = choose|x: int| 0 <= x < entries.len() && (#[trigger] entries[x]).0 == k;
            let a = if x < i { x } else { x - 1 };
            assert(rest[a].0 == k);
        }
    }
    assert forall|k: K| #[trigger] map_of(rest).contains_key(k) implies map_of(rest)[k]
        == target[k] by {
        let a = choose|a: int| 0 <= a < rest.len() && (#[trigger] rest[a]).0 == k;
        let x = if a < i { a } else { a + 1 };
        lemma_map_of_entry(rest, a);
        lemma_map_of_entry(entries, x);
    }
}

/// A key is bound to the value of the last entry that has it.
pub proof fn lemma_map_of_last<K, V>(entries: Seq<(K, V)>, i: int)
    requires
        0 <= i < entries.len(),
        forall|j: int| i < j < entries.len() ==> (#[trigger] entries[j]).0 != entries[i].0,
    ensures
        map_of(entries).contains_key(entries[i].0),
        map_of(entries)[entries[i].0] == entries[i].1,
    decreases entries.len(),
{
    if i < entries.len() - 1 {
        let before = entries.drop_last();
        lemma_map_of_last(before, i);
    }
}

} // verus!
