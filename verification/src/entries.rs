//! Lists of entries, each a key with a value, and the maps they stand for.
use crate::order::key_less;
use crate::order::lemma_key_less_irreflexive;
use vstd::prelude::*;

verus! {

/// Whether no key occurs twice.
pub open spec fn keys_distinct<V>(entries: Seq<(Seq<char>, V)>) -> bool {
    forall|i: int, j: int|
        0 <= i < entries.len() && 0 <= j < entries.len() && i != j ==> (#[trigger] entries[i]).0
            != (#[trigger] entries[j]).0
}

/// Whether the keys are strictly increasing.
pub open spec fn keys_increasing<V>(entries: Seq<(Seq<char>, V)>) -> bool {
    forall|i: int, j: int|
        0 <= i < j < entries.len() ==> key_less(
            (#[trigger] entries[i]).0,
            (#[trigger] entries[j]).0,
        )
}

/// Whether some entry has the key `key`.
pub open spec fn has_key<V>(entries: Seq<(Seq<char>, V)>, key: Seq<char>) -> bool {
    exists|i: int| 0 <= i < entries.len() && (#[trigger] entries[i]).0 == key
}

/// The place of an entry with the key `key`, where there is one.
pub open spec fn place_of<V>(entries: Seq<(Seq<char>, V)>, key: Seq<char>) -> int {
    choose|i: int| 0 <= i < entries.len() && (#[trigger] entries[i]).0 == key
}

/// The map that sends the key of each entry to its value. It is meant for
/// entries with distinct keys.
pub open spec fn map_of<V>(entries: Seq<(Seq<char>, V)>) -> Map<Seq<char>, V> {
    Map::new(
        |key: Seq<char>| has_key(entries, key),
        |key: Seq<char>| entries[place_of(entries, key)].1,
    )
}

/// Increasing keys are distinct keys.
pub proof fn lemma_increasing_distinct<V>(entries: Seq<(Seq<char>, V)>)
    requires
        keys_increasing(entries),
    ensures
        keys_distinct(entries),
{
    assert forall|i: int, j: int|
        0 <= i < entries.len() && 0 <= j < entries.len() && i != j implies (#[trigger] entries[i]).0
        != (#[trigger] entries[j]).0 by {
        lemma_key_less_irreflexive(entries[i].0);
    }
}

/// Each entry is found in the map under its key.
pub proof fn lemma_map_of_entry<V>(entries: Seq<(Seq<char>, V)>, i: int)
    requires
        keys_distinct(entries),
        0 <= i < entries.len(),
    ensures
        map_of(entries).contains_key(entries[i].0),
        map_of(entries)[entries[i].0] == entries[i].1,
{
    let j = place_of(entries, entries[i].0);
    assert(j == i);
}

/// The map has as many keys as there are entries.
pub proof fn lemma_map_of_len<V>(entries: Seq<(Seq<char>, V)>)
    requires
        keys_distinct(entries),
    ensures
        map_of(entries).dom().finite(),
        map_of(entries).len() == entries.len(),
{
    let keys = Seq::new(entries.len(), |i: int| entries[i].0);
    assert forall|key: Seq<char>| map_of(entries).dom().contains(key) <==> keys.to_set().contains(
        key,
    ) by {
        if has_key(entries, key) {
            assert(keys[place_of(entries, key)] == key);
        }
        if keys.contains(key) {
            let i = choose|i: int| 0 <= i < keys.len() && keys[i] == key;
            assert(entries[i].0 == key);
        }
    }
    assert(map_of(entries).dom() =~= keys.to_set());
    vstd::seq_lib::seq_to_set_is_finite(keys);
    keys.unique_seq_to_set();
}

/// A map whose keys are those of the entries, each with the value of its
/// entry, is the map of the entries.
pub proof fn lemma_map_of_is<V>(entries: Seq<(Seq<char>, V)>, map: Map<Seq<char>, V>)
    requires
        keys_distinct(entries),
        forall|i: int|
            0 <= i < entries.len() ==> map.contains_key((#[trigger] entries[i]).0)
                && map[entries[i].0] == entries[i].1,
        forall|key: Seq<char>| #[trigger] map.contains_key(key) ==> has_key(entries, key),
    ensures
        map_of(entries) == map,
{
    assert forall|key: Seq<char>| #[trigger] map_of(entries).contains_key(key) implies map_of(
        entries,
    )[key] == map[key] by {
        lemma_map_of_entry(entries, place_of(entries, key));
    }
    assert(map_of(entries) =~= map);
}

/// An entry with a new key, put in anywhere, adds its key to the map.
pub proof fn lemma_map_of_insert<V>(entries: Seq<(Seq<char>, V)>, i: int, entry: (Seq<char>, V))
    requires
        keys_distinct(entries),
        0 <= i <= entries.len(),
        !has_key(entries, entry.0),
    ensures
        keys_distinct(entries.insert(i, entry)),
        map_of(entries.insert(i, entry)) == map_of(entries).insert(entry.0, entry.1),
{
    let after = entries.insert(i, entry);
    assert forall|a: int, b: int|
        0 <= a < after.len() && 0 <= b < after.len() && a != b implies (#[trigger] after[a]).0 != (
    #[trigger] after[b]).0 by {
        let a0 = if a < i { a } else { a - 1 };
        let b0 = if b < i { b } else { b - 1 };
        if a != i {
            assert(after[a] == entries[a0]);
        }
        if b != i {
            assert(after[b] == entries[b0]);
        }
    }
    assert forall|j: int| 0 <= j < after.len() implies map_of(entries).insert(
        entry.0,
        entry.1,
    ).contains_key((#[trigger] after[j]).0) && map_of(entries).insert(entry.0, entry.1)[after[j].0]
        == after[j].1 by {
        if j < i {
            assert(after[j] == entries[j]);
            lemma_map_of_entry(entries, j);
        } else if j > i {
            assert(after[j] == entries[j - 1]);
            lemma_map_of_entry(entries, j - 1);
        }
    }
    assert forall|key: Seq<char>| #[trigger]
        map_of(entries).insert(entry.0, entry.1).contains_key(key) implies has_key(after, key) by {
        if key == entry.0 {
            assert(after[i].0 == key);
        } else {
            let j = place_of(entries, key);
            let j1 = if j < i { j } else { j + 1 };
            assert(after[j1] == entries[j]);
        }
    }
    lemma_map_of_is(after, map_of(entries).insert(entry.0, entry.1));
}

/// An entry that takes the place of one with the same key puts its value
/// under that key.
pub proof fn lemma_map_of_update<V>(entries: Seq<(Seq<char>, V)>, i: int, entry: (Seq<char>, V))
    requires
        keys_distinct(entries),
        0 <= i < entries.len(),
        entries[i].0 == entry.0,
    ensures
        keys_distinct(entries.update(i, entry)),
        map_of(entries.update(i, entry)) == map_of(entries).insert(entry.0, entry.1),
{
    let after = entries.update(i, entry);
    assert forall|a: int, b: int|
        0 <= a < after.len() && 0 <= b < after.len() && a != b implies (#[trigger] after[a]).0 != (
    #[trigger] after[b]).0 by {
        assert(after[a].0 == entries[a].0);
        assert(after[b].0 == entries[b].0);
    }
    assert forall|j: int| 0 <= j < after.len() implies map_of(entries).insert(
        entry.0,
        entry.1,
    ).contains_key((#[trigger] after[j]).0) && map_of(entries).insert(entry.0, entry.1)[after[j].0]
        == after[j].1 by {
        if j != i {
            assert(after[j] == entries[j]);
            lemma_map_of_entry(entries, j);
        }
    }
    assert forall|key: Seq<char>| #[trigger]
        map_of(entries).insert(entry.0, entry.1).contains_key(key) implies has_key(after, key) by {
        if key == entry.0 {
            assert(after[i].0 == key);
        } else {
            let j = place_of(entries, key);
            assert(after[j] == entries[j]);
        }
    }
    lemma_map_of_is(after, map_of(entries).insert(entry.0, entry.1));
}

/// Taking an entry out takes its key out of the map.
pub proof fn lemma_map_of_remove<V>(entries: Seq<(Seq<char>, V)>, i: int)
    requires
        keys_distinct(entries),
        0 <= i < entries.len(),
    ensures
        keys_distinct(entries.remove(i)),
        map_of(entries.remove(i)) == map_of(entries).remove(entries[i].0),
{
    let after = entries.remove(i);
    let goal = map_of(entries).remove(entries[i].0);
    assert forall|a: int, b: int|
        0 <= a < after.len() && 0 <= b < after.len() && a != b implies (#[trigger] after[a]).0 != (
    #[trigger] after[b]).0 by {
        let a0 = if a < i { a } else { a + 1 };
        let b0 = if b < i { b } else { b + 1 };
        assert(after[a] == entries[a0]);
        assert(after[b] == entries[b0]);
    }
    assert forall|j: int| 0 <= j < after.len() implies goal.contains_key((#[trigger] after[j]).0)
        && goal[after[j].0] == after[j].1 by {
        let j0 = if j < i { j } else { j + 1 };
        assert(after[j] == entries[j0]);
        lemma_map_of_entry(entries, j0);
    }
    assert forall|key: Seq<char>| #[trigger] goal.contains_key(key) implies has_key(after, key) by {
        let j = place_of(entries, key);
        let j1 = if j < i { j } else { j - 1 };
        assert(after[j1] == entries[j]);
    }
    lemma_map_of_is(after, goal);
}

} // verus!
