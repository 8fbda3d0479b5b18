//! Keyed entry lists: a sequence of (key, value) pairs with distinct keys,
//! read as the map from each key to its value.

use vstd::prelude::*;

verus! {

/// No key occurs twice in `entries`.
pub open spec fn keys_distinct<T>(entries: Seq<(Seq<char>, T)>) -> bool {
    forall|i: int, j: int| 0 <= i < j < entries.len() ==> entries[i].0 != entries[j].0
}

/// Whether some entry has key `key`.
pub open spec fn has_key<T>(entries: Seq<(Seq<char>, T)>, key: Seq<char>) -> bool {
    exists|i: int| 0 <= i < entries.len() && entries[i].0 == key
}

/// The map from each key of `entries` to its value; a later entry wins.
pub open spec fn entry_map<T>(entries: Seq<(Seq<char>, T)>) -> Map<Seq<char>, T>
    decreases entries.len(),
{
    if entries.len() == 0 {
        Map::empty()
    } else {
        entry_map(entries.drop_last()).insert(entries.last().0, entries.last().1)
    }
}

/// The keys of the map are the keys of the entries.
pub proof fn lemma_entry_map_dom<T>(entries: Seq<(Seq<char>, T)>, key: Seq<char>)
    ensures
        entry_map(entries).contains_key(key) <==> has_key(entries, key),
    decreases entries.len(),
{
    if entries.len() > 0 {
        let init = entries.drop_last();
        lemma_entry_map_dom(init, key);
        if has_key(init, key) {
            let i = choose|i: int| 0 <= i < init.len() && init[i].0 == key;
            assert(entries[i].0 == key);
        }
        if has_key(entries, key) && entries.last().0 != key {
            let i = choose|i: int| 0 <= i < entries.len() && entries[i].0 == key;
            assert(init[i].0 == key);
        }
    }
}

/// With distinct keys, the map gives each entry's value under its key.
pub proof fn lemma_entry_map_index<T>(entries: Seq<(Seq<char>, T)>, i: int)
    requires
        keys_distinct(entries),
        0 <= i < entries.len(),
    ensures
        entry_map(entries).contains_key(entries[i].0),
        entry_map(entries)[entries[i].0] == entries[i].1,
    decreases entries.len(),
{
    if i < entries.len() - 1 {
        let init = entries.drop_last();
        assert(keys_distinct(init));
        lemma_entry_map_index(init, i);
        assert(init[i] == entries[i]);
    }
}

/// Appending an entry with a new key inserts it into the map.
pub proof fn lemma_entry_map_push<T>(entries: Seq<(Seq<char>, T)>, key: Seq<char>, value: T)
    requires
        keys_distinct(entries),
        !entry_map(entries).contains_key(key),
    ensures
        keys_distinct(entries.push((key, value))),
        entry_map(entries.push((key, value))) == entry_map(entries).insert(key, value),
{
    let pushed = entries.push((key, value));
    assert(pushed.drop_last() =~= entries);
    lemma_entry_map_dom(entries, key);
    assert forall|i: int, j: int| 0 <= i < j < pushed.len() implies pushed[i].0 != pushed[j].0 by {
        if j == entries.len() {
            assert(entries[i].0 != key);
        } else {
            assert(pushed[i] == entries[i] && pushed[j] == entries[j]);
        }
    }
}

/// Replacing the value at an index updates the map at that key.
pub proof fn lemma_entry_map_update<T>(entries: Seq<(Seq<char>, T)>, i: int, value: T)
    requires
        keys_distinct(entries),
        0 <= i < entries.len(),
    ensures
        keys_distinct(entries.update(i, (entries[i].0, value))),
        entry_map(entries.update(i, (entries[i].0, value))) == entry_map(entries).insert(
            entries[i].0,
            value,
        ),
    decreases entries.len(),
{
    let updated = entries.update(i, (entries[i].0, value));
    assert(keys_distinct(updated)) by {
        assert forall|a: int, b: int| 0 <= a < b < updated.len() implies updated[a].0
            != updated[b].0 by {
            assert(updated[a].0 == entries[a].0 && updated[b].0 == entries[b].0);
        }
    }
    let init = entries.drop_last();
    assert(keys_distinct(init));
    if i == entries.len() - 1 {
        assert(updated.drop_last() =~= init);
        assert(entry_map(updated) =~= entry_map(entries).insert(entries[i].0, value));
    } else {
        lemma_entry_map_update(init, i, value);
        assert(updated.drop_last() =~= init.update(i, (init[i].0, value)));
        assert(entries.last().0 != entries[i].0);
        assert(entry_map(updated) =~= entry_map(entries).insert(entries[i].0, value));
    }
}

/// Removing the entry at an index removes its key from the map.
pub proof fn lemma_entry_map_remove<T>(entries: Seq<(Seq<char>, T)>, i: int)
    requires
        keys_distinct(entries),
        0 <= i < entries.len(),
    ensures
        keys_distinct(entries.remove(i)),
        entry_map(entries.remove(i)) == entry_map(entries).remove(entries[i].0),
    decreases entries.len(),
{
    let removed = entries.remove(i);
    assert(keys_distinct(removed)) by {
        assert forall|a: int, b: int| 0 <= a < b < removed.len() implies removed[a].0
            != removed[b].0 by {
            let a2 = if a < i { a } else { a + 1 };
            let b2 = if b < i { b } else { b + 1 };
            assert(removed[a] == entries[a2] && removed[b] == entries[b2]);
        }
    }
    let init = entries.drop_last();
    assert(keys_distinct(init));
    if i == entries.len() - 1 {
        assert(removed =~= init);
        assert forall|j: int| 0 <= j < init.len() implies init[j].0 != entries[i].0 by {}
        lemma_entry_map_dom(init, entries[i].0);
        assert(entry_map(removed) =~= entry_map(entries).remove(entries[i].0));
    } else {
        lemma_entry_map_remove(init, i);
        assert(removed.drop_last() =~= init.remove(i));
        assert(removed.last() == entries.last());
        assert(entries.last().0 != entries[i].0);
        assert(entry_map(removed) =~= entry_map(entries).remove(entries[i].0));
    }
}

/// The entries whose value satisfies `keep`, in order.
pub open spec fn keep_entries<T>(entries: Seq<(Seq<char>, T)>, keep: spec_fn(T) -> bool) -> Seq<
    (Seq<char>, T),
>
    decreases entries.len(),
{
    if entries.len() == 0 {
        Seq::empty()
    } else {
        let kept = keep_entries(entries.drop_last(), keep);
        if keep(entries.last().1) {
            kept.push(entries.last())
        } else {
            kept
        }
    }
}

/// The part of `m` whose values satisfy `keep`.
pub open spec fn keep_map<T>(m: Map<Seq<char>, T>, keep: spec_fn(T) -> bool) -> Map<Seq<char>, T> {
    Map::new(|k: Seq<char>| m.contains_key(k) && keep(m[k]), |k: Seq<char>| m[k])
}

/// Keeping entries keeps their keys distinct and restricts the map.
pub proof fn lemma_keep_entries<T>(entries: Seq<(Seq<char>, T)>, keep: spec_fn(T) -> bool)
    requires
        keys_distinct(entries),
    ensures
        keys_distinct(keep_entries(entries, keep)),
        entry_map(keep_entries(entries, keep)) == keep_map(entry_map(entries), keep),
        forall|key: Seq<char>| has_key(keep_entries(entries, keep), key) ==> has_key(entries, key),
    decreases entries.len(),
{
    if entries.len() > 0 {
        let init = entries.drop_last();
        let last = entries.last();
        assert(keys_distinct(init));
        lemma_keep_entries(init, keep);
        let kept = keep_entries(init, keep);
        assert(!has_key(init, last.0)) by {
            if has_key(init, last.0) {
                let i = choose|i: int| 0 <= i < init.len() && init[i].0 == last.0;
                assert(entries[i].0 == entries[entries.len() - 1].0);
            }
        }
        lemma_entry_map_dom(init, last.0);
        assert forall|key: Seq<char>| has_key(keep_entries(entries, keep), key) implies has_key(
            entries,
            key,
        ) by {
            let all = keep_entries(entries, keep);
            let a = choose|a: int| 0 <= a < all.len() && all[a].0 == key;
            if a < kept.len() {
                assert(all[a] == kept[a]);
                assert(has_key(kept, key));
                assert(has_key(init, key));
                let i = choose|i: int| 0 <= i < init.len() && init[i].0 == key;
                assert(entries[i].0 == key);
            } else {
                assert(all[a] == last);
                assert(entries[entries.len() - 1].0 == key);
            }
        }
        if keep(last.1) {
            let pushed = kept.push(last);
            assert(!has_key(kept, last.0));
            assert(keys_distinct(pushed)) by {
                assert forall|i: int, j: int| 0 <= i < j < pushed.len() implies pushed[i].0
                    != pushed[j].0 by {
                    if j == kept.len() {
                        assert(kept[i].0 != last.0);
                    } else {
                        assert(pushed[i] == kept[i] && pushed[j] == kept[j]);
                    }
                }
            }
            assert(pushed.drop_last() =~= kept);
            assert(entry_map(pushed) =~= keep_map(entry_map(entries), keep));
        } else {
            assert(entry_map(kept) =~= keep_map(entry_map(entries), keep));
        }
    }
}


/// The map of `entries` has finitely many keys, no more than there are
/// entries.
pub proof fn lemma_entry_map_len<T>(entries: Seq<(Seq<char>, T)>)
    ensures
        entry_map(entries).dom().finite(),
        entry_map(entries).dom().len() <= entries.len(),
    decreases entries.len(),
{
    if entries.len() > 0 {
        lemma_entry_map_len(entries.drop_last());
    }
}

} // verus!
