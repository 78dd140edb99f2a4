//! Lists of entries under text keys, and the maps that they stand for.

use vstd::prelude::*;

verus! {

/// The keys of a list of entries, in the order of the list.
pub open spec fn names_of<V>(entries: Seq<(Seq<char>, V)>) -> Seq<Seq<char>> {
    entries.map_values(|e: (Seq<char>, V)| e.0)
}

/// The map from each key in a list of entries to its value.
pub open spec fn map_of<V>(entries: Seq<(Seq<char>, V)>) -> Map<Seq<char>, V> {
    Map::new(
        |name: Seq<char>| names_of(entries).contains(name),
        |name: Seq<char>| entries[names_of(entries).index_of(name)].1,
    )
}

/// The list that an insertion leaves: the value of `name` replaced where the
/// key is present, a new entry at the end where it is not.
pub open spec fn inserted<V>(entries: Seq<(Seq<char>, V)>, name: Seq<char>, values: V) -> Seq<
    (Seq<char>, V),
> {
    if names_of(entries).contains(name) {
        entries.update(names_of(entries).index_of(name), (name, values))
    } else {
        entries.push((name, values))
    }
}

/// In a list without repeated keys, an entry is found under its key.
pub proof fn lemma_map_of_entry<V>(entries: Seq<(Seq<char>, V)>, i: int)
    requires
        names_of(entries).no_duplicates(),
        0 <= i < entries.len(),
    ensures
        map_of(entries).contains_key(entries[i].0),
        map_of(entries)[entries[i].0] == entries[i].1,
        names_of(entries).index_of(entries[i].0) == i,
{
    let names = names_of(entries);
    assert(names[i] == entries[i].0);
    let k = names.index_of(entries[i].0);
    assert(names[k] == names[i]);
}

/// A list without repeated keys holds as many entries as its map has keys.
pub proof fn lemma_map_of_len<V>(entries: Seq<(Seq<char>, V)>)
    requires
        names_of(entries).no_duplicates(),
    ensures
        map_of(entries).dom() == names_of(entries).to_set(),
        map_of(entries).dom().finite(),
        map_of(entries).dom().len() == entries.len(),
{
    let names = names_of(entries);
    assert(map_of(entries).dom() =~= names.to_set());
    names.unique_seq_to_set();
    vstd::seq_lib::seq_to_set_is_finite(names);
}

/// What `inserted` does to the map, and that it repeats no key.
pub proof fn lemma_inserted<V>(entries: Seq<(Seq<char>, V)>, name: Seq<char>, values: V)
    requires
        names_of(entries).no_duplicates(),
    ensures
        names_of(inserted(entries, name, values)).no_duplicates(),
        map_of(inserted(entries, name, values)) == map_of(entries).insert(name, values),
{
    let names = names_of(entries);
    let after = inserted(entries, name, values);
    let after_names = names_of(after);
    if names.contains(name) {
        let k = names.index_of(name);
        assert(after_names =~= names);
        assert forall|n: Seq<char>| #[trigger] map_of(after).contains_key(n) implies map_of(after)[n]
            == map_of(entries).insert(name, values)[n] by {
            let j = after_names.index_of(n);
            assert(after_names[j] == n);
            lemma_map_of_entry(after, j);
            lemma_map_of_entry(entries, j);
        }
        assert(map_of(after) =~= map_of(entries).insert(name, values));
    } else {
        assert(after_names =~= names.push(name));
        assert forall|i: int, j: int|
            0 <= i < after_names.len() && 0 <= j < after_names.len() && i != j implies after_names[i]
            != after_names[j] by {
            if i < names.len() && j < names.len() {
            } else if i < names.len() {
                assert(names[i] != name);
            } else {
                assert(names[j] != name);
            }
        }
        assert forall|n: Seq<char>| map_of(after).contains_key(n) == map_of(entries).insert(
            name,
            values,
        ).contains_key(n) by {
            if after_names.contains(n) {
                let j = after_names.index_of(n);
                assert(after_names[j] == n);
                if j < names.len() {
                    assert(names[j] == n);
                }
            }
            if names.contains(n) {
                let j = names.index_of(n);
                assert(after_names[j] == n);
            }
            if n == name {
                assert(after_names[names.len() as int] == n);
            }
        }
        assert forall|n: Seq<char>| #[trigger] map_of(after).contains_key(n) implies map_of(after)[n]
            == map_of(entries).insert(name, values)[n] by {
            let j = after_names.index_of(n);
            assert(after_names[j] == n);
            lemma_map_of_entry(after, j);
            if j < names.len() {
                lemma_map_of_entry(entries, j);
            }
        }
        assert(map_of(after) =~= map_of(entries).insert(name, values));
    }
}

} // verus!
