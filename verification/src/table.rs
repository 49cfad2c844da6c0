//! Insertion-ordered tables keyed by text.
//!
//! The tables are `indexmap::IndexMap` values. What a table holds is modelled
//! as a sequence of `(key, value)` pairs in insertion order; the functions at
//! the end of this file are the only code that touches a table, and their
//! contracts are taken on trust from the documentation of `indexmap`.

use indexmap::IndexMap;
use vstd::prelude::*;

verus! {

/// Index of the first pair of `entries` whose key is `key`.
pub open spec fn key_index<V>(entries: Seq<(Seq<char>, V)>, key: Seq<char>) -> Option<int>
    decreases entries.len(),
{
    if entries.len() == 0 {
        None
    } else if entries[0].0 == key {
        Some(0)
    } else {
        match key_index(entries.drop_first(), key) {
            Some(i) => Some(i + 1),
            None => None,
        }
    }
}

/// The value stored under `key`, if any.
pub open spec fn value_of<V>(entries: Seq<(Seq<char>, V)>, key: Seq<char>) -> Option<V> {
    match key_index(entries, key) {
        Some(i) => Some(entries[i].1),
        None => None,
    }
}

/// `entries` after `value` is stored under `key`: an existing pair keeps its
/// place and takes the new value, a new pair goes last.
pub open spec fn with_entry<V>(entries: Seq<(Seq<char>, V)>, key: Seq<char>, value: V) -> Seq<
    (Seq<char>, V),
> {
    match key_index(entries, key) {
        Some(i) => entries.update(i, (key, value)),
        None => entries.push((key, value)),
    }
}

/// `entries` without the pair stored under `key`; the pairs behind it move up.
pub open spec fn without_key<V>(entries: Seq<(Seq<char>, V)>, key: Seq<char>) -> Seq<
    (Seq<char>, V),
> {
    match key_index(entries, key) {
        Some(i) => entries.remove(i),
        None => entries,
    }
}

/// No key occurs twice.
pub open spec fn distinct_keys<V>(entries: Seq<(Seq<char>, V)>) -> bool {
    forall|i: int, j: int|
        0 <= i < j < entries.len() ==> (#[trigger] entries[i]).0 != (#[trigger] entries[j]).0
}

/// The index that is found for a key holds the key and is the first that
/// does; where none is found, no pair holds the key.
pub proof fn lemma_key_index<V>(entries: Seq<(Seq<char>, V)>, key: Seq<char>)
    ensures
        match key_index(entries, key) {
            Some(i) => 0 <= i < entries.len() && entries[i].0 == key && forall|k: int|
                0 <= k < i ==> (#[trigger] entries[k]).0 != key,
            None => forall|k: int| 0 <= k < entries.len() ==> (#[trigger] entries[k]).0 != key,
        },
    decreases entries.len(),
{
    if entries.len() > 0 && entries[0].0 != key {
        let rest = entries.drop_first();
        lemma_key_index(rest, key);
        match key_index(rest, key) {
            Some(i) => {
                assert forall|k: int| 0 <= k < i + 1 implies (#[trigger] entries[k]).0 != key by {
                    if k > 0 {
                        assert(entries[k] == rest[k - 1]);
                    }
                }
            },
            None => {
                assert forall|k: int| 0 <= k < entries.len() implies (#[trigger] entries[k]).0
                    != key by {
                    if k > 0 {
                        assert(entries[k] == rest[k - 1]);
                    }
                }
            },
        }
    }
}

/// The key of a pair is found at the pair's own index when no key occurs twice.
pub proof fn lemma_key_index_distinct<V>(entries: Seq<(Seq<char>, V)>, i: int)
    requires
        distinct_keys(entries),
        0 <= i < entries.len(),
    ensures
        key_index(entries, entries[i].0) == Some(i),
{
    lemma_key_index(entries, entries[i].0);
}

#[verifier::external_type_specification]
#[verifier::external_body]
#[verifier::reject_recursive_types(K)]
#[verifier::reject_recursive_types(V)]
#[verifier::reject_recursive_types(S)]
pub struct ExIndexMap<K, V, S>(IndexMap<K, V, S>);

/// The pairs that a table of identifiers holds, in insertion order.
pub uninterp spec fn id_entries(table: IndexMap<String, i64>) -> Seq<(Seq<char>, i64)>;

/// The pairs that a table of translations holds, in insertion order. A value
/// is the translated text and whether it is a real translation.
pub uninterp spec fn translation_entries(table: IndexMap<String, (String, bool)>) -> Seq<
    (Seq<char>, (Seq<char>, bool)),
>;

/// The pairs of a list of owned pairs, each string taken as its characters.
pub open spec fn id_pairs(list: Seq<(String, i64)>) -> Seq<(Seq<char>, i64)> {
    list.map_values(|p: (String, i64)| (p.0@, p.1))
}

/// The pairs of a list of owned pairs, each string taken as its characters.
pub open spec fn translation_pairs(list: Seq<(String, (String, bool))>) -> Seq<
    (Seq<char>, (Seq<char>, bool)),
> {
    list.map_values(|p: (String, (String, bool))| (p.0@, (p.1.0@, p.1.1)))
}

/// `IndexMap::new`: a table without pairs.
#[verifier::external_body]
pub(crate) fn new_id_table() -> (table: IndexMap<String, i64>)
    ensures
        id_entries(table) == Seq::<(Seq<char>, i64)>::empty(),
{
    IndexMap::new()
}

/// `IndexMap::insert`: an equal key keeps its place and takes the new value,
/// a new key goes last; the value that was stored before is returned.
#[verifier::external_body]
pub(crate) fn insert_id(table: &mut IndexMap<String, i64>, key: String, value: i64) -> (before:
    Option<i64>)
    ensures
        id_entries(*final(table)) == with_entry(id_entries(*old(table)), key@, value),
        before == value_of(id_entries(*old(table)), key@),
{
    table.insert(key, value)
}

/// `IndexMap::shift_remove`: the pair under `key` leaves and is returned, the
/// pairs behind it keep their order.
#[verifier::external_body]
pub(crate) fn remove_id(table: &mut IndexMap<String, i64>, key: &str) -> (removed: Option<i64>)
    ensures
        id_entries(*final(table)) == without_key(id_entries(*old(table)), key@),
        removed == value_of(id_entries(*old(table)), key@),
{
    table.shift_remove(key)
}

/// `IndexMap::len`: the number of pairs.
#[verifier::external_body]
pub(crate) fn id_count(table: &IndexMap<String, i64>) -> (n: usize)
    ensures
        n == id_entries(*table).len(),
{
    table.len()
}

/// `IndexMap::iter`: the pairs in insertion order.
#[verifier::external_body]
pub(crate) fn id_list(table: &IndexMap<String, i64>) -> (list: Vec<(String, i64)>)
    ensures
        id_pairs(list@) == id_entries(*table),
{
    table.iter().map(|(key, value)| (key.clone(), *value)).collect()
}

/// `IndexMap::clone`: a table with the same pairs in the same order.
#[verifier::external_body]
pub(crate) fn copy_id_table(table: &IndexMap<String, i64>) -> (copy: IndexMap<String, i64>)
    ensures
        id_entries(copy) == id_entries(*table),
{
    table.clone()
}

/// `IndexMap::new`: a table without pairs.
#[verifier::external_body]
pub(crate) fn new_translation_table() -> (table: IndexMap<String, (String, bool)>)
    ensures
        translation_entries(table) == Seq::<(Seq<char>, (Seq<char>, bool))>::empty(),
{
    IndexMap::new()
}

/// `IndexMap::insert`: an equal key keeps its place and takes the new value,
/// a new key goes last; the value that was stored before is returned.
#[verifier::external_body]
pub(crate) fn insert_translation(
    table: &mut IndexMap<String, (String, bool)>,
    key: String,
    text: String,
    is_valid: bool,
) -> (before: Option<(String, bool)>)
    ensures
        translation_entries(*final(table)) == with_entry(
            translation_entries(*old(table)),
            key@,
            (text@, is_valid),
        ),
        match before {
            Some(b) => value_of(translation_entries(*old(table)), key@) == Some((b.0@, b.1)),
            None => value_of(translation_entries(*old(table)), key@) is None,
        },
{
    table.insert(key, (text, is_valid))
}

/// `IndexMap::shift_remove`: the pair under `key` leaves and is returned, the
/// pairs behind it keep their order.
#[verifier::external_body]
pub(crate) fn remove_translation(table: &mut IndexMap<String, (String, bool)>, key: &str) -> (removed:
    Option<(String, bool)>)
    ensures
        translation_entries(*final(table)) == without_key(translation_entries(*old(table)), key@),
        match removed {
            Some(r) => value_of(translation_entries(*old(table)), key@) == Some((r.0@, r.1)),
            None => value_of(translation_entries(*old(table)), key@) is None,
        },
{
    table.shift_remove(key)
}

/// `IndexMap::iter`: the pairs in insertion order.
#[verifier::external_body]
pub(crate) fn translation_list(table: &IndexMap<String, (String, bool)>) -> (list: Vec<
    (String, (String, bool)),
>)
    ensures
        translation_pairs(list@) == translation_entries(*table),
{
    table.iter().map(|(key, value)| (key.clone(), value.clone())).collect()
}

} // verus!
