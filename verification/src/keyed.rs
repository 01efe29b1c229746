//! An insertion-ordered map from names to positions, kept in an
//! `indexmap::IndexMap`: the first insertion of a name fixes its place in the
//! order, a later one only replaces the position it maps to.

use vstd::prelude::*;
use indexmap::IndexMap;
use std::collections::hash_map::RandomState;

verus! {

#[verifier::external_type_specification]
#[verifier::external_body]
#[verifier::reject_recursive_types(K)]
#[verifier::reject_recursive_types(V)]
#[verifier::reject_recursive_types(S)]
pub struct ExIndexMap<K, V, S>(indexmap::IndexMap<K, V, S>);

/// Names mapped to positions, in the order the names were first inserted.
pub type Keyed = IndexMap<String, usize, RandomState>;

/// The entries of the map, in order.
pub uninterp spec fn keyed_entries(m: IndexMap<String, usize, RandomState>) -> Seq<(Seq<char>, usize)>;

/// The place of the first entry with that key.
pub open spec fn key_place(entries: Seq<(Seq<char>, usize)>, key: Seq<char>) -> Option<int>
    decreases entries.len(),
{
    if entries.len() == 0 {
        None
    } else if entries.last().0 == key && key_place(entries.drop_last(), key) is None {
        Some(entries.len() - 1)
    } else {
        key_place(entries.drop_last(), key)
    }
}

/// The entries after inserting `key` with `value`.
pub open spec fn inserted(entries: Seq<(Seq<char>, usize)>, key: Seq<char>, value: usize) -> Seq<(Seq<char>, usize)> {
    match key_place(entries, key) {
        Some(i) => entries.update(i, (key, value)),
        None => entries.push((key, value)),
    }
}

/// The value of `key`.
pub open spec fn value_of(entries: Seq<(Seq<char>, usize)>, key: Seq<char>) -> Option<usize> {
    match key_place(entries, key) {
        Some(i) => Some(entries[i].1),
        None => None,
    }
}

/// An empty map.
///
/// Trusted: `IndexMap::new` holds no entries.
#[verifier::external_body]
pub fn keyed_new() -> (res: Keyed)
    ensures
        keyed_entries(res) == Seq::<(Seq<char>, usize)>::empty(),
{
    IndexMap::new()
}

/// Inserts `key` with `value`.
///
/// Trusted: `IndexMap::insert` — an equal key keeps its place and takes the
/// new value; a new key goes last.
#[verifier::external_body]
pub fn keyed_insert(m: &mut Keyed, key: String, value: usize)
    ensures
        keyed_entries(*final(m)) == inserted(keyed_entries(*old(m)), key@, value),
{
    m.insert(key, value);
}

/// The value of `key`.
///
/// Trusted: `IndexMap::get` finds the entry whose key equals `key`.
#[verifier::external_body]
pub fn keyed_get(m: &Keyed, key: &str) -> (res: Option<usize>)
    ensures
        res == value_of(keyed_entries(*m), key@),
{
    m.get(key).copied()
}

/// The number of entries.
///
/// Trusted: `IndexMap::len`.
#[verifier::external_body]
pub fn keyed_len(m: &Keyed) -> (n: usize)
    ensures
        n == keyed_entries(*m).len(),
{
    m.len()
}

/// The entry at place `i`.
///
/// Trusted: `IndexMap::get_index` gives the entry at that place in the order.
#[verifier::external_body]
pub fn keyed_at(m: &Keyed, i: usize) -> (res: (String, usize))
    requires
        i < keyed_entries(*m).len(),
    ensures
        (res.0@, res.1) == keyed_entries(*m)[i as int],
{
    match m.get_index(i) {
        Some((k, v)) => (k.clone(), *v),
        None => (String::new(), 0),
    }
}

/// Every key occurs once among the entries.
pub open spec fn keys_distinct(entries: Seq<(Seq<char>, usize)>) -> bool {
    forall|i: int, j: int| 0 <= i < j < entries.len() ==> (#[trigger] entries[i]).0 != (#[trigger] entries[j]).0
}

/// Where a key is found, it is the key of that entry, and no earlier entry has it.
pub proof fn lemma_key_place(entries: Seq<(Seq<char>, usize)>, key: Seq<char>)
    ensures
        match key_place(entries, key) {
            Some(i) => 0 <= i < entries.len() && entries[i].0 == key
                && forall|j: int| 0 <= j < i ==> (#[trigger] entries[j]).0 != key,
            None => forall|j: int| 0 <= j < entries.len() ==> (#[trigger] entries[j]).0 != key,
        },
    decreases entries.len(),
{
    if entries.len() > 0 {
        lemma_key_place(entries.drop_last(), key);
        assert forall|j: int| 0 <= j < entries.len() - 1 implies #[trigger] entries[j] == entries.drop_last()[j] by {}
    }
}

/// Inserting keeps the keys distinct.
pub proof fn lemma_inserted_distinct(entries: Seq<(Seq<char>, usize)>, key: Seq<char>, value: usize)
    requires
        keys_distinct(entries),
    ensures
        keys_distinct(inserted(entries, key, value)),
        inserted(entries, key, value).len() == entries.len() + (if key_place(entries, key) is None { 1int } else { 0int }),
{
    lemma_key_place(entries, key);
    let r = inserted(entries, key, value);
    match key_place(entries, key) {
        Some(i) => {
            assert forall|a: int, b: int| 0 <= a < b < r.len() implies (#[trigger] r[a]).0 != (#[trigger] r[b]).0 by {
                if a != i && b != i {
                    assert(r[a] == entries[a] && r[b] == entries[b]);
                } else if a == i {
                    assert(r[b] == entries[b]);
                } else {
                    assert(r[a] == entries[a]);
                }
            }
        },
        None => {
            assert forall|a: int, b: int| 0 <= a < b < r.len() implies (#[trigger] r[a]).0 != (#[trigger] r[b]).0 by {
                if b < entries.len() {
                    assert(r[a] == entries[a] && r[b] == entries[b]);
                } else {
                    assert(r[a] == entries[a]);
                }
            }
        },
    }
}

/// Every value of the entries is below `bound`.
pub open spec fn values_below(entries: Seq<(Seq<char>, usize)>, bound: int) -> bool {
    forall|i: int| 0 <= i < entries.len() ==> (#[trigger] entries[i]).1 < bound
}

/// Inserting a value below the bound keeps every value below it, and a value
/// found is one of the entries.
pub proof fn lemma_values_below(entries: Seq<(Seq<char>, usize)>, key: Seq<char>, value: usize, bound: int)
    requires
        values_below(entries, bound),
    ensures
        value < bound ==> values_below(inserted(entries, key, value), bound),
        value_of(entries, key) matches Some(v) ==> v < bound,
{
    lemma_key_place(entries, key);
    let r = inserted(entries, key, value);
    if value < bound {
        assert forall|i: int| 0 <= i < r.len() implies (#[trigger] r[i]).1 < bound by {
            match key_place(entries, key) {
                Some(p) => { if i != p { assert(r[i] == entries[i]); } },
                None => { if i < entries.len() { assert(r[i] == entries[i]); } },
            }
        }
    }
}

} // verus!
