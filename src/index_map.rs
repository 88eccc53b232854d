//! The ordered map from column keys to column positions, kept in an
//! `indexmap::IndexMap` and seen by the contracts as the sequence of its
//! entries in insertion order.
use indexmap::IndexMap;
use vstd::prelude::*;

verus! {

#[verifier::external_type_specification]
#[verifier::external_body]
#[verifier::reject_recursive_types(K)]
#[verifier::reject_recursive_types(V)]
#[verifier::reject_recursive_types(S)]
pub struct ExIndexMap<K, V, S>(IndexMap<K, V, S>);

/// The entries of a map, in insertion order, each key by its characters.
pub uninterp spec fn key_entries(m: IndexMap<String, usize>) -> Seq<(Seq<char>, usize)>;

/// The keys of a map, in insertion order.
pub open spec fn keys_of(m: IndexMap<String, usize>) -> Seq<Seq<char>> {
    key_entries(m).map_values(|e: (Seq<char>, usize)| e.0)
}

/// Relies on `IndexMap::new`: a map without entries.
#[verifier::external_body]
pub(crate) fn map_new() -> (m: IndexMap<String, usize>)
    ensures
        key_entries(m) == Seq::<(Seq<char>, usize)>::empty(),
{
    IndexMap::new()
}

/// Relies on `IndexMap::len`: the number of entries.
#[verifier::external_body]
pub(crate) fn map_len(m: &IndexMap<String, usize>) -> (n: usize)
    ensures
        n == key_entries(*m).len(),
{
    m.len()
}

/// Relies on `IndexMap::get_index_of`: the position of the entry whose key
/// has the characters of `key`, if there is one.
#[verifier::external_body]
pub(crate) fn map_position(m: &IndexMap<String, usize>, key: &str) -> (r: Option<usize>)
    ensures
        r matches Some(i) ==> i < key_entries(*m).len() && key_entries(*m)[i as int].0 == key@,
        r is None ==> forall|i: int| 0 <= i < key_entries(*m).len() ==> #[trigger] key_entries(*m)[i].0 != key@,
{
    m.get_index_of(key)
}

/// Relies on `IndexMap::insert_full`: a key already present keeps its place
/// and takes the new value; a new key goes last. The result is the entry's
/// position.
#[verifier::external_body]
pub(crate) fn map_insert(m: &mut IndexMap<String, usize>, key: String, value: usize) -> (r: usize)
    ensures
        keys_of(*old(m)).contains(key@) ==> r < key_entries(*old(m)).len() && keys_of(*old(m))[r as int]
            == key@ && key_entries(*final(m)) == key_entries(*old(m)).update(r as int, (key@, value)),
        !keys_of(*old(m)).contains(key@) ==> r == key_entries(*old(m)).len() && key_entries(*final(m))
            == key_entries(*old(m)).push((key@, value)),
{
    m.insert_full(key, value).0
}

/// Relies on `IndexMap::get_index`: the key of the entry at position `i`.
#[verifier::external_body]
pub(crate) fn map_key_at(m: &IndexMap<String, usize>, i: usize) -> (r: &String)
    requires
        i < key_entries(*m).len(),
    ensures
        r@ == key_entries(*m)[i as int].0,
{
    m.get_index(i).unwrap().0
}

/// Relies on `IndexMap`'s `Clone`: the same entries in the same order.
#[verifier::external_body]
pub(crate) fn map_clone(m: &IndexMap<String, usize>) -> (r: IndexMap<String, usize>)
    ensures
        key_entries(r) == key_entries(*m),
{
    m.clone()
}

} // verus!
