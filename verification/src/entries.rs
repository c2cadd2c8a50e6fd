//! The insertion-ordered map of the `indexmap` crate, keyed and filled with
//! byte strings. What is stated of it here is taken on trust from its source.

use vstd::prelude::*;
use indexmap::IndexMap;

verus! {

/// `indexmap::IndexMap`, of which nothing is seen but what the functions
/// below state.
#[verifier::external_type_specification]
#[verifier::external_body]
#[verifier::reject_recursive_types(K)]
#[verifier::reject_recursive_types(V)]
#[verifier::reject_recursive_types(S)]
pub struct ExIndexMap<K, V, S>(IndexMap<K, V, S>);

/// The entries of a map, as pairs of key and value in the order of the map.
pub type Entries = Seq<(Seq<u8>, Seq<u8>)>;

/// What a map holds: its entries in their order, which is the order in which
/// their keys were first inserted.
pub uninterp spec fn entries(map: IndexMap<Vec<u8>, Vec<u8>>) -> Seq<(Seq<u8>, Seq<u8>)>;

/// The index of the first entry under `key`, or the number of entries where
/// there is none.
pub open spec fn position(entries: Entries, key: Seq<u8>) -> int
    decreases entries.len(),
{
    if entries.len() == 0 {
        0
    } else if entries.first().0 == key {
        0
    } else {
        1 + position(entries.drop_first(), key)
    }
}

/// Tells whether there is an entry under `key`.
pub open spec fn found(entries: Entries, key: Seq<u8>) -> bool {
    position(entries, key) < entries.len()
}

/// The value under `key`, if there is one.
pub open spec fn value_of(entries: Entries, key: Seq<u8>) -> Option<Seq<u8>> {
    if found(entries, key) {
        Some(entries[position(entries, key)].1)
    } else {
        None
    }
}

/// The entries after `value` is inserted under `key`: in the place of the
/// entry under `key` where there is one, else at the end.
pub open spec fn inserted(entries: Entries, key: Seq<u8>, value: Seq<u8>) -> Entries {
    if found(entries, key) {
        entries.update(position(entries, key), (key, value))
    } else {
        entries.push((key, value))
    }
}

/// The entries after the entry under `key` is removed: those behind it move
/// up by one, in their order.
pub open spec fn removed(entries: Entries, key: Seq<u8>) -> Entries {
    if found(entries, key) {
        entries.remove(position(entries, key))
    } else {
        entries
    }
}

/// `IndexMap::new`: a map without entries.
#[verifier::external_body]
pub(crate) fn map_new() -> (map: IndexMap<Vec<u8>, Vec<u8>>)
    ensures
        entries(map) == Seq::<(Seq<u8>, Seq<u8>)>::empty(),
{
    IndexMap::new()
}

/// `IndexMap::clone`: a map with the same entries in the same order.
#[verifier::external_body]
pub(crate) fn map_clone(map: &IndexMap<Vec<u8>, Vec<u8>>) -> (copy: IndexMap<Vec<u8>, Vec<u8>>)
    ensures
        entries(copy) == entries(*map),
{
    map.clone()
}

/// `IndexMap::len`: the number of entries.
#[verifier::external_body]
pub(crate) fn map_len(map: &IndexMap<Vec<u8>, Vec<u8>>) -> (len: usize)
    ensures
        len == entries(*map).len(),
{
    map.len()
}

/// `IndexMap::get`: the value stored under the bytes of `key`, if they are a
/// key of the map.
#[verifier::external_body]
pub(crate) fn map_get<'a>(map: &'a IndexMap<Vec<u8>, Vec<u8>>, key: &[u8]) -> (value: Option<
    &'a Vec<u8>,
>)
    ensures
        match value {
            Some(v) => value_of(entries(*map), key@) == Some(v@),
            None => value_of(entries(*map), key@) is None,
        },
{
    map.get(key)
}

/// `IndexMap::get_key_value`: the stored key and the value under the bytes of
/// `key`, if they are a key of the map.
#[verifier::external_body]
pub(crate) fn map_get_key_value<'a>(map: &'a IndexMap<Vec<u8>, Vec<u8>>, key: &[u8]) -> (pair:
    Option<(&'a Vec<u8>, &'a Vec<u8>)>)
    ensures
        match pair {
            Some((k, v)) => k@ == key@ && value_of(entries(*map), key@) == Some(v@),
            None => value_of(entries(*map), key@) is None,
        },
{
    map.get_key_value(key)
}

/// `IndexMap::get_index`: the entry at `index` in the order of the map, if
/// the map has that many.
#[verifier::external_body]
pub(crate) fn map_get_index<'a>(map: &'a IndexMap<Vec<u8>, Vec<u8>>, index: usize) -> (pair:
    Option<(&'a Vec<u8>, &'a Vec<u8>)>)
    ensures
        match pair {
            Some((k, v)) => index < entries(*map).len() && entries(*map)[index as int] == (k@, v@),
            None => index >= entries(*map).len(),
        },
{
    map.get_index(index)
}

/// `IndexMap::insert`: where the key is in the map, its value is replaced and
/// the entry keeps its place; where it is not, the entry comes last. Gives the
/// value that was replaced.
#[verifier::external_body]
pub(crate) fn map_insert(map: &mut IndexMap<Vec<u8>, Vec<u8>>, key: Vec<u8>, value: Vec<u8>) -> (old_value:
    Option<Vec<u8>>)
    ensures
        entries(*final(map)) == inserted(entries(*old(map)), key@, value@),
        match old_value {
            Some(v) => value_of(entries(*old(map)), key@) == Some(v@),
            None => value_of(entries(*old(map)), key@) is None,
        },
{
    map.insert(key, value)
}

/// `IndexMap::shift_remove`: the entry under the bytes of `key` leaves, and
/// those behind it move up in their order. Gives the value that left.
#[verifier::external_body]
pub(crate) fn map_shift_remove(map: &mut IndexMap<Vec<u8>, Vec<u8>>, key: &[u8]) -> (value: Option<
    Vec<u8>,
>)
    ensures
        entries(*final(map)) == removed(entries(*old(map)), key@),
        match value {
            Some(v) => value_of(entries(*old(map)), key@) == Some(v@),
            None => value_of(entries(*old(map)), key@) is None,
        },
{
    map.shift_remove(key)
}

} // verus!
