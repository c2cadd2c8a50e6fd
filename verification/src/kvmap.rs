//! The key-value map: a sink that keeps every unit, under the bytes of its
//! key, in the order in which the keys first came.

use vstd::prelude::*;
use indexmap::IndexMap;
use crate::entries::{
    entries, found, inserted, map_clone, map_get, map_get_index, map_get_key_value, map_insert,
    map_len, map_new, map_shift_remove, position, removed, value_of, Entries,
};
use crate::error::{DCKVError, Failure};
use crate::filter::Filter;
use crate::format::{decoded, Unit};
use crate::key::Key;
use crate::parser::{delivered_all, delivery, deserialize, Deserializer};
use crate::reader::ByteReader;
use crate::value::Value;

verus! {

/// Tells whether no two entries have the same key.
pub open spec fn distinct_keys(entries: Entries) -> bool {
    forall|i: int, j: int|
        0 <= i < j < entries.len() ==> (#[trigger] entries[i]).0 != (#[trigger] entries[j]).0
}

/// The entries after each of `units` is inserted, one after the other.
pub open spec fn filled(entries: Entries, units: Seq<Unit>) -> Entries
    decreases units.len(),
{
    if units.len() == 0 {
        entries
    } else {
        inserted(filled(entries, units.drop_last()), units.last().key, units.last().value)
    }
}

/// An entry found under `key` stands at the position of `key`, which is
/// where the first of them stands.
pub proof fn lemma_position(entries: Entries, key: Seq<u8>)
    ensures
        0 <= position(entries, key) <= entries.len(),
        found(entries, key) ==> entries[position(entries, key)].0 == key,
        forall|i: int| 0 <= i < position(entries, key) ==> (#[trigger] entries[i]).0 != key,
    decreases entries.len(),
{
    if entries.len() > 0 && entries.first().0 != key {
        let rest = entries.drop_first();
        lemma_position(rest, key);
        assert forall|i: int| 0 <= i < position(entries, key) implies (#[trigger] entries[i]).0
            != key by {
            if i > 0 {
                assert(entries[i] == rest[i - 1]);
            }
        }
        if found(entries, key) {
            assert(entries[position(entries, key)] == rest[position(rest, key)]);
        }
    }
}

/// The position of a key is the one index that no entry under the key
/// precedes and at which an entry under the key stands, or the end.
pub proof fn lemma_position_is(entries: Entries, key: Seq<u8>, at: int)
    requires
        0 <= at <= entries.len(),
        forall|i: int| 0 <= i < at ==> (#[trigger] entries[i]).0 != key,
        at < entries.len() ==> entries[at].0 == key,
    ensures
        position(entries, key) == at,
{
    lemma_position(entries, key);
    let first = position(entries, key);
    if first < at {
        assert(entries[first].0 != key);
    }
}

/// Where the keys are distinct, the one entry under a key is the one found.
pub proof fn lemma_position_unique(entries: Entries, key: Seq<u8>, at: int)
    requires
        distinct_keys(entries),
        0 <= at < entries.len(),
        entries[at].0 == key,
    ensures
        position(entries, key) == at,
{
    lemma_position(entries, key);
    let first = position(entries, key);
    if first < at {
        assert(entries[first].0 != entries[at].0);
    }
}

/// Inserting keeps the keys distinct.
pub proof fn lemma_inserted_distinct(entries: Entries, key: Seq<u8>, value: Seq<u8>)
    requires
        distinct_keys(entries),
    ensures
        distinct_keys(inserted(entries, key, value)),
{
    lemma_position(entries, key);
    let after = inserted(entries, key, value);
    assert forall|i: int, j: int| 0 <= i < j < after.len() implies (#[trigger] after[i]).0 != (
    #[trigger] after[j]).0 by {
        if found(entries, key) {
            assert(after[i].0 == entries[i].0);
            assert(after[j].0 == entries[j].0);
        } else if j == entries.len() {
            assert(after[i] == entries[i]);
        } else {
            assert(after[i] == entries[i]);
            assert(after[j] == entries[j]);
        }
    }
}

/// Removing keeps the keys distinct.
pub proof fn lemma_removed_distinct(entries: Entries, key: Seq<u8>)
    requires
        distinct_keys(entries),
    ensures
        distinct_keys(removed(entries, key)),
{
    lemma_position(entries, key);
    let after = removed(entries, key);
    if found(entries, key) {
        let at = position(entries, key);
        assert forall|i: int, j: int| 0 <= i < j < after.len() implies (#[trigger] after[i]).0 != (
        #[trigger] after[j]).0 by {
            let from_i = if i < at {
                i
            } else {
                i + 1
            };
            let from_j = if j < at {
                j
            } else {
                j + 1
            };
            assert(after[i] == entries[from_i]);
            assert(after[j] == entries[from_j]);
        }
    }
}

/// Where the keys are distinct, a removed key is gone: no entry is left
/// under it.
pub proof fn lemma_removed_gone(entries: Entries, key: Seq<u8>)
    requires
        distinct_keys(entries),
    ensures
        value_of(removed(entries, key), key) is None,
{
    lemma_position(entries, key);
    let after = removed(entries, key);
    let at = position(entries, key);
    assert forall|i: int| 0 <= i < after.len() implies (#[trigger] after[i]).0 != key by {
        if found(entries, key) {
            let from = if i < at {
                i
            } else {
                i + 1
            };
            assert(after[i] == entries[from]);
            if from < at {
                assert(entries[from].0 != entries[at].0);
            } else {
                assert(entries[at].0 != entries[from].0);
            }
        } else {
            assert(after[i] == entries[i]);
        }
    }
    lemma_position_is(after, key, after.len() as int);
}

/// Inserting puts the value under the key, where the key stood or at the
/// end, and adds an entry only where the key was not there.
pub proof fn lemma_inserted_value(entries: Entries, key: Seq<u8>, value: Seq<u8>)
    ensures
        value_of(inserted(entries, key, value), key) == Some(value),
        position(inserted(entries, key, value), key) == position(entries, key),
        inserted(entries, key, value).len() == if found(entries, key) {
            entries.len()
        } else {
            entries.len() + 1
        },
{
    let after = inserted(entries, key, value);
    let at = position(entries, key);
    lemma_position(entries, key);
    assert forall|i: int| 0 <= i < at implies (#[trigger] after[i]).0 != key by {
        assert(after[i] == entries[i]);
    }
    lemma_position_is(after, key, at);
}

/// Inserting under one key leaves the value under every other key as it was.
pub proof fn lemma_inserted_other(entries: Entries, key: Seq<u8>, value: Seq<u8>, other: Seq<u8>)
    requires
        other != key,
    ensures
        value_of(inserted(entries, key, value), other) == value_of(entries, other),
{
    let after = inserted(entries, key, value);
    let at = position(entries, other);
    lemma_position(entries, key);
    lemma_position(entries, other);
    let there = if at < entries.len() {
        at
    } else {
        after.len() as int
    };
    assert forall|i: int| 0 <= i < there implies (#[trigger] after[i]).0 != other by {
        if i < entries.len() {
            assert(after[i].0 == entries[i].0);
        }
    }
    if at < entries.len() {
        assert(after[at] == entries[at]);
    }
    lemma_position_is(after, other, there);
}

/// Inserting the same value under the same key a second time changes
/// nothing: neither the entries nor their order.
pub proof fn lemma_insert_idempotent(entries: Entries, key: Seq<u8>, value: Seq<u8>)
    ensures
        inserted(inserted(entries, key, value), key, value) == inserted(entries, key, value),
{
    let once = inserted(entries, key, value);
    lemma_inserted_value(entries, key, value);
    lemma_position(entries, key);
    lemma_position(once, key);
    assert(inserted(once, key, value) =~= once);
}

/// Inserting under a key that is there keeps every entry in its place: only
/// the value under the key changes.
pub proof fn lemma_insert_in_place(entries: Entries, key: Seq<u8>, value: Seq<u8>)
    requires
        found(entries, key),
    ensures
        inserted(entries, key, value).len() == entries.len(),
        forall|i: int|
            0 <= i < entries.len() ==> (#[trigger] inserted(entries, key, value)[i]).0
                == entries[i].0,
        forall|i: int|
            0 <= i < entries.len() && i != position(entries, key) ==> #[trigger] inserted(
                entries,
                key,
                value,
            )[i] == entries[i],
{
    lemma_position(entries, key);
}

/// A map whose keys are distinct keeps them so, whatever units it takes: it
/// holds one entry for each key.
pub proof fn lemma_filled_distinct(entries: Entries, units: Seq<Unit>)
    requires
        distinct_keys(entries),
    ensures
        distinct_keys(filled(entries, units)),
    decreases units.len(),
{
    if units.len() > 0 {
        lemma_filled_distinct(entries, units.drop_last());
        lemma_inserted_distinct(
            filled(entries, units.drop_last()),
            units.last().key,
            units.last().value,
        );
    }
}

/// An insertion-ordered map from key bytes to value bytes. No two of its
/// entries have the same key.
#[derive(Debug, PartialEq, Eq)]
pub struct KVMap {
    map: IndexMap<Vec<u8>, Vec<u8>>,
}

impl View for KVMap {
    type V = Seq<(Seq<u8>, Seq<u8>)>;

    closed spec fn view(&self) -> Seq<(Seq<u8>, Seq<u8>)> {
        entries(self.map)
    }
}

impl Clone for KVMap {
    fn clone(&self) -> (copy: Self)
        ensures
            copy@ == self@,
    {
        proof {
            use_type_invariant(self);
        }
        KVMap { map: map_clone(&self.map) }
    }
}

impl Default for KVMap {
    fn default() -> (map: Self)
        ensures
            map@ == Seq::<(Seq<u8>, Seq<u8>)>::empty(),
    {
        KVMap::new()
    }
}

impl KVMap {
    #[verifier::type_invariant]
    spec fn one_entry_per_key(self) -> bool {
        distinct_keys(entries(self.map))
    }

    /// A map without entries.
    #[inline]
    pub fn new() -> (map: Self)
        ensures
            map@ == Seq::<(Seq<u8>, Seq<u8>)>::empty(),
    {
        KVMap { map: map_new() }
    }

    /// The number of entries. No two of them have the same key.
    #[inline]
    pub fn len(&self) -> (len: usize)
        ensures
            len == self@.len(),
            distinct_keys(self@),
    {
        proof {
            use_type_invariant(self);
        }
        map_len(&self.map)
    }

    /// The value under `key`, if there is one.
    #[inline]
    pub fn get(&self, key: Key) -> (value: Option<&Vec<u8>>)
        ensures
            match value {
                Some(v) => value_of(self@, key@) == Some(v@),
                None => value_of(self@, key@) is None,
            },
    {
        map_get(&self.map, key.bytes())
    }

    /// The stored key and the value under `key`, if there is one.
    #[inline]
    pub fn get_key_value(&self, key: Key) -> (pair: Option<(&Vec<u8>, &Vec<u8>)>)
        ensures
            match pair {
                Some((k, v)) => k@ == key@ && value_of(self@, key@) == Some(v@),
                None => value_of(self@, key@) is None,
            },
    {
        map_get_key_value(&self.map, key.bytes())
    }

    /// The entry at `index` in the order of insertion, if there are that many.
    #[inline]
    pub fn get_index(&self, index: usize) -> (pair: Option<(&Vec<u8>, &Vec<u8>)>)
        ensures
            match pair {
                Some((k, v)) => index < self@.len() && self@[index as int] == (k@, v@),
                None => index >= self@.len(),
            },
    {
        map_get_index(&self.map, index)
    }

    /// Removes the entry under `key` and gives its value. The entries behind
    /// it keep their order, and no entry is left under `key`.
    #[inline]
    pub fn remove(&mut self, key: Key) -> (value: Option<Vec<u8>>)
        ensures
            final(self)@ == removed(old(self)@, key@),
            match value {
                Some(v) => value_of(old(self)@, key@) == Some(v@),
                None => value_of(old(self)@, key@) is None,
            },
            value_of(final(self)@, key@) is None,
            distinct_keys(final(self)@),
    {
        proof {
            use_type_invariant(&*self);
            lemma_removed_distinct(self@, key@);
            lemma_removed_gone(self@, key@);
        }
        // The map is taken out of its place while it changes, so that what
        // stands there is whole at every moment.
        let mut map = map_new();
        core::mem::swap(&mut self.map, &mut map);
        let value = map_shift_remove(&mut map, key.bytes());
        core::mem::swap(&mut self.map, &mut map);
        value
    }

    /// Puts `value` under `key`: in the place of the entry under `key` where
    /// there is one, else at the end. The keys stay distinct.
    #[inline]
    pub fn insert(&mut self, key: Key, value: Value)
        ensures
            final(self)@ == inserted(old(self)@, key@, value@),
            distinct_keys(final(self)@),
    {
        proof {
            use_type_invariant(&*self);
            lemma_inserted_distinct(self@, key@, value@);
        }
        // The map is taken out of its place while it changes, so that what
        // stands there is whole at every moment.
        let mut map = map_new();
        core::mem::swap(&mut self.map, &mut map);
        map_insert(&mut map, key.into_bytes(), value.into_bytes());
        core::mem::swap(&mut self.map, &mut map);
    }

    /// Decodes the source `reader` from the end of its preamble on and puts
    /// every unit into the map, in the order of the stream. After a failure
    /// the map holds the units that came before it.
    pub fn deserialize(&mut self, reader: ByteReader, filter: &Filter) -> (r: Result<
        (),
        DCKVError,
    >)
        ensures
            final(self)@ == filled(old(self)@, decoded(reader.bytes()).units),
            distinct_keys(final(self)@),
            match r {
                Ok(_) => decoded(reader.bytes()).result is Ok,
                Err(e) => decoded(reader.bytes()).result == Err::<(), Failure>(e@),
            },
    {
        let ghost before = *self;
        let ghost units = decoded(reader.bytes()).units;
        proof {
            use_type_invariant(&*self);
            lemma_filled_distinct(before@, units);
            assert forall|after: KVMap| delivered_all(before, units, after) implies distinct_keys(
                after@,
            ) by {
                lemma_delivered_filled(before, units, after);
            }
        }
        let r = deserialize(self, reader, filter);
        proof {
            lemma_delivered_filled(before, units, *self);
        }
        r
    }
}

impl Deserializer for KVMap {
    /// The map takes a unit by inserting its value under its key.
    open spec fn delivered(
        pre: Self,
        key: Seq<u8>,
        value: Seq<u8>,
        vr: Option<u16>,
        post: Self,
    ) -> bool {
        post@ == inserted(pre@, key, value)
    }

    #[inline]
    fn append(&mut self, key: Key, value: Value, vr: Option<u16>) {
        self.insert(key, value);
    }
}

/// A map that has taken units holds what their insertion, one after the
/// other, makes of what it held.
pub proof fn lemma_delivered_filled(pre: KVMap, units: Seq<Unit>, post: KVMap)
    requires
        delivered_all(pre, units, post),
    ensures
        post@ == filled(pre@, units),
{
    reveal(delivered_all);
    let states = choose|states: Seq<KVMap>|
        #[trigger] delivery(states, units) && states.first() == pre && states.last() == post;
    lemma_delivery_filled(states, units, units.len() as int);
    assert(units.take(units.len() as int) == units);
}

/// After the first `count` of its units a map holds what their insertion
/// makes of what it held.
proof fn lemma_delivery_filled(states: Seq<KVMap>, units: Seq<Unit>, count: int)
    requires
        delivery(states, units),
        0 <= count <= units.len(),
    ensures
        states[count]@ == filled(states[0]@, units.take(count)),
    decreases count,
{
    if count > 0 {
        lemma_delivery_filled(states, units, count - 1);
        assert(units.take(count).drop_last() == units.take(count - 1));
        assert(units.take(count).last() == units[count - 1]);
        assert(KVMap::delivered(
            states[count - 1],
            units[count - 1].key,
            units[count - 1].value,
            units[count - 1].vr,
            states[count],
        ));
    }
}

} // verus!
