//! The arena store: handle-addressed storage of one kind of entity.
//!
//! A slot map issues the keys and tells which of them are live; the entries
//! themselves lie in a dense vector, in the order in which they were
//! allocated. Entries are never removed.

use crate::slots::{
    key_is_null, slot_contents, slots_contains_key, slots_get, slots_insert, slots_new, KeySlots,
    SLOT_LIMIT,
};
use slotmap::DefaultKey;
use vstd::prelude::*;

verus! {

/// One allocated entry: the key it was given and the value stored under it.
pub struct Entry<T> {
    pub key: DefaultKey,
    pub value: T,
}

/// Storage of values of type `T`, each under a key of its own.
pub struct Arena<T> {
    slots: KeySlots,
    entries: Vec<Entry<T>>,
}

impl<T> Arena<T> {
    /// The position in `entries` that the slot map holds for each live key.
    pub closed spec fn positions(&self) -> Map<DefaultKey, usize> {
        slot_contents(self.slots)
    }

    /// The entries in the order of their allocation.
    pub closed spec fn entries(&self) -> Seq<Entry<T>> {
        self.entries@
    }

    /// The live keys.
    pub open spec fn keys(&self) -> Set<DefaultKey> {
        self.positions().dom()
    }

    /// The arena as a map from each live key to the value stored under it.
    pub open spec fn view(&self) -> Map<DefaultKey, T> {
        Map::new(
            |k: DefaultKey| self.keys().contains(k),
            |k: DefaultKey| self.entries()[self.positions()[k] as int].value,
        )
    }

    /// The number of entries.
    pub open spec fn spec_len(&self) -> nat {
        self.entries().len()
    }

    /// The slot map and the vector agree: every live key leads to an entry
    /// that records this key, every entry records a live key that leads
    /// back to it, and no live key is null.
    pub open spec fn wf(&self) -> bool {
        &&& self.keys().finite()
        &&& self.keys().len() == self.entries().len()
        &&& forall|k: DefaultKey| #[trigger]
            self.keys().contains(k) ==> {
                &&& !key_is_null(k)
                &&& (self.positions()[k] as int) < self.entries().len()
                &&& self.entries()[self.positions()[k] as int].key == k
            }
        &&& forall|i: int|
            0 <= i < self.entries().len() ==> {
                &&& self.keys().contains(#[trigger] self.entries()[i].key)
                &&& self.positions()[self.entries()[i].key] == i
            }
    }

    /// An arena without entries.
    pub fn new() -> (a: Self)
        ensures
            a.wf(),
            a@ =~= Map::<DefaultKey, T>::empty(),
            a.entries().len() == 0,
    {
        Arena { slots: slots_new(), entries: Vec::new() }
    }

    /// The number of entries.
    pub fn len(&self) -> (n: usize)
        ensures
            n == self.spec_len(),
    {
        self.entries.len()
    }

    /// Whether `key` is live.
    pub fn contains(&self, key: DefaultKey) -> (r: bool)
        ensures
            r == self@.dom().contains(key),
    {
        slots_contains_key(&self.slots, key)
    }

    /// Stores `value` under a fresh key and returns the key.
    pub fn allocate(&mut self, value: T) -> (key: DefaultKey)
        requires
            old(self).wf(),
            old(self).spec_len() < SLOT_LIMIT,
        ensures
            final(self).wf(),
            !old(self)@.dom().contains(key),
            !key_is_null(key),
            final(self)@ == old(self)@.insert(key, value),
            final(self).entries() == old(self).entries().push(Entry { key, value }),
    {
        let position = self.entries.len();
        let key = slots_insert(&mut self.slots, position);
        self.entries.push(Entry { key, value });
        assert(self@ =~= old(self)@.insert(key, value));
        key
    }

    /// The value under `key`, if `key` is live.
    pub fn get(&self, key: DefaultKey) -> (r: Option<&T>)
        requires
            self.wf(),
        ensures
            r == (if self@.dom().contains(key) {
                Some(&self@[key])
            } else {
                None
            }),
    {
        match slots_get(&self.slots, key) {
            Some(position) => Some(&self.entries[position].value),
            None => None,
        }
    }

    /// The value under a live key.
    pub fn at(&self, key: DefaultKey) -> (r: &T)
        requires
            self.wf(),
            self@.dom().contains(key),
        ensures
            *r == self@[key],
    {
        let position = slots_get(&self.slots, key).unwrap();
        &self.entries[position].value
    }

    /// The value under a live key, for writing. The keys stay as they are.
    pub fn at_mut(&mut self, key: DefaultKey) -> (r: &mut T)
        requires
            old(self).wf(),
            old(self)@.dom().contains(key),
        ensures
            *r == old(self)@[key],
            final(self).wf(),
            final(self)@ == old(self)@.insert(key, *final(r)),
            final(self).entries().len() == old(self).entries().len(),
            forall|i: int|
                0 <= i < old(self).entries().len() ==> (#[trigger] final(self).entries()[i]).key
                    == old(self).entries()[i].key,
    {
        let position = slots_get(&self.slots, key).unwrap();
        &mut self.entries[position].value
    }

    /// The value under `key`, for writing, if `key` is live.
    pub fn get_mut(&mut self, key: DefaultKey) -> (r: Option<&mut T>)
        requires
            old(self).wf(),
        ensures
            final(self).wf(),
            r is Some <==> old(self)@.dom().contains(key),
            match r {
                Some(value) => *value == old(self)@[key] && final(self)@ == old(self)@.insert(
                    key,
                    *final(value),
                ),
                None => final(self)@ == old(self)@,
            },
    {
        match slots_get(&self.slots, key) {
            Some(position) => Some(&mut self.entries[position].value),
            None => None,
        }
    }

    /// The key of the entry at a position.
    pub fn key_at(&self, position: usize) -> (key: DefaultKey)
        requires
            self.wf(),
            position < self.spec_len(),
        ensures
            key == self.entries()[position as int].key,
            self@.dom().contains(key),
    {
        self.entries[position].key
    }
}

} // verus!
