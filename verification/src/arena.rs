//! A keyed arena: values stored once, in slots, and found again by key.
//!
//! Every value lives in exactly one slot. A key leads to its slot through a
//! hash index, and a slot number is a stable handle to the value: once a key
//! has a slot it keeps it, so slot numbers can be stored elsewhere (in the
//! neighbourhood patches of a map, say) without copying the value.

use vstd::prelude::*;
use crate::key_index::{index_entries, KeyIndex, CAPACITY_HINT_MAX};

verus! {

/// Values of type `T` in insertion order, each under a distinct `u64` key.
pub struct KeyedArena<T> {
    index: KeyIndex,
    keys: Vec<u64>,
    values: Vec<T>,
}

impl<T> View for KeyedArena<T> {
    type V = Map<u64, T>;

    /// The arena as a map from key to value.
    open spec fn view(&self) -> Map<u64, T> {
        Map::new(|key: u64| self.keys().contains(key), |key: u64| self.values()[self.slot_of(key)])
    }
}

impl<T> KeyedArena<T> {
    /// The keys, by slot.
    pub closed spec fn keys(&self) -> Seq<u64> {
        self.keys@
    }

    /// The values, by slot.
    pub closed spec fn values(&self) -> Seq<T> {
        self.values@
    }

    /// The slot that holds `key`, where the arena holds it.
    pub open spec fn slot_of(&self, key: u64) -> int {
        self.keys().index_of(key)
    }

    /// The index agrees with the slots: it maps each key to the slot that
    /// holds it, and holds nothing else.
    pub closed spec fn wf(&self) -> bool {
        &&& self.keys@.len() == self.values@.len()
        &&& forall|i: int|
            0 <= i < self.keys@.len() ==> index_entries(self.index).contains_key(
                #[trigger] self.keys@[i],
            ) && index_entries(self.index)[self.keys@[i]] == i
        &&& forall|key: u64| #[trigger]
            index_entries(self.index).contains_key(key) ==> index_entries(self.index)[key]
                < self.keys@.len() && self.keys@[index_entries(self.index)[key] as int] == key
    }

    /// In a well-formed arena no key occurs twice, and each slot has a key and
    /// a value.
    pub proof fn lemma_wf(&self)
        requires
            self.wf(),
        ensures
            self.keys().no_duplicates(),
            self.keys().len() == self.values().len(),
            forall|i: int| 0 <= i < self.keys().len() ==> self.slot_of(#[trigger] self.keys()[i]) == i,
    {
        assert forall|i: int, j: int|
            0 <= i < self.keys@.len() && 0 <= j < self.keys@.len() && i != j implies self.keys@[i]
            != self.keys@[j] by {
            if self.keys@[i] == self.keys@[j] {
                assert(index_entries(self.index)[self.keys@[i]] == i);
                assert(index_entries(self.index)[self.keys@[j]] == j);
            }
        }
        assert forall|i: int| 0 <= i < self.keys().len() implies self.slot_of(
            #[trigger] self.keys()[i],
        ) == i by {
            let key = self.keys()[i];
            assert(self.keys().contains(key));
            let j = self.keys().index_of(key);
            assert(self.keys()[j] == key);
        }
    }

    /// An empty arena. `capacity` is a hint for the index.
    pub fn with_capacity(capacity: usize) -> (arena: KeyedArena<T>)
        ensures
            arena.wf(),
            arena.keys() == Seq::<u64>::empty(),
            arena.values() == Seq::<T>::empty(),
    {
        let hint: usize = if capacity <= CAPACITY_HINT_MAX {
            capacity
        } else {
            CAPACITY_HINT_MAX
        };
        KeyedArena { index: KeyIndex::with_capacity(hint), keys: Vec::new(), values: Vec::new() }
    }

    /// The number of slots.
    pub fn len(&self) -> (n: usize)
        ensures
            n == self.keys().len(),
    {
        self.keys.len()
    }

    /// The slot that holds `key`, if any does.
    pub fn slot(&self, key: u64) -> (slot: Option<usize>)
        requires
            self.wf(),
        ensures
            slot.is_some() == self.keys().contains(key),
            slot.is_some() ==> slot.unwrap() == self.slot_of(key) && slot.unwrap()
                < self.keys().len(),
    {
        let found = self.index.get(key);
        proof {
            self.lemma_wf();
            if self.keys@.contains(key) {
                let i = self.keys@.index_of(key);
                assert(self.keys@[i] == key);
            }
        }
        found
    }

    /// Stores `value` under `key` and returns its slot. A key that the arena
    /// holds keeps its slot and gets the new value; a new key gets the next
    /// free slot. Every other key keeps its slot and its value.
    pub fn insert(&mut self, key: u64, value: T) -> (slot: usize)
        requires
            old(self).wf(),
        ensures
            final(self).wf(),
            final(self)@ == old(self)@.insert(key, value),
            slot == final(self).slot_of(key),
            slot < final(self).keys().len(),
            old(self).keys().contains(key) ==> {
                &&& slot == old(self).slot_of(key)
                &&& final(self).keys() == old(self).keys()
                &&& final(self).values() == old(self).values().update(slot as int, value)
            },
            !old(self).keys().contains(key) ==> {
                &&& slot == old(self).keys().len()
                &&& final(self).keys() == old(self).keys().push(key)
                &&& final(self).values() == old(self).values().push(value)
            },
            forall|other: u64|
                old(self).keys().contains(other) ==> final(self).slot_of(other) == old(
                    self,
                ).slot_of(other),
    {
        proof {
            old(self).lemma_wf();
        }
        let slot = match self.slot(key) {
            Some(slot) => {
                self.values[slot] = value;
                slot
            },
            None => {
                let slot = self.keys.len();
                let _ = self.index.insert(key, slot);
                self.keys.push(key);
                self.values.push(value);
                proof {
                    assert(self.keys@[slot as int] == key);
                    assert forall|other: u64| old(self).keys().contains(other) implies self.keys@.contains(
                        other,
                    ) by {
                        let i = old(self).keys().index_of(other);
                        assert(self.keys@[i] == other);
                    }
                }
                slot
            },
        };
        proof {
            self.lemma_wf();
            assert(self.keys@.contains(key));
            assert forall|other: u64| old(self).keys().contains(other) implies self.slot_of(other)
                == old(self).slot_of(other) by {
                let i = old(self).keys().index_of(other);
                assert(old(self).keys()[i] == other);
                assert(self.keys@[i] == other);
            }
            assert forall|other: u64| self@.contains_key(other) implies old(self)@.insert(
                key,
                value,
            ).contains_key(other) by {
                let i = self.keys@.index_of(other);
                assert(self.keys@[i] == other);
                if other != key {
                    assert(old(self).keys()[i] == other);
                }
            }
            assert(self@ =~= old(self)@.insert(key, value));
        }
        slot
    }

    /// The key of a slot.
    pub fn key_at(&self, slot: usize) -> (key: u64)
        requires
            slot < self.keys().len(),
        ensures
            key == self.keys()[slot as int],
    {
        self.keys[slot]
    }

    /// The value in a slot.
    pub fn value_at(&self, slot: usize) -> (value: &T)
        requires
            self.wf(),
            slot < self.keys().len(),
        ensures
            *value == self.values()[slot as int],
    {
        &self.values[slot]
    }

    /// The value in a slot, to be changed in place. Keys and slots stay as
    /// they are.
    pub fn value_at_mut(&mut self, slot: usize) -> (value: &mut T)
        requires
            old(self).wf(),
            slot < old(self).keys().len(),
        ensures
            *value == old(self).values()[slot as int],
            final(self).wf(),
            final(self).keys() == old(self).keys(),
            final(self).values() == old(self).values().update(slot as int, *final(value)),
            final(self)@ == old(self)@.insert(old(self).keys()[slot as int], *final(value)),
    {
        proof {
            old(self).lemma_wf();
            old(self).lemma_update_view(slot as int);
        }
        &mut self.values[slot]
    }

    /// The value under `key`, if the arena holds the key.
    pub fn get(&self, key: u64) -> (value: Option<&T>)
        requires
            self.wf(),
        ensures
            value.is_some() == self@.contains_key(key),
            value.is_some() ==> *value.unwrap() == self@[key],
    {
        match self.slot(key) {
            Some(slot) => Some(&self.values[slot]),
            None => None,
        }
    }

    /// The value under `key`, to be changed in place, if the arena holds the
    /// key; else the arena is left as it is.
    pub fn get_mut(&mut self, key: u64) -> (value: Option<&mut T>)
        requires
            old(self).wf(),
        ensures
            value.is_some() == old(self)@.contains_key(key),
            final(self).wf(),
            final(self).keys() == old(self).keys(),
            match value {
                Some(cell) => {
                    &&& *cell == old(self)@[key]
                    &&& final(self).values() == old(self).values().update(
                        old(self).slot_of(key),
                        *final(cell),
                    )
                    &&& final(self)@ == old(self)@.insert(key, *final(cell))
                },
                None => final(self).values() == old(self).values() && final(self)@ == old(self)@,
            },
    {
        match self.slot(key) {
            Some(slot) => {
                proof {
                    old(self).lemma_wf();
                    old(self).lemma_update_view(slot as int);
                }
                Some(&mut self.values[slot])
            },
            None => None,
        }
    }

    /// All values, by slot, each to be changed in place. Keys and slots stay
    /// as they are.
    pub fn values_mut(&mut self) -> (values: Vec<&mut T>)
        requires
            old(self).wf(),
        ensures
            values@.len() == old(self).values().len(),
            forall|slot: int|
                0 <= slot < values@.len() ==> *(#[trigger] values@[slot]) == old(self).values()[slot],
            final(self).wf(),
            final(self).keys() == old(self).keys(),
            final(self).values().len() == old(self).values().len(),
            forall|slot: int|
                0 <= slot < values@.len() ==> final(self).values()[slot]
                    == *final(#[trigger] values@[slot]),
    {
        each_mut(&mut self.values)
    }

    /// Putting a new value into a slot is inserting it under the slot's key.
    proof fn lemma_update_view(&self, slot: int)
        requires
            self.wf(),
            0 <= slot < self.keys().len(),
        ensures
            forall|other: KeyedArena<T>, value: T|
                other.keys() == self.keys() && #[trigger] other.values() == self.values().update(
                    slot,
                    value,
                ) ==> other@ == #[trigger] self@.insert(self.keys()[slot], value),
    {
        self.lemma_wf();
        assert forall|other: KeyedArena<T>, value: T|
            other.keys() == self.keys() && #[trigger] other.values() == self.values().update(
                slot,
                value,
            ) implies other@ == #[trigger] self@.insert(self.keys()[slot], value) by {
            assert forall|key: u64| other@.contains_key(key) implies other@[key] == self@.insert(
                self.keys()[slot],
                value,
            )[key] by {
                let i = self.keys().index_of(key);
                assert(self.keys()[i] == key);
            }
            assert(other@ =~= self@.insert(self.keys()[slot], value));
        }
    }
}

/// A mutable reference to each element of `items`, in order.
fn each_mut<T>(items: &mut Vec<T>) -> (each: Vec<&mut T>)
    ensures
        each@.len() == old(items)@.len(),
        forall|i: int| 0 <= i < each@.len() ==> *(#[trigger] each@[i]) == old(items)@[i],
        final(items)@.len() == old(items)@.len(),
        forall|i: int| 0 <= i < each@.len() ==> final(items)@[i] == *final(#[trigger] each@[i]),
{
    let ghost n = items@.len();
    let ghost start = items@;
    let ghost end = final(items)@;
    let mut each: Vec<&mut T> = Vec::new();
    let mut rest: &mut [T] = items.as_mut_slice();
    loop
        invariant
            each@.len() + rest@.len() == n,
            start.len() == n,
            rest@ == start.subrange(each@.len() as int, n as int),
            forall|i: int| 0 <= i < each@.len() ==> *(#[trigger] each@[i]) == start[i],
            end == Seq::new(each@.len(), |i: int| *final(each@[i])) + final(rest)@,
        ensures
            each@.len() == n,
        decreases rest@.len(),
    {
        if rest.len() == 0 {
            let _ = rest.first_mut();
            break ;
        }
        let (head, tail) = rest.split_at_mut(1);
        match head.first_mut() {
            Some(item) => {
                each.push(item);
            },
            None => {},
        }
        rest = tail;
    }
    each
}

} // verus!
