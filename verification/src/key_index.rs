//! A hash index from 64-bit keys to arena slots.
//!
//! The index is the one place where the library leans on a hash map that it
//! does not verify itself: the `HashMap` of `bevy::utils`. Its methods are
//! reached through the three wrappers below, whose contracts are taken on
//! trust from the documented behaviour of that map.

use vstd::prelude::*;

verus! {

/// The largest capacity hint that [`KeyIndex::with_capacity`] accepts.
///
/// With sixteen bytes per entry a table of this many entries stays far below
/// the largest allocation that the map can lay out, on 32-bit targets too.
/// A larger map is not refused: its index grows as the tiles come in.
pub const CAPACITY_HINT_MAX: usize = 0x0010_0000;

/// A map from `u64` keys to `usize` slots, held in a `bevy::utils::HashMap`.
///
/// Verus does not look inside; what the index holds is named by
/// [`index_entries`].
#[verifier::external_body]
pub struct KeyIndex {
    inner: bevy::utils::HashMap<u64, usize>,
}

/// The key-to-slot pairs that an index holds.
pub uninterp spec fn index_entries(index: KeyIndex) -> Map<u64, usize>;

impl KeyIndex {
    /// Calls `HashMap::with_capacity`.
    ///
    /// Trusted: the new map holds no entry. The hint is bounded so that the
    /// table layout cannot overflow, which is the one input on which the
    /// outside function panics.
    #[verifier::external_body]
    pub(crate) fn with_capacity(capacity: usize) -> (made: KeyIndex)
        requires
            capacity <= CAPACITY_HINT_MAX,
        ensures
            (index_entries(made) == Map::<u64, usize>::empty()),
    {
        KeyIndex { inner: bevy::utils::HashMap::with_capacity(capacity) }
    }

    /// Calls `HashMap::insert`.
    ///
    /// Trusted: afterwards `key` maps to `slot` and every other key is as
    /// before; the slot that `key` mapped to before, if any, is returned.
    #[verifier::external_body]
    pub(crate) fn insert(&mut self, key: u64, slot: usize) -> (previous: Option<usize>)
        ensures
            index_entries(*final(self)) == index_entries(*old(self)).insert(key, slot),
            previous == (if index_entries(*old(self)).contains_key(key) {
                Some(index_entries(*old(self))[key])
            } else {
                None
            }),
    {
        self.inner.insert(key, slot)
    }

    /// Calls `HashMap::get` and copies the slot out.
    ///
    /// Trusted: the result is the slot that `key` maps to, or `None` where the
    /// index holds no such key.
    #[verifier::external_body]
    pub(crate) fn get(&self, key: u64) -> (slot: Option<usize>)
        ensures
            slot == (if index_entries(*self).contains_key(key) {
                Some(index_entries(*self)[key])
            } else {
                None
            }),
    {
        self.inner.get(&key).copied()
    }
}

} // verus!
