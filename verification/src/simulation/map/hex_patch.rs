//! A tile together with its ring of neighbours.

use vstd::prelude::*;

verus! {

/// The number of entries of a patch: the centre and six neighbours.
pub const PATCH_ENTRIES: usize = 7;

/// A snapshot of something at a tile and at each of its six hexagonal
/// neighbours. An entry is `None` where the map has no tile in that place.
pub struct HexPatch<V> {
    pub center: Option<V>,
    pub zero: Option<V>,
    pub one: Option<V>,
    pub two: Option<V>,
    pub three: Option<V>,
    pub four: Option<V>,
    pub five: Option<V>,
}

/// What `and_then` makes of one entry: nothing of an empty entry, and of a
/// full one what `f` gives.
pub open spec fn entry_and_then<V, U>(entry: Option<V>, f: spec_fn(V) -> Option<U>) -> Option<U> {
    match entry {
        Some(v) => f(v),
        None => None,
    }
}

/// An executable `f` may be called on what `entry` holds.
pub open spec fn entry_callable<'a, V, U, F: Fn(&'a V) -> Option<U>>(
    entry: &'a Option<V>,
    f: F,
) -> bool {
    match entry {
        Some(v) => call_requires(f, (v,)),
        None => true,
    }
}

/// `out` is what a call of `f` may give for `entry`.
pub open spec fn entry_mapped<'a, V, U, F: Fn(&'a V) -> Option<U>>(
    entry: &'a Option<V>,
    f: F,
    out: Option<U>,
) -> bool {
    match entry {
        Some(v) => call_ensures(f, (v,), out),
        None => out.is_none(),
    }
}

impl<V> HexPatch<V> {
    /// The entries in order: the centre, then the neighbours zero to five.
    pub open spec fn entries(self) -> Seq<Option<V>> {
        seq![self.center, self.zero, self.one, self.two, self.three, self.four, self.five]
    }

    /// The patch of the same shape in which each full entry `v` has become
    /// `f(v)`; an entry is empty where it was empty or `f` gave nothing.
    pub open spec fn and_then<U>(self, f: spec_fn(V) -> Option<U>) -> HexPatch<U> {
        HexPatch {
            center: entry_and_then(self.center, f),
            zero: entry_and_then(self.zero, f),
            one: entry_and_then(self.one, f),
            two: entry_and_then(self.two, f),
            three: entry_and_then(self.three, f),
            four: entry_and_then(self.four, f),
            five: entry_and_then(self.five, f),
        }
    }

    /// Entry by entry, `and_then` is `entry_and_then`.
    pub proof fn lemma_and_then_entries<U>(self, f: spec_fn(V) -> Option<U>)
        ensures
            self.and_then(f).entries().len() == PATCH_ENTRIES,
            self.entries().len() == PATCH_ENTRIES,
            forall|i: int|
                0 <= i < PATCH_ENTRIES ==> #[trigger] self.and_then(f).entries()[i]
                    == entry_and_then(self.entries()[i], f),
    {
    }

    /// The entry at `i`: the centre at 0, the neighbours at 1 to 6.
    pub fn get(&self, i: usize) -> (entry: Option<&V>)
        requires
            i < PATCH_ENTRIES,
        ensures
            entry.is_some() == self.entries()[i as int].is_some(),
            entry.is_some() ==> *entry.unwrap() == self.entries()[i as int].unwrap(),
    {
        let entry = if i == 0 {
            &self.center
        } else if i == 1 {
            &self.zero
        } else if i == 2 {
            &self.one
        } else if i == 3 {
            &self.two
        } else if i == 4 {
            &self.three
        } else if i == 5 {
            &self.four
        } else {
            &self.five
        };
        entry.as_ref()
    }

    /// Applies `f` to what each full entry holds and keeps the shape.
    pub fn and_then_ref<'a, U, F: Fn(&'a V) -> Option<U>>(&'a self, f: F) -> (patch: HexPatch<U>)
        requires
            entry_callable(&self.center, f),
            entry_callable(&self.zero, f),
            entry_callable(&self.one, f),
            entry_callable(&self.two, f),
            entry_callable(&self.three, f),
            entry_callable(&self.four, f),
            entry_callable(&self.five, f),
        ensures
            entry_mapped(&self.center, f, patch.center),
            entry_mapped(&self.zero, f, patch.zero),
            entry_mapped(&self.one, f, patch.one),
            entry_mapped(&self.two, f, patch.two),
            entry_mapped(&self.three, f, patch.three),
            entry_mapped(&self.four, f, patch.four),
            entry_mapped(&self.five, f, patch.five),
    {
        HexPatch {
            center: entry_and_then_ref(&self.center, &f),
            zero: entry_and_then_ref(&self.zero, &f),
            one: entry_and_then_ref(&self.one, &f),
            two: entry_and_then_ref(&self.two, &f),
            three: entry_and_then_ref(&self.three, &f),
            four: entry_and_then_ref(&self.four, &f),
            five: entry_and_then_ref(&self.five, &f),
        }
    }
}

/// Applies `f` to what a full entry holds.
fn entry_and_then_ref<'a, V, U, F: Fn(&'a V) -> Option<U>>(
    entry: &'a Option<V>,
    f: &F,
) -> (out: Option<U>)
    requires
        entry_callable(entry, *f),
    ensures
        entry_mapped(entry, *f, out),
{
    match entry {
        Some(v) => f(v),
        None => None,
    }
}

} // verus!
