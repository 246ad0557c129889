//! The kinds of signal.

use vstd::prelude::*;

verus! {

/// A kind of signal, such as one pheromone. Each tile keeps one signal per
/// emitter. An emitter is known by its number.
#[derive(Clone, Copy, Debug, PartialEq, Eq, Hash, Structural)]
pub struct Emitter {
    pub id: u64,
}

impl Emitter {
    /// The emitter with the given number.
    pub fn new(id: u64) -> (emitter: Emitter)
        ensures
            emitter == (Emitter { id }),
    {
        Emitter { id }
    }
}

} // verus!
