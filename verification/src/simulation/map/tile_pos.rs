//! Tile positions.

use vstd::prelude::*;

verus! {

/// A discrete coordinate on the grid, naming one tile.
#[derive(Clone, Copy, Debug, PartialEq, Eq, Hash, Structural)]
pub struct TilePos {
    pub x: u32,
    pub y: u32,
}

impl TilePos {
    /// The 64-bit key of a position: `x` in the upper half, `y` in the lower.
    pub open spec fn key_spec(self) -> u64 {
        (self.x as u64 * 0x1_0000_0000 + self.y as u64) as u64
    }

    /// The position that a key stands for.
    pub open spec fn from_key_spec(key: u64) -> TilePos {
        TilePos { x: (key / 0x1_0000_0000) as u32, y: (key % 0x1_0000_0000) as u32 }
    }

    /// The position at column `x`, row `y`.
    pub fn new(x: u32, y: u32) -> (position: TilePos)
        ensures
            position == (TilePos { x, y }),
    {
        TilePos { x, y }
    }

    /// The key of this position.
    pub fn key(&self) -> (key: u64)
        ensures
            key == self.key_spec(),
            TilePos::from_key_spec(key) == *self,
    {
        (self.x as u64) * 0x1_0000_0000 + (self.y as u64)
    }

    /// The position of a key.
    pub fn from_key(key: u64) -> (position: TilePos)
        ensures
            position == TilePos::from_key_spec(key),
            position.key_spec() == key,
    {
        TilePos { x: (key / 0x1_0000_0000) as u32, y: (key % 0x1_0000_0000) as u32 }
    }

    /// Positions and keys correspond one to one.
    pub proof fn lemma_key_bijective()
        ensures
            forall|position: TilePos| TilePos::from_key_spec(#[trigger] position.key_spec()) == position,
            forall|key: u64| (#[trigger] TilePos::from_key_spec(key)).key_spec() == key,
    {
    }
}

} // verus!
