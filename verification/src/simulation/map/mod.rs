//! The hexagonal map: tile positions, neighbourhoods, and data tied to tiles.

pub mod hex_patch;
pub mod resources;
pub mod tile_pos;

use vstd::prelude::*;
use crate::arena::KeyedArena;
use crate::simulation::map::hex_patch::HexPatch;
use crate::simulation::map::tile_pos::TilePos;

verus! {

/// The tiles of a map: the set of valid positions and, for each, the patch
/// of positions around it, where one was laid out.
pub struct MapPositions {
    tiles: KeyedArena<Option<HexPatch<TilePos>>>,
}

impl MapPositions {
    /// The tiles by key, each with its patch.
    pub closed spec fn tiles(&self) -> KeyedArena<Option<HexPatch<TilePos>>> {
        self.tiles
    }

    /// The template's internal index is sound.
    pub open spec fn wf(&self) -> bool {
        self.tiles().wf()
    }

    /// The valid positions, in the order in which they were laid out.
    pub open spec fn positions(&self) -> Seq<TilePos> {
        self.tiles().keys().map_values(|key: u64| TilePos::from_key_spec(key))
    }

    /// `position` is a tile of the map.
    pub open spec fn contains(&self, position: TilePos) -> bool {
        self.tiles()@.contains_key(position.key_spec())
    }

    /// The patch around `position`: `None` where it is no tile of the map or
    /// no patch was laid out for it.
    pub open spec fn patch(&self, position: TilePos) -> Option<HexPatch<TilePos>> {
        if self.contains(position) {
            self.tiles()@[position.key_spec()]
        } else {
            None
        }
    }

    /// A map without tiles.
    pub fn new() -> (template: MapPositions)
        ensures
            template.wf(),
            template.positions() == Seq::<TilePos>::empty(),
            forall|position: TilePos| !template.contains(position),
    {
        let template = MapPositions { tiles: KeyedArena::with_capacity(0) };
        proof {
            assert(template.positions() =~= Seq::<TilePos>::empty());
        }
        template
    }

    /// Makes `position` a tile of the map with the given patch. A position
    /// that is a tile already keeps its place and gets the new patch.
    pub fn insert(&mut self, position: TilePos, patch: Option<HexPatch<TilePos>>)
        requires
            old(self).wf(),
        ensures
            final(self).wf(),
            final(self).tiles()@ == old(self).tiles()@.insert(position.key_spec(), patch),
            final(self).contains(position),
            final(self).patch(position) == patch,
            forall|other: TilePos|
                other != position ==> final(self).contains(other) == old(self).contains(other)
                    && final(self).patch(other) == old(self).patch(other),
            old(self).contains(position) ==> final(self).positions() == old(self).positions(),
            !old(self).contains(position) ==> final(self).positions() == old(
                self,
            ).positions().push(position),
    {
        let key = position.key();
        let _ = self.tiles.insert(key, patch);
        proof {
            TilePos::lemma_key_bijective();
            assert forall|other: TilePos| other != position implies other.key_spec() != key by {
                assert(TilePos::from_key_spec(other.key_spec()) == other);
            }
            if old(self).contains(position) {
                assert(self.positions() =~= old(self).positions());
            } else {
                assert(self.positions() =~= old(self).positions().push(position));
            }
        }
    }

    /// The number of tiles.
    pub fn n_positions(&self) -> (n: usize)
        ensures
            n == self.positions().len(),
    {
        self.tiles.len()
    }

    /// The positions of all tiles, in the order in which they were laid out.
    pub fn iter_positions(&self) -> (positions: Vec<TilePos>)
        requires
            self.wf(),
        ensures
            positions@ == self.positions(),
    {
        let n = self.tiles.len();
        let mut positions: Vec<TilePos> = Vec::with_capacity(n);
        let mut i: usize = 0;
        while i < n
            invariant
                n == self.tiles().keys().len(),
                i <= n,
                positions@ == self.positions().take(i as int),
            decreases n - i,
        {
            positions.push(TilePos::from_key(self.tiles.key_at(i)));
            i += 1;
            proof {
                assert(positions@ =~= self.positions().take(i as int));
            }
        }
        proof {
            assert(self.positions().take(n as int) =~= self.positions());
        }
        positions
    }

    /// The patch of positions around `position`, where the map has one.
    pub fn get_patch(&self, position: &TilePos) -> (patch: Option<&HexPatch<TilePos>>)
        requires
            self.wf(),
        ensures
            patch.is_some() == self.patch(*position).is_some(),
            patch.is_some() ==> *patch.unwrap() == self.patch(*position).unwrap(),
    {
        match self.tiles.get(position.key()) {
            Some(entry) => entry.as_ref(),
            None => None,
        }
    }

    /// Each tile is listed once, and the listed positions are the tiles.
    pub proof fn lemma_positions(&self)
        requires
            self.wf(),
        ensures
            self.positions().no_duplicates(),
            forall|position: TilePos| self.positions().contains(position) == self.contains(position),
            forall|i: int|
                0 <= i < self.positions().len() ==> (#[trigger] self.positions()[i]).key_spec()
                    == self.tiles().keys()[i],
    {
        self.tiles().lemma_wf();
        TilePos::lemma_key_bijective();
        let keys = self.tiles().keys();
        assert forall|i: int, j: int|
            0 <= i < self.positions().len() && 0 <= j < self.positions().len() && i
                != j implies self.positions()[i] != self.positions()[j] by {
            assert(self.positions()[i].key_spec() == keys[i]);
            assert(self.positions()[j].key_spec() == keys[j]);
        }
        assert forall|position: TilePos| self.positions().contains(position) == self.contains(
            position,
        ) by {
            if self.positions().contains(position) {
                let i = self.positions().index_of(position);
                assert(self.positions()[i] == position);
                assert(keys[i] == position.key_spec());
            }
            if self.contains(position) {
                let i = keys.index_of(position.key_spec());
                assert(keys[i] == position.key_spec());
                assert(self.positions()[i] == position);
            }
        }
    }
}

} // verus!
