//! Data that is tied to the tiles of the map.

use vstd::prelude::*;
use crate::arena::KeyedArena;
use crate::simulation::map::hex_patch::{HexPatch, PATCH_ENTRIES};
use crate::simulation::map::tile_pos::TilePos;
use crate::simulation::map::MapPositions;

verus! {

/// The owner of the one datum that belongs to a tile.
///
/// A map resource stores each cell once. Whoever needs the datum of a tile,
/// by its position or as a neighbour in a patch, is led to the same cell.
#[derive(Debug)]
pub struct MapData<T> {
    pub(crate) inner: T,
}

impl<T> View for MapData<T> {
    type V = T;

    /// The datum that the cell holds.
    closed spec fn view(&self) -> T {
        self.inner
    }
}

impl<T> MapData<T> {
    /// A cell that holds `data`.
    pub fn new(data: T) -> (cell: MapData<T>)
        ensures
            cell@ == data,
    {
        MapData { inner: data }
    }

    /// The datum, to be read.
    pub fn read(&self) -> (data: &T)
        ensures
            *data == self@,
    {
        &self.inner
    }

    /// The datum, to be changed in place.
    pub fn get_mut(&mut self) -> (data: &mut T)
        ensures
            *data == old(self)@,
            final(self)@ == *final(data),
    {
        &mut self.inner
    }

    /// Puts `new_data` in place of the datum.
    pub fn replace(&mut self, new_data: T)
        ensures
            final(self)@ == new_data,
    {
        self.inner = new_data;
    }
}

/// The datum that a storage holds at each position.
pub open spec fn arena_data<T>(storage: KeyedArena<MapData<T>>) -> Map<TilePos, T> {
    Map::new(
        |position: TilePos| storage@.contains_key(position.key_spec()),
        |position: TilePos| storage@[position.key_spec()]@,
    )
}

/// The datum that a list of pairs leaves at each position: where a position
/// occurs more than once, the last pair counts.
pub open spec fn data_map<T>(data: Seq<(TilePos, T)>) -> Map<TilePos, T>
    decreases data.len(),
{
    if data.len() == 0 {
        Map::empty()
    } else {
        data_map(data.drop_last()).insert(data.last().0, data.last().1)
    }
}

/// The handle to the cell of `position`: the slot that holds it, where the
/// storage has the position.
pub open spec fn slot_handle<T>(
    storage: KeyedArena<MapData<T>>,
    position: TilePos,
) -> Option<usize> {
    if storage@.contains_key(position.key_spec()) {
        Some(storage.slot_of(position.key_spec()) as usize)
    } else {
        None
    }
}

/// The patch of handles that a storage of patches holds for `position`.
pub open spec fn arena_patch(
    patches: KeyedArena<HexPatch<usize>>,
    position: TilePos,
) -> Option<HexPatch<usize>> {
    if patches@.contains_key(position.key_spec()) {
        Some(patches@[position.key_spec()])
    } else {
        None
    }
}

/// The patch of handles that belongs to `position`: the template's patch of
/// positions around it, each position replaced by the handle to its cell. An
/// entry is empty where the template's is, or where the storage has no cell
/// for the position listed. There is no patch where the template has none.
pub open spec fn template_patch<T>(
    storage: KeyedArena<MapData<T>>,
    template: MapPositions,
    position: TilePos,
) -> Option<HexPatch<usize>> {
    match template.patch(position) {
        Some(tile_patch) => Some(tile_patch.and_then(|listed: TilePos| slot_handle(storage, listed))),
        None => None,
    }
}

/// Every handle in every patch is a slot below `cells`.
pub open spec fn handles_valid(patches: KeyedArena<HexPatch<usize>>, cells: nat) -> bool {
    forall|key: u64, i: int|
        patches@.contains_key(key) && 0 <= i < PATCH_ENTRIES ==> match (
        #[trigger] patches@[key].entries()[i]) {
            Some(slot) => slot < cells,
            None => true,
        }
}

/// The patches that have been made of the first `upto` tiles of a template.
spec fn patches_upto<T>(
    storage: KeyedArena<MapData<T>>,
    template: MapPositions,
    upto: int,
) -> Map<u64, HexPatch<usize>> {
    Map::new(
        |key: u64|
            exists|j: int|
                0 <= j < upto && j < template.tiles().keys().len()
                    && #[trigger] template.tiles().keys()[j] == key
                    && template.tiles().values()[j].is_some(),
        |key: u64|
            template.tiles()@[key].unwrap().and_then(|listed: TilePos| slot_handle(storage, listed)),
    )
}

/// No entry of the patch before entry `i` names the same cell as entry `i`.
pub open spec fn first_mention(slots: HexPatch<usize>, i: int) -> bool {
    forall|k: int| 0 <= k < i ==> slots.entries()[k] != slots.entries()[i]
}

/// What entry `i` of a patch of borrowed cells lends. It lends the cell that
/// the handle at `i` names, where there is a handle and no earlier entry has
/// lent that cell already: `lent` says whether the entry lends a cell, `now`
/// is what the cell holds, and `later` is what it will hold when the loan
/// ends. `before` and `after` are all cells, by slot, before the loan and
/// after it.
pub open spec fn lends<C>(
    lent: bool,
    now: C,
    later: C,
    slots: HexPatch<usize>,
    i: int,
    before: Seq<C>,
    after: Seq<C>,
) -> bool {
    let slot = slots.entries()[i];
    &&& lent == (slot.is_some() && slot.unwrap() < before.len() && first_mention(slots, i))
    &&& lent ==> now == before[slot.unwrap() as int] && later == after[slot.unwrap() as int]
}

/// What `update` leaves at each position: for each pair in turn, the value
/// replaces the datum of its position where the map has that position, and
/// is dropped where it has not.
pub open spec fn updated<T>(current: Map<TilePos, T>, data: Seq<(TilePos, T)>) -> Map<TilePos, T>
    decreases data.len(),
{
    if data.len() == 0 {
        current
    } else {
        let prior = updated(current, data.drop_last());
        if prior.contains_key(data.last().0) {
            prior.insert(data.last().0, data.last().1)
        } else {
            prior
        }
    }
}

/// A helper for data that is tied to fixed positions on the map.
///
/// It leads from a position to the cell of that tile, and from a position to
/// the patch of cells around it. Each cell is stored once; a patch holds
/// handles to the stored cells, never copies.
pub struct MapResource<T> {
    pub(crate) storage: KeyedArena<MapData<T>>,
    pub(crate) patches: KeyedArena<HexPatch<usize>>,
}

impl<T> View for MapResource<T> {
    type V = Map<TilePos, T>;

    /// The datum at each position.
    open spec fn view(&self) -> Map<TilePos, T> {
        arena_data(self.storage())
    }
}

impl<T> MapResource<T> {
    /// The cells, stored once each under the key of their position.
    pub closed spec fn storage(&self) -> KeyedArena<MapData<T>> {
        self.storage
    }

    /// The patches of handles, each under the key of its centre.
    pub closed spec fn patches(&self) -> KeyedArena<HexPatch<usize>> {
        self.patches
    }

    /// Both arenas are sound, and every handle in a patch names a stored cell.
    pub open spec fn wf(&self) -> bool {
        &&& self.storage().wf()
        &&& self.patches().wf()
        &&& handles_valid(self.patches(), self.storage().keys().len())
    }

    /// The positions that have a cell, by slot.
    pub open spec fn position_seq(&self) -> Seq<TilePos> {
        self.storage().keys().map_values(|key: u64| TilePos::from_key_spec(key))
    }

    /// The handle to the cell of `position`, where it has one.
    pub open spec fn slot_of(&self, position: TilePos) -> int {
        self.storage().slot_of(position.key_spec())
    }

    /// The cell behind a handle.
    pub open spec fn cell(&self, slot: int) -> MapData<T> {
        self.storage().values()[slot]
    }

    /// The patch of handles around `position`, where it has one.
    pub open spec fn patch_slots(&self, position: TilePos) -> Option<HexPatch<usize>> {
        arena_patch(self.patches(), position)
    }

    /// Generates the storage: one cell for each position that `data` names,
    /// holding the value of the last pair that names it.
    pub fn generate_storage(
        template: &MapPositions,
        data: Vec<(TilePos, T)>,
    ) -> (storage: KeyedArena<MapData<T>>)
        ensures
            storage.wf(),
            arena_data(storage) == data_map(data@),
    {
        let mut storage: KeyedArena<MapData<T>> = KeyedArena::with_capacity(template.n_positions());
        let ghost items = data@;
        proof {
            assert(arena_data(storage) =~= data_map(items.take(0)));
        }
        for pair in it: data
            invariant
                it.seq() == items,
                storage.wf(),
                arena_data(storage) == data_map(items.take(it.index() as int)),
        {
            let (position, value) = pair;
            let ghost before = storage;
            let ghost i = it.index() as int;
            let _ = storage.insert(position.key(), MapData::new(value));
            proof {
                TilePos::lemma_key_bijective();
                assert(items.take(i + 1).drop_last() =~= items.take(i));
                assert(items.take(i + 1).last() == items[i]);
                assert(arena_data(storage) =~= arena_data(before).insert(position, value));
            }
        }
        proof {
            assert(items.take(items.len() as int) =~= items);
        }
        storage
    }

    /// Generates the patches for the given storage: for each tile of the
    /// template that has a patch of positions, the patch of handles to the
    /// cells of those positions.
    pub fn generate_patches(
        storage: &KeyedArena<MapData<T>>,
        template: &MapPositions,
    ) -> (patches: KeyedArena<HexPatch<usize>>)
        requires
            storage.wf(),
            template.wf(),
        ensures
            patches.wf(),
            handles_valid(patches, storage.keys().len()),
            forall|position: TilePos|
                arena_patch(patches, position) == template_patch(*storage, *template, position),
    {
        let positions = template.iter_positions();
        let n = positions.len();
        let mut patches: KeyedArena<HexPatch<usize>> = KeyedArena::with_capacity(n);
        let mut i: usize = 0;
        proof {
            template.lemma_positions();
            template.tiles().lemma_wf();
            storage.lemma_wf();
            assert(patches@ =~= patches_upto(*storage, *template, 0));
        }
        while i < n
            invariant
                storage.wf(),
                template.wf(),
                positions@ == template.positions(),
                n == positions@.len(),
                i <= n,
                patches.wf(),
                handles_valid(patches, storage.keys().len()),
                patches@ == patches_upto(*storage, *template, i as int),
            decreases n - i,
        {
            let position = positions[i];
            let ghost before = patches;
            proof {
                template.lemma_positions();
                template.tiles().lemma_wf();
                storage.lemma_wf();
            }
            match template.get_patch(&position) {
                Some(tile_patch) => {
                    let lookup = |listed: &TilePos| -> (slot: Option<usize>)
                        requires
                            storage.wf(),
                        ensures
                            slot == slot_handle(*storage, *listed),
                        { storage.slot(listed.key()) };
                    let data_patch = tile_patch.and_then_ref(lookup);
                    proof {
                        assert(data_patch == tile_patch.and_then(
                            |listed: TilePos| slot_handle(*storage, listed),
                        ));
                        assert forall|e: int| 0 <= e < PATCH_ENTRIES implies match (
                        #[trigger] data_patch.entries()[e]) {
                            Some(slot) => slot < storage.keys().len(),
                            None => true,
                        } by {
                            tile_patch.lemma_and_then_entries(
                                |listed: TilePos| slot_handle(*storage, listed),
                            );
                            match tile_patch.entries()[e] {
                                Some(listed) => {
                                    if storage@.contains_key(listed.key_spec()) {
                                        let s = storage.keys().index_of(listed.key_spec());
                                        assert(storage.keys()[s] == listed.key_spec());
                                    }
                                },
                                None => {},
                            }
                        }
                    }
                    let _ = patches.insert(position.key(), data_patch);
                    proof {
                        assert forall|key: u64, e: int|
                            patches@.contains_key(key) && 0 <= e < PATCH_ENTRIES implies match (
                        #[trigger] patches@[key].entries()[e]) {
                            Some(slot) => slot < storage.keys().len(),
                            None => true,
                        } by {
                            if key != position.key_spec() {
                                assert(before@.contains_key(key));
                                assert(patches@[key] == before@[key]);
                            }
                        }
                        assert(template.tiles().keys()[i as int] == position.key_spec());
                        assert(template.tiles()@[position.key_spec()] == Some(*tile_patch));
                        assert(template.tiles().values()[i as int] == Some(*tile_patch));
                        assert(patches@ =~= patches_upto(*storage, *template, i + 1)) by {
                            assert forall|key: u64|
                                patches_upto(*storage, *template, i + 1).contains_key(
                                    key,
                                ) implies patches@.contains_key(key) by {
                                let j = choose|j: int|
                                    0 <= j < i + 1 && j < template.tiles().keys().len()
                                        && #[trigger] template.tiles().keys()[j] == key
                                        && template.tiles().values()[j].is_some();
                                if j < i {
                                    assert(patches_upto(*storage, *template, i as int).contains_key(
                                        key,
                                    ));
                                }
                            }
                        }
                    }
                },
                None => {
                    proof {
                        assert(template.tiles().keys()[i as int] == position.key_spec());
                        assert(template.tiles().values()[i as int].is_none());
                        assert(patches@ =~= patches_upto(*storage, *template, i + 1)) by {
                            assert forall|key: u64|
                                patches_upto(*storage, *template, i + 1).contains_key(
                                    key,
                                ) implies patches@.contains_key(key) by {
                                let j = choose|j: int|
                                    0 <= j < i + 1 && j < template.tiles().keys().len()
                                        && #[trigger] template.tiles().keys()[j] == key
                                        && template.tiles().values()[j].is_some();
                                assert(j < i);
                                assert(patches_upto(*storage, *template, i as int).contains_key(key));
                            }
                        }
                    }
                },
            }
            i += 1;
        }
        proof {
            template.lemma_positions();
            template.tiles().lemma_wf();
            assert forall|position: TilePos|
                arena_patch(patches, position) == template_patch(
                    *storage,
                    *template,
                    position,
                ) by {
                let key = position.key_spec();
                if template.contains(position) {
                    let j = template.tiles().keys().index_of(key);
                    assert(template.tiles().keys()[j] == key);
                    assert(template.tiles()@[key] == template.tiles().values()[j]);
                }
                if patches@.contains_key(key) {
                    let j = choose|j: int|
                        0 <= j < n && j < template.tiles().keys().len()
                            && #[trigger] template.tiles().keys()[j] == key
                            && template.tiles().values()[j].is_some();
                    assert(template.tiles().keys().contains(key));
                }
            }
        }
        patches
    }

    /// A resource over the tiles of `template` that holds `data`: one cell
    /// for each position that `data` names, and for each tile with a patch in
    /// the template the patch of handles to the cells around it.
    pub fn new(template: &MapPositions, data: Vec<(TilePos, T)>) -> (resource: MapResource<T>)
        requires
            template.wf(),
        ensures
            resource.wf(),
            resource@ == data_map(data@),
            forall|position: TilePos|
                resource.patch_slots(position) == template_patch(
                    resource.storage(),
                    *template,
                    position,
                ),
    {
        let storage = MapResource::generate_storage(template, data);
        let patches = MapResource::generate_patches(&storage, template);
        MapResource { storage, patches }
    }

    /// Replaces the data at the given positions, pair by pair. A pair whose
    /// position has no cell is dropped: no cell is ever added or removed.
    pub fn update(&mut self, new_data: Vec<(TilePos, T)>)
        requires
            old(self).wf(),
        ensures
            final(self).wf(),
            final(self)@ == updated(old(self)@, new_data@),
            final(self).storage().keys() == old(self).storage().keys(),
            final(self).patches() == old(self).patches(),
    {
        let ghost items = new_data@;
        for pair in it: new_data
            invariant
                it.seq() == items,
                self.wf(),
                self@ == updated(old(self)@, items.take(it.index() as int)),
                self.storage().keys() == old(self).storage().keys(),
                self.patches() == old(self).patches(),
        {
            let (position, data) = pair;
            let ghost before = *self;
            let ghost i = it.index() as int;
            match self.storage.get_mut(position.key()) {
                Some(map_data) => {
                    map_data.replace(data);
                },
                None => {},
            }
            proof {
                TilePos::lemma_key_bijective();
                assert(items.take(i + 1).drop_last() =~= items.take(i));
                assert(items.take(i + 1).last() == items[i]);
                if before@.contains_key(position) {
                    assert(self@ =~= before@.insert(position, data));
                } else {
                    assert(self@ =~= before@);
                }
            }
        }
        proof {
            assert(items.take(items.len() as int) =~= items);
        }
    }

    /// Replaces the datum at `position`, which must have a cell.
    pub fn replace(&mut self, position: &TilePos, replace_with: T)
        requires
            old(self).wf(),
            old(self)@.contains_key(*position),
        ensures
            final(self).wf(),
            final(self)@ == old(self)@.insert(*position, replace_with),
            final(self).storage().keys() == old(self).storage().keys(),
            final(self).patches() == old(self).patches(),
    {
        match self.storage.get_mut(position.key()) {
            Some(map_data) => {
                map_data.replace(replace_with);
            },
            None => {},
        }
        proof {
            TilePos::lemma_key_bijective();
            assert(self@ =~= old(self)@.insert(*position, replace_with));
        }
    }

    /// The cell at `position`, where the map has one.
    pub fn get(&self, position: &TilePos) -> (cell: Option<&MapData<T>>)
        requires
            self.wf(),
        ensures
            cell.is_some() == self@.contains_key(*position),
            cell.is_some() ==> cell.unwrap()@ == self@[*position] && *cell.unwrap() == self.cell(
                self.slot_of(*position),
            ),
    {
        self.storage.get(position.key())
    }

    /// The cell at `position`, to be changed in place, where the map has one.
    /// Positions, handles and patches stay as they are.
    pub fn get_mut(&mut self, position: &TilePos) -> (cell: Option<&mut MapData<T>>)
        requires
            old(self).wf(),
        ensures
            cell.is_some() == old(self)@.contains_key(*position),
            final(self).wf(),
            final(self).storage().keys() == old(self).storage().keys(),
            final(self).patches() == old(self).patches(),
            match cell {
                Some(map_data) => map_data@ == old(self)@[*position] && final(self)@ == old(
                    self,
                )@.insert(*position, final(map_data)@),
                None => final(self)@ == old(self)@,
            },
    {
        proof {
            TilePos::lemma_key_bijective();
            let ghost stored = old(self).storage();
            let ghost key = position.key_spec();
            assert forall|changed: KeyedArena<MapData<T>>, put: MapData<T>|
                changed@ == #[trigger] stored@.insert(key, put) implies #[trigger] arena_data(
                changed,
            ) == arena_data(stored).insert(*position, put@) by {
                assert(arena_data(changed) =~= arena_data(stored).insert(*position, put@));
            }
        }
        self.storage.get_mut(position.key())
    }

    /// The positions that have a cell, by slot.
    pub fn positions(&self) -> (positions: Vec<TilePos>)
        requires
            self.wf(),
        ensures
            positions@ == self.position_seq(),
    {
        let n = self.storage.len();
        let mut positions: Vec<TilePos> = Vec::with_capacity(n);
        let mut i: usize = 0;
        while i < n
            invariant
                n == self.storage().keys().len(),
                i <= n,
                positions@ == self.position_seq().take(i as int),
            decreases n - i,
        {
            positions.push(TilePos::from_key(self.storage.key_at(i)));
            i += 1;
            proof {
                assert(positions@ =~= self.position_seq().take(i as int));
            }
        }
        proof {
            assert(self.position_seq().take(n as int) =~= self.position_seq());
        }
        positions
    }

    /// The cells of all positions, by slot.
    pub fn values(&self) -> (cells: Vec<&MapData<T>>)
        requires
            self.wf(),
        ensures
            cells@.len() == self.position_seq().len(),
            forall|slot: int| 0 <= slot < cells@.len() ==> *#[trigger] cells@[slot] == self.cell(slot),
    {
        let n = self.storage.len();
        let mut cells: Vec<&MapData<T>> = Vec::with_capacity(n);
        let mut i: usize = 0;
        while i < n
            invariant
                self.wf(),
                n == self.storage().keys().len(),
                i <= n,
                cells@.len() == i,
                forall|slot: int| 0 <= slot < i ==> *#[trigger] cells@[slot] == self.cell(slot),
            decreases n - i,
        {
            cells.push(self.storage.value_at(i));
            i += 1;
        }
        cells
    }

    /// The cells of all positions, by slot, each to be changed in place.
    /// Positions, handles and patches stay as they are.
    pub fn values_mut(&mut self) -> (cells: Vec<&mut MapData<T>>)
        requires
            old(self).wf(),
        ensures
            cells@.len() == old(self).position_seq().len(),
            forall|slot: int|
                0 <= slot < cells@.len() ==> *(#[trigger] cells@[slot]) == old(self).cell(slot),
            final(self).wf(),
            final(self).storage().keys() == old(self).storage().keys(),
            final(self).patches() == old(self).patches(),
            forall|slot: int|
                0 <= slot < cells@.len() ==> final(self).cell(slot)
                    == *final(#[trigger] cells@[slot]),
    {
        proof {
            old(self).storage().lemma_wf();
        }
        self.storage.values_mut()
    }

    /// The patch of cells around `position`, where it has one: each entry is
    /// the stored cell behind the handle, not a copy of it.
    pub fn get_patch(&self, position: &TilePos) -> (patch: Option<HexPatch<&MapData<T>>>)
        requires
            self.wf(),
        ensures
            patch.is_some() == self.patch_slots(*position).is_some(),
            patch.is_some() ==> patch.unwrap() == self.patch_slots(*position).unwrap().and_then(
                |slot: usize| Some(&self.cell(slot as int)),
            ),
    {
        match self.patches.get(position.key()) {
            Some(slots) => {
                proof {
                    let key = position.key_spec();
                    assert(self.patches()@.contains_key(key));
                    assert(self.patches()@[key].entries()[0] == slots.center);
                    assert(self.patches()@[key].entries()[1] == slots.zero);
                    assert(self.patches()@[key].entries()[2] == slots.one);
                    assert(self.patches()@[key].entries()[3] == slots.two);
                    assert(self.patches()@[key].entries()[4] == slots.three);
                    assert(self.patches()@[key].entries()[5] == slots.four);
                    assert(self.patches()@[key].entries()[6] == slots.five);
                }
                let resolve = |slot: &usize| -> (cell: Option<&MapData<T>>)
                    requires
                        self.wf(),
                        *slot < self.storage().keys().len(),
                    ensures
                        cell == Some(&self.cell(*slot as int)),
                    { Some(self.storage.value_at(*slot)) };
                Some(slots.and_then_ref(resolve))
            },
            None => None,
        }
    }

    /// The patch of cells around `position`, each to be changed in place,
    /// where the position has a patch. A cell can be lent once: where two
    /// entries of the patch name the same cell, the first of them holds it
    /// and the other is empty. Positions, handles and patches stay as they
    /// are, and so does every cell that the patch does not name.
    pub fn get_patch_mut(
        &mut self,
        position: &TilePos,
    ) -> (patch: Option<HexPatch<&mut MapData<T>>>)
        requires
            old(self).wf(),
        ensures
            patch.is_some() == old(self).patch_slots(*position).is_some(),
            final(self).wf(),
            final(self).storage().keys() == old(self).storage().keys(),
            final(self).patches() == old(self).patches(),
            final(self).storage().values().len() == old(self).storage().values().len(),
            patch.is_none() ==> final(self).storage().values() == old(self).storage().values(),
            patch.is_some() ==> forall|i: int|
                0 <= i < PATCH_ENTRIES ==> lends(
                    (#[trigger] patch.unwrap().entries()[i]).is_some(),
                    *patch.unwrap().entries()[i].unwrap(),
                    *final(patch.unwrap().entries()[i].unwrap()),
                    old(self).patch_slots(*position).unwrap(),
                    i,
                    old(self).storage().values(),
                    final(self).storage().values(),
                ),
            patch.is_some() ==> forall|slot: int|
                0 <= slot < old(self).storage().values().len() && !old(self).patch_slots(
                    *position,
                ).unwrap().entries().contains(Some(slot as usize))
                    ==> #[trigger] final(self).cell(slot) == old(self).cell(slot),
    {
        let ghost end = final(self).storage().values();
        let slots: HexPatch<usize> = match self.patches.get(position.key()) {
            Some(found) => HexPatch {
                center: found.center,
                zero: found.zero,
                one: found.one,
                two: found.two,
                three: found.three,
                four: found.four,
                five: found.five,
            },
            None => {
                return None;
            },
        };
        proof {
            old(self).storage().lemma_wf();
        }
        let cells = self.storage.values_mut();
        let ghost all = cells@;
        proof {
            assert(Seq::new(all.len(), |j: int| *all[j]) =~= old(self).storage().values());
            assert(Seq::new(all.len(), |j: int| *final(all[j])) =~= end);
        }
        Some(lend(cells, &slots))
    }

    /// Each position with a cell is listed once, and only those are listed.
    pub proof fn lemma_positions(&self)
        requires
            self.wf(),
        ensures
            self.position_seq().no_duplicates(),
            forall|position: TilePos|
                self.position_seq().contains(position) == self@.contains_key(position),
            forall|slot: int|
                0 <= slot < self.position_seq().len() ==> self.slot_of(
                    #[trigger] self.position_seq()[slot],
                ) == slot,
    {
        self.storage().lemma_wf();
        TilePos::lemma_key_bijective();
        let keys = self.storage().keys();
        assert forall|i: int, j: int|
            0 <= i < self.position_seq().len() && 0 <= j < self.position_seq().len() && i
                != j implies self.position_seq()[i] != self.position_seq()[j] by {
            assert(self.position_seq()[i].key_spec() == keys[i]);
            assert(self.position_seq()[j].key_spec() == keys[j]);
        }
        assert forall|position: TilePos|
            self.position_seq().contains(position) == self@.contains_key(position) by {
            if self.position_seq().contains(position) {
                let i = self.position_seq().index_of(position);
                assert(self.position_seq()[i] == position);
                assert(keys[i] == position.key_spec());
            }
            if self@.contains_key(position) {
                let i = keys.index_of(position.key_spec());
                assert(keys[i] == position.key_spec());
                assert(self.position_seq()[i] == position);
            }
        }
        assert forall|slot: int| 0 <= slot < self.position_seq().len() implies self.slot_of(
            #[trigger] self.position_seq()[slot],
        ) == slot by {
            assert(self.position_seq()[slot].key_spec() == keys[slot]);
        }
    }

    /// A handle in a patch and a lookup by position lead to the same cell:
    /// where entry `i` of the patch around `center` holds a handle, the
    /// position `listed` whose cell it names has a cell, and the handle is
    /// the very slot that a lookup of `listed` reads.
    pub proof fn lemma_patch_entry_is_stored_cell(&self, center: TilePos, i: int)
        requires
            self.wf(),
            0 <= i < PATCH_ENTRIES,
            self.patch_slots(center).is_some(),
            self.patch_slots(center).unwrap().entries()[i].is_some(),
        ensures
            ({
                let slot = self.patch_slots(center).unwrap().entries()[i].unwrap() as int;
                let listed = self.position_seq()[slot];
                &&& 0 <= slot < self.position_seq().len()
                &&& self@.contains_key(listed)
                &&& self.slot_of(listed) == slot
                &&& self@[listed] == self.cell(slot)@
            }),
    {
        self.lemma_positions();
        self.storage().lemma_wf();
        let slot = self.patch_slots(center).unwrap().entries()[i].unwrap() as int;
        assert(self.patches()@.contains_key(center.key_spec()));
        assert(slot < self.storage().keys().len());
        let listed = self.position_seq()[slot];
        assert(self.position_seq().contains(listed));
    }

    /// In a resource whose patches follow a template, a position that the
    /// template lists in a patch, and that has a cell, is reached through
    /// that patch by the handle to its own cell.
    pub proof fn lemma_listed_position_shares_cell(
        &self,
        template: MapPositions,
        center: TilePos,
        i: int,
        listed: TilePos,
    )
        requires
            self.wf(),
            forall|position: TilePos|
                self.patch_slots(position) == template_patch(self.storage(), template, position),
            0 <= i < PATCH_ENTRIES,
            template.patch(center).is_some(),
            template.patch(center).unwrap().entries()[i] == Some(listed),
            self@.contains_key(listed),
        ensures
            self.patch_slots(center).is_some(),
            self.patch_slots(center).unwrap().entries()[i] == Some(self.slot_of(listed) as usize),
    {
        let storage = self.storage();
        assert(self.patch_slots(center) == template_patch(storage, template, center));
        template.patch(center).unwrap().lemma_and_then_entries(
            |position: TilePos| slot_handle(storage, position),
        );
    }
}

impl<T> MapResource<T> where T: Default {
    /// A resource over the tiles of `template` in which every tile holds the
    /// default datum.
    pub fn default_from_template(template: &MapPositions) -> (resource: MapResource<T>)
        requires
            template.wf(),
        ensures
            resource.wf(),
            forall|position: TilePos| resource@.contains_key(position) == template.contains(position),
            forall|position: TilePos|
                template.contains(position) ==> call_ensures(
                    T::default,
                    (),
                    #[trigger] resource@[position],
                ),
            forall|position: TilePos|
                resource.patch_slots(position) == template_patch(
                    resource.storage(),
                    *template,
                    position,
                ),
    {
        let positions = template.iter_positions();
        let n = positions.len();
        let mut data: Vec<(TilePos, T)> = Vec::with_capacity(n);
        let mut i: usize = 0;
        while i < n
            invariant
                n == positions@.len(),
                i <= n,
                data@.len() == i,
                forall|j: int| 0 <= j < i ==> (#[trigger] data@[j]).0 == positions@[j],
                forall|j: int| 0 <= j < i ==> call_ensures(T::default, (), (#[trigger] data@[j]).1),
            decreases n - i,
        {
            data.push((positions[i], T::default()));
            i += 1;
        }
        proof {
            template.lemma_positions();
            lemma_data_map_entries(data@);
            assert forall|position: TilePos| data_map(data@).contains_key(position)
                == template.contains(position) by {
                if template.contains(position) {
                    let j = template.positions().index_of(position);
                    assert(data@[j].0 == position);
                }
            }
        }
        MapResource::new(template, data)
    }
}

/// A position has a datum in `data_map` exactly where some pair names it, and
/// the datum is the value of one of the pairs that name it.
pub proof fn lemma_data_map_entries<T>(data: Seq<(TilePos, T)>)
    ensures
        forall|position: TilePos|
            data_map(data).contains_key(position) <==> exists|i: int|
                0 <= i < data.len() && (#[trigger] data[i]).0 == position,
        forall|position: TilePos|
            data_map(data).contains_key(position) ==> exists|i: int|
                0 <= i < data.len() && (#[trigger] data[i]).0 == position && data[i].1 == data_map(
                    data,
                )[position],
    decreases data.len(),
{
    if data.len() > 0 {
        let rest = data.drop_last();
        let last = data.len() - 1;
        lemma_data_map_entries(rest);
        assert(data_map(data) == data_map(rest).insert(data[last].0, data[last].1));
        assert forall|position: TilePos| data_map(data).contains_key(position) implies exists|
            i: int,
        |
            0 <= i < data.len() && (#[trigger] data[i]).0 == position && data[i].1 == data_map(
                data,
            )[position] by {
            if position == data[last].0 {
                assert(data[last].0 == position && data[last].1 == data_map(data)[position]);
            } else {
                assert(data_map(rest).contains_key(position));
                let i = choose|i: int|
                    0 <= i < rest.len() && (#[trigger] rest[i]).0 == position && rest[i].1
                        == data_map(rest)[position];
                assert(data[i] == rest[i]);
                assert(data[i].0 == position && data[i].1 == data_map(data)[position]);
            }
        }
        assert forall|position: TilePos|
            (exists|i: int| 0 <= i < data.len() && (#[trigger] data[i]).0 == position)
                implies data_map(data).contains_key(position) by {
            let i = choose|i: int| 0 <= i < data.len() && (#[trigger] data[i]).0 == position;
            if i < last {
                assert(rest[i] == data[i]);
                assert(rest[i].0 == position);
                assert(data_map(rest).contains_key(position));
            }
        }
    }
}

/// An update never adds or removes a position.
pub proof fn lemma_update_keeps_positions<T>(current: Map<TilePos, T>, data: Seq<(TilePos, T)>)
    ensures
        updated(current, data).dom() == current.dom(),
    decreases data.len(),
{
    if data.len() > 0 {
        lemma_update_keeps_positions(current, data.drop_last());
        assert(updated(current, data).dom() =~= current.dom());
    }
}

/// An update with one pair puts the value at its position where the map has
/// the position, so that a lookup there reads it back; where the map has not,
/// the update changes nothing.
pub proof fn lemma_update_round_trip<T>(current: Map<TilePos, T>, position: TilePos, value: T)
    ensures
        current.contains_key(position) ==> updated(current, seq![(position, value)])
            == current.insert(position, value) && updated(
            current,
            seq![(position, value)],
        )[position] == value,
        !current.contains_key(position) ==> updated(current, seq![(position, value)]) == current,
{
    let data = seq![(position, value)];
    assert(data.drop_last() =~= Seq::<(TilePos, T)>::empty());
    assert(data.last() == (position, value));
    assert(updated(current, data.drop_last()) == current);
}

/// Makes a patch of the borrowed cells that the handles in `slots` name.
/// Each cell goes to the first entry that names it; a cell that no entry
/// names is given back unchanged.
fn lend<'a, C>(cells: Vec<&'a mut C>, slots: &HexPatch<usize>) -> (patch: HexPatch<&'a mut C>)
    ensures
        forall|i: int|
            0 <= i < PATCH_ENTRIES ==> lends(
                (#[trigger] patch.entries()[i]).is_some(),
                *patch.entries()[i].unwrap(),
                *final(patch.entries()[i].unwrap()),
                *slots,
                i,
                Seq::new(cells@.len(), |j: int| *cells@[j]),
                Seq::new(cells@.len(), |j: int| *final(cells@[j])),
            ),
        forall|j: int|
            0 <= j < cells@.len() && !slots.entries().contains(Some(j as usize))
                ==> *final(#[trigger] cells@[j]) == *cells@[j],
{
    let ghost all = cells@;
    let ghost want = slots.entries();
    let ghost before = Seq::new(all.len(), |j: int| *all[j]);
    let ghost after = Seq::new(all.len(), |j: int| *final(all[j]));
    let n = cells.len();
    let mut center: Option<&'a mut C> = None;
    let mut zero: Option<&'a mut C> = None;
    let mut one: Option<&'a mut C> = None;
    let mut two: Option<&'a mut C> = None;
    let mut three: Option<&'a mut C> = None;
    let mut four: Option<&'a mut C> = None;
    let mut five: Option<&'a mut C> = None;
    let mut j: usize = 0;
    for cell in it: cells
        invariant
            it.seq() == all,
            n == all.len(),
            j == it.index(),
            want == slots.entries(),
            want.len() == PATCH_ENTRIES,
            before == Seq::new(all.len(), |j: int| *all[j]),
            after == Seq::new(all.len(), |j: int| *final(all[j])),
            lends(
                center.is_some(),
                *center.unwrap(),
                *final(center.unwrap()),
                *slots,
                0,
                before.take(j as int),
                after,
            ),
            lends(
                zero.is_some(),
                *zero.unwrap(),
                *final(zero.unwrap()),
                *slots,
                1,
                before.take(j as int),
                after,
            ),
            lends(
                one.is_some(),
                *one.unwrap(),
                *final(one.unwrap()),
                *slots,
                2,
                before.take(j as int),
                after,
            ),
            lends(
                two.is_some(),
                *two.unwrap(),
                *final(two.unwrap()),
                *slots,
                3,
                before.take(j as int),
                after,
            ),
            lends(
                three.is_some(),
                *three.unwrap(),
                *final(three.unwrap()),
                *slots,
                4,
                before.take(j as int),
                after,
            ),
            lends(
                four.is_some(),
                *four.unwrap(),
                *final(four.unwrap()),
                *slots,
                5,
                before.take(j as int),
                after,
            ),
            lends(
                five.is_some(),
                *five.unwrap(),
                *final(five.unwrap()),
                *slots,
                6,
                before.take(j as int),
                after,
            ),
            forall|k: int|
                0 <= k < j && !want.contains(Some(k as usize)) ==> *final(#[trigger] all[k])
                    == *all[k],
    {
        assert(cell == all[j as int]);
        let ghost here = Some(j);
        if slots.center == Some(j) {
            center = Some(cell);
        } else if slots.zero == Some(j) {
            zero = Some(cell);
        } else if slots.one == Some(j) {
            one = Some(cell);
        } else if slots.two == Some(j) {
            two = Some(cell);
        } else if slots.three == Some(j) {
            three = Some(cell);
        } else if slots.four == Some(j) {
            four = Some(cell);
        } else if slots.five == Some(j) {
            five = Some(cell);
        } else {
            assert(!want.contains(here)) by {
                if want.contains(here) {
                    let e = choose|e: int| 0 <= e < want.len() && want[e] == here;
                    assert(want[e] == here);
                }
            }
        }
        j += 1;
    }
    proof {
        assert(before.take(n as int) =~= before);
    }
    HexPatch { center, zero, one, two, three, four, five }
}

} // verus!
