use emergence_lib::simulation::map::hex_patch::HexPatch;
use emergence_lib::simulation::map::resources::{MapData, MapResource};
use emergence_lib::simulation::map::tile_pos::TilePos;
use emergence_lib::simulation::map::MapPositions;

fn pos(x: u32, y: u32) -> TilePos {
    TilePos::new(x, y)
}

/// Three tiles in a row. The middle one has both others as neighbours, the
/// left one has a patch that also lists a position off the map, and the
/// right one has no patch.
fn row_template() -> MapPositions {
    let mut template = MapPositions::new();
    template.insert(
        pos(0, 0),
        Some(HexPatch {
            center: Some(pos(0, 0)),
            zero: Some(pos(1, 0)),
            one: None,
            two: None,
            three: Some(pos(9, 9)),
            four: None,
            five: None,
        }),
    );
    template.insert(
        pos(1, 0),
        Some(HexPatch {
            center: Some(pos(1, 0)),
            zero: Some(pos(2, 0)),
            one: None,
            two: None,
            three: Some(pos(0, 0)),
            four: None,
            five: None,
        }),
    );
    template.insert(pos(2, 0), None);
    template
}

fn row_resource() -> MapResource<i32> {
    MapResource::new(
        &row_template(),
        vec![(pos(0, 0), 10), (pos(1, 0), 11), (pos(2, 0), 12)],
    )
}

fn read(resource: &MapResource<i32>, position: TilePos) -> Option<i32> {
    resource.get(&position).map(|cell| *cell.read())
}

#[test]
fn map_data_holds_its_datum() {
    let mut cell = MapData::new(5);
    assert_eq!(*cell.read(), 5);
    *cell.get_mut() += 2;
    assert_eq!(*cell.read(), 7);
    cell.replace(40);
    assert_eq!(*cell.read(), 40);
}

#[test]
fn template_lists_its_positions_in_order() {
    let template = row_template();
    assert_eq!(template.n_positions(), 3);
    assert_eq!(template.iter_positions(), vec![pos(0, 0), pos(1, 0), pos(2, 0)]);
    assert!(template.get_patch(&pos(2, 0)).is_none());
    assert!(template.get_patch(&pos(5, 5)).is_none());
    let patch = template.get_patch(&pos(1, 0)).unwrap();
    assert_eq!(patch.zero, Some(pos(2, 0)));
    assert_eq!(patch.three, Some(pos(0, 0)));
}

#[test]
fn template_insert_replaces_the_patch_of_a_known_tile() {
    let mut template = row_template();
    template.insert(
        pos(2, 0),
        Some(HexPatch {
            center: Some(pos(2, 0)),
            zero: None,
            one: None,
            two: None,
            three: None,
            four: None,
            five: None,
        }),
    );
    assert_eq!(template.n_positions(), 3);
    assert_eq!(template.iter_positions(), vec![pos(0, 0), pos(1, 0), pos(2, 0)]);
    assert_eq!(template.get_patch(&pos(2, 0)).unwrap().center, Some(pos(2, 0)));
}

#[test]
fn every_position_of_a_new_resource_has_its_cell() {
    let resource = row_resource();
    assert_eq!(read(&resource, pos(0, 0)), Some(10));
    assert_eq!(read(&resource, pos(1, 0)), Some(11));
    assert_eq!(read(&resource, pos(2, 0)), Some(12));
    for position in resource.positions() {
        assert!(resource.get(&position).is_some());
    }
}

#[test]
fn a_position_off_the_map_has_no_cell() {
    let mut resource = row_resource();
    assert!(resource.get(&pos(9, 9)).is_none());
    assert!(resource.get(&pos(0, 1)).is_none());
    assert!(resource.get_mut(&pos(9, 9)).is_none());
    assert!(resource.get_patch(&pos(9, 9)).is_none());
}

#[test]
fn positions_and_values_list_every_cell_once() {
    let resource = row_resource();
    let mut positions = resource.positions();
    positions.sort_by_key(|position| (position.x, position.y));
    assert_eq!(positions, vec![pos(0, 0), pos(1, 0), pos(2, 0)]);
    let mut values: Vec<i32> = resource.values().iter().map(|cell| *cell.read()).collect();
    values.sort();
    assert_eq!(values, vec![10, 11, 12]);
}

#[test]
fn the_last_pair_for_a_position_counts() {
    let resource = MapResource::new(
        &row_template(),
        vec![(pos(0, 0), 1), (pos(1, 0), 2), (pos(0, 0), 3)],
    );
    assert_eq!(read(&resource, pos(0, 0)), Some(3));
    assert_eq!(read(&resource, pos(1, 0)), Some(2));
    assert_eq!(read(&resource, pos(2, 0)), None);
    assert_eq!(resource.positions().len(), 2);
}

#[test]
fn update_then_get_round_trips() {
    let mut resource = row_resource();
    resource.update(vec![(pos(1, 0), 77)]);
    assert_eq!(read(&resource, pos(1, 0)), Some(77));
    assert_eq!(read(&resource, pos(0, 0)), Some(10));
    assert_eq!(read(&resource, pos(2, 0)), Some(12));
}

#[test]
fn update_of_an_absent_position_changes_nothing() {
    let mut resource = row_resource();
    resource.update(vec![(pos(9, 9), 1), (pos(3, 0), 2)]);
    assert_eq!(resource.positions().len(), 3);
    assert!(resource.get(&pos(9, 9)).is_none());
    assert!(resource.get(&pos(3, 0)).is_none());
    assert_eq!(read(&resource, pos(0, 0)), Some(10));
    assert_eq!(read(&resource, pos(1, 0)), Some(11));
    assert_eq!(read(&resource, pos(2, 0)), Some(12));
}

#[test]
fn update_applies_its_pairs_in_order() {
    let mut resource = row_resource();
    resource.update(vec![(pos(0, 0), 1), (pos(9, 9), 5), (pos(0, 0), 2), (pos(2, 0), 3)]);
    assert_eq!(read(&resource, pos(0, 0)), Some(2));
    assert_eq!(read(&resource, pos(1, 0)), Some(11));
    assert_eq!(read(&resource, pos(2, 0)), Some(3));
    assert_eq!(resource.positions().len(), 3);
}

#[test]
fn replace_puts_the_new_datum_in_place() {
    let mut resource = row_resource();
    resource.replace(&pos(2, 0), -4);
    assert_eq!(read(&resource, pos(2, 0)), Some(-4));
    assert_eq!(read(&resource, pos(1, 0)), Some(11));
}

#[test]
fn get_mut_changes_the_stored_cell() {
    let mut resource = row_resource();
    if let Some(cell) = resource.get_mut(&pos(0, 0)) {
        *cell.get_mut() = 100;
    }
    assert_eq!(read(&resource, pos(0, 0)), Some(100));
}

#[test]
fn a_patch_holds_the_cells_of_the_listed_positions() {
    let resource = row_resource();
    let patch = resource.get_patch(&pos(1, 0)).unwrap();
    assert_eq!(patch.center.map(|cell| *cell.read()), Some(11));
    assert_eq!(patch.zero.map(|cell| *cell.read()), Some(12));
    assert_eq!(patch.three.map(|cell| *cell.read()), Some(10));
    assert!(patch.one.is_none());
    assert!(patch.two.is_none());
    assert!(patch.four.is_none());
    assert!(patch.five.is_none());
}

#[test]
fn a_patch_entry_is_the_very_cell_that_get_returns() {
    let resource = row_resource();
    let patch = resource.get_patch(&pos(1, 0)).unwrap();
    assert!(std::ptr::eq(patch.center.unwrap(), resource.get(&pos(1, 0)).unwrap()));
    assert!(std::ptr::eq(patch.zero.unwrap(), resource.get(&pos(2, 0)).unwrap()));
    assert!(std::ptr::eq(patch.three.unwrap(), resource.get(&pos(0, 0)).unwrap()));
    let other = resource.get_patch(&pos(0, 0)).unwrap();
    assert!(std::ptr::eq(other.zero.unwrap(), patch.center.unwrap()));
}

#[test]
fn a_write_by_position_shows_through_every_patch() {
    let mut resource = row_resource();
    resource.update(vec![(pos(0, 0), 500)]);
    resource.replace(&pos(1, 0), 600);
    let middle = resource.get_patch(&pos(1, 0)).unwrap();
    assert_eq!(middle.three.map(|cell| *cell.read()), Some(500));
    assert_eq!(middle.center.map(|cell| *cell.read()), Some(600));
    let left = resource.get_patch(&pos(0, 0)).unwrap();
    assert_eq!(left.center.map(|cell| *cell.read()), Some(500));
    assert_eq!(left.zero.map(|cell| *cell.read()), Some(600));
}

#[test]
fn a_listed_position_without_a_cell_leaves_its_entry_empty() {
    let resource = row_resource();
    let patch = resource.get_patch(&pos(0, 0)).unwrap();
    assert!(patch.three.is_none());
    assert_eq!(patch.center.map(|cell| *cell.read()), Some(10));
    assert_eq!(patch.zero.map(|cell| *cell.read()), Some(11));
}

#[test]
fn a_tile_without_a_patch_in_the_template_has_none() {
    let resource = row_resource();
    assert!(resource.get(&pos(2, 0)).is_some());
    assert!(resource.get_patch(&pos(2, 0)).is_none());
}

#[test]
fn a_patch_exists_where_the_template_has_one_even_without_cells() {
    let resource: MapResource<i32> = MapResource::new(&row_template(), vec![(pos(2, 0), 1)]);
    let patch = resource.get_patch(&pos(1, 0)).unwrap();
    assert!(patch.center.is_none());
    assert_eq!(patch.zero.map(|cell| *cell.read()), Some(1));
    assert!(patch.three.is_none());
}

#[test]
fn generate_storage_and_patches_agree_with_new() {
    let template = row_template();
    let storage = MapResource::generate_storage(&template, vec![(pos(1, 0), 'b'), (pos(0, 0), 'a')]);
    assert_eq!(storage.len(), 2);
    assert_eq!(storage.get(pos(1, 0).key()).map(|cell| *cell.read()), Some('b'));
    assert_eq!(storage.get(pos(0, 0).key()).map(|cell| *cell.read()), Some('a'));
    assert!(storage.get(pos(2, 0).key()).is_none());
    let patches = MapResource::generate_patches(&storage, &template);
    assert_eq!(patches.len(), 2);
    let middle = patches.get(pos(1, 0).key()).unwrap();
    assert_eq!(middle.center, storage.slot(pos(1, 0).key()));
    assert_eq!(middle.three, storage.slot(pos(0, 0).key()));
    assert_eq!(middle.zero, None);
    assert!(patches.get(pos(2, 0).key()).is_none());
}

#[test]
fn default_from_template_fills_every_tile_with_the_default() {
    let resource: MapResource<u32> = MapResource::default_from_template(&row_template());
    assert_eq!(resource.positions().len(), 3);
    for position in [pos(0, 0), pos(1, 0), pos(2, 0)] {
        assert_eq!(resource.get(&position).map(|cell| *cell.read()), Some(0));
    }
    assert!(resource.get(&pos(9, 9)).is_none());
    let patch = resource.get_patch(&pos(1, 0)).unwrap();
    assert!(patch.center.is_some() && patch.zero.is_some() && patch.three.is_some());
    assert!(resource.get_patch(&pos(2, 0)).is_none());
}

#[test]
fn an_empty_template_gives_an_empty_resource() {
    let template = MapPositions::new();
    assert_eq!(template.n_positions(), 0);
    let mut resource: MapResource<u8> = MapResource::new(&template, Vec::new());
    assert!(resource.positions().is_empty());
    assert!(resource.values().is_empty());
    resource.update(vec![(pos(0, 0), 1)]);
    assert!(resource.positions().is_empty());
    assert!(resource.get(&pos(0, 0)).is_none());
}

#[test]
fn values_mut_reaches_every_stored_cell() {
    let mut resource = row_resource();
    for cell in resource.values_mut() {
        *cell.get_mut() *= 2;
    }
    assert_eq!(read(&resource, pos(0, 0)), Some(20));
    assert_eq!(read(&resource, pos(1, 0)), Some(22));
    assert_eq!(read(&resource, pos(2, 0)), Some(24));
    assert_eq!(resource.positions().len(), 3);
    let patch = resource.get_patch(&pos(1, 0)).unwrap();
    assert_eq!(patch.three.map(|cell| *cell.read()), Some(20));
    assert_eq!(patch.zero.map(|cell| *cell.read()), Some(24));
}

#[test]
fn values_mut_lists_the_cells_by_slot() {
    let mut resource = row_resource();
    let positions = resource.positions();
    let mut cells = resource.values_mut();
    assert_eq!(cells.len(), 3);
    for (slot, cell) in cells.iter_mut().enumerate() {
        cell.replace(slot as i32);
    }
    for (slot, position) in positions.iter().enumerate() {
        assert_eq!(read(&resource, *position), Some(slot as i32));
    }
}

#[test]
fn get_patch_mut_lends_the_stored_cells() {
    let mut resource = row_resource();
    {
        let mut patch = resource.get_patch_mut(&pos(1, 0)).unwrap();
        assert!(patch.one.is_none());
        assert!(patch.two.is_none());
        assert!(patch.four.is_none());
        assert!(patch.five.is_none());
        let center = patch.center.as_mut().unwrap();
        assert_eq!(*center.read(), 11);
        center.replace(110);
        *patch.zero.as_mut().unwrap().get_mut() += 1000;
        patch.three.as_mut().unwrap().replace(-1);
    }
    assert_eq!(read(&resource, pos(1, 0)), Some(110));
    assert_eq!(read(&resource, pos(2, 0)), Some(1012));
    assert_eq!(read(&resource, pos(0, 0)), Some(-1));
    assert_eq!(resource.positions().len(), 3);
    let left = resource.get_patch(&pos(0, 0)).unwrap();
    assert_eq!(left.center.map(|cell| *cell.read()), Some(-1));
    assert_eq!(left.zero.map(|cell| *cell.read()), Some(110));
}

#[test]
fn get_patch_mut_follows_get_patch_on_absence() {
    let mut resource = row_resource();
    assert!(resource.get_patch_mut(&pos(2, 0)).is_none());
    assert!(resource.get_patch_mut(&pos(9, 9)).is_none());
    let patch = resource.get_patch_mut(&pos(0, 0)).unwrap();
    assert!(patch.three.is_none());
    assert!(patch.center.is_some());
    assert!(patch.zero.is_some());
}

#[test]
fn get_patch_mut_lends_a_cell_once() {
    let mut template = MapPositions::new();
    template.insert(
        pos(0, 0),
        Some(HexPatch {
            center: Some(pos(0, 0)),
            zero: Some(pos(1, 0)),
            one: Some(pos(0, 0)),
            two: Some(pos(1, 0)),
            three: None,
            four: None,
            five: Some(pos(1, 0)),
        }),
    );
    template.insert(pos(1, 0), None);
    let mut resource = MapResource::new(&template, vec![(pos(0, 0), 1), (pos(1, 0), 2)]);
    {
        let shared = resource.get_patch(&pos(0, 0)).unwrap();
        assert_eq!(shared.one.map(|cell| *cell.read()), Some(1));
        assert_eq!(shared.five.map(|cell| *cell.read()), Some(2));
    }
    let mut patch = resource.get_patch_mut(&pos(0, 0)).unwrap();
    assert!(patch.one.is_none());
    assert!(patch.two.is_none());
    assert!(patch.five.is_none());
    patch.center.as_mut().unwrap().replace(10);
    patch.zero.as_mut().unwrap().replace(20);
    assert_eq!(read(&resource, pos(0, 0)), Some(10));
    assert_eq!(read(&resource, pos(1, 0)), Some(20));
}
