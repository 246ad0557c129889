use emergence_lib::arena::KeyedArena;
use emergence_lib::simulation::map::hex_patch::HexPatch;
use emergence_lib::simulation::map::tile_pos::TilePos;

#[test]
fn arena_starts_empty() {
    let arena: KeyedArena<u32> = KeyedArena::with_capacity(8);
    assert_eq!(arena.len(), 0);
    assert_eq!(arena.slot(1), None);
    assert_eq!(arena.get(1), None);
}

#[test]
fn arena_new_keys_take_the_next_slot() {
    let mut arena: KeyedArena<&str> = KeyedArena::with_capacity(0);
    assert_eq!(arena.insert(40, "a"), 0);
    assert_eq!(arena.insert(7, "b"), 1);
    assert_eq!(arena.insert(1 << 40, "c"), 2);
    assert_eq!(arena.len(), 3);
    assert_eq!(arena.slot(40), Some(0));
    assert_eq!(arena.slot(7), Some(1));
    assert_eq!(arena.slot(1 << 40), Some(2));
    assert_eq!(arena.key_at(0), 40);
    assert_eq!(arena.key_at(1), 7);
    assert_eq!(arena.key_at(2), 1 << 40);
}

#[test]
fn arena_get_reads_what_insert_stored() {
    let mut arena: KeyedArena<u32> = KeyedArena::with_capacity(2);
    arena.insert(5, 50);
    arena.insert(6, 60);
    assert_eq!(arena.get(5), Some(&50));
    assert_eq!(arena.get(6), Some(&60));
    assert_eq!(arena.get(50), None);
    assert_eq!(arena.get(0), None);
    assert_eq!(*arena.value_at(0), 50);
    assert_eq!(*arena.value_at(1), 60);
}

#[test]
fn arena_known_key_keeps_its_slot() {
    let mut arena: KeyedArena<u32> = KeyedArena::with_capacity(2);
    arena.insert(5, 50);
    arena.insert(6, 60);
    assert_eq!(arena.insert(5, 51), 0);
    assert_eq!(arena.len(), 2);
    assert_eq!(arena.get(5), Some(&51));
    assert_eq!(arena.get(6), Some(&60));
    assert_eq!(arena.slot(6), Some(1));
}

#[test]
fn arena_get_mut_changes_one_value() {
    let mut arena: KeyedArena<u32> = KeyedArena::with_capacity(2);
    arena.insert(5, 50);
    arena.insert(6, 60);
    if let Some(value) = arena.get_mut(6) {
        *value = 61;
    }
    assert!(arena.get_mut(9).is_none());
    *arena.value_at_mut(0) += 1;
    assert_eq!(arena.get(5), Some(&51));
    assert_eq!(arena.get(6), Some(&61));
    assert_eq!(arena.len(), 2);
}

#[test]
fn arena_accepts_any_capacity_hint() {
    let mut arena: KeyedArena<u8> = KeyedArena::with_capacity(usize::MAX);
    assert_eq!(arena.len(), 0);
    arena.insert(3, 1);
    assert_eq!(arena.get(3), Some(&1));
}

#[test]
fn arena_holds_many_keys() {
    let mut arena: KeyedArena<u64> = KeyedArena::with_capacity(4);
    for key in 0..1000u64 {
        assert_eq!(arena.insert(key * 7919, key), key as usize);
    }
    for key in 0..1000u64 {
        assert_eq!(arena.get(key * 7919), Some(&key));
        assert_eq!(arena.slot(key * 7919), Some(key as usize));
    }
    assert_eq!(arena.get(1), None);
}

#[test]
fn tile_pos_key_round_trips() {
    let position = TilePos::new(3, 9);
    assert_eq!(position.key(), (3u64 << 32) + 9);
    assert_eq!(TilePos::from_key(position.key()), position);
    let corner = TilePos::new(u32::MAX, u32::MAX);
    assert_eq!(corner.key(), u64::MAX);
    assert_eq!(TilePos::from_key(u64::MAX), corner);
    assert_eq!(TilePos::from_key(0), TilePos { x: 0, y: 0 });
}

#[test]
fn tile_pos_keys_tell_positions_apart() {
    assert_ne!(TilePos::new(1, 0).key(), TilePos::new(0, 1).key());
    assert_ne!(TilePos::new(0, 1).key(), TilePos::new(0, 2).key());
}

#[test]
fn hex_patch_get_reads_each_entry() {
    let patch = HexPatch {
        center: Some(10),
        zero: Some(11),
        one: None,
        two: Some(13),
        three: None,
        four: Some(15),
        five: Some(16),
    };
    assert_eq!(patch.get(0), Some(&10));
    assert_eq!(patch.get(1), Some(&11));
    assert_eq!(patch.get(2), None);
    assert_eq!(patch.get(3), Some(&13));
    assert_eq!(patch.get(4), None);
    assert_eq!(patch.get(5), Some(&15));
    assert_eq!(patch.get(6), Some(&16));
}

#[test]
fn hex_patch_and_then_ref_keeps_the_shape() {
    let patch = HexPatch {
        center: Some(1),
        zero: Some(2),
        one: None,
        two: Some(4),
        three: Some(5),
        four: None,
        five: Some(7),
    };
    let mapped = patch.and_then_ref(|value: &i32| if *value % 2 == 1 { Some(*value * 10) } else { None });
    assert_eq!(mapped.center, Some(10));
    assert_eq!(mapped.zero, None);
    assert_eq!(mapped.one, None);
    assert_eq!(mapped.two, None);
    assert_eq!(mapped.three, Some(50));
    assert_eq!(mapped.four, None);
    assert_eq!(mapped.five, Some(70));
}

#[test]
fn arena_values_mut_hands_out_each_value_once() {
    let mut arena: KeyedArena<u32> = KeyedArena::with_capacity(3);
    arena.insert(9, 1);
    arena.insert(8, 2);
    arena.insert(7, 3);
    let values = arena.values_mut();
    assert_eq!(values.len(), 3);
    for value in values {
        *value += 10;
    }
    assert_eq!(arena.get(9), Some(&11));
    assert_eq!(arena.get(8), Some(&12));
    assert_eq!(arena.get(7), Some(&13));
    let mut empty: KeyedArena<u32> = KeyedArena::with_capacity(0);
    assert!(empty.values_mut().is_empty());
}
