use dungeon_core::storage::{ComponentStorage, Entity, EntityType, Slot, StorageError};

#[test]
fn offsets_are_prefix_sums() {
    let mut s = ComponentStorage::new();
    let widths = [2usize, 2, 2, 4, 4, 4, 4];
    let comps: Vec<_> = widths.iter().map(|w| s.create_component(*w)).collect();
    let ty = s.create_entity_type(comps.clone());
    let e = s.create_entity(ty).unwrap();
    let expected = [0usize, 2, 4, 6, 10, 14, 18];
    for (k, c) in comps.iter().enumerate() {
        assert_eq!(s.lookup_component(e, *c), Ok(Slot { offset: expected[k], width: widths[k] }));
    }
    assert_eq!(s.record_size(ty), Ok(22));
}

#[test]
fn order_decides_offsets() {
    let mut s = ComponentStorage::new();
    let a = s.create_component(4);
    let b = s.create_component(2);
    let ty = s.create_entity_type(vec![b, a]);
    let e = s.create_entity(ty).unwrap();
    assert_eq!(s.lookup_component(e, b), Ok(Slot { offset: 0, width: 2 }));
    assert_eq!(s.lookup_component(e, a), Ok(Slot { offset: 2, width: 4 }));
}

#[test]
fn new_entity_is_zeroed() {
    let mut s = ComponentStorage::new();
    let a = s.create_component(3);
    let ty = s.create_entity_type(vec![a]);
    let e = s.create_entity(ty).unwrap();
    assert_eq!(s.component_bytes(e, a), Ok(vec![0, 0, 0]));
}

#[test]
fn empty_type_has_empty_record() {
    let mut s = ComponentStorage::new();
    let ty = s.create_entity_type(vec![]);
    assert_eq!(s.record_size(ty), Ok(0));
    assert_eq!(s.create_entity(ty), Ok(Entity(0)));
}

#[test]
fn location_round_trip() {
    let mut s = ComponentStorage::new();
    let hp = s.create_component(2);
    let loc = s.create_component(4);
    let ty = s.create_entity_type(vec![hp, loc]);
    let e = s.create_entity(ty).unwrap();
    for l in [[15, 15], [-3, 300], [-32768, 32767], [0, -1]] {
        assert_eq!(s.set_location(e, loc, l), Ok(()));
        assert_eq!(s.location(e, loc), Ok(l));
    }
    assert_eq!(s.component_bytes(e, hp), Ok(vec![0, 0]));
}

#[test]
fn location_bytes_are_little_endian() {
    let mut s = ComponentStorage::new();
    let loc = s.create_component(4);
    let ty = s.create_entity_type(vec![loc]);
    let e = s.create_entity(ty).unwrap();
    s.set_location(e, loc, [0x0102, -2]).unwrap();
    assert_eq!(s.component_bytes(e, loc), Ok(vec![0x02, 0x01, 0xfe, 0xff]));
}

#[test]
fn writes_stay_in_their_slot_and_entity() {
    let mut s = ComponentStorage::new();
    let a = s.create_component(2);
    let b = s.create_component(3);
    let ty = s.create_entity_type(vec![a, b]);
    let e1 = s.create_entity(ty).unwrap();
    let e2 = s.create_entity(ty).unwrap();
    assert_eq!(s.write_component(e1, b, &vec![7, 8, 9]), Ok(()));
    assert_eq!(s.component_bytes(e1, a), Ok(vec![0, 0]));
    assert_eq!(s.component_bytes(e1, b), Ok(vec![7, 8, 9]));
    assert_eq!(s.component_bytes(e2, b), Ok(vec![0, 0, 0]));
}

#[test]
fn unknown_handles_and_foreign_components() {
    let mut s = ComponentStorage::new();
    let a = s.create_component(2);
    let b = s.create_component(4);
    let ty = s.create_entity_type(vec![a]);
    let e = s.create_entity(ty).unwrap();
    assert_eq!(s.create_entity(EntityType(5)), Err(StorageError::InvalidHandle));
    assert_eq!(s.record_size(EntityType(5)), Err(StorageError::InvalidHandle));
    assert_eq!(s.lookup_component(Entity(9), a), Err(StorageError::InvalidHandle));
    assert_eq!(s.lookup_component(e, b), Err(StorageError::SchemaMismatch));
    assert_eq!(s.location(e, b), Err(StorageError::SchemaMismatch));
    assert_eq!(s.set_location(e, b, [1, 1]), Err(StorageError::SchemaMismatch));
    assert_eq!(s.write_component(Entity(3), a, &vec![1, 2]), Err(StorageError::InvalidHandle));
    assert_eq!(s.component_bytes(e, a), Ok(vec![0, 0]));
}

#[test]
fn repeated_component_uses_first_slot() {
    let mut s = ComponentStorage::new();
    let a = s.create_component(2);
    let b = s.create_component(4);
    let ty = s.create_entity_type(vec![a, b, a]);
    let e = s.create_entity(ty).unwrap();
    assert_eq!(s.record_size(ty), Ok(8));
    assert_eq!(s.lookup_component(e, a), Ok(Slot { offset: 0, width: 2 }));
    assert_eq!(s.lookup_component(e, b), Ok(Slot { offset: 2, width: 4 }));
}
