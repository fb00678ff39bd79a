use chess_net::entity_map::{Entity, EntityMap};
use chess_net::game::{Id, Position};

#[test]
fn set_binds_both_directions() {
    let mut m: EntityMap<Id> = EntityMap::default();
    let id = Id::from_uuid(11);
    m.set(id, Entity(3));
    assert_eq!(m.get(&id), Some(&Entity(3)));
    assert_eq!(m.get_key(&Entity(3)), Some(&id));
    assert_eq!(m.get(&Id::from_uuid(12)), None);
}

#[test]
fn round_trip_after_observer() {
    let mut m: EntityMap<Id> = EntityMap::default();
    let changes: Vec<(Entity, Id)> = (0..32u64).map(|i| (Entity(100 + i), Id::from_uuid(1000 + i as u128))).collect();
    m.handle_key_changed(&changes);
    for (e, _) in &changes {
        let key = m.get_key(e).unwrap();
        assert_eq!(m.get(key), Some(e));
    }
}

#[test]
fn rekeying_an_entity_drops_its_old_key() {
    let mut m: EntityMap<Position> = EntityMap::default();
    let e = Entity(1);
    m.set(Position::new(0, 1), e);
    m.set(Position::new(0, 3), e);
    assert_eq!(m.get(&Position::new(0, 1)), None);
    assert_eq!(m.get(&Position::new(0, 3)), Some(&e));
    assert_eq!(m.get_key(&e), Some(&Position::new(0, 3)));
}

#[test]
fn reassigned_key_unbinds_previous_entity() {
    let mut m: EntityMap<Position> = EntityMap::default();
    m.set(Position::new(2, 2), Entity(1));
    m.set(Position::new(2, 2), Entity(2));
    assert_eq!(m.get(&Position::new(2, 2)), Some(&Entity(2)));
    assert_eq!(m.get_key(&Entity(1)), None);
    assert_eq!(m.get_key(&Entity(2)), Some(&Position::new(2, 2)));
    assert_eq!(m.remove_entity(&Entity(1)), None);
    assert_eq!(m.get(&Position::new(2, 2)), Some(&Entity(2)));
}

#[test]
fn rebinding_both_sides_keeps_one_to_one() {
    let mut m: EntityMap<Id> = EntityMap::default();
    let a = Id::from_uuid(1);
    let b = Id::from_uuid(2);
    m.set(a, Entity(10));
    m.set(b, Entity(20));
    m.set(a, Entity(20));
    assert_eq!(m.get(&a), Some(&Entity(20)));
    assert_eq!(m.get(&b), None);
    assert_eq!(m.get_key(&Entity(10)), None);
    assert_eq!(m.get_key(&Entity(20)), Some(&a));
}

#[test]
fn remove_guards_overwritten_mappings() {
    let mut m: EntityMap<Id> = EntityMap::default();
    let a = Id::from_uuid(1);
    let b = Id::from_uuid(2);
    m.set(a, Entity(5));
    m.set(b, Entity(6));
    assert_eq!(m.remove(&a), Some(()));
    assert_eq!(m.get(&a), None);
    assert_eq!(m.get_key(&Entity(5)), None);
    assert_eq!(m.get(&b), Some(&Entity(6)));
    assert_eq!(m.remove(&a), None);
}

#[test]
fn despawn_purges_both_directions() {
    let mut m: EntityMap<Id> = EntityMap::default();
    let a = Id::from_uuid(9);
    m.set(a, Entity(4));
    assert_eq!(m.remove_entity(&Entity(4)), Some(()));
    assert_eq!(m.get(&a), None);
    assert_eq!(m.get_key(&Entity(4)), None);
    assert_eq!(m.remove_entity(&Entity(4)), None);
}

#[test]
fn fresh_ids_are_version_four_and_differ() {
    let a = Id::new();
    let b = Id::new();
    assert_eq!((a.to_uuid() >> 76) & 0xf, 4);
    assert_eq!((a.to_uuid() >> 62) & 0x3, 2);
    assert_ne!(a, b);
}
