use chess_net::entity_map::{Entity, EntityMap};
use chess_net::game::{Id, Position, Team, Unit};
use chess_net::rules::{move_unit, ActionResult, Health};
use chess_net::session::SpawnedUnit;
use chess_net::world::{apply_action_result, despawn};

fn piece(n: u64, team: Team, x: i32, y: i32) -> SpawnedUnit {
    SpawnedUnit { entity: Entity(n), team, unit: Unit::Rook, position: Position::new(x, y), id: Id::from_uuid(n as u128) }
}

fn indexed(world: &Vec<SpawnedUnit>) -> (EntityMap<Position>, EntityMap<Id>) {
    let mut positions: EntityMap<Position> = EntityMap::default();
    let mut ids: EntityMap<Id> = EntityMap::default();
    for u in world {
        positions.set(u.position, u.entity);
        ids.set(u.id, u.entity);
    }
    (positions, ids)
}

#[test]
fn capture_moves_and_despawns() {
    let mut world = vec![piece(1, Team::White, 0, 0), piece(2, Team::Black, 0, 5)];
    let (mut positions, mut ids) = indexed(&world);
    let results = move_unit(&world[0].clone(), Position::new(0, 5), &world.clone());
    for r in results {
        apply_action_result(&mut world, &mut positions, &mut ids, r);
    }
    assert_eq!(world.len(), 1);
    assert_eq!(world[0].entity, Entity(1));
    assert_eq!(world[0].position, Position::new(0, 5));
    assert_eq!(positions.get(&Position::new(0, 5)), Some(&Entity(1)));
    assert_eq!(positions.get(&Position::new(0, 0)), None);
    assert_eq!(ids.get(&Id::from_uuid(2)), None);
    assert_eq!(ids.get_key(&Entity(2)), None);
    assert_eq!(ids.get(&Id::from_uuid(1)), Some(&Entity(1)));
}

#[test]
fn nonzero_health_changes_nothing() {
    let mut world = vec![piece(1, Team::White, 0, 0)];
    let (mut positions, mut ids) = indexed(&world);
    apply_action_result(&mut world, &mut positions, &mut ids, ActionResult::SetHealth(Entity(1), Health(3)));
    assert_eq!(world.len(), 1);
    assert_eq!(ids.get(&Id::from_uuid(1)), Some(&Entity(1)));
}

#[test]
fn despawn_of_absent_entity_keeps_world() {
    let mut world = vec![piece(1, Team::White, 0, 0)];
    let (mut positions, mut ids) = indexed(&world);
    despawn(&mut world, &mut positions, &mut ids, Entity(9));
    assert_eq!(world.len(), 1);
    assert_eq!(positions.get(&Position::new(0, 0)), Some(&Entity(1)));
}
