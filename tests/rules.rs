use chess_net::entity_map::Entity;
use chess_net::game::{Id, Position, Team, Unit};
use chess_net::rules::{is_action_valid, list_targets, list_targets_step, move_unit, occupant_at, ActionResult, Health};
use chess_net::session::SpawnedUnit;

fn piece(n: u64, team: Team, unit: Unit, x: i32, y: i32) -> SpawnedUnit {
    SpawnedUnit { entity: Entity(n), team, unit, position: Position::new(x, y), id: Id::from_uuid(n as u128) }
}

fn squares(v: &[(i32, i32)]) -> Vec<Position> {
    v.iter().map(|&(x, y)| Position::new(x, y)).collect()
}

#[test]
fn knight_from_home_square() {
    let n = piece(1, Team::White, Unit::Knight, 1, 0);
    let board = vec![n];
    assert_eq!(list_targets(Unit::Knight, &n, &board), squares(&[(0, 2), (2, 2), (3, 1)]));
}

#[test]
fn king_on_home_row() {
    let k = piece(1, Team::White, Unit::King, 4, 0);
    let own = piece(2, Team::White, Unit::Pawn, 4, 1);
    let foe = piece(3, Team::Black, Unit::Pawn, 5, 1);
    let board = vec![k, own, foe];
    assert_eq!(list_targets(Unit::King, &k, &board), squares(&[(5, 0), (3, 0), (5, 1), (3, 1)]));
}

#[test]
fn rook_stops_at_first_piece() {
    let r = piece(1, Team::White, Unit::Rook, 0, 0);
    let own = piece(2, Team::White, Unit::Pawn, 0, 1);
    let foe = piece(3, Team::Black, Unit::Bishop, 3, 0);
    let board = vec![r, own, foe];
    assert_eq!(list_targets(Unit::Rook, &r, &board), squares(&[(1, 0), (2, 0), (3, 0)]));
}

#[test]
fn bishop_on_empty_board() {
    let b = piece(1, Team::White, Unit::Bishop, 2, 0);
    let board = vec![b];
    assert_eq!(
        list_targets(Unit::Bishop, &b, &board),
        squares(&[(3, 1), (4, 2), (5, 3), (6, 4), (7, 5), (1, 1), (0, 2)])
    );
}

#[test]
fn queen_in_the_centre() {
    let q = piece(1, Team::Black, Unit::Queen, 3, 3);
    let board = vec![q];
    assert_eq!(list_targets(Unit::Queen, &q, &board).len(), 27);
}

#[test]
fn white_pawn_double_step_and_capture() {
    let p = piece(1, Team::White, Unit::Pawn, 1, 1);
    let foe = piece(2, Team::Black, Unit::Pawn, 2, 2);
    let own = piece(3, Team::White, Unit::Pawn, 0, 2);
    let board = vec![p, foe, own];
    assert_eq!(list_targets(Unit::Pawn, &p, &board), squares(&[(1, 2), (1, 3), (2, 2)]));
}

#[test]
fn blocked_black_pawn_only_captures() {
    let p = piece(1, Team::Black, Unit::Pawn, 4, 6);
    let blocker = piece(2, Team::White, Unit::Pawn, 4, 5);
    let foe = piece(3, Team::White, Unit::Knight, 3, 5);
    let board = vec![p, blocker, foe];
    assert_eq!(list_targets(Unit::Pawn, &p, &board), squares(&[(3, 5)]));
}

#[test]
fn pawn_off_home_row_steps_once() {
    let p = piece(1, Team::White, Unit::Pawn, 0, 2);
    let board = vec![p];
    assert_eq!(list_targets(Unit::Pawn, &p, &board), squares(&[(0, 3)]));
    assert!(is_action_valid(Unit::Pawn, &p, Position::new(0, 3), &board));
    assert!(!is_action_valid(Unit::Pawn, &p, Position::new(0, 4), &board));
}

#[test]
fn ray_from_corner() {
    let board: Vec<SpawnedUnit> = vec![];
    let r = list_targets_step(&board, Position::new(0, 0), Team::White, Position::new(1, 1));
    assert_eq!(r.len(), 7);
    assert_eq!(r[6], Position::new(7, 7));
}

#[test]
fn capture_zeroes_the_target() {
    let mover = piece(1, Team::White, Unit::Rook, 0, 0);
    let foe = piece(2, Team::Black, Unit::Pawn, 0, 5);
    let board = vec![mover, foe];
    assert_eq!(
        move_unit(&mover, Position::new(0, 5), &board),
        vec![ActionResult::SetPosition(Entity(1), Position::new(0, 5)), ActionResult::SetHealth(Entity(2), Health(0))]
    );
    assert_eq!(
        move_unit(&mover, Position::new(0, 4), &board),
        vec![ActionResult::SetPosition(Entity(1), Position::new(0, 4))]
    );
    assert_eq!(occupant_at(&board, Position::new(0, 5)), Some(foe));
    assert_eq!(occupant_at(&board, Position::new(5, 5)), None);
}

#[test]
fn off_board_mover_has_no_targets() {
    let p = piece(1, Team::White, Unit::Queen, 9, 0);
    let board = vec![p];
    assert!(list_targets(Unit::Queen, &p, &board).is_empty());
    assert!(!is_action_valid(Unit::Queen, &p, Position::new(7, 0), &board));
}

#[test]
fn ray_with_a_long_step() {
    let board: Vec<SpawnedUnit> = vec![];
    let r = list_targets_step(&board, Position::new(0, 0), Team::White, Position::new(2, 1));
    assert_eq!(r, squares(&[(2, 1), (4, 2), (6, 3)]));
}

#[test]
fn ray_entering_the_board() {
    let foe = piece(2, Team::Black, Unit::Pawn, 3, 0);
    let board = vec![foe];
    let r = list_targets_step(&board, Position::new(-1, 0), Team::White, Position::new(1, 0));
    assert_eq!(r, squares(&[(0, 0), (1, 0), (2, 0), (3, 0)]));
}
