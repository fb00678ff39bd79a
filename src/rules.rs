use vstd::prelude::*;

use crate::entity_map::Entity;
use crate::game::{Position, Team, Unit};
use crate::session::SpawnedUnit;

verus! {

/// A piece's health.
#[derive(Debug, Clone, Copy, PartialEq, Eq, Structural)]
pub struct Health(pub u32);

/// A change to the world that an executed move asks for.
#[derive(Debug, Clone, Copy, PartialEq, Eq, Structural)]
pub enum ActionResult {
    SetPosition(Entity, Position),
    SetHealth(Entity, Health),
}

/// A square of the 8 by 8 board.
pub open spec fn on_board(p: Position) -> bool {
    0 <= p.x <= 7 && 0 <= p.y <= 7
}

pub open spec fn plus(p: Position, s: Position) -> Position {
    Position { x: (p.x + s.x) as i32, y: (p.y + s.y) as i32 }
}

/// The first piece of `pieces` that stands on `p`.
pub open spec fn occupant(pieces: Seq<SpawnedUnit>, p: Position) -> Option<SpawnedUnit>
    decreases pieces.len(),
{
    if pieces.len() == 0 {
        None
    } else if pieces[0].position == p {
        Some(pieces[0])
    } else {
        occupant(pieces.drop_first(), p)
    }
}

/// `p` is free, or holds a piece of the other side.
pub open spec fn open_to(pieces: Seq<SpawnedUnit>, p: Position, team: Team) -> bool {
    match occupant(pieces, p) {
        None => true,
        Some(u) => u.team != team,
    }
}

/// The squares reached by one hop of each step, in the order of `steps`:
/// on the board, and free or held by the other side.
pub open spec fn hop_targets(pieces: Seq<SpawnedUnit>, from: Position, team: Team, steps: Seq<Position>) -> Seq<
    Position,
>
    decreases steps.len(),
{
    if steps.len() == 0 {
        Seq::empty()
    } else {
        let prev = hop_targets(pieces, from, team, steps.drop_last());
        let next = plus(from, steps.last());
        if on_board(next) && open_to(pieces, next, team) {
            prev.push(next)
        } else {
            prev
        }
    }
}

/// How many more steps by `step` can stay on the board, at most, seen from
/// `from`; it shrinks with each step that lands on the board.
pub open spec fn ray_measure(from: Position, step: Position) -> int {
    if step.x > 0 {
        8 - from.x
    } else if step.x < 0 {
        from.x + 1
    } else if step.y > 0 {
        8 - from.y
    } else {
        from.y + 1
    }
}

/// The squares along the ray from `from` by `step`: free squares, up to and
/// including the first piece of the other side. A zero step gives none.
pub open spec fn ray(pieces: Seq<SpawnedUnit>, from: Position, step: Position, team: Team) -> Seq<Position>
    decreases ray_measure(from, step),
{
    let nx = from.x + step.x;
    let ny = from.y + step.y;
    let next = pos(nx, ny);
    if (step.x == 0 && step.y == 0) || !(0 <= nx <= 7 && 0 <= ny <= 7) {
        Seq::empty()
    } else {
        match occupant(pieces, next) {
            Some(u) => if u.team != team {
                seq![next]
            } else {
                Seq::empty()
            },
            None => seq![next] + ray(pieces, next, step, team),
        }
    }
}

/// The rays of each direction, one after another.
pub open spec fn slide_targets(pieces: Seq<SpawnedUnit>, from: Position, team: Team, dirs: Seq<Position>) -> Seq<
    Position,
>
    decreases dirs.len(),
{
    if dirs.len() == 0 {
        Seq::empty()
    } else {
        slide_targets(pieces, from, team, dirs.drop_last()) + ray(pieces, from, dirs.last(), team)
    }
}

pub open spec fn pos(x: int, y: int) -> Position {
    Position { x: x as i32, y: y as i32 }
}

pub open spec fn king_steps() -> Seq<Position> {
    seq![pos(0, 1), pos(0, -1), pos(1, 0), pos(-1, 0), pos(1, -1), pos(1, 1), pos(-1, -1), pos(-1, 1)]
}

pub open spec fn knight_steps() -> Seq<Position> {
    seq![pos(-2, 1), pos(-1, 2), pos(1, 2), pos(2, 1), pos(2, -1), pos(1, -2), pos(-1, -2), pos(-2, -1)]
}

pub open spec fn bishop_dirs() -> Seq<Position> {
    seq![pos(1, -1), pos(1, 1), pos(-1, -1), pos(-1, 1)]
}

pub open spec fn rook_dirs() -> Seq<Position> {
    seq![pos(0, 1), pos(0, -1), pos(1, 0), pos(-1, 0)]
}

/// A pawn's squares: one ahead if free, two from its home row if both are
/// free, and each forward diagonal that holds a piece of the other side.
pub open spec fn pawn_targets(pieces: Seq<SpawnedUnit>, from: Position, team: Team) -> Seq<Position> {
    let (step, home) = match team {
        Team::White => (1int, 1int),
        Team::Black => (-1int, 6int),
    };
    let one = pos(from.x as int, from.y + step);
    let two = pos(from.x as int, from.y + 2 * step);
    let forward = if occupant(pieces, one) is None {
        if from.y == home && occupant(pieces, two) is None {
            seq![one, two]
        } else {
            seq![one]
        }
    } else {
        Seq::empty()
    };
    let left = pos(from.x - 1, from.y + step);
    let right = pos(from.x + 1, from.y + step);
    let takes_left = from.x > 0 && (occupant(pieces, left) matches Some(u) && u.team != team);
    let takes_right = from.x < 7 && (occupant(pieces, right) matches Some(u) && u.team != team);
    forward + (if takes_left {
        seq![left]
    } else {
        Seq::empty()
    }) + (if takes_right {
        seq![right]
    } else {
        Seq::empty()
    })
}

/// The squares that a piece of kind `unit` on `from` may move to.
pub open spec fn targets(unit: Unit, pieces: Seq<SpawnedUnit>, from: Position, team: Team) -> Seq<Position> {
    if !on_board(from) {
        Seq::empty()
    } else {
        targets_on_board(unit, pieces, from, team)
    }
}

/// The squares of a piece that stands on the board.
pub open spec fn targets_on_board(unit: Unit, pieces: Seq<SpawnedUnit>, from: Position, team: Team) -> Seq<
    Position,
> {
    match unit {
        Unit::Pawn => pawn_targets(pieces, from, team),
        Unit::Knight => hop_targets(pieces, from, team, knight_steps()),
        Unit::King => hop_targets(pieces, from, team, king_steps()),
        Unit::Bishop => slide_targets(pieces, from, team, bishop_dirs()),
        Unit::Rook => slide_targets(pieces, from, team, rook_dirs()),
        Unit::Queen => slide_targets(pieces, from, team, king_steps()),
    }
}

/// The piece standing on `p`, if any.
pub fn occupant_at(pieces: &Vec<SpawnedUnit>, p: Position) -> (r: Option<SpawnedUnit>)
    ensures
        r == occupant(pieces@, p),
{
    let mut i: usize = 0;
    assert(pieces@.subrange(0, pieces@.len() as int) =~= pieces@);
    while i < pieces.len()
        invariant
            i <= pieces@.len(),
            occupant(pieces@, p) == occupant(pieces@.subrange(i as int, pieces@.len() as int), p),
        decreases pieces@.len() - i,
    {
        let ghost rest = pieces@.subrange(i as int, pieces@.len() as int);
        assert(rest.drop_first() =~= pieces@.subrange(i as int + 1, pieces@.len() as int));
        if pieces[i].position.x == p.x && pieces[i].position.y == p.y {
            return Some(pieces[i]);
        }
        i = i + 1;
    }
    None
}

fn is_open_to(pieces: &Vec<SpawnedUnit>, p: Position, team: Team) -> (r: bool)
    ensures
        r == open_to(pieces@, p, team),
{
    match occupant_at(pieces, p) {
        None => true,
        Some(u) => u.team != team,
    }
}

fn is_on_board(p: Position) -> (r: bool)
    ensures
        r == on_board(p),
{
    p.x >= 0 && p.y >= 0 && p.x <= 7 && p.y <= 7
}

/// The hops of `steps` from `from`; each step moves at most two squares.
fn list_hops(pieces: &Vec<SpawnedUnit>, from: Position, team: Team, steps: &Vec<Position>) -> (r: Vec<Position>)
    requires
        on_board(from),
        forall|i: int| 0 <= i < steps@.len() ==> -2 <= #[trigger] steps@[i].x <= 2 && -2 <= steps@[i].y <= 2,
    ensures
        r@ == hop_targets(pieces@, from, team, steps@),
{
    let mut r: Vec<Position> = Vec::new();
    let mut i: usize = 0;
    while i < steps.len()
        invariant
            on_board(from),
            forall|k: int| 0 <= k < steps@.len() ==> -2 <= #[trigger] steps@[k].x <= 2 && -2 <= steps@[k].y <= 2,
            i <= steps@.len(),
            r@ == hop_targets(pieces@, from, team, steps@.subrange(0, i as int)),
        decreases steps@.len() - i,
    {
        let step = steps[i];
        assert(steps@.subrange(0, i as int + 1).drop_last() =~= steps@.subrange(0, i as int));
        let next = from.add(step);
        if is_on_board(next) && is_open_to(pieces, next, team) {
            r.push(next);
        }
        i = i + 1;
    }
    assert(steps@.subrange(0, steps@.len() as int) =~= steps@);
    r
}

/// The ray from `from` by a non-zero `step`.
pub fn list_targets_step(pieces: &Vec<SpawnedUnit>, from: Position, team: Team, step: Position) -> (r: Vec<Position>)
    requires
        step.x != 0 || step.y != 0,
        i32::MIN <= from.x + step.x <= i32::MAX,
        i32::MIN <= from.y + step.y <= i32::MAX,
        step.x <= i32::MAX - 7,
        step.y <= i32::MAX - 7,
    ensures
        r@ == ray(pieces@, from, step, team),
{
    let mut r: Vec<Position> = Vec::new();
    let mut cur = from;
    loop
        invariant
            step.x != 0 || step.y != 0,
            i32::MIN <= cur.x + step.x <= i32::MAX,
            i32::MIN <= cur.y + step.y <= i32::MAX,
            step.x <= i32::MAX - 7,
            step.y <= i32::MAX - 7,
            ray(pieces@, from, step, team) == r@ + ray(pieces@, cur, step, team),
        decreases ray_measure(cur, step),
    {
        let next = cur.add(step);
        assert(next == pos(cur.x + step.x, cur.y + step.y));
        if !is_on_board(next) {
            assert(r@ + Seq::<Position>::empty() =~= r@);
            return r;
        }
        match occupant_at(pieces, next) {
            Some(u) => {
                if u.team != team {
                    r.push(next);
                } else {
                    assert(r@ + Seq::<Position>::empty() =~= r@);
                }
                return r;
            },
            None => {
                assert(r@ + (seq![next] + ray(pieces@, next, step, team)) =~= r@.push(next) + ray(pieces@, next, step, team));
                r.push(next);
                cur = next;
            },
        }
    }
}

fn list_slides(pieces: &Vec<SpawnedUnit>, from: Position, team: Team, dirs: &Vec<Position>) -> (r: Vec<Position>)
    requires
        on_board(from),
        forall|i: int| 0 <= i < dirs@.len() ==> -1 <= #[trigger] dirs@[i].x <= 1 && -1 <= dirs@[i].y <= 1
            && (dirs@[i].x != 0 || dirs@[i].y != 0),
    ensures
        r@ == slide_targets(pieces@, from, team, dirs@),
{
    let mut r: Vec<Position> = Vec::new();
    let mut i: usize = 0;
    while i < dirs.len()
        invariant
            on_board(from),
            forall|k: int| 0 <= k < dirs@.len() ==> -1 <= #[trigger] dirs@[k].x <= 1 && -1 <= dirs@[k].y <= 1
                && (dirs@[k].x != 0 || dirs@[k].y != 0),
            i <= dirs@.len(),
            r@ == slide_targets(pieces@, from, team, dirs@.subrange(0, i as int)),
        decreases dirs@.len() - i,
    {
        assert(dirs@.subrange(0, i as int + 1).drop_last() =~= dirs@.subrange(0, i as int));
        let mut ray_squares = list_targets_step(pieces, from, team, dirs[i]);
        r.append(&mut ray_squares);
        i = i + 1;
    }
    assert(dirs@.subrange(0, dirs@.len() as int) =~= dirs@);
    r
}

fn king_steps_exec() -> (r: Vec<Position>)
    ensures
        r@ == king_steps(),
{
    let r = vec![
        Position::new(0, 1),
        Position::new(0, -1),
        Position::new(1, 0),
        Position::new(-1, 0),
        Position::new(1, -1),
        Position::new(1, 1),
        Position::new(-1, -1),
        Position::new(-1, 1),
    ];
    assert(r@ =~= king_steps());
    r
}

fn knight_steps_exec() -> (r: Vec<Position>)
    ensures
        r@ == knight_steps(),
{
    let r = vec![
        Position::new(-2, 1),
        Position::new(-1, 2),
        Position::new(1, 2),
        Position::new(2, 1),
        Position::new(2, -1),
        Position::new(1, -2),
        Position::new(-1, -2),
        Position::new(-2, -1),
    ];
    assert(r@ =~= knight_steps());
    r
}

fn bishop_dirs_exec() -> (r: Vec<Position>)
    ensures
        r@ == bishop_dirs(),
{
    let r = vec![Position::new(1, -1), Position::new(1, 1), Position::new(-1, -1), Position::new(-1, 1)];
    assert(r@ =~= bishop_dirs());
    r
}

fn rook_dirs_exec() -> (r: Vec<Position>)
    ensures
        r@ == rook_dirs(),
{
    let r = vec![Position::new(0, 1), Position::new(0, -1), Position::new(1, 0), Position::new(-1, 0)];
    assert(r@ =~= rook_dirs());
    r
}

/// A pawn's squares, as `pawn_targets` gives them.
fn list_pawn_targets(pieces: &Vec<SpawnedUnit>, from: Position, team: Team) -> (r: Vec<Position>)
    requires
        on_board(from),
    ensures
        r@ == pawn_targets(pieces@, from, team),
{
    let (step, home_row): (i32, i32) = match team {
        Team::White => (1, 1),
        Team::Black => (-1, 6),
    };
    let mut results: Vec<Position> = Vec::new();
    let one = from.add(Position::new(0, step));
    if occupant_at(pieces, one).is_none() {
        results.push(one);
        if from.y == home_row {
            let two = one.add(Position::new(0, step));
            if occupant_at(pieces, two).is_none() {
                results.push(two);
            }
        }
    }
    let ghost forward = results@;
    if from.x > 0 {
        let left = from.add(Position::new(-1, step));
        if let Some(u) = occupant_at(pieces, left) {
            if u.team != team {
                results.push(left);
            }
        }
    }
    let ghost after_left = results@;
    if from.x < 7 {
        let right = from.add(Position::new(1, step));
        if let Some(u) = occupant_at(pieces, right) {
            if u.team != team {
                results.push(right);
            }
        }
    }
    proof {
        let step_i: int = if team == Team::White { 1 } else { -1 };
        assert(one == pos(from.x as int, from.y + step_i));
        assert(results@ =~= pawn_targets(pieces@, from, team));
    }
    results
}

/// The squares that `mover`, a piece of kind `unit`, may move to; none
/// where it stands off the board.
pub fn list_targets(unit: Unit, mover: &SpawnedUnit, pieces: &Vec<SpawnedUnit>) -> (r: Vec<Position>)
    ensures
        r@ == targets(unit, pieces@, mover.position, mover.team),
{
    let from = mover.position;
    let team = mover.team;
    if !is_on_board(from) {
        return Vec::new();
    }
    match unit {
        Unit::Pawn => list_pawn_targets(pieces, from, team),
        Unit::Knight => list_hops(pieces, from, team, &knight_steps_exec()),
        Unit::King => list_hops(pieces, from, team, &king_steps_exec()),
        Unit::Bishop => list_slides(pieces, from, team, &bishop_dirs_exec()),
        Unit::Rook => list_slides(pieces, from, team, &rook_dirs_exec()),
        Unit::Queen => list_slides(pieces, from, team, &king_steps_exec()),
    }
}

/// Whether `target` is among the squares that `mover` may move to.
pub fn is_action_valid(unit: Unit, mover: &SpawnedUnit, target: Position, pieces: &Vec<SpawnedUnit>) -> (r: bool)
    ensures
        r == targets(unit, pieces@, mover.position, mover.team).contains(target),
{
    let squares = list_targets(unit, mover, pieces);
    let mut i: usize = 0;
    while i < squares.len()
        invariant
            i <= squares@.len(),
            squares@ == targets(unit, pieces@, mover.position, mover.team),
            forall|k: int| 0 <= k < i ==> squares@[k] != target,
        decreases squares@.len() - i,
    {
        if squares[i].x == target.x && squares[i].y == target.y {
            assert(squares@[i as int] == target);
            return true;
        }
        i = i + 1;
    }
    false
}

/// The world changes of moving `mover` to `target`: it takes the square,
/// and a piece of the other side standing there drops to zero health.
pub fn move_unit(mover: &SpawnedUnit, target: Position, pieces: &Vec<SpawnedUnit>) -> (r: Vec<ActionResult>)
    ensures
        r@ == (match occupant(pieces@, target) {
            Some(u) => if u.team != mover.team {
                seq![ActionResult::SetPosition(mover.entity, target), ActionResult::SetHealth(u.entity, Health(0))]
            } else {
                seq![ActionResult::SetPosition(mover.entity, target)]
            },
            None => seq![ActionResult::SetPosition(mover.entity, target)],
        }),
{
    let mut commands: Vec<ActionResult> = Vec::new();
    commands.push(ActionResult::SetPosition(mover.entity, target));
    if let Some(u) = occupant_at(pieces, target) {
        if u.team != mover.team {
            commands.push(ActionResult::SetHealth(u.entity, Health(0)));
        }
    }
    assert(commands@ =~= (match occupant(pieces@, target) {
        Some(u) => if u.team != mover.team {
            seq![ActionResult::SetPosition(mover.entity, target), ActionResult::SetHealth(u.entity, Health(0))]
        } else {
            seq![ActionResult::SetPosition(mover.entity, target)]
        },
        None => seq![ActionResult::SetPosition(mover.entity, target)],
    }));
    commands
}

} // verus!
