use vstd::prelude::*;

use crate::entity_map::MapKey;
use crate::types::random_uuid;

verus! {

/// Width and height of the board, in tiles.
#[derive(Debug, Clone, Copy, Default, PartialEq, Eq, Structural)]
pub struct Dimensions {
    pub width: i32,
    pub height: i32,
}

impl Dimensions {
    pub fn new(width: i32, height: i32) -> (r: Dimensions)
        ensures
            r.width == width,
            r.height == height,
    {
        Dimensions { width, height }
    }
}

/// A square of the board.
#[derive(Debug, Clone, Copy, Default, PartialEq, Eq, Hash, Structural)]
pub struct Position {
    pub x: i32,
    pub y: i32,
}

impl Position {
    pub fn new(x: i32, y: i32) -> (r: Position)
        ensures
            r.x == x,
            r.y == y,
    {
        Position { x, y }
    }

    /// The square reached from `self` by the step `other`.
    pub fn add(self, other: Position) -> (r: Position)
        requires
            i32::MIN <= self.x + other.x <= i32::MAX,
            i32::MIN <= self.y + other.y <= i32::MAX,
        ensures
            r.x == self.x + other.x,
            r.y == self.y + other.y,
    {
        Position { x: self.x + other.x, y: self.y + other.y }
    }
}

impl MapKey for Position {
    fn same_key(&self, other: &Self) -> (r: bool) {
        self.x == other.x && self.y == other.y
    }
}

/// The side a player or a piece plays for.
#[derive(Debug, Clone, Copy, PartialEq, Eq, Hash, Structural)]
pub enum Team {
    White,
    Black,
}

/// The kind of a piece.
#[derive(Debug, Clone, Copy, PartialEq, Eq, Hash, Structural)]
pub enum Unit {
    Pawn,
    Bishop,
    Knight,
    Rook,
    King,
    Queen,
}

/// The colour of a board square.
#[derive(Debug, Clone, Copy, PartialEq, Eq, Hash, Structural)]
pub enum Tile {
    Black,
    White,
}

/// An identity of a game entity that is the same in every process: a UUID,
/// held as its 128-bit value.
#[derive(Debug, Clone, Copy, PartialEq, Eq, Hash, Structural)]
pub struct Id(pub u128);

impl Id {
    /// A fresh random identity.
    pub fn new() -> (r: Id)
        ensures
            (r.0 >> 76u128) & 0xfu128 == 4,
    {
        Id(random_uuid())
    }

    pub fn from_uuid(uuid: u128) -> (r: Id)
        ensures
            r.0 == uuid,
    {
        Id(uuid)
    }

    pub fn to_uuid(&self) -> (r: u128)
        ensures
            r == self.0,
    {
        self.0
    }
}

impl MapKey for Id {
    fn same_key(&self, other: &Self) -> (r: bool) {
        self.0 == other.0
    }
}

/// A player's display name and side.
#[derive(Debug, Clone, PartialEq, Eq)]
pub struct PlayerInfo {
    pub name: String,
    pub team: Team,
}

pub struct PlayerInfoModel {
    pub name: Seq<char>,
    pub team: Team,
}

impl View for PlayerInfo {
    type V = PlayerInfoModel;

    open spec fn view(&self) -> PlayerInfoModel {
        PlayerInfoModel { name: self.name@, team: self.team }
    }
}

/// A piece of the initial game state: side, kind, square and identity.
pub type UnitDescriptor = (Team, Unit, Position, Id);

/// The board: its size and the colour of each square.
#[derive(Debug, Clone, PartialEq, Eq)]
pub struct MapDescriptor {
    pub dimensions: Dimensions,
    pub tiles: Vec<(Tile, Position)>,
}

pub struct MapModel {
    pub dimensions: Dimensions,
    pub tiles: Seq<(Tile, Position)>,
}

impl View for MapDescriptor {
    type V = MapModel;

    open spec fn view(&self) -> MapModel {
        MapModel { dimensions: self.dimensions, tiles: self.tiles@ }
    }
}

/// A complete description of the initial game state, sent to a joining peer.
#[derive(Debug, Clone, PartialEq, Eq)]
pub struct GameDescriptor {
    pub map: MapDescriptor,
    pub units: Vec<UnitDescriptor>,
}

pub struct GameModel {
    pub map: MapModel,
    pub units: Seq<UnitDescriptor>,
}

impl View for GameDescriptor {
    type V = GameModel;

    open spec fn view(&self) -> GameModel {
        GameModel { map: self.map@, units: self.units@ }
    }
}

/// The colour of square `(x, y)`: black where `x + y` is even.
pub open spec fn tile_color(x: int, y: int) -> Tile {
    if (x + y) % 2 == 0 {
        Tile::Black
    } else {
        Tile::White
    }
}

/// An 8 by 8 board, listed column by column: square `(x, y)` stands at
/// index `8 * x + y`.
pub open spec fn is_standard_map(m: MapModel) -> bool {
    &&& m.dimensions == (Dimensions { width: 8, height: 8 })
    &&& m.tiles.len() == 64
    &&& forall|x: int, y: int|
        0 <= x < 8 && 0 <= y < 8 ==> #[trigger] m.tiles[8 * x + y] == (
            tile_color(x, y),
            Position { x: x as i32, y: y as i32 },
        )
}

/// The piece on file `k` of a home row.
pub open spec fn back_rank(k: int) -> Unit {
    if k == 0 || k == 7 {
        Unit::Rook
    } else if k == 1 || k == 6 {
        Unit::Knight
    } else if k == 2 || k == 5 {
        Unit::Bishop
    } else if k == 3 {
        Unit::Queen
    } else {
        Unit::King
    }
}

/// Side, kind and square of the `i`-th piece of the opening position: the
/// pawns file by file (white, then black), then the white home row, then
/// the black one.
pub open spec fn standard_piece(i: int) -> (Team, Unit, Position) {
    if i < 16 {
        if i % 2 == 0 {
            (Team::White, Unit::Pawn, Position { x: (i / 2) as i32, y: 1 })
        } else {
            (Team::Black, Unit::Pawn, Position { x: (i / 2) as i32, y: 6 })
        }
    } else if i < 24 {
        (Team::White, back_rank(i - 16), Position { x: (i - 16) as i32, y: 0 })
    } else {
        (Team::Black, back_rank(i - 24), Position { x: (i - 24) as i32, y: 7 })
    }
}

/// The opening position: 32 pieces, the `i`-th as `standard_piece(i)`.
pub open spec fn is_standard_units(units: Seq<UnitDescriptor>) -> bool {
    &&& units.len() == 32
    &&& forall|i: int|
        0 <= i < 32 ==> ((#[trigger] units[i]).0, units[i].1, units[i].2) == standard_piece(i)
}

fn back_rank_unit(k: i32) -> (r: Unit)
    requires
        0 <= k < 8,
    ensures
        r == back_rank(k as int),
{
    if k == 0 || k == 7 {
        Unit::Rook
    } else if k == 1 || k == 6 {
        Unit::Knight
    } else if k == 2 || k == 5 {
        Unit::Bishop
    } else if k == 3 {
        Unit::Queen
    } else {
        Unit::King
    }
}

impl GameDescriptor {
    /// The opening position on the standard board, the `i`-th piece with
    /// identity `ids[i]`.
    pub fn standard(ids: &Vec<Id>) -> (r: GameDescriptor)
        requires
            ids@.len() == 32,
        ensures
            is_standard_map(r.map@),
            is_standard_units(r.units@),
            forall|i: int| 0 <= i < 32 ==> (#[trigger] r.units@[i]).3 == ids@[i],
    {
        let map = MapDescriptor::default();
        let mut units: Vec<UnitDescriptor> = Vec::new();
        let mut x: i32 = 0;
        while x <= 7
            invariant
                0 <= x <= 8,
                ids@.len() == 32,
                units@.len() == 2 * x,
                forall|i: int|
                    0 <= i < 2 * x ==> ((#[trigger] units@[i]).0, units@[i].1, units@[i].2)
                        == standard_piece(i) && units@[i].3 == ids@[i],
            decreases 8 - x,
        {
            let i = (2 * x) as usize;
            units.push((Team::White, Unit::Pawn, Position::new(x, 1), ids[i]));
            units.push((Team::Black, Unit::Pawn, Position::new(x, 6), ids[i + 1]));
            x = x + 1;
        }
        let mut k: i32 = 0;
        while k <= 7
            invariant
                0 <= k <= 8,
                ids@.len() == 32,
                units@.len() == 16 + k,
                forall|i: int|
                    0 <= i < 16 + k ==> ((#[trigger] units@[i]).0, units@[i].1, units@[i].2)
                        == standard_piece(i) && units@[i].3 == ids@[i],
            decreases 8 - k,
        {
            units.push((Team::White, back_rank_unit(k), Position::new(k, 0), ids[(16 + k) as usize]));
            k = k + 1;
        }
        let mut k: i32 = 0;
        while k <= 7
            invariant
                0 <= k <= 8,
                ids@.len() == 32,
                units@.len() == 24 + k,
                forall|i: int|
                    0 <= i < 24 + k ==> ((#[trigger] units@[i]).0, units@[i].1, units@[i].2)
                        == standard_piece(i) && units@[i].3 == ids@[i],
            decreases 8 - k,
        {
            units.push((Team::Black, back_rank_unit(k), Position::new(k, 7), ids[(24 + k) as usize]));
            k = k + 1;
        }
        GameDescriptor { map, units }
    }

    /// The opening position, each piece with a fresh random identity.
    pub fn default() -> (r: GameDescriptor)
        ensures
            is_standard_map(r.map@),
            is_standard_units(r.units@),
    {
        let mut ids: Vec<Id> = Vec::new();
        let mut i: usize = 0;
        while i < 32
            invariant
                i <= 32,
                ids@.len() == i,
            decreases 32 - i,
        {
            ids.push(Id::new());
            i = i + 1;
        }
        GameDescriptor::standard(&ids)
    }

    /// A copy of the descriptor.
    pub fn duplicate(&self) -> (r: GameDescriptor)
        ensures
            r@ == self@,
    {
        let mut tiles: Vec<(Tile, Position)> = Vec::new();
        let mut i: usize = 0;
        while i < self.map.tiles.len()
            invariant
                i <= self.map.tiles@.len(),
                tiles@ == self.map.tiles@.subrange(0, i as int),
            decreases self.map.tiles@.len() - i,
        {
            tiles.push(self.map.tiles[i]);
            i = i + 1;
        }
        let mut units: Vec<UnitDescriptor> = Vec::new();
        let mut j: usize = 0;
        while j < self.units.len()
            invariant
                j <= self.units@.len(),
                units@ == self.units@.subrange(0, j as int),
            decreases self.units@.len() - j,
        {
            units.push(self.units[j]);
            j = j + 1;
        }
        assert(tiles@ =~= self.map.tiles@);
        assert(units@ =~= self.units@);
        GameDescriptor { map: MapDescriptor { dimensions: self.map.dimensions, tiles }, units }
    }
}

impl PlayerInfo {
    /// A copy of the player's details.
    pub fn duplicate(&self) -> (r: PlayerInfo)
        ensures
            r@ == self@,
    {
        PlayerInfo { name: self.name.clone(), team: self.team }
    }
}

impl MapDescriptor {
    pub fn default() -> (r: MapDescriptor)
        ensures
            is_standard_map(r@),
    {
        let dimensions = Dimensions { width: 8, height: 8 };
        let mut tiles: Vec<(Tile, Position)> = Vec::new();
        let mut x: i32 = 0;
        while x <= 7
            invariant
                0 <= x <= 8,
                tiles@.len() == 8 * x,
                forall|a: int, b: int|
                    0 <= a < x && 0 <= b < 8 ==> #[trigger] tiles@[8 * a + b] == (
                        tile_color(a, b),
                        Position { x: a as i32, y: b as i32 },
                    ),
            decreases 8 - x,
        {
            let mut y: i32 = 0;
            while y <= 7
                invariant
                    0 <= x < 8,
                    0 <= y <= 8,
                    tiles@.len() == 8 * x + y,
                    forall|a: int, b: int|
                        (0 <= a < x && 0 <= b < 8) || (a == x && 0 <= b < y) ==> #[trigger] tiles@[8
                            * a + b] == (tile_color(a, b), Position { x: a as i32, y: b as i32 }),
                decreases 8 - y,
            {
                let position = Position::new(x, y);
                let tile = if (x + y) % 2 == 0 {
                    Tile::Black
                } else {
                    Tile::White
                };
                tiles.push((tile, position));
                y = y + 1;
            }
            x = x + 1;
        }
        MapDescriptor { dimensions, tiles }
    }
}

} // verus!
