use vstd::prelude::*;
use vstd::utf8::*;

use crate::game::{
    Dimensions, GameDescriptor, GameModel, Id, MapDescriptor, MapModel, PlayerInfo,
    PlayerInfoModel, Position, Team, Tile, Unit, UnitDescriptor,
};

verus! {

/// A message of the session protocol.
#[derive(Debug, Clone, PartialEq, Eq)]
pub enum Message {
    /// A joiner asks the host to join, naming itself.
    JoinRequest(PlayerInfo),
    /// The host accepts, with its own player and the initial game state.
    JoinResponse(PlayerInfo, GameDescriptor),
    /// A peer moved the piece with this identity to this square.
    MoveRequest(Id, Position),
}

pub enum MessageModel {
    JoinRequest(PlayerInfoModel),
    JoinResponse(PlayerInfoModel, GameModel),
    MoveRequest(Id, Position),
}

impl View for Message {
    type V = MessageModel;

    open spec fn view(&self) -> MessageModel {
        match self {
            Message::JoinRequest(p) => MessageModel::JoinRequest(p@),
            Message::JoinResponse(p, g) => MessageModel::JoinResponse(p@, g@),
            Message::MoveRequest(id, pos) => MessageModel::MoveRequest(*id, *pos),
        }
    }
}

/// The four bytes of `v`, least significant first.
pub open spec fn le_u32(v: u32) -> Seq<u8> {
    seq![v as u8, (v >> 8u32) as u8, (v >> 16u32) as u8, (v >> 24u32) as u8]
}

/// The eight bytes of `v`, least significant first.
pub open spec fn le_u64(v: u64) -> Seq<u8> {
    seq![
        v as u8,
        (v >> 8u64) as u8,
        (v >> 16u64) as u8,
        (v >> 24u64) as u8,
        (v >> 32u64) as u8,
        (v >> 40u64) as u8,
        (v >> 48u64) as u8,
        (v >> 56u64) as u8,
    ]
}

pub open spec fn u32_of(b0: u8, b1: u8, b2: u8, b3: u8) -> u32 {
    (b0 as u32) | ((b1 as u32) << 8u32) | ((b2 as u32) << 16u32) | ((b3 as u32) << 24u32)
}

pub open spec fn u64_of(b0: u8, b1: u8, b2: u8, b3: u8, b4: u8, b5: u8, b6: u8, b7: u8) -> u64 {
    (b0 as u64) | ((b1 as u64) << 8u64) | ((b2 as u64) << 16u64) | ((b3 as u64) << 24u64) | ((
    b4 as u64) << 32u64) | ((b5 as u64) << 40u64) | ((b6 as u64) << 48u64) | ((b7 as u64)
        << 56u64)
}

pub open spec fn u128_of(lo: u64, hi: u64) -> u128 {
    (lo as u128) | ((hi as u128) << 64u128)
}

proof fn lemma_u32_bytes(v: u32)
    ensures
        u32_of(v as u8, (v >> 8u32) as u8, (v >> 16u32) as u8, (v >> 24u32) as u8) == v,
{
    assert(((v as u8) as u32) | ((((v >> 8u32) as u8) as u32) << 8u32) | ((((v >> 16u32) as u8) as u32) << 16u32) | ((((v >> 24u32) as u8) as u32) << 24u32) == v) by (bit_vector);
}

proof fn lemma_u64_bytes(v: u64)
    ensures
        u64_of(
            v as u8,
            (v >> 8u64) as u8,
            (v >> 16u64) as u8,
            (v >> 24u64) as u8,
            (v >> 32u64) as u8,
            (v >> 40u64) as u8,
            (v >> 48u64) as u8,
            (v >> 56u64) as u8,
        ) == v,
{
    assert(((v as u8) as u64) | ((((v >> 8u64) as u8) as u64) << 8u64) | ((((v >> 16u64) as u8) as u64) << 16u64) | ((((v >> 24u64) as u8) as u64) << 24u64) | ((((v >> 32u64) as u8) as u64) << 32u64) | ((((v >> 40u64) as u8) as u64) << 40u64) | ((((v >> 48u64) as u8) as u64) << 48u64) | ((((v >> 56u64) as u8) as u64) << 56u64) == v) by (bit_vector);
}

proof fn lemma_u128_halves(v: u128)
    ensures
        u128_of(v as u64, (v >> 64u128) as u64) == v,
{
    assert((((v as u64) as u128) | ((((v >> 64u128) as u64) as u128) << 64u128)) == v) by (bit_vector);
}

proof fn lemma_i32_u32(v: i32)
    ensures
        (v as u32) as i32 == v,
{
    assert(((v as u32) as i32) == v) by (bit_vector);
}

// ==========================================================================
// --- Wire format
// ==========================================================================
//
// Integers are little-endian and of fixed width; a variant is a `u32` tag;
// a string is its UTF-8 length as a `u64`, then its UTF-8 bytes; a list is
// its length as a `u64`, then its items; an identity is its low and then its
// high 64 bits.

pub open spec fn enc_i32(v: i32) -> Seq<u8> {
    le_u32(v as u32)
}

pub open spec fn enc_id(id: Id) -> Seq<u8> {
    le_u64(id.0 as u64) + le_u64((id.0 >> 64u128) as u64)
}

pub open spec fn team_tag(t: Team) -> u32 {
    match t {
        Team::White => 0,
        Team::Black => 1,
    }
}

pub open spec fn unit_tag(u: Unit) -> u32 {
    match u {
        Unit::Pawn => 0,
        Unit::Bishop => 1,
        Unit::Knight => 2,
        Unit::Rook => 3,
        Unit::King => 4,
        Unit::Queen => 5,
    }
}

pub open spec fn tile_tag(t: Tile) -> u32 {
    match t {
        Tile::Black => 0,
        Tile::White => 1,
    }
}

pub open spec fn enc_position(p: Position) -> Seq<u8> {
    enc_i32(p.x) + enc_i32(p.y)
}

pub open spec fn enc_string(s: Seq<char>) -> Seq<u8> {
    le_u64(encode_utf8(s).len() as u64) + encode_utf8(s)
}

pub open spec fn enc_player(p: PlayerInfoModel) -> Seq<u8> {
    enc_string(p.name) + le_u32(team_tag(p.team))
}

pub open spec fn enc_tile_entry(t: (Tile, Position)) -> Seq<u8> {
    le_u32(tile_tag(t.0)) + enc_position(t.1)
}

pub open spec fn enc_unit_entry(u: UnitDescriptor) -> Seq<u8> {
    le_u32(team_tag(u.0)) + le_u32(unit_tag(u.1)) + enc_position(u.2) + enc_id(u.3)
}

/// The items of a list, each encoded by `f`, one after another.
pub open spec fn enc_items<T>(ts: Seq<T>, f: spec_fn(T) -> Seq<u8>) -> Seq<u8>
    decreases ts.len(),
{
    if ts.len() == 0 {
        Seq::empty()
    } else {
        f(ts[0]) + enc_items(ts.drop_first(), f)
    }
}

pub open spec fn enc_list<T>(ts: Seq<T>, f: spec_fn(T) -> Seq<u8>) -> Seq<u8> {
    le_u64(ts.len() as u64) + enc_items(ts, f)
}

pub open spec fn enc_game(g: GameModel) -> Seq<u8> {
    enc_i32(g.map.dimensions.width) + enc_i32(g.map.dimensions.height) + enc_list(
        g.map.tiles,
        |t: (Tile, Position)| enc_tile_entry(t),
    ) + enc_list(g.units, |u: UnitDescriptor| enc_unit_entry(u))
}

/// The bytes of a message on the wire.
pub open spec fn enc_message(m: MessageModel) -> Seq<u8> {
    match m {
        MessageModel::JoinRequest(p) => le_u32(0) + enc_player(p),
        MessageModel::JoinResponse(p, g) => le_u32(1) + enc_player(p) + enc_game(g),
        MessageModel::MoveRequest(id, pos) => le_u32(2) + enc_id(id) + enc_position(pos),
    }
}

proof fn lemma_enc_items_push<T>(ts: Seq<T>, x: T, f: spec_fn(T) -> Seq<u8>)
    ensures
        enc_items(ts.push(x), f) == enc_items(ts, f) + f(x),
    decreases ts.len(),
{
    if ts.len() == 0 {
        assert(ts.push(x).drop_first() =~= Seq::<T>::empty());
        assert(enc_items(Seq::<T>::empty(), f) =~= Seq::<u8>::empty());
        assert(ts.push(x)[0] == x);
        assert(enc_items(ts.push(x), f) =~= f(x) + Seq::<u8>::empty());
    } else {
        assert(ts.push(x).drop_first() =~= ts.drop_first().push(x));
        lemma_enc_items_push(ts.drop_first(), x, f);
        assert(enc_items(ts.push(x), f) =~= enc_items(ts, f) + f(x));
    }
}

fn put_u32(out: &mut Vec<u8>, v: u32)
    ensures
        final(out)@ == old(out)@ + le_u32(v),
{
    out.push(v as u8);
    out.push((v >> 8u32) as u8);
    out.push((v >> 16u32) as u8);
    out.push((v >> 24u32) as u8);
    assert(final(out)@ =~= old(out)@ + le_u32(v));
}

fn put_u64(out: &mut Vec<u8>, v: u64)
    ensures
        final(out)@ == old(out)@ + le_u64(v),
{
    out.push(v as u8);
    out.push((v >> 8u64) as u8);
    out.push((v >> 16u64) as u8);
    out.push((v >> 24u64) as u8);
    out.push((v >> 32u64) as u8);
    out.push((v >> 40u64) as u8);
    out.push((v >> 48u64) as u8);
    out.push((v >> 56u64) as u8);
    assert(final(out)@ =~= old(out)@ + le_u64(v));
}

fn put_i32(out: &mut Vec<u8>, v: i32)
    ensures
        final(out)@ == old(out)@ + enc_i32(v),
{
    put_u32(out, v as u32);
}

fn put_id(out: &mut Vec<u8>, id: Id)
    ensures
        final(out)@ == old(out)@ + enc_id(id),
{
    put_u64(out, id.0 as u64);
    put_u64(out, (id.0 >> 64u128) as u64);
    assert(final(out)@ =~= old(out)@ + enc_id(id));
}

fn put_position(out: &mut Vec<u8>, p: Position)
    ensures
        final(out)@ == old(out)@ + enc_position(p),
{
    put_i32(out, p.x);
    put_i32(out, p.y);
    assert(final(out)@ =~= old(out)@ + enc_position(p));
}

fn team_to_tag(t: Team) -> (r: u32)
    ensures
        r == team_tag(t),
{
    match t {
        Team::White => 0,
        Team::Black => 1,
    }
}

fn unit_to_tag(u: Unit) -> (r: u32)
    ensures
        r == unit_tag(u),
{
    match u {
        Unit::Pawn => 0,
        Unit::Bishop => 1,
        Unit::Knight => 2,
        Unit::Rook => 3,
        Unit::King => 4,
        Unit::Queen => 5,
    }
}

fn tile_to_tag(t: Tile) -> (r: u32)
    ensures
        r == tile_tag(t),
{
    match t {
        Tile::Black => 0,
        Tile::White => 1,
    }
}

fn put_player(out: &mut Vec<u8>, p: &PlayerInfo)
    ensures
        final(out)@ == old(out)@ + enc_player(p@),
        encode_utf8(p.name@).len() <= u64::MAX,
{
    let bytes = p.name.as_str().as_bytes();
    put_u64(out, bytes.len() as u64);
    let mut i: usize = 0;
    let ghost start = out@;
    while i < bytes.len()
        invariant
            i <= bytes@.len(),
            out@ == start + bytes@.subrange(0, i as int),
        decreases bytes@.len() - i,
    {
        out.push(bytes[i]);
        assert(out@ =~= start + bytes@.subrange(0, i as int + 1));
        i = i + 1;
    }
    assert(bytes@.subrange(0, bytes@.len() as int) =~= bytes@);
    put_u32(out, team_to_tag(p.team));
    assert(final(out)@ =~= old(out)@ + enc_player(p@));
}

fn put_game(out: &mut Vec<u8>, g: &GameDescriptor)
    ensures
        final(out)@ == old(out)@ + enc_game(g@),
        g.map.tiles@.len() <= u64::MAX,
        g.units@.len() <= u64::MAX,
{
    let ghost tf = |t: (Tile, Position)| enc_tile_entry(t);
    let ghost uf = |u: UnitDescriptor| enc_unit_entry(u);
    put_i32(out, g.map.dimensions.width);
    put_i32(out, g.map.dimensions.height);
    let ghost head = out@;
    put_u64(out, g.map.tiles.len() as u64);
    let ghost start = out@;
    let mut i: usize = 0;
    while i < g.map.tiles.len()
        invariant
            i <= g.map.tiles@.len(),
            tf == (|t: (Tile, Position)| enc_tile_entry(t)),
            out@ == start + enc_items(g.map.tiles@.subrange(0, i as int), tf),
        decreases g.map.tiles@.len() - i,
    {
        let (tile, pos) = g.map.tiles[i];
        proof {
            assert(g.map.tiles@.subrange(0, i as int + 1) =~= g.map.tiles@.subrange(0, i as int).push((tile, pos)));
            lemma_enc_items_push(g.map.tiles@.subrange(0, i as int), (tile, pos), tf);
        }
        assert(tf((tile, pos)) == enc_tile_entry((tile, pos)));
        put_u32(out, tile_to_tag(tile));
        put_position(out, pos);
        assert(out@ =~= start + enc_items(g.map.tiles@.subrange(0, i as int + 1), tf));
        i = i + 1;
    }
    assert(g.map.tiles@.subrange(0, g.map.tiles@.len() as int) =~= g.map.tiles@);
    let ghost mid = out@;
    put_u64(out, g.units.len() as u64);
    let ghost start2 = out@;
    let mut j: usize = 0;
    while j < g.units.len()
        invariant
            j <= g.units@.len(),
            uf == (|u: UnitDescriptor| enc_unit_entry(u)),
            out@ == start2 + enc_items(g.units@.subrange(0, j as int), uf),
        decreases g.units@.len() - j,
    {
        let (team, unit, pos, id) = g.units[j];
        proof {
            assert(g.units@.subrange(0, j as int + 1) =~= g.units@.subrange(0, j as int).push((team, unit, pos, id)));
            lemma_enc_items_push(g.units@.subrange(0, j as int), (team, unit, pos, id), uf);
        }
        assert(uf((team, unit, pos, id)) == enc_unit_entry((team, unit, pos, id)));
        put_u32(out, team_to_tag(team));
        put_u32(out, unit_to_tag(unit));
        put_position(out, pos);
        put_id(out, id);
        assert(out@ =~= start2 + enc_items(g.units@.subrange(0, j as int + 1), uf));
        j = j + 1;
    }
    assert(g.units@.subrange(0, g.units@.len() as int) =~= g.units@);
    assert(final(out)@ =~= old(out)@ + enc_game(g@));
}

// ==========================================================================
// --- Reading the wire format
// ==========================================================================
//
// Each `parse_*` reads one value of `s` from position `p` and gives it with
// the position just after it, or `None` where the bytes do not hold one.

pub open spec fn parse_u32(s: Seq<u8>, p: int) -> Option<(u32, int)> {
    if 0 <= p && p + 4 <= s.len() {
        Some((u32_of(s[p], s[p + 1], s[p + 2], s[p + 3]), p + 4))
    } else {
        None
    }
}

pub open spec fn parse_u64(s: Seq<u8>, p: int) -> Option<(u64, int)> {
    if 0 <= p && p + 8 <= s.len() {
        Some(
            (
                u64_of(s[p], s[p + 1], s[p + 2], s[p + 3], s[p + 4], s[p + 5], s[p + 6], s[p + 7]),
                p + 8,
            ),
        )
    } else {
        None
    }
}

pub open spec fn parse_i32(s: Seq<u8>, p: int) -> Option<(i32, int)> {
    match parse_u32(s, p) {
        Some((v, q)) => Some((v as i32, q)),
        None => None,
    }
}

pub open spec fn parse_id(s: Seq<u8>, p: int) -> Option<(Id, int)> {
    match parse_u64(s, p) {
        Some((lo, q)) => match parse_u64(s, q) {
            Some((hi, e)) => Some((Id(u128_of(lo, hi)), e)),
            None => None,
        },
        None => None,
    }
}

pub open spec fn team_of_tag(t: u32) -> Option<Team> {
    if t == 0 {
        Some(Team::White)
    } else if t == 1 {
        Some(Team::Black)
    } else {
        None
    }
}

pub open spec fn unit_of_tag(t: u32) -> Option<Unit> {
    if t == 0 {
        Some(Unit::Pawn)
    } else if t == 1 {
        Some(Unit::Bishop)
    } else if t == 2 {
        Some(Unit::Knight)
    } else if t == 3 {
        Some(Unit::Rook)
    } else if t == 4 {
        Some(Unit::King)
    } else if t == 5 {
        Some(Unit::Queen)
    } else {
        None
    }
}

pub open spec fn tile_of_tag(t: u32) -> Option<Tile> {
    if t == 0 {
        Some(Tile::Black)
    } else if t == 1 {
        Some(Tile::White)
    } else {
        None
    }
}

pub open spec fn parse_team(s: Seq<u8>, p: int) -> Option<(Team, int)> {
    match parse_u32(s, p) {
        Some((t, q)) => match team_of_tag(t) {
            Some(team) => Some((team, q)),
            None => None,
        },
        None => None,
    }
}

pub open spec fn parse_position(s: Seq<u8>, p: int) -> Option<(Position, int)> {
    match parse_i32(s, p) {
        Some((x, q)) => match parse_i32(s, q) {
            Some((y, e)) => Some((Position { x, y }, e)),
            None => None,
        },
        None => None,
    }
}

pub open spec fn parse_string(s: Seq<u8>, p: int) -> Option<(Seq<char>, int)> {
    match parse_u64(s, p) {
        Some((n, q)) => if q + n <= s.len() && valid_utf8(s.subrange(q, q + n)) {
            Some((decode_utf8(s.subrange(q, q + n)), q + n))
        } else {
            None
        },
        None => None,
    }
}

pub open spec fn parse_player(s: Seq<u8>, p: int) -> Option<(PlayerInfoModel, int)> {
    match parse_string(s, p) {
        Some((name, q)) => match parse_team(s, q) {
            Some((team, e)) => Some((PlayerInfoModel { name, team }, e)),
            None => None,
        },
        None => None,
    }
}

pub open spec fn parse_tile_entry(s: Seq<u8>, p: int) -> Option<((Tile, Position), int)> {
    match parse_u32(s, p) {
        Some((t, q)) => match tile_of_tag(t) {
            Some(tile) => match parse_position(s, q) {
                Some((pos, e)) => Some(((tile, pos), e)),
                None => None,
            },
            None => None,
        },
        None => None,
    }
}

pub open spec fn parse_unit_entry(s: Seq<u8>, p: int) -> Option<(UnitDescriptor, int)> {
    match parse_team(s, p) {
        Some((team, q1)) => match parse_u32(s, q1) {
            Some((u, q2)) => match unit_of_tag(u) {
                Some(unit) => match parse_position(s, q2) {
                    Some((pos, q3)) => match parse_id(s, q3) {
                        Some((id, e)) => Some(((team, unit, pos, id), e)),
                        None => None,
                    },
                    None => None,
                },
                None => None,
            },
            None => None,
        },
        None => None,
    }
}

/// `n` items, each read by `pf`, one after another.
pub open spec fn parse_items<T>(
    s: Seq<u8>,
    p: int,
    n: nat,
    pf: spec_fn(Seq<u8>, int) -> Option<(T, int)>,
) -> Option<(Seq<T>, int)>
    decreases n,
{
    if n == 0 {
        Some((Seq::empty(), p))
    } else {
        match pf(s, p) {
            Some((x, q)) => match parse_items(s, q, (n - 1) as nat, pf) {
                Some((rest, e)) => Some((seq![x] + rest, e)),
                None => None,
            },
            None => None,
        }
    }
}

pub open spec fn parse_list<T>(s: Seq<u8>, p: int, pf: spec_fn(Seq<u8>, int) -> Option<(T, int)>) -> Option<
    (Seq<T>, int),
> {
    match parse_u64(s, p) {
        Some((n, q)) => parse_items(s, q, n as nat, pf),
        None => None,
    }
}

pub open spec fn parse_game(s: Seq<u8>, p: int) -> Option<(GameModel, int)> {
    match parse_i32(s, p) {
        Some((width, q1)) => match parse_i32(s, q1) {
            Some((height, q2)) => match parse_list(s, q2, |s: Seq<u8>, p: int| parse_tile_entry(s, p)) {
                Some((tiles, q3)) => match parse_list(s, q3, |s: Seq<u8>, p: int| parse_unit_entry(s, p)) {
                    Some((units, e)) => Some(
                        (
                            GameModel {
                                map: MapModel { dimensions: Dimensions { width, height }, tiles },
                                units,
                            },
                            e,
                        ),
                    ),
                    None => None,
                },
                None => None,
            },
            None => None,
        },
        None => None,
    }
}

pub open spec fn parse_message_at(s: Seq<u8>, p: int) -> Option<(MessageModel, int)> {
    match parse_u32(s, p) {
        Some((tag, q)) => if tag == 0 {
            match parse_player(s, q) {
                Some((player, e)) => Some((MessageModel::JoinRequest(player), e)),
                None => None,
            }
        } else if tag == 1 {
            match parse_player(s, q) {
                Some((player, q2)) => match parse_game(s, q2) {
                    Some((game, e)) => Some((MessageModel::JoinResponse(player, game), e)),
                    None => None,
                },
                None => None,
            }
        } else if tag == 2 {
            match parse_id(s, q) {
                Some((id, q2)) => match parse_position(s, q2) {
                    Some((pos, e)) => Some((MessageModel::MoveRequest(id, pos), e)),
                    None => None,
                },
                None => None,
            }
        } else {
            None
        },
        None => None,
    }
}

/// The message that `s` holds, with no byte left over.
pub open spec fn parse_message(s: Seq<u8>) -> Option<MessageModel> {
    match parse_message_at(s, 0) {
        Some((m, e)) => if e == s.len() {
            Some(m)
        } else {
            None
        },
        None => None,
    }
}

/// Every length in the message fits the 64-bit length fields.
pub open spec fn fits_wire(m: MessageModel) -> bool {
    match m {
        MessageModel::JoinRequest(p) => encode_utf8(p.name).len() <= u64::MAX,
        MessageModel::JoinResponse(p, g) => encode_utf8(p.name).len() <= u64::MAX
            && g.map.tiles.len() <= u64::MAX && g.units.len() <= u64::MAX,
        MessageModel::MoveRequest(_, _) => true,
    }
}

/// `s` holds the bytes `e` from position `p` on.
pub open spec fn holds_at(s: Seq<u8>, p: int, e: Seq<u8>) -> bool {
    0 <= p && p + e.len() <= s.len() && s.subrange(p, p + e.len()) == e
}

proof fn lemma_holds_split(s: Seq<u8>, p: int, a: Seq<u8>, b: Seq<u8>)
    requires
        holds_at(s, p, a + b),
    ensures
        holds_at(s, p, a),
        holds_at(s, p + a.len(), b),
{
    assert(s.subrange(p, p + a.len()) =~= (a + b).subrange(0, a.len() as int));
    assert((a + b).subrange(0, a.len() as int) =~= a);
    assert(s.subrange(p + a.len(), p + a.len() + b.len()) =~= (a + b).subrange(
        a.len() as int,
        (a + b).len() as int,
    ));
    assert((a + b).subrange(a.len() as int, (a + b).len() as int) =~= b);
}

proof fn lemma_holds_index(s: Seq<u8>, p: int, e: Seq<u8>, k: int)
    requires
        holds_at(s, p, e),
        0 <= k < e.len(),
    ensures
        s[p + k] == e[k],
{
    assert(s.subrange(p, p + e.len())[k] == s[p + k]);
}

proof fn lemma_rt_u32(s: Seq<u8>, p: int, v: u32)
    requires
        holds_at(s, p, le_u32(v)),
    ensures
        parse_u32(s, p) == Some((v, p + 4)),
{
    lemma_holds_index(s, p, le_u32(v), 0);
    lemma_holds_index(s, p, le_u32(v), 1);
    lemma_holds_index(s, p, le_u32(v), 2);
    lemma_holds_index(s, p, le_u32(v), 3);
    lemma_u32_bytes(v);
}

proof fn lemma_rt_u64(s: Seq<u8>, p: int, v: u64)
    requires
        holds_at(s, p, le_u64(v)),
    ensures
        parse_u64(s, p) == Some((v, p + 8)),
{
    lemma_holds_index(s, p, le_u64(v), 0);
    lemma_holds_index(s, p, le_u64(v), 1);
    lemma_holds_index(s, p, le_u64(v), 2);
    lemma_holds_index(s, p, le_u64(v), 3);
    lemma_holds_index(s, p, le_u64(v), 4);
    lemma_holds_index(s, p, le_u64(v), 5);
    lemma_holds_index(s, p, le_u64(v), 6);
    lemma_holds_index(s, p, le_u64(v), 7);
    lemma_u64_bytes(v);
}

proof fn lemma_rt_i32(s: Seq<u8>, p: int, v: i32)
    requires
        holds_at(s, p, enc_i32(v)),
    ensures
        parse_i32(s, p) == Some((v, p + 4)),
{
    lemma_rt_u32(s, p, v as u32);
    lemma_i32_u32(v);
}

proof fn lemma_rt_id(s: Seq<u8>, p: int, id: Id)
    requires
        holds_at(s, p, enc_id(id)),
    ensures
        parse_id(s, p) == Some((id, p + 16)),
{
    lemma_holds_split(s, p, le_u64(id.0 as u64), le_u64((id.0 >> 64u128) as u64));
    lemma_rt_u64(s, p, id.0 as u64);
    lemma_rt_u64(s, p + 8, (id.0 >> 64u128) as u64);
    lemma_u128_halves(id.0);
}

proof fn lemma_rt_position(s: Seq<u8>, p: int, pos: Position)
    requires
        holds_at(s, p, enc_position(pos)),
    ensures
        parse_position(s, p) == Some((pos, p + 8)),
{
    lemma_holds_split(s, p, enc_i32(pos.x), enc_i32(pos.y));
    lemma_rt_i32(s, p, pos.x);
    lemma_rt_i32(s, p + 4, pos.y);
}

proof fn lemma_rt_team(s: Seq<u8>, p: int, t: Team)
    requires
        holds_at(s, p, le_u32(team_tag(t))),
    ensures
        parse_team(s, p) == Some((t, p + 4)),
{
    lemma_rt_u32(s, p, team_tag(t));
}

proof fn lemma_rt_string(s: Seq<u8>, p: int, name: Seq<char>)
    requires
        holds_at(s, p, enc_string(name)),
        encode_utf8(name).len() <= u64::MAX,
    ensures
        parse_string(s, p) == Some((name, p + enc_string(name).len())),
{
    let bytes = encode_utf8(name);
    lemma_holds_split(s, p, le_u64(bytes.len() as u64), bytes);
    lemma_rt_u64(s, p, bytes.len() as u64);
    encode_utf8_valid_utf8(name);
    encode_utf8_decode_utf8(name);
}

proof fn lemma_rt_player(s: Seq<u8>, p: int, pl: PlayerInfoModel)
    requires
        holds_at(s, p, enc_player(pl)),
        encode_utf8(pl.name).len() <= u64::MAX,
    ensures
        parse_player(s, p) == Some((pl, p + enc_player(pl).len())),
{
    lemma_holds_split(s, p, enc_string(pl.name), le_u32(team_tag(pl.team)));
    lemma_rt_string(s, p, pl.name);
    lemma_rt_team(s, p + enc_string(pl.name).len(), pl.team);
}

proof fn lemma_rt_tile_entry(s: Seq<u8>, p: int, t: (Tile, Position))
    requires
        holds_at(s, p, enc_tile_entry(t)),
    ensures
        parse_tile_entry(s, p) == Some((t, p + enc_tile_entry(t).len())),
{
    lemma_holds_split(s, p, le_u32(tile_tag(t.0)), enc_position(t.1));
    lemma_rt_u32(s, p, tile_tag(t.0));
    lemma_rt_position(s, p + 4, t.1);
}

proof fn lemma_rt_unit_entry(s: Seq<u8>, p: int, u: UnitDescriptor)
    requires
        holds_at(s, p, enc_unit_entry(u)),
    ensures
        parse_unit_entry(s, p) == Some((u, p + enc_unit_entry(u).len())),
{
    let a = le_u32(team_tag(u.0));
    let b = le_u32(unit_tag(u.1));
    let c = enc_position(u.2);
    let d = enc_id(u.3);
    lemma_holds_split(s, p, a + b + c, d);
    lemma_holds_split(s, p, a + b, c);
    lemma_holds_split(s, p, a, b);
    lemma_rt_team(s, p, u.0);
    lemma_rt_u32(s, p + 4, unit_tag(u.1));
    lemma_rt_position(s, p + 8, u.2);
    lemma_rt_id(s, p + 16, u.3);
}

proof fn lemma_rt_items<T>(
    s: Seq<u8>,
    p: int,
    ts: Seq<T>,
    f: spec_fn(T) -> Seq<u8>,
    pf: spec_fn(Seq<u8>, int) -> Option<(T, int)>,
)
    requires
        holds_at(s, p, enc_items(ts, f)),
        forall|q: int, x: T| #[trigger] holds_at(s, q, f(x)) ==> pf(s, q) == Some((x, q + f(x).len())),
    ensures
        parse_items(s, p, ts.len(), pf) == Some((ts, p + enc_items(ts, f).len())),
    decreases ts.len(),
{
    if ts.len() > 0 {
        let rest = ts.drop_first();
        lemma_holds_split(s, p, f(ts[0]), enc_items(rest, f));
        lemma_rt_items(s, p + f(ts[0]).len(), rest, f, pf);
        assert(seq![ts[0]] + rest =~= ts);
    }
}

proof fn lemma_rt_list<T>(
    s: Seq<u8>,
    p: int,
    ts: Seq<T>,
    f: spec_fn(T) -> Seq<u8>,
    pf: spec_fn(Seq<u8>, int) -> Option<(T, int)>,
)
    requires
        holds_at(s, p, enc_list(ts, f)),
        ts.len() <= u64::MAX,
        forall|q: int, x: T| #[trigger] holds_at(s, q, f(x)) ==> pf(s, q) == Some((x, q + f(x).len())),
    ensures
        parse_list(s, p, pf) == Some((ts, p + enc_list(ts, f).len())),
{
    lemma_holds_split(s, p, le_u64(ts.len() as u64), enc_items(ts, f));
    lemma_rt_u64(s, p, ts.len() as u64);
    lemma_rt_items(s, p + 8, ts, f, pf);
}

proof fn lemma_rt_game(s: Seq<u8>, p: int, g: GameModel)
    requires
        holds_at(s, p, enc_game(g)),
        g.map.tiles.len() <= u64::MAX,
        g.units.len() <= u64::MAX,
    ensures
        parse_game(s, p) == Some((g, p + enc_game(g).len())),
{
    let tf = |t: (Tile, Position)| enc_tile_entry(t);
    let uf = |u: UnitDescriptor| enc_unit_entry(u);
    let tp = |s: Seq<u8>, p: int| parse_tile_entry(s, p);
    let up = |s: Seq<u8>, p: int| parse_unit_entry(s, p);
    let a = enc_i32(g.map.dimensions.width);
    let b = enc_i32(g.map.dimensions.height);
    let c = enc_list(g.map.tiles, tf);
    let d = enc_list(g.units, uf);
    lemma_holds_split(s, p, a + b + c, d);
    lemma_holds_split(s, p, a + b, c);
    lemma_holds_split(s, p, a, b);
    lemma_rt_i32(s, p, g.map.dimensions.width);
    lemma_rt_i32(s, p + 4, g.map.dimensions.height);
    assert forall|q: int, x: (Tile, Position)| #[trigger] holds_at(s, q, tf(x)) implies tp(s, q) == Some((x, q + tf(x).len())) by {
        lemma_rt_tile_entry(s, q, x);
    }
    assert forall|q: int, x: UnitDescriptor| #[trigger] holds_at(s, q, uf(x)) implies up(s, q) == Some((x, q + uf(x).len())) by {
        lemma_rt_unit_entry(s, q, x);
    }
    lemma_rt_list(s, p + 8, g.map.tiles, tf, tp);
    lemma_rt_list(s, p + 8 + c.len(), g.units, uf, up);
}

#[verifier::rlimit(50)]
proof fn lemma_rt_join_request(s: Seq<u8>, pl: PlayerInfoModel)
    requires
        s == enc_message(MessageModel::JoinRequest(pl)),
        encode_utf8(pl.name).len() <= u64::MAX,
    ensures
        parse_message_at(s, 0) == Some((MessageModel::JoinRequest(pl), s.len() as int)),
{
    assert(s.subrange(0, s.len() as int) =~= s);
    lemma_holds_split(s, 0, le_u32(0), enc_player(pl));
    lemma_rt_u32(s, 0, 0);
    lemma_rt_player(s, 4, pl);
}

#[verifier::rlimit(50)]
proof fn lemma_rt_join_response(s: Seq<u8>, pl: PlayerInfoModel, g: GameModel)
    requires
        s == enc_message(MessageModel::JoinResponse(pl, g)),
        encode_utf8(pl.name).len() <= u64::MAX,
        g.map.tiles.len() <= u64::MAX,
        g.units.len() <= u64::MAX,
    ensures
        parse_message_at(s, 0) == Some((MessageModel::JoinResponse(pl, g), s.len() as int)),
{
    assert(s.subrange(0, s.len() as int) =~= s);
    lemma_holds_split(s, 0, le_u32(1) + enc_player(pl), enc_game(g));
    lemma_holds_split(s, 0, le_u32(1), enc_player(pl));
    lemma_rt_u32(s, 0, 1);
    lemma_rt_player(s, 4, pl);
    lemma_rt_game(s, 4 + enc_player(pl).len() as int, g);
}

#[verifier::rlimit(50)]
proof fn lemma_rt_move_request(s: Seq<u8>, id: Id, pos: Position)
    requires
        s == enc_message(MessageModel::MoveRequest(id, pos)),
    ensures
        parse_message_at(s, 0) == Some((MessageModel::MoveRequest(id, pos), s.len() as int)),
{
    assert(s.subrange(0, s.len() as int) =~= s);
    lemma_holds_split(s, 0, le_u32(2) + enc_id(id), enc_position(pos));
    lemma_holds_split(s, 0, le_u32(2), enc_id(id));
    lemma_rt_u32(s, 0, 2);
    lemma_rt_id(s, 4, id);
    lemma_rt_position(s, 20, pos);
}

/// Encoding a message and reading it back gives the same message.
pub proof fn lemma_protocol_round_trip(m: MessageModel)
    requires
        fits_wire(m),
    ensures
        parse_message(enc_message(m)) == Some(m),
{
    let s = enc_message(m);
    match m {
        MessageModel::JoinRequest(pl) => lemma_rt_join_request(s, pl),
        MessageModel::JoinResponse(pl, g) => lemma_rt_join_response(s, pl, g),
        MessageModel::MoveRequest(id, pos) => lemma_rt_move_request(s, id, pos),
    }
}

impl Message {
    /// The message's bytes on the wire.
    pub fn to_bytes(&self) -> (r: Vec<u8>)
        ensures
            r@ == enc_message(self@),
            fits_wire(self@),
    {
        let mut out: Vec<u8> = Vec::new();
        match self {
            Message::JoinRequest(p) => {
                put_u32(&mut out, 0);
                put_player(&mut out, p);
            },
            Message::JoinResponse(p, g) => {
                put_u32(&mut out, 1);
                put_player(&mut out, p);
                put_game(&mut out, g);
            },
            Message::MoveRequest(id, pos) => {
                put_u32(&mut out, 2);
                put_id(&mut out, *id);
                put_position(&mut out, *pos);
            },
        }
        assert(out@ =~= enc_message(self@));
        out
    }
}

/// Bytes that hold no message of the protocol.
#[derive(Debug, Clone, Copy, PartialEq, Eq, Structural)]
pub struct DecodeError;

/// Relies on String::from_utf8: it succeeds exactly on valid UTF-8, and the
/// string then holds the characters that the bytes encode.
#[verifier::external_body]
fn string_from_utf8(bytes: Vec<u8>) -> (r: Option<String>)
    ensures
        r is Some <==> valid_utf8(bytes@),
        r matches Some(st) ==> st@ == decode_utf8(bytes@),
{
    String::from_utf8(bytes).ok()
}

/// `a` put in front of the items that `o` holds.
pub open spec fn prepend<T>(a: Seq<T>, o: Option<(Seq<T>, int)>) -> Option<(Seq<T>, int)> {
    match o {
        Some((r, e)) => Some((a + r, e)),
        None => None,
    }
}

fn get_u32(data: &[u8], p: usize) -> (r: Option<(u32, usize)>)
    ensures
        r matches Some((v, q)) ==> parse_u32(data@, p as int) == Some((v, q as int)) && q <= data@.len(),
        r is None ==> parse_u32(data@, p as int) is None,
{
    if p <= data.len() && data.len() - p >= 4 {
        let v: u32 = (data[p] as u32) | ((data[p + 1] as u32) << 8u32) | ((data[p + 2] as u32)
            << 16u32) | ((data[p + 3] as u32) << 24u32);
        Some((v, p + 4))
    } else {
        None
    }
}

fn get_u64(data: &[u8], p: usize) -> (r: Option<(u64, usize)>)
    ensures
        r matches Some((v, q)) ==> parse_u64(data@, p as int) == Some((v, q as int)) && q <= data@.len(),
        r is None ==> parse_u64(data@, p as int) is None,
{
    if p <= data.len() && data.len() - p >= 8 {
        let v: u64 = (data[p] as u64) | ((data[p + 1] as u64) << 8u64) | ((data[p + 2] as u64)
            << 16u64) | ((data[p + 3] as u64) << 24u64) | ((data[p + 4] as u64) << 32u64) | ((
        data[p + 5] as u64) << 40u64) | ((data[p + 6] as u64) << 48u64) | ((data[p + 7] as u64)
            << 56u64);
        Some((v, p + 8))
    } else {
        None
    }
}

fn get_i32(data: &[u8], p: usize) -> (r: Option<(i32, usize)>)
    ensures
        r matches Some((v, q)) ==> parse_i32(data@, p as int) == Some((v, q as int)) && q <= data@.len(),
        r is None ==> parse_i32(data@, p as int) is None,
{
    match get_u32(data, p) {
        Some((v, q)) => Some((v as i32, q)),
        None => None,
    }
}

fn get_id(data: &[u8], p: usize) -> (r: Option<(Id, usize)>)
    ensures
        r matches Some((v, q)) ==> parse_id(data@, p as int) == Some((v, q as int)) && q <= data@.len(),
        r is None ==> parse_id(data@, p as int) is None,
{
    let (lo, q) = match get_u64(data, p) {
        Some(x) => x,
        None => {
            return None;
        },
    };
    let (hi, e) = match get_u64(data, q) {
        Some(x) => x,
        None => {
            return None;
        },
    };
    Some((Id((lo as u128) | ((hi as u128) << 64u128)), e))
}

fn get_team(data: &[u8], p: usize) -> (r: Option<(Team, usize)>)
    ensures
        r matches Some((v, q)) ==> parse_team(data@, p as int) == Some((v, q as int)) && q <= data@.len(),
        r is None ==> parse_team(data@, p as int) is None,
{
    match get_u32(data, p) {
        Some((t, q)) => if t == 0 {
            Some((Team::White, q))
        } else if t == 1 {
            Some((Team::Black, q))
        } else {
            None
        },
        None => None,
    }
}

fn get_position(data: &[u8], p: usize) -> (r: Option<(Position, usize)>)
    ensures
        r matches Some((v, q)) ==> parse_position(data@, p as int) == Some((v, q as int)) && q <= data@.len(),
        r is None ==> parse_position(data@, p as int) is None,
{
    let (x, q) = match get_i32(data, p) {
        Some(v) => v,
        None => {
            return None;
        },
    };
    let (y, e) = match get_i32(data, q) {
        Some(v) => v,
        None => {
            return None;
        },
    };
    Some((Position { x, y }, e))
}

fn get_player(data: &[u8], p: usize) -> (r: Option<(PlayerInfo, usize)>)
    ensures
        r matches Some((v, q)) ==> parse_player(data@, p as int) == Some((v@, q as int)) && q <= data@.len(),
        r is None ==> parse_player(data@, p as int) is None,
{
    let (n, q) = match get_u64(data, p) {
        Some(v) => v,
        None => {
            return None;
        },
    };
    if n > (data.len() - q) as u64 {
        return None;
    }
    let end: usize = q + n as usize;
    let bytes = vstd::slice::slice_to_vec(&data[q..end]);
    assert(bytes@ =~= data@.subrange(q as int, q + n));
    let name = match string_from_utf8(bytes) {
        Some(st) => st,
        None => {
            return None;
        },
    };
    let (team, e) = match get_team(data, end) {
        Some(v) => v,
        None => {
            return None;
        },
    };
    Some((PlayerInfo { name, team }, e))
}

fn get_tile_entry(data: &[u8], p: usize) -> (r: Option<((Tile, Position), usize)>)
    ensures
        r matches Some((v, q)) ==> parse_tile_entry(data@, p as int) == Some((v, q as int)) && q <= data@.len(),
        r is None ==> parse_tile_entry(data@, p as int) is None,
{
    let (t, q) = match get_u32(data, p) {
        Some(v) => v,
        None => {
            return None;
        },
    };
    let tile = if t == 0 {
        Tile::Black
    } else if t == 1 {
        Tile::White
    } else {
        return None;
    };
    let (pos, e) = match get_position(data, q) {
        Some(v) => v,
        None => {
            return None;
        },
    };
    Some(((tile, pos), e))
}

fn get_unit_entry(data: &[u8], p: usize) -> (r: Option<(UnitDescriptor, usize)>)
    ensures
        r matches Some((v, q)) ==> parse_unit_entry(data@, p as int) == Some((v, q as int)) && q <= data@.len(),
        r is None ==> parse_unit_entry(data@, p as int) is None,
{
    let (team, q1) = match get_team(data, p) {
        Some(v) => v,
        None => {
            return None;
        },
    };
    let (u, q2) = match get_u32(data, q1) {
        Some(v) => v,
        None => {
            return None;
        },
    };
    let unit = if u == 0 {
        Unit::Pawn
    } else if u == 1 {
        Unit::Bishop
    } else if u == 2 {
        Unit::Knight
    } else if u == 3 {
        Unit::Rook
    } else if u == 4 {
        Unit::King
    } else if u == 5 {
        Unit::Queen
    } else {
        return None;
    };
    let (pos, q3) = match get_position(data, q2) {
        Some(v) => v,
        None => {
            return None;
        },
    };
    let (id, e) = match get_id(data, q3) {
        Some(v) => v,
        None => {
            return None;
        },
    };
    Some(((team, unit, pos, id), e))
}

fn get_tiles(data: &[u8], p: usize) -> (r: Option<(Vec<(Tile, Position)>, usize)>)
    ensures
        r matches Some((v, q)) ==> parse_list(data@, p as int, |s: Seq<u8>, p: int| parse_tile_entry(s, p))
            == Some((v@, q as int)) && q <= data@.len(),
        r is None ==> parse_list(data@, p as int, |s: Seq<u8>, p: int| parse_tile_entry(s, p)) is None,
{
    let ghost pf = |s: Seq<u8>, p: int| parse_tile_entry(s, p);
    let (n, start) = match get_u64(data, p) {
        Some(v) => v,
        None => {
            return None;
        },
    };
    let mut q = start;
    let mut items: Vec<(Tile, Position)> = Vec::new();
    let mut i: u64 = 0;
    assert(prepend(items@, parse_items(data@, q as int, n as nat, pf)) == parse_items(data@, start as int, n as nat, pf)) by {
        match parse_items(data@, q as int, n as nat, pf) {
            Some((rest, e)) => {
                assert(items@ + rest =~= rest);
            },
            None => {},
        }
    }
    while i < n
        invariant
            pf == (|s: Seq<u8>, p: int| parse_tile_entry(s, p)),
            i <= n,
            q <= data@.len(),
            parse_u64(data@, p as int) == Some((n, start as int)),
            parse_items(data@, start as int, n as nat, pf) == prepend(items@, parse_items(data@, q as int, (n - i) as nat, pf)),
        decreases n - i,
    {
        let (x, q2) = match get_tile_entry(data, q) {
            Some(v) => v,
            None => {
                assert(pf(data@, q as int) is None);
                assert(parse_items(data@, q as int, (n - i) as nat, pf) is None);
                return None;
            },
        };
        proof {
            match parse_items(data@, q2 as int, (n - i - 1) as nat, pf) {
                Some((rest, e)) => {
                    assert(items@.push(x) + rest =~= items@ + (seq![x] + rest));
                },
                None => {},
            }
        }
        items.push(x);
        q = q2;
        i = i + 1;
    }
    Some((items, q))
}

fn get_units(data: &[u8], p: usize) -> (r: Option<(Vec<UnitDescriptor>, usize)>)
    ensures
        r matches Some((v, q)) ==> parse_list(data@, p as int, |s: Seq<u8>, p: int| parse_unit_entry(s, p))
            == Some((v@, q as int)) && q <= data@.len(),
        r is None ==> parse_list(data@, p as int, |s: Seq<u8>, p: int| parse_unit_entry(s, p)) is None,
{
    let ghost pf = |s: Seq<u8>, p: int| parse_unit_entry(s, p);
    let (n, start) = match get_u64(data, p) {
        Some(v) => v,
        None => {
            return None;
        },
    };
    let mut q = start;
    let mut items: Vec<UnitDescriptor> = Vec::new();
    let mut i: u64 = 0;
    assert(prepend(items@, parse_items(data@, q as int, n as nat, pf)) == parse_items(data@, start as int, n as nat, pf)) by {
        match parse_items(data@, q as int, n as nat, pf) {
            Some((rest, e)) => {
                assert(items@ + rest =~= rest);
            },
            None => {},
        }
    }
    while i < n
        invariant
            pf == (|s: Seq<u8>, p: int| parse_unit_entry(s, p)),
            i <= n,
            q <= data@.len(),
            parse_u64(data@, p as int) == Some((n, start as int)),
            parse_items(data@, start as int, n as nat, pf) == prepend(items@, parse_items(data@, q as int, (n - i) as nat, pf)),
        decreases n - i,
    {
        let (x, q2) = match get_unit_entry(data, q) {
            Some(v) => v,
            None => {
                assert(pf(data@, q as int) is None);
                assert(parse_items(data@, q as int, (n - i) as nat, pf) is None);
                return None;
            },
        };
        proof {
            match parse_items(data@, q2 as int, (n - i - 1) as nat, pf) {
                Some((rest, e)) => {
                    assert(items@.push(x) + rest =~= items@ + (seq![x] + rest));
                },
                None => {},
            }
        }
        items.push(x);
        q = q2;
        i = i + 1;
    }
    Some((items, q))
}

fn get_game(data: &[u8], p: usize) -> (r: Option<(GameDescriptor, usize)>)
    ensures
        r matches Some((v, q)) ==> parse_game(data@, p as int) == Some((v@, q as int)) && q <= data@.len(),
        r is None ==> parse_game(data@, p as int) is None,
{
    let (width, q1) = match get_i32(data, p) {
        Some(v) => v,
        None => {
            return None;
        },
    };
    let (height, q2) = match get_i32(data, q1) {
        Some(v) => v,
        None => {
            return None;
        },
    };
    let (tiles, q3) = match get_tiles(data, q2) {
        Some(v) => v,
        None => {
            return None;
        },
    };
    let (units, e) = match get_units(data, q3) {
        Some(v) => v,
        None => {
            return None;
        },
    };
    let g = GameDescriptor { map: MapDescriptor { dimensions: Dimensions { width, height }, tiles }, units };
    Some((g, e))
}

impl Message {
    /// The message that `data` holds, with no byte left over.
    pub fn from_bytes(data: &[u8]) -> (r: Result<Message, DecodeError>)
        ensures
            r matches Ok(m) ==> parse_message(data@) == Some(m@),
            r is Err ==> parse_message(data@) is None,
    {
        let (tag, q) = match get_u32(data, 0) {
            Some(v) => v,
            None => {
                return Err(DecodeError);
            },
        };
        let (m, e) = if tag == 0 {
            match get_player(data, q) {
                Some((player, e)) => (Message::JoinRequest(player), e),
                None => {
                    return Err(DecodeError);
                },
            }
        } else if tag == 1 {
            let (player, q2) = match get_player(data, q) {
                Some(v) => v,
                None => {
                    return Err(DecodeError);
                },
            };
            match get_game(data, q2) {
                Some((game, e)) => (Message::JoinResponse(player, game), e),
                None => {
                    return Err(DecodeError);
                },
            }
        } else if tag == 2 {
            let (id, q2) = match get_id(data, q) {
                Some(v) => v,
                None => {
                    return Err(DecodeError);
                },
            };
            match get_position(data, q2) {
                Some((pos, e)) => (Message::MoveRequest(id, pos), e),
                None => {
                    return Err(DecodeError);
                },
            }
        } else {
            return Err(DecodeError);
        };
        if e != data.len() {
            return Err(DecodeError);
        }
        Ok(m)
    }
}

} // verus!
