use chess_net::codec::{DecodeError, Message};
use chess_net::game::{Dimensions, GameDescriptor, Id, MapDescriptor, PlayerInfo, Position, Team, Tile, Unit};

fn player(name: &str, team: Team) -> PlayerInfo {
    PlayerInfo { name: name.to_string(), team }
}

#[test]
fn join_request_round_trip() {
    let m = Message::JoinRequest(player("Player 2", Team::Black));
    let bytes = m.to_bytes();
    assert_eq!(Message::from_bytes(&bytes), Ok(m));
}

#[test]
fn join_response_round_trip() {
    let m = Message::JoinResponse(player("Zoë ♞", Team::White), GameDescriptor::default());
    let bytes = m.to_bytes();
    assert_eq!(Message::from_bytes(&bytes), Ok(m));
}

#[test]
fn move_request_round_trip() {
    let id = Id::from_uuid(0x0123_4567_89ab_cdef_fedc_ba98_7654_3210);
    let m = Message::MoveRequest(id, Position::new(-3, 2));
    assert_eq!(Message::from_bytes(&m.to_bytes()), Ok(m));
}

#[test]
fn move_request_bytes() {
    let m = Message::MoveRequest(Id::from_uuid(0x0102), Position::new(0, 2));
    let expected: Vec<u8> = vec![
        2, 0, 0, 0, // tag
        2, 1, 0, 0, 0, 0, 0, 0, // low half of the id
        0, 0, 0, 0, 0, 0, 0, 0, // high half
        0, 0, 0, 0, // x
        2, 0, 0, 0, // y
    ];
    assert_eq!(m.to_bytes(), expected);
}

#[test]
fn join_request_bytes() {
    let m = Message::JoinRequest(player("ab", Team::Black));
    let expected: Vec<u8> = vec![0, 0, 0, 0, 2, 0, 0, 0, 0, 0, 0, 0, b'a', b'b', 1, 0, 0, 0];
    assert_eq!(m.to_bytes(), expected);
}

#[test]
fn small_game_round_trip() {
    let game = GameDescriptor {
        map: MapDescriptor {
            dimensions: Dimensions::new(2, 1),
            tiles: vec![(Tile::Black, Position::new(0, 0)), (Tile::White, Position::new(1, 0))],
        },
        units: vec![(Team::White, Unit::Queen, Position::new(1, 0), Id::from_uuid(u128::MAX))],
    };
    let m = Message::JoinResponse(player("", Team::White), game);
    assert_eq!(Message::from_bytes(&m.to_bytes()), Ok(m));
}

#[test]
fn malformed_bytes_are_rejected() {
    assert_eq!(Message::from_bytes(&[]), Err(DecodeError));
    assert_eq!(Message::from_bytes(&[3, 0, 0, 0]), Err(DecodeError));
    let mut bytes = Message::MoveRequest(Id::from_uuid(1), Position::new(1, 1)).to_bytes();
    bytes.push(0);
    assert_eq!(Message::from_bytes(&bytes), Err(DecodeError));
    bytes.truncate(10);
    assert_eq!(Message::from_bytes(&bytes), Err(DecodeError));
}

#[test]
fn invalid_utf8_name_is_rejected() {
    let bytes: Vec<u8> = vec![0, 0, 0, 0, 1, 0, 0, 0, 0, 0, 0, 0, 0xff, 0, 0, 0, 0];
    assert_eq!(Message::from_bytes(&bytes), Err(DecodeError));
}

#[test]
fn unknown_team_tag_is_rejected() {
    let bytes: Vec<u8> = vec![0, 0, 0, 0, 1, 0, 0, 0, 0, 0, 0, 0, b'x', 2, 0, 0, 0];
    assert_eq!(Message::from_bytes(&bytes), Err(DecodeError));
}

#[test]
fn huge_list_length_is_rejected() {
    let mut bytes = Message::JoinResponse(player("a", Team::White), GameDescriptor {
        map: MapDescriptor { dimensions: Dimensions::new(0, 0), tiles: vec![] },
        units: vec![],
    })
    .to_bytes();
    let n = bytes.len();
    // claim u64::MAX units where none follow
    for b in &mut bytes[n - 8..] {
        *b = 0xff;
    }
    assert_eq!(Message::from_bytes(&bytes), Err(DecodeError));
}
