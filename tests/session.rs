use chess_net::codec::Message;
use chess_net::entity_map::{Entity, EntityMap};
use chess_net::game::{
    Dimensions, GameDescriptor, Id, MapDescriptor, PlayerInfo, Position, Team, Tile, Unit,
};
use chess_net::reconcile::process_network_events;
use chess_net::resources::NetworkResource;
use chess_net::session::{
    handle_message, id_changes, spawn_units, ConnectionInfo, GameState, GameType, PlayerType,
    SessionAction, SessionError,
};
use chess_net::types::{Address, Connection, NetworkDelivery, NetworkEvent, SocketHandle};

fn player(name: &str, team: Team) -> PlayerInfo {
    PlayerInfo { name: name.to_string(), team }
}

#[test]
fn standard_map_colours() {
    let map = MapDescriptor::default();
    assert_eq!(map.dimensions, Dimensions::new(8, 8));
    assert_eq!(map.tiles.len(), 64);
    assert_eq!(map.tiles[0], (Tile::Black, Position::new(0, 0)));
    assert_eq!(map.tiles[1], (Tile::White, Position::new(0, 1)));
    assert_eq!(map.tiles[8 * 3 + 5], (Tile::Black, Position::new(3, 5)));
}

#[test]
fn standard_opening_position() {
    let ids: Vec<Id> = (0..32u128).map(Id::from_uuid).collect();
    let game = GameDescriptor::standard(&ids);
    assert_eq!(game.units.len(), 32);
    assert_eq!(game.units[0], (Team::White, Unit::Pawn, Position::new(0, 1), Id::from_uuid(0)));
    assert_eq!(game.units[1], (Team::Black, Unit::Pawn, Position::new(0, 6), Id::from_uuid(1)));
    assert_eq!(game.units[19], (Team::White, Unit::Queen, Position::new(3, 0), Id::from_uuid(19)));
    assert_eq!(game.units[20], (Team::White, Unit::King, Position::new(4, 0), Id::from_uuid(20)));
    assert_eq!(game.units[31], (Team::Black, Unit::Rook, Position::new(7, 7), Id::from_uuid(31)));
    let pawns = game.units.iter().filter(|u| u.1 == Unit::Pawn).count();
    assert_eq!(pawns, 16);
}

#[test]
fn default_game_has_distinct_fresh_ids() {
    let game = GameDescriptor::default();
    assert_eq!(game.units.len(), 32);
    for i in 0..32 {
        for j in (i + 1)..32 {
            assert_ne!(game.units[i].3, game.units[j].3);
        }
    }
}

#[test]
fn game_state_defaults_and_turns() {
    let mut state = GameState::default();
    assert_eq!(state.local_player_info, player("Player 1", Team::White));
    assert!(state.players.is_empty());
    assert_eq!(state.connection_info, ConnectionInfo::Server);
    assert_eq!(state.game_type, GameType::Networked);
    assert!(state.connection_info.is_server());
    assert!(!state.connection_info.is_client());
    state.handle_unit_cmd(3);
    assert_eq!(state.active_team, Team::Black);
    state.handle_unit_cmd(2);
    assert_eq!(state.active_team, Team::Black);
    state.handle_unit_cmd(1);
    assert_eq!(state.active_team, Team::White);
}

#[test]
fn move_without_remote_player_is_refused() {
    let mut state = GameState::default();
    state.handle_create_game(player("Solo", Team::White));
    let mut net = NetworkResource::new();
    net.register_socket(SocketHandle(1));
    let r = state.send_move(&net, Id::from_uuid(1), Position::new(0, 2));
    assert_eq!(r.unwrap_err(), SessionError::NoRemotePlayer);
}

#[test]
fn malformed_payload_is_dropped() {
    let mut state = GameState::default();
    let net = NetworkResource::new();
    let ids: EntityMap<Id> = EntityMap::default();
    let game = GameDescriptor::default();
    let from = Address::v4(127, 0, 0, 1, 1);
    let action = handle_message(&mut state, &net, &ids, &game, from, &[9, 9, 9]);
    assert!(matches!(action, SessionAction::Malformed));
    assert!(state.players.is_empty());
}

#[test]
fn move_for_unknown_id_is_reported() {
    let mut state = GameState::default();
    let net = NetworkResource::new();
    let ids: EntityMap<Id> = EntityMap::default();
    let game = GameDescriptor::default();
    let bytes = Message::MoveRequest(Id::from_uuid(77), Position::new(1, 1)).to_bytes();
    let action = handle_message(&mut state, &net, &ids, &game, Address::v4(1, 2, 3, 4, 5), &bytes);
    assert!(matches!(action, SessionAction::UnknownId(id) if id == Id::from_uuid(77)));
}

/// Host binds to A, the joiner binds to B and asks to join; the host sees the
/// joiner connect, then its request, and answers with a 32-piece snapshot
/// that the joiner spawns under the same identities.
#[test]
fn end_to_end_handshake() {
    let addr_a = Address::v4(127, 0, 0, 1, 12351);
    let addr_b = Address::v4(127, 0, 0, 1, 12350);

    let mut host_net = NetworkResource::new();
    let host_socket = SocketHandle(0xa);
    host_net.register_socket(host_socket);
    let mut host = GameState::default();
    host.handle_create_game(player("Player 1", Team::White));

    let mut joiner_net = NetworkResource::new();
    joiner_net.register_socket(SocketHandle(0xb));
    let mut joiner = GameState::default();
    let request = joiner.handle_join_game(&joiner_net, player("Player 2", Team::Black), addr_a).unwrap();
    assert_eq!(joiner.connection_info, ConnectionInfo::Client);
    assert_eq!(request.destination, addr_a);
    assert_eq!(request.delivery, NetworkDelivery::ReliableSequenced(Some(1)));

    // what the host's worker reports
    let b_conn = Connection { addr: addr_b, socket: host_socket };
    let tick = process_network_events(
        &mut host_net,
        vec![NetworkEvent::Connected(b_conn), NetworkEvent::Message(b_conn, request.message.clone())],
    );
    assert_eq!(tick.connected.len(), 1);
    assert_eq!(tick.connected[0].0, b_conn);
    assert_eq!(tick.messages.len(), 1);
    assert_eq!(tick.messages[0].1, request.message);
    assert_eq!(
        Message::from_bytes(&tick.messages[0].1),
        Ok(Message::JoinRequest(player("Player 2", Team::Black)))
    );

    let host_ids: EntityMap<Id> = EntityMap::default();
    let snapshot = GameDescriptor::default();
    let action = handle_message(&mut host, &host_net, &host_ids, &snapshot, addr_b, &tick.messages[0].1);
    let (reply, host_game) = match action {
        SessionAction::Host { reply, game } => (reply.unwrap(), game),
        other => panic!("unexpected action {:?}", other),
    };
    assert_eq!(host_game, snapshot);
    assert_eq!(host.players.len(), 2);
    assert_eq!(host.players[1], (PlayerType::Remote(addr_b), player("Player 2", Team::Black)));
    assert_eq!(reply.destination, addr_b);
    assert_eq!(reply.socket_handle, host_socket);
    assert_eq!(reply.delivery, NetworkDelivery::ReliableSequenced(Some(1)));

    let mut joiner_ids: EntityMap<Id> = EntityMap::default();
    let action = handle_message(&mut joiner, &joiner_net, &joiner_ids, &GameDescriptor::default(), addr_a, &reply.message);
    let game = match action {
        SessionAction::Join { game } => game,
        other => panic!("unexpected action {:?}", other),
    };
    assert_eq!(joiner.players[1], (PlayerType::Remote(addr_a), player("Player 1", Team::White)));
    let world = spawn_units(&game, 500);
    joiner_ids.handle_key_changed(&id_changes(&world));
    assert_eq!(world.len(), 32);
    for (i, unit) in snapshot.units.iter().enumerate() {
        assert_eq!(world[i].id, unit.3);
        assert_eq!(joiner_ids.get(&unit.3), Some(&Entity(500 + i as u64)));
    }
}

/// After the handshake the host moves the piece `U` to (0, 2) and tells the
/// joiner, whose identity map resolves `U` to its own entity.
#[test]
fn move_replication() {
    let addr_a = Address::v4(127, 0, 0, 1, 12351);
    let addr_b = Address::v4(127, 0, 0, 1, 12350);
    let snapshot = GameDescriptor::default();

    let mut host_net = NetworkResource::new();
    host_net.register_socket(SocketHandle(1));
    let mut host = GameState::default();
    host.handle_create_game(player("Player 1", Team::White));
    host.handle_join_response(addr_b, player("Player 2", Team::Black));

    let mut joiner = GameState::default();
    let joiner_net = NetworkResource::new();
    let mut joiner_ids: EntityMap<Id> = EntityMap::default();
    let world = spawn_units(&snapshot, 40);
    joiner_ids.handle_key_changed(&id_changes(&world));

    let u = snapshot.units[0].3;
    let sent = host.send_move(&host_net, u, Position::new(0, 2)).unwrap();
    assert_eq!(sent.destination, addr_b);
    assert_eq!(Message::from_bytes(&sent.message), Ok(Message::MoveRequest(u, Position::new(0, 2))));

    let action = handle_message(&mut joiner, &joiner_net, &joiner_ids, &snapshot, addr_a, &sent.message);
    match action {
        SessionAction::Move { entity, target } => {
            assert_eq!(entity, Entity(40));
            assert_eq!(target, Position::new(0, 2));
            assert_eq!(world[0].unit, Unit::Pawn);
        },
        other => panic!("unexpected action {:?}", other),
    }
}

#[test]
fn both_peers_resolve_ids_alike() {
    let snapshot = GameDescriptor::default();
    let bytes = Message::JoinResponse(player("H", Team::White), snapshot).to_bytes();
    let decode = |first: u64| {
        let game = match Message::from_bytes(&bytes).unwrap() {
            Message::JoinResponse(_, g) => g,
            _ => unreachable!(),
        };
        let world = spawn_units(&game, first);
        let mut ids: EntityMap<Id> = EntityMap::default();
        ids.handle_key_changed(&id_changes(&world));
        (game, world, ids)
    };
    let (game, world_a, ids_a) = decode(0);
    let (_, world_b, ids_b) = decode(1000);
    for unit in &game.units {
        let ea = *ids_a.get(&unit.3).unwrap();
        let eb = *ids_b.get(&unit.3).unwrap();
        let a = world_a.iter().find(|s| s.entity == ea).unwrap();
        let b = world_b.iter().find(|s| s.entity == eb).unwrap();
        assert_eq!((a.team, a.unit, a.position), (b.team, b.unit, b.position));
    }
}

#[test]
fn execute_action_checks_the_rules_first() {
    let mut net = NetworkResource::new();
    net.register_socket(SocketHandle(1));
    let mut state = GameState::default();
    state.handle_create_game(player("Player 1", Team::White));
    let peer = Address::v4(10, 0, 0, 2, 4000);
    state.handle_join_response(peer, player("Player 2", Team::Black));
    let pawn = chess_net::session::SpawnedUnit {
        entity: Entity(1),
        team: Team::White,
        unit: Unit::Pawn,
        position: Position::new(0, 1),
        id: Id::from_uuid(42),
    };
    let pieces = vec![pawn];
    let bad = state.execute_action(&net, Unit::Pawn, &pawn, Position::new(0, 4), &pieces);
    assert_eq!(bad.unwrap_err(), SessionError::InvalidTarget);
    let (good, executed) = state.execute_action(&net, Unit::Pawn, &pawn, Position::new(0, 3), &pieces).unwrap();
    assert_eq!(executed, chess_net::session::ActionExecuted(Entity(1), Position::new(0, 3)));
    assert_eq!(good.destination, peer);
    assert_eq!(
        Message::from_bytes(&good.message),
        Ok(Message::MoveRequest(Id::from_uuid(42), Position::new(0, 3)))
    );
}
