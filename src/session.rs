use vstd::prelude::*;

use crate::codec::{enc_message, parse_message, Message, MessageModel};
use crate::entity_map::{apply_changes, cleared_fwd, cleared_rev, Entity, EntityMap};
use crate::game::{GameDescriptor, Id, PlayerInfo, PlayerInfoModel, Position, Team, Unit, UnitDescriptor};
use crate::resources::NetworkResource;
use crate::rules::{is_action_valid, targets};
use crate::types::{Address, NetworkDelivery, NetworkError, OutboundMessage};

verus! {

/// Whether a player sits at this machine or behind a peer's address.
#[derive(Debug, Clone, Copy, PartialEq, Eq, Structural)]
pub enum PlayerType {
    Local,
    Remote(Address),
}

/// Which end of the handshake this peer is.
#[derive(Debug, Clone, Copy, PartialEq, Eq, Structural)]
pub enum ConnectionInfo {
    Server,
    Client,
}

impl ConnectionInfo {
    pub fn is_server(&self) -> (r: bool)
        ensures
            r == (*self == ConnectionInfo::Server),
    {
        match self {
            ConnectionInfo::Server => true,
            _ => false,
        }
    }

    pub fn is_client(&self) -> (r: bool)
        ensures
            r == (*self == ConnectionInfo::Client),
    {
        !self.is_server()
    }
}

/// How the game is played.
#[derive(Debug, Clone, Copy, PartialEq, Eq, Structural)]
pub enum GameType {
    Local,
    Networked,
}

/// Errors of the session layer.
#[derive(Debug, Clone, PartialEq, Eq)]
pub enum SessionError {
    /// A move was made before any remote player joined.
    NoRemotePlayer,
    /// The piece cannot move to the square asked for.
    InvalidTarget,
    /// The networking layer refused the send.
    Network(NetworkError),
}

/// The delivery of every session message: reliable and sequenced on
/// stream 1.
pub open spec fn session_delivery() -> NetworkDelivery {
    NetworkDelivery::ReliableSequenced(Some(1u8))
}

fn session_delivery_exec() -> (r: NetworkDelivery)
    ensures
        r == session_delivery(),
{
    NetworkDelivery::ReliableSequenced(Some(1))
}

/// `r` is the send of `payload` to `to` with the session's delivery, or the
/// error with which `net` refuses it.
pub open spec fn is_session_send(
    net: &NetworkResource,
    to: Address,
    payload: Seq<u8>,
    r: Result<OutboundMessage, NetworkError>,
) -> bool {
    match net.resolve(None) {
        Err(e) => r == Err::<OutboundMessage, NetworkError>(e),
        Ok(s) => r matches Ok(m) && m.destination == to && m.socket_handle == s && m.delivery
            == session_delivery() && m.message@ == payload,
    }
}

/// The state of the session at this peer.
#[derive(Debug)]
pub struct GameState {
    pub local_player_info: PlayerInfo,
    pub players: Vec<(PlayerType, PlayerInfo)>,
    pub active_team: Team,
    pub connection_info: ConnectionInfo,
    pub game_type: GameType,
}

/// What a received session message asks of this peer.
#[derive(Debug)]
pub enum SessionAction {
    /// A joiner asked in: the reply to send, and the game to spawn here.
    Host { reply: Result<OutboundMessage, NetworkError>, game: GameDescriptor },
    /// The host answered: the game to spawn here.
    Join { game: GameDescriptor },
    /// The peer moved a piece: the local entity and its target, for the
    /// rule engine.
    Move { entity: Entity, target: Position },
    /// A move names an identity that no local entity holds.
    UnknownId(Id),
    /// The bytes hold no session message; they are dropped.
    Malformed,
}

impl GameState {
    /// A local command to move `mover`, a piece of kind `unit`, to `target`:
    /// refused unless the rules allow the square, else sent to the peer as
    /// a move of the piece's identity.
    pub fn execute_action(
        &self,
        net: &NetworkResource,
        unit: Unit,
        mover: &SpawnedUnit,
        target: Position,
        pieces: &Vec<SpawnedUnit>,
    ) -> (r: Result<(OutboundMessage, ActionExecuted), SessionError>)
        ensures
            !targets(unit, pieces@, mover.position, mover.team).contains(target) ==> r == Err::<
                (OutboundMessage, ActionExecuted),
                SessionError,
            >(SessionError::InvalidTarget),
            targets(unit, pieces@, mover.position, mover.team).contains(target) ==> match first_remote(
                self.players@,
            ) {
                None => r == Err::<(OutboundMessage, ActionExecuted), SessionError>(
                    SessionError::NoRemotePlayer,
                ),
                Some(a) => match net.resolve(None) {
                    Err(e) => r == Err::<(OutboundMessage, ActionExecuted), SessionError>(
                        SessionError::Network(e),
                    ),
                    Ok(s) => r matches Ok((m, ex)) && m.destination == a && m.socket_handle == s
                        && m.delivery == session_delivery() && m.message@ == enc_message(
                        MessageModel::MoveRequest(mover.id, target),
                    ) && ex == ActionExecuted(mover.entity, target),
                },
            },
    {
        if !is_action_valid(unit, mover, target, pieces) {
            return Err(SessionError::InvalidTarget);
        }
        match self.send_move(net, mover.id, target) {
            Ok(m) => Ok((m, ActionExecuted(mover.entity, target))),
            Err(e) => Err(e),
        }
    }
}

/// A move that this peer carried out, for the rule engine to apply here.
#[derive(Debug, Clone, Copy, PartialEq, Eq, Structural)]
pub struct ActionExecuted(pub Entity, pub Position);

/// In a game of two peers the only remote player is the first one.
pub proof fn lemma_single_remote(players: Seq<(PlayerType, PlayerInfo)>, i: int, a: Address)
    requires
        0 <= i < players.len(),
        players[i].0 == PlayerType::Remote(a),
        forall|j: int| 0 <= j < players.len() && j != i ==> players[j].0 == PlayerType::Local,
    ensures
        first_remote(players) == Some(a),
    decreases players.len(),
{
    if i > 0 {
        let rest = players.drop_first();
        assert(players[0].0 == PlayerType::Local);
        assert(rest[i - 1] == players[i]);
        assert forall|j: int| 0 <= j < rest.len() && j != i - 1 implies rest[j].0 == PlayerType::Local by {
            assert(rest[j] == players[j + 1]);
        }
        lemma_single_remote(rest, i - 1, a);
    }
}

/// The address of the first remote player among `players`.
pub open spec fn first_remote(players: Seq<(PlayerType, PlayerInfo)>) -> Option<Address>
    decreases players.len(),
{
    if players.len() == 0 {
        None
    } else {
        match players[0].0 {
            PlayerType::Remote(a) => Some(a),
            PlayerType::Local => first_remote(players.drop_first()),
        }
    }
}

/// The other team.
pub open spec fn other_team(t: Team) -> Team {
    match t {
        Team::White => Team::Black,
        Team::Black => Team::White,
    }
}

impl GameState {
    /// A networked game, this peer the host, "Player 1" on the white side.
    pub fn default() -> (r: GameState)
        ensures
            r.local_player_info@.name == "Player 1"@,
            r.local_player_info.team == Team::White,
            r.players@.len() == 0,
            r.active_team == Team::White,
            r.connection_info == ConnectionInfo::Server,
            r.game_type == GameType::Networked,
    {
        let name = String::from_str("Player 1");
        GameState {
            local_player_info: PlayerInfo { name, team: Team::White },
            players: Vec::new(),
            active_team: Team::White,
            connection_info: ConnectionInfo::Server,
            game_type: GameType::Networked,
        }
    }

    /// Makes `player_info` the local player and the only player.
    pub fn init_local_player(&mut self, player_info: PlayerInfo)
        ensures
            final(self).local_player_info@ == player_info@,
            final(self).players@.len() == 1,
            final(self).players@[0].0 == PlayerType::Local,
            final(self).players@[0].1@ == player_info@,
            final(self).active_team == old(self).active_team,
            final(self).connection_info == old(self).connection_info,
            final(self).game_type == old(self).game_type,
    {
        self.local_player_info = player_info.duplicate();
        let mut players: Vec<(PlayerType, PlayerInfo)> = Vec::new();
        players.push((PlayerType::Local, player_info));
        self.players = players;
    }

    /// The address of the first remote player, if any.
    pub fn remote_addr(&self) -> (r: Option<Address>)
        ensures
            r == first_remote(self.players@),
    {
        let mut i: usize = 0;
        assert(self.players@.subrange(0, self.players@.len() as int) =~= self.players@);
        while i < self.players.len()
            invariant
                i <= self.players@.len(),
                first_remote(self.players@) == first_remote(self.players@.subrange(i as int, self.players@.len() as int)),
            decreases self.players@.len() - i,
        {
            let ghost rest = self.players@.subrange(i as int, self.players@.len() as int);
            assert(rest.drop_first() =~= self.players@.subrange(i as int + 1, self.players@.len() as int));
            if let PlayerType::Remote(a) = self.players[i].0 {
                return Some(a);
            }
            i = i + 1;
        }
        None
    }

    /// Each executed action hands the turn to the other team.
    pub fn handle_unit_cmd(&mut self, executed: usize)
        ensures
            final(self).active_team == (if executed % 2 == 0 {
                old(self).active_team
            } else {
                other_team(old(self).active_team)
            }),
            final(self).players == old(self).players,
            final(self).local_player_info == old(self).local_player_info,
            final(self).connection_info == old(self).connection_info,
            final(self).game_type == old(self).game_type,
    {
        let mut i: usize = 0;
        while i < executed
            invariant
                i <= executed,
                self.active_team == (if i % 2 == 0 {
                    old(self).active_team
                } else {
                    other_team(old(self).active_team)
                }),
                self.players == old(self).players,
                self.local_player_info == old(self).local_player_info,
                self.connection_info == old(self).connection_info,
                self.game_type == old(self).game_type,
            decreases executed - i,
        {
            self.active_team = match self.active_team {
                Team::White => Team::Black,
                Team::Black => Team::White,
            };
            i = i + 1;
        }
    }

    /// The local player starts a game of its own.
    pub fn handle_create_game(&mut self, player_info: PlayerInfo)
        ensures
            final(self).local_player_info@ == player_info@,
            final(self).players@.len() == 1,
            final(self).players@[0].0 == PlayerType::Local,
            final(self).players@[0].1@ == player_info@,
            final(self).connection_info == old(self).connection_info,
            final(self).active_team == old(self).active_team,
            final(self).game_type == old(self).game_type,
    {
        self.init_local_player(player_info);
    }

    /// The local player joins the host at `server_addr`: this peer becomes
    /// the client, and a join request naming the player goes to the host.
    pub fn handle_join_game(
        &mut self,
        net: &NetworkResource,
        player_info: PlayerInfo,
        server_addr: Address,
    ) -> (r: Result<OutboundMessage, NetworkError>)
        ensures
            final(self).local_player_info@ == player_info@,
            final(self).players@.len() == 1,
            final(self).players@[0].0 == PlayerType::Local,
            final(self).players@[0].1@ == player_info@,
            final(self).connection_info == ConnectionInfo::Client,
            final(self).active_team == old(self).active_team,
            final(self).game_type == old(self).game_type,
            is_session_send(net, server_addr, enc_message(MessageModel::JoinRequest(player_info@)), r),
    {
        let message = Message::JoinRequest(player_info.duplicate()).to_bytes();
        self.init_local_player(player_info);
        self.connection_info = ConnectionInfo::Client;
        net.send(server_addr, message.as_slice(), session_delivery_exec())
    }

    /// The host's side of a join: the joiner becomes a remote player, and
    /// the reply carries the local player and the game to play.
    pub fn handle_join_request(
        &mut self,
        net: &NetworkResource,
        from: Address,
        player_info: PlayerInfo,
        game: &GameDescriptor,
    ) -> (r: Result<OutboundMessage, NetworkError>)
        ensures
            final(self).players@.len() == old(self).players@.len() + 1,
            final(self).players@.drop_last() == old(self).players@,
            final(self).players@.last().0 == PlayerType::Remote(from),
            final(self).players@.last().1@ == player_info@,
            final(self).local_player_info == old(self).local_player_info,
            final(self).connection_info == old(self).connection_info,
            final(self).active_team == old(self).active_team,
            final(self).game_type == old(self).game_type,
            is_session_send(
                net,
                from,
                enc_message(MessageModel::JoinResponse(old(self).local_player_info@, game@)),
                r,
            ),
    {
        self.players.push((PlayerType::Remote(from), player_info));
        let reply = Message::JoinResponse(self.local_player_info.duplicate(), game.duplicate());
        let bytes = reply.to_bytes();
        proof {
            assert(self.players@.drop_last() =~= old(self).players@);
        }
        net.send(from, bytes.as_slice(), session_delivery_exec())
    }

    /// The joiner's side: the host becomes a remote player.
    pub fn handle_join_response(&mut self, from: Address, player_info: PlayerInfo)
        ensures
            final(self).players@ == old(self).players@.push((PlayerType::Remote(from), player_info)),
            final(self).local_player_info == old(self).local_player_info,
            final(self).connection_info == old(self).connection_info,
            final(self).active_team == old(self).active_team,
            final(self).game_type == old(self).game_type,
    {
        self.players.push((PlayerType::Remote(from), player_info));
    }

    /// A local move of the piece `id` to `target`, sent to the first remote
    /// player.
    pub fn send_move(&self, net: &NetworkResource, id: Id, target: Position) -> (r: Result<
        OutboundMessage,
        SessionError,
    >)
        ensures
            match first_remote(self.players@) {
                None => r == Err::<OutboundMessage, SessionError>(SessionError::NoRemotePlayer),
                Some(a) => match net.resolve(None) {
                    Err(e) => r == Err::<OutboundMessage, SessionError>(SessionError::Network(e)),
                    Ok(s) => r matches Ok(m) && m.destination == a && m.socket_handle == s
                        && m.delivery == session_delivery() && m.message@ == enc_message(
                        MessageModel::MoveRequest(id, target),
                    ),
                },
            },
    {
        let to = match self.remote_addr() {
            Some(a) => a,
            None => {
                return Err(SessionError::NoRemotePlayer);
            },
        };
        let bytes = Message::MoveRequest(id, target).to_bytes();
        let r = match net.send(to, bytes.as_slice(), session_delivery_exec()) {
            Ok(m) => Ok(m),
            Err(e) => Err(SessionError::Network(e)),
        };
        r
    }
}

/// What a received message asks of this peer, as `handle_message` returns it.
pub open spec fn message_action_ok(
    state: &GameState,
    net: &NetworkResource,
    ids: &EntityMap<Id>,
    from: Address,
    data: Seq<u8>,
    r: &SessionAction,
) -> bool {
    match parse_message(data) {
        None => *r is Malformed,
        Some(MessageModel::JoinRequest(_)) => r matches SessionAction::Host { reply, game } && is_session_send(
            net,
            from,
            enc_message(MessageModel::JoinResponse(state.local_player_info@, game@)),
            *reply,
        ),
        Some(MessageModel::JoinResponse(_, g)) => r matches SessionAction::Join { game } && game@ == g,
        Some(MessageModel::MoveRequest(id, pos)) => if ids.fwd().contains_key(id) {
            *r == SessionAction::Move { entity: ids.fwd()[id], target: pos }
        } else {
            *r == SessionAction::UnknownId(id)
        },
    }
}

/// Handles one payload from the peer at `from`. A join request makes this
/// peer the host of `host_game`; a join response hands over the game to
/// spawn; a move resolves the piece's identity to the local entity. Bytes
/// that hold no message are dropped, never a panic.
pub fn handle_message(
    state: &mut GameState,
    net: &NetworkResource,
    ids: &EntityMap<Id>,
    host_game: &GameDescriptor,
    from: Address,
    data: &[u8],
) -> (r: SessionAction)
    requires
        ids.wf(),
    ensures
        message_action_ok(old(state), net, ids, from, data@, &r),
        parse_message(data@) matches Some(MessageModel::JoinRequest(p)) ==> r matches SessionAction::Host { game, .. } && game@ == host_game@
            && final(state).players@.len() == old(state).players@.len() + 1
            && final(state).players@.last().0 == PlayerType::Remote(from)
            && final(state).players@.last().1@ == p,
        parse_message(data@) matches Some(MessageModel::JoinResponse(p, _)) ==> final(state).players@.len()
            == old(state).players@.len() + 1 && final(state).players@.last().0 == PlayerType::Remote(from)
            && final(state).players@.last().1@ == p,
        !(parse_message(data@) matches Some(MessageModel::JoinRequest(_))) && !(parse_message(data@) matches Some(MessageModel::JoinResponse(_, _)))
            ==> final(state).players == old(state).players,
        final(state).local_player_info == old(state).local_player_info,
        final(state).active_team == old(state).active_team,
        final(state).connection_info == old(state).connection_info,
        final(state).game_type == old(state).game_type,
{
    let message = match Message::from_bytes(data) {
        Ok(m) => m,
        Err(_) => {
            return SessionAction::Malformed;
        },
    };
    match message {
        Message::JoinRequest(player_info) => {
            let reply = state.handle_join_request(net, from, player_info, host_game);
            SessionAction::Host { reply, game: host_game.duplicate() }
        },
        Message::JoinResponse(player_info, game) => {
            state.handle_join_response(from, player_info);
            SessionAction::Join { game }
        },
        Message::MoveRequest(id, target) => {
            match ids.get(&id) {
                Some(entity) => SessionAction::Move { entity: *entity, target },
                None => SessionAction::UnknownId(id),
            }
        },
    }
}

/// A piece as it stands in the local world.
#[derive(Debug, Clone, Copy, PartialEq, Eq, Structural)]
pub struct SpawnedUnit {
    pub entity: Entity,
    pub team: Team,
    pub unit: Unit,
    pub position: Position,
    pub id: Id,
}

/// The `i`-th piece of `units`, spawned as entity `first + i`.
pub open spec fn spawned_at(units: Seq<UnitDescriptor>, first: int, i: int) -> SpawnedUnit {
    SpawnedUnit {
        entity: Entity((first + i) as u64),
        team: units[i].0,
        unit: units[i].1,
        position: units[i].2,
        id: units[i].3,
    }
}

/// What the identity observer sees once `units` are spawned from `first` on.
pub open spec fn id_changes_of(units: Seq<UnitDescriptor>, first: int) -> Seq<(Entity, Id)> {
    Seq::new(units.len(), |i: int| (Entity((first + i) as u64), units[i].3))
}

/// No two pieces share an identity.
pub open spec fn unit_ids_distinct(units: Seq<UnitDescriptor>) -> bool {
    forall|i: int, j: int| 0 <= i < j < units.len() ==> units[i].3 != units[j].3
}

/// Spawns the pieces of `game` as the entities `first`, `first + 1`, ...,
/// each with the identity that the snapshot gives it.
pub fn spawn_units(game: &GameDescriptor, first: u64) -> (r: Vec<SpawnedUnit>)
    requires
        first + game.units@.len() <= u64::MAX,
    ensures
        r@.len() == game.units@.len(),
        forall|i: int| 0 <= i < r@.len() ==> #[trigger] r@[i] == spawned_at(game.units@, first as int, i),
{
    let mut r: Vec<SpawnedUnit> = Vec::new();
    let mut i: usize = 0;
    while i < game.units.len()
        invariant
            i <= game.units@.len(),
            first + game.units@.len() <= u64::MAX,
            r@.len() == i,
            forall|j: int| 0 <= j < i ==> #[trigger] r@[j] == spawned_at(game.units@, first as int, j),
        decreases game.units@.len() - i,
    {
        let (team, unit, position, id) = game.units[i];
        r.push(SpawnedUnit { entity: Entity(first + i as u64), team, unit, position, id });
        i = i + 1;
    }
    r
}

/// The identity changes that spawning `spawned` shows the observer, in order.
pub fn id_changes(spawned: &Vec<SpawnedUnit>) -> (r: Vec<(Entity, Id)>)
    ensures
        r@.len() == spawned@.len(),
        forall|i: int| 0 <= i < r@.len() ==> #[trigger] r@[i] == (spawned@[i].entity, spawned@[i].id),
{
    let mut r: Vec<(Entity, Id)> = Vec::new();
    let mut i: usize = 0;
    while i < spawned.len()
        invariant
            i <= spawned@.len(),
            r@.len() == i,
            forall|j: int| 0 <= j < i ==> #[trigger] r@[j] == (spawned@[j].entity, spawned@[j].id),
        decreases spawned@.len() - i,
    {
        r.push((spawned[i].entity, spawned[i].id));
        i = i + 1;
    }
    r
}

/// The last index of `units` whose piece has identity `id`, or -1.
pub open spec fn last_with_id(units: Seq<UnitDescriptor>, id: Id) -> int
    decreases units.len(),
{
    if units.len() == 0 {
        -1
    } else if units.last().3 == id {
        units.len() - 1
    } else {
        last_with_id(units.drop_last(), id)
    }
}

proof fn lemma_last_with_id(units: Seq<UnitDescriptor>, i: int)
    requires
        0 <= i < units.len(),
    ensures
        i <= last_with_id(units, units[i].3) < units.len(),
        units[last_with_id(units, units[i].3)].3 == units[i].3,
        unit_ids_distinct(units) ==> last_with_id(units, units[i].3) == i,
    decreases units.len(),
{
    let id = units[i].3;
    if units.last().3 != id {
        let prev = units.drop_last();
        assert(i < units.len() - 1);
        assert(prev[i] == units[i]);
        lemma_last_with_id(prev, i);
        assert(units[last_with_id(prev, id)] == prev[last_with_id(prev, id)]);
    } else if unit_ids_distinct(units) && i < units.len() - 1 {
        assert(units[i].3 != units[units.len() - 1].3);
    }
}

/// What the identity observer makes of `units` spawned from `first` on:
/// every entity it binds is one of the spawned ones, and each identity
/// stands for the last piece that carries it.
proof fn lemma_spawn_maps(units: Seq<UnitDescriptor>, first: u64)
    requires
        first + units.len() <= u64::MAX,
    ensures
        ({
            let (f, r) = apply_changes(
                vstd::map::Map::<Id, Entity>::empty(),
                vstd::map::Map::<Entity, Id>::empty(),
                id_changes_of(units, first as int),
            );
            &&& forall|e: Entity| #[trigger] r.contains_key(e) ==> first <= e.0 < first + units.len()
            &&& forall|id: Id| #[trigger] f.contains_key(id) <==> last_with_id(units, id) >= 0
            &&& forall|id: Id| #[trigger] f.contains_key(id) ==> f[id] == Entity(
                (first + last_with_id(units, id)) as u64,
            )
        }),
    decreases units.len(),
{
    let f0 = vstd::map::Map::<Id, Entity>::empty();
    let r0 = vstd::map::Map::<Entity, Id>::empty();
    let changes = id_changes_of(units, first as int);
    if units.len() == 0 {
        assert(changes.len() == 0);
    } else {
        let prev = units.drop_last();
        lemma_spawn_maps(prev, first);
        assert(changes.drop_last() =~= id_changes_of(prev, first as int));
        let (f, r) = apply_changes(f0, r0, id_changes_of(prev, first as int));
        let e = Entity((first + units.len() - 1) as u64);
        let k = units.last().3;
        assert(changes.last() == (e, k));
        assert(!r.contains_key(e));
        assert(cleared_fwd(f, r, e) == f);
        let (f2, r2) = apply_changes(f0, r0, changes);
        assert(f2 == f.insert(k, e));
        assert(r2 == cleared_rev(f, r, k).insert(e, k));
        assert forall|id: Id| #[trigger] f2.contains_key(id) <==> last_with_id(units, id) >= 0 by {
            if id != k {
                assert(f.contains_key(id) <==> last_with_id(prev, id) >= 0);
            }
        }
    }
}

/// Handshake determinism: two peers that read the same join-response bytes
/// and spawn its pieces, each from its own first entity, resolve each
/// identity of the snapshot to the same piece of it: a local entity of the
/// same side, kind and square. Where identities are distinct, that piece is
/// the one that carries the identity.
pub proof fn lemma_handshake_determinism(
    bytes: Seq<u8>,
    player: PlayerInfoModel,
    first_a: u64,
    first_b: u64,
    i: int,
)
    requires
        parse_message(bytes) matches Some(MessageModel::JoinResponse(_, g)) && first_a + g.units.len()
            <= u64::MAX && first_b + g.units.len() <= u64::MAX && 0 <= i < g.units.len(),
    ensures
        parse_message(bytes) matches Some(MessageModel::JoinResponse(_, g)) && ({
            let id = g.units[i].3;
            let j = last_with_id(g.units, id);
            let fa = apply_changes(
                vstd::map::Map::<Id, Entity>::empty(),
                vstd::map::Map::<Entity, Id>::empty(),
                id_changes_of(g.units, first_a as int),
            ).0;
            let fb = apply_changes(
                vstd::map::Map::<Id, Entity>::empty(),
                vstd::map::Map::<Entity, Id>::empty(),
                id_changes_of(g.units, first_b as int),
            ).0;
            &&& 0 <= j < g.units.len()
            &&& g.units[j].3 == id
            &&& (unit_ids_distinct(g.units) ==> j == i)
            &&& fa.contains_key(id)
            &&& fb.contains_key(id)
            &&& fa[id] == spawned_at(g.units, first_a as int, j).entity
            &&& fb[id] == spawned_at(g.units, first_b as int, j).entity
            &&& spawned_at(g.units, first_a as int, j).team == spawned_at(g.units, first_b as int, j).team
            &&& spawned_at(g.units, first_a as int, j).unit == spawned_at(g.units, first_b as int, j).unit
            &&& spawned_at(g.units, first_a as int, j).position == spawned_at(
                g.units,
                first_b as int,
                j,
            ).position
        }),
{
    if let Some(MessageModel::JoinResponse(_, g)) = parse_message(bytes) {
        lemma_last_with_id(g.units, i);
        lemma_spawn_maps(g.units, first_a);
        lemma_spawn_maps(g.units, first_b);
        let id = g.units[i].3;
        let fa = apply_changes(
            vstd::map::Map::<Id, Entity>::empty(),
            vstd::map::Map::<Entity, Id>::empty(),
            id_changes_of(g.units, first_a as int),
        ).0;
        let fb = apply_changes(
            vstd::map::Map::<Id, Entity>::empty(),
            vstd::map::Map::<Entity, Id>::empty(),
            id_changes_of(g.units, first_b as int),
        ).0;
        assert(fa.contains_key(id));
        assert(fb.contains_key(id));
    }
}

} // verus!
