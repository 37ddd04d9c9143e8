//! The data that rooms, routers and sessions exchange: players, rooms and
//! the envelopes of the wire protocol, each with its mathematical view.

use serde_json::Value;
use vstd::prelude::*;

verus! {

/// Capacity of a chat room that is created without an explicit capacity.
pub const DEFAULT_CHAT_CAPACITY: usize = 50;

/// Capacity of a card-game room that is created without an explicit capacity.
pub const DEFAULT_GAME_CAPACITY: usize = 4;

/// Capacity of the lobby.
pub const LOBBY_CAPACITY: usize = 100;

/// `str`'s `eq` from std: two string slices are equal exactly when they hold
/// the same characters.
pub assume_specification[ <str as PartialEq>::eq ](a: &str, b: &str) -> (same: bool)
    ensures
        same == (a@ == b@),
;

/// The characters of an optional string.
pub open spec fn opt_text(s: Option<String>) -> Option<Seq<char>> {
    match s {
        Some(t) => Some(t@),
        None => None,
    }
}

/// The characters of an optional string slice.
pub open spec fn opt_str(s: Option<&str>) -> Option<Seq<char>> {
    match s {
        Some(t) => Some(t@),
        None => None,
    }
}

/// The views of the elements of a sequence, in order.
pub open spec fn views<T: View>(s: Seq<T>) -> Seq<T::V> {
    s.map_values(|t: T| t@)
}

/// A copy of an optional string.
pub fn clone_opt_text(s: &Option<String>) -> (r: Option<String>)
    ensures
        opt_text(r) == opt_text(*s),
{
    match s {
        Some(t) => Some(t.clone()),
        None => None,
    }
}

/// What a room is used for.
#[derive(Debug, Clone, Copy, PartialEq, Eq, Structural)]
pub enum RoomType {
    Chat,
    CardGame,
}

impl RoomType {
    /// The capacity that a room of this kind gets when none is asked for.
    pub open spec fn spec_default_capacity(self) -> usize {
        match self {
            RoomType::Chat => DEFAULT_CHAT_CAPACITY,
            RoomType::CardGame => DEFAULT_GAME_CAPACITY,
        }
    }

    /// The capacity that a room of this kind gets when none is asked for.
    #[verifier::when_used_as_spec(spec_default_capacity)]
    pub fn default_capacity(self) -> (cap: usize)
        ensures
            cap == self.spec_default_capacity(),
    {
        match self {
            RoomType::Chat => DEFAULT_CHAT_CAPACITY,
            RoomType::CardGame => DEFAULT_GAME_CAPACITY,
        }
    }
}

/// The capacity of a new room: the one asked for, else the default of its kind.
pub open spec fn effective_capacity(room_type: RoomType, max_players: Option<usize>) -> usize {
    match max_players {
        Some(n) => n,
        None => room_type.spec_default_capacity(),
    }
}

/// A client while it is a member of a room.
#[derive(Debug, PartialEq, Eq)]
pub struct Player {
    pub id: String,
    pub name: Option<String>,
    pub ready: bool,
}

/// The mathematical value of a [`Player`].
pub struct PlayerView {
    pub id: Seq<char>,
    pub name: Option<Seq<char>>,
    pub ready: bool,
}

impl View for Player {
    type V = PlayerView;

    open spec fn view(&self) -> PlayerView {
        PlayerView { id: self.id@, name: opt_text(self.name), ready: self.ready }
    }
}

impl Clone for Player {
    fn clone(&self) -> (res: Self)
        ensures
            res@ == self@,
    {
        Player { id: self.id.clone(), name: clone_opt_text(&self.name), ready: self.ready }
    }
}

impl Player {
    /// A player as it enters a room: named as given, not ready.
    pub fn new(id: String, name: Option<String>) -> (p: Player)
        ensures
            p@ == (PlayerView { id: id@, name: opt_text(name), ready: false }),
    {
        Player { id, name, ready: false }
    }
}

/// A copy of a list of players.
pub fn clone_players(players: &Vec<Player>) -> (r: Vec<Player>)
    ensures
        views(r@) == views(players@),
{
    let mut r: Vec<Player> = Vec::new();
    let mut i: usize = 0;
    while i < players.len()
        invariant
            i <= players.len(),
            r.len() == i,
            forall|j: int| 0 <= j < i ==> r@[j]@ == players@[j]@,
        decreases players.len() - i,
    {
        r.push(players[i].clone());
        i += 1;
    }
    assert(views(r@) =~= views(players@));
    r
}

/// What the identity provider knows of a user.
#[derive(Debug, PartialEq, Eq)]
pub struct UserProfile {
    pub id: String,
    pub username: String,
}

/// The mathematical value of a [`UserProfile`].
pub struct UserProfileView {
    pub id: Seq<char>,
    pub username: Seq<char>,
}

impl View for UserProfile {
    type V = UserProfileView;

    open spec fn view(&self) -> UserProfileView {
        UserProfileView { id: self.id@, username: self.username@ }
    }
}

impl Clone for UserProfile {
    fn clone(&self) -> (res: Self)
        ensures
            res@ == self@,
    {
        UserProfile { id: self.id.clone(), username: self.username.clone() }
    }
}

/// An envelope that a client sends to the server.
#[derive(Debug, PartialEq)]
pub enum ClientMessage {
    Authenticate { token: String },
    CreateRoom { room_type: RoomType, max_players: Option<usize> },
    JoinRoom { room_id: String },
    LeaveRoom,
    SendMessage { content: String },
    GameAction { action: String, data: Value },
}

/// An envelope that the server sends to a client.
#[derive(Debug, PartialEq)]
pub enum ServerMessage {
    Connected { client_id: String },
    Authenticated { user: UserProfile },
    RoomCreated { room_id: String, room_type: RoomType },
    RoomJoined { room_id: String, room_type: RoomType, players: Vec<Player> },
    PlayerJoined { player: Player },
    PlayerLeft { client_id: String },
    ChatMessage { from: String, content: String, timestamp: i64 },
    GameState { state: Value },
    GameAction { player_id: String, action: String, data: Value },
    Error { message: String },
}

/// The mathematical value of a [`ServerMessage`].
pub enum ServerMessageView {
    Connected { client_id: Seq<char> },
    Authenticated { user: UserProfileView },
    RoomCreated { room_id: Seq<char>, room_type: RoomType },
    RoomJoined { room_id: Seq<char>, room_type: RoomType, players: Seq<PlayerView> },
    PlayerJoined { player: PlayerView },
    PlayerLeft { client_id: Seq<char> },
    ChatMessage { from: Seq<char>, content: Seq<char>, timestamp: i64 },
    GameState { state: Value },
    GameAction { player_id: Seq<char>, action: Seq<char>, data: Value },
    Error { message: Seq<char> },
}

impl View for ServerMessage {
    type V = ServerMessageView;

    open spec fn view(&self) -> ServerMessageView {
        match *self {
            ServerMessage::Connected { client_id } => ServerMessageView::Connected {
                client_id: client_id@,
            },
            ServerMessage::Authenticated { user } => ServerMessageView::Authenticated {
                user: user@,
            },
            ServerMessage::RoomCreated { room_id, room_type } => ServerMessageView::RoomCreated {
                room_id: room_id@,
                room_type,
            },
            ServerMessage::RoomJoined { room_id, room_type, players } => {
                ServerMessageView::RoomJoined {
                    room_id: room_id@,
                    room_type,
                    players: views(players@),
                }
            },
            ServerMessage::PlayerJoined { player } => ServerMessageView::PlayerJoined {
                player: player@,
            },
            ServerMessage::PlayerLeft { client_id } => ServerMessageView::PlayerLeft {
                client_id: client_id@,
            },
            ServerMessage::ChatMessage { from, content, timestamp } => {
                ServerMessageView::ChatMessage { from: from@, content: content@, timestamp }
            },
            ServerMessage::GameState { state } => ServerMessageView::GameState { state },
            ServerMessage::GameAction { player_id, action, data } => {
                ServerMessageView::GameAction { player_id: player_id@, action: action@, data }
            },
            ServerMessage::Error { message } => ServerMessageView::Error { message: message@ },
        }
    }
}

impl Clone for ServerMessage {
    fn clone(&self) -> (res: Self)
        ensures
            res@ == self@,
    {
        match self {
            ServerMessage::Connected { client_id } => ServerMessage::Connected {
                client_id: client_id.clone(),
            },
            ServerMessage::Authenticated { user } => ServerMessage::Authenticated {
                user: user.clone(),
            },
            ServerMessage::RoomCreated { room_id, room_type } => ServerMessage::RoomCreated {
                room_id: room_id.clone(),
                room_type: *room_type,
            },
            ServerMessage::RoomJoined { room_id, room_type, players } => {
                ServerMessage::RoomJoined {
                    room_id: room_id.clone(),
                    room_type: *room_type,
                    players: clone_players(players),
                }
            },
            ServerMessage::PlayerJoined { player } => ServerMessage::PlayerJoined {
                player: player.clone(),
            },
            ServerMessage::PlayerLeft { client_id } => ServerMessage::PlayerLeft {
                client_id: client_id.clone(),
            },
            ServerMessage::ChatMessage { from, content, timestamp } => {
                ServerMessage::ChatMessage {
                    from: from.clone(),
                    content: content.clone(),
                    timestamp: *timestamp,
                }
            },
            ServerMessage::GameState { state } => ServerMessage::GameState {
                state: state.clone(),
            },
            ServerMessage::GameAction { player_id, action, data } => ServerMessage::GameAction {
                player_id: player_id.clone(),
                action: action.clone(),
                data: data.clone(),
            },
            ServerMessage::Error { message } => ServerMessage::Error { message: message.clone() },
        }
    }
}

/// Why a client could not be put into a room.
#[derive(Debug, Clone, Copy, PartialEq, Eq, Structural)]
pub enum JoinError {
    RoomNotFound,
    AlreadyInRoom,
    RoomFull,
}

/// What the relay reports to a client in an error envelope.
#[derive(Debug, Clone, Copy, PartialEq, Eq, Structural)]
pub enum RelayError {
    /// A frame that is no envelope.
    Protocol,
    /// The identity provider knows no user for the token.
    Auth,
    RoomNotFound,
    RoomFull,
    AlreadyInRoom,
    /// The request needs a room, and the client is in none.
    NotInRoom,
}

impl JoinError {
    /// The same refusal, as the relay reports it.
    pub open spec fn spec_relay_error(self) -> RelayError {
        match self {
            JoinError::RoomNotFound => RelayError::RoomNotFound,
            JoinError::AlreadyInRoom => RelayError::AlreadyInRoom,
            JoinError::RoomFull => RelayError::RoomFull,
        }
    }

    /// The same refusal, as the relay reports it.
    #[verifier::when_used_as_spec(spec_relay_error)]
    pub fn relay_error(self) -> (e: RelayError)
        ensures
            e == self.spec_relay_error(),
    {
        match self {
            JoinError::RoomNotFound => RelayError::RoomNotFound,
            JoinError::AlreadyInRoom => RelayError::AlreadyInRoom,
            JoinError::RoomFull => RelayError::RoomFull,
        }
    }
}

impl RelayError {
    /// The text of the error envelope.
    pub open spec fn text(self) -> Seq<char> {
        match self {
            RelayError::Protocol => "Invalid message"@,
            RelayError::Auth => "Auth Gagal"@,
            RelayError::RoomNotFound => "Room not found"@,
            RelayError::RoomFull => "Room is full"@,
            RelayError::AlreadyInRoom => "Already in a room"@,
            RelayError::NotInRoom => "Not in a room"@,
        }
    }

    /// The text of the error envelope.
    pub fn message(self) -> (m: String)
        ensures
            m@ == self.text(),
    {
        match self {
            RelayError::Protocol => "Invalid message".to_owned(),
            RelayError::Auth => "Auth Gagal".to_owned(),
            RelayError::RoomNotFound => "Room not found".to_owned(),
            RelayError::RoomFull => "Room is full".to_owned(),
            RelayError::AlreadyInRoom => "Already in a room".to_owned(),
            RelayError::NotInRoom => "Not in a room".to_owned(),
        }
    }

    /// The error envelope.
    pub open spec fn envelope(self) -> ServerMessageView {
        ServerMessageView::Error { message: self.text() }
    }

    /// The error envelope.
    pub fn to_message(self) -> (m: ServerMessage)
        ensures
            m@ == self.envelope(),
    {
        ServerMessage::Error { message: self.message() }
    }
}

/// An envelope together with the client that it is meant for.
#[derive(Debug, PartialEq)]
pub struct Outbound {
    pub to: String,
    pub message: ServerMessage,
}

/// The mathematical value of an [`Outbound`].
pub struct OutboundView {
    pub to: Seq<char>,
    pub message: ServerMessageView,
}

impl View for Outbound {
    type V = OutboundView;

    open spec fn view(&self) -> OutboundView {
        OutboundView { to: self.to@, message: self.message@ }
    }
}

impl Clone for Outbound {
    fn clone(&self) -> (res: Self)
        ensures
            res@ == self@,
    {
        Outbound { to: self.to.clone(), message: self.message.clone() }
    }
}

/// One copy of the envelope for each of the clients, in order.
pub open spec fn addressed(to: Seq<Seq<char>>, message: ServerMessageView) -> Seq<OutboundView> {
    to.map_values(|id: Seq<char>| OutboundView { to: id, message })
}

/// One copy of the envelope for each of the clients, in order.
pub fn address_all(to: Vec<String>, message: &ServerMessage) -> (out: Vec<Outbound>)
    ensures
        views(out@) == addressed(views(to@), message@),
{
    let mut out: Vec<Outbound> = Vec::new();
    let mut i: usize = 0;
    while i < to.len()
        invariant
            i <= to.len(),
            out.len() == i,
            forall|j: int|
                0 <= j < i ==> (#[trigger] out@[j])@ == (OutboundView {
                    to: to@[j]@,
                    message: message@,
                }),
        decreases to.len() - i,
    {
        out.push(Outbound { to: to[i].clone(), message: message.clone() });
        i += 1;
    }
    assert(views(out@) =~= addressed(views(to@), message@));
    out
}

/// The mathematical value of a [`Room`]: its members in the order in which
/// they joined, and what bounds them.
pub struct RoomView {
    pub id: Seq<char>,
    pub room_type: RoomType,
    pub players: Seq<PlayerView>,
    pub max_players: usize,
    pub game_state: Option<Value>,
}

impl RoomView {
    /// A room without members and without game state.
    pub open spec fn empty(id: Seq<char>, room_type: RoomType, max_players: usize) -> RoomView {
        RoomView { id, room_type, players: Seq::empty(), max_players, game_state: None }
    }

    /// Whether the client is a member.
    pub open spec fn has_player(self, id: Seq<char>) -> bool {
        exists|i: int| 0 <= i < self.players.len() && (#[trigger] self.players[i]).id == id
    }

    /// A place in the member list that holds the client (the only one, in a
    /// well-formed room).
    pub open spec fn index_of(self, id: Seq<char>) -> int {
        choose|i: int| 0 <= i < self.players.len() && (#[trigger] self.players[i]).id == id
    }

    /// No client is listed twice.
    pub open spec fn distinct(self) -> bool {
        forall|i: int, j: int|
            0 <= i < self.players.len() && 0 <= j < self.players.len() && i != j ==> (
            #[trigger] self.players[i]).id != (#[trigger] self.players[j]).id
    }

    /// The room's invariant: no client is listed twice, and the members do
    /// not outnumber the capacity.
    pub open spec fn wf(self) -> bool {
        &&& self.distinct()
        &&& self.players.len() <= self.max_players
    }

    /// Whether no further member fits.
    pub open spec fn is_full(self) -> bool {
        self.players.len() >= self.max_players
    }

    /// The room after the player was put in: a member with the same id is
    /// replaced where it stands, a new one comes last.
    pub open spec fn with_player(self, p: PlayerView) -> RoomView {
        if self.has_player(p.id) {
            RoomView { players: self.players.update(self.index_of(p.id), p), ..self }
        } else {
            RoomView { players: self.players.push(p), ..self }
        }
    }

    /// The room after the client was taken out, the others keeping their order.
    pub open spec fn without_player(self, id: Seq<char>) -> RoomView {
        if self.has_player(id) {
            RoomView { players: self.players.remove(self.index_of(id)), ..self }
        } else {
            self
        }
    }

    /// The ids of the members, in order, leaving out `exclude`.
    pub open spec fn recipients(self, exclude: Option<Seq<char>>) -> Seq<Seq<char>> {
        self.players.filter(|p: PlayerView| Some(p.id) != exclude).map_values(
            |p: PlayerView| p.id,
        )
    }

    /// A member of `with_player(p)` is `p` or was a member before.
    pub proof fn lemma_with_player(self, p: PlayerView)
        requires
            self.distinct(),
        ensures
            self.with_player(p).distinct(),
            forall|id: Seq<char>| #[trigger]
                self.with_player(p).has_player(id) <==> (id == p.id || self.has_player(id)),
            !self.has_player(p.id) ==> self.with_player(p).players.len() == self.players.len()
                + 1,
            self.has_player(p.id) ==> self.with_player(p).players.len() == self.players.len(),
    {
        let after = self.with_player(p);
        if self.has_player(p.id) {
            let k = self.index_of(p.id);
            assert forall|id: Seq<char>| #[trigger]
                after.has_player(id) <==> (id == p.id || self.has_player(id)) by {
                if after.has_player(id) {
                    let i = choose|i: int|
                        0 <= i < after.players.len() && (#[trigger] after.players[i]).id == id;
                    if i != k {
                        assert(self.players[i].id == id);
                    }
                }
                if id == p.id {
                    assert(after.players[k].id == id);
                } else if self.has_player(id) {
                    let i = choose|i: int|
                        0 <= i < self.players.len() && (#[trigger] self.players[i]).id == id;
                    assert(after.players[i].id == id);
                }
            }
            assert forall|i: int, j: int|
                0 <= i < after.players.len() && 0 <= j < after.players.len() && i != j implies (
                #[trigger] after.players[i]).id != (#[trigger] after.players[j]).id by {
                assert(after.players[i].id == self.players[i].id);
                assert(after.players[j].id == self.players[j].id);
            }
        } else {
            let n = self.players.len() as int;
            assert forall|id: Seq<char>| #[trigger]
                after.has_player(id) <==> (id == p.id || self.has_player(id)) by {
                if after.has_player(id) {
                    let i = choose|i: int|
                        0 <= i < after.players.len() && (#[trigger] after.players[i]).id == id;
                    if i < n {
                        assert(self.players[i].id == id);
                    }
                }
                if id == p.id {
                    assert(after.players[n].id == id);
                } else if self.has_player(id) {
                    let i = choose|i: int|
                        0 <= i < self.players.len() && (#[trigger] self.players[i]).id == id;
                    assert(after.players[i].id == id);
                }
            }
            assert forall|i: int, j: int|
                0 <= i < after.players.len() && 0 <= j < after.players.len() && i != j implies (
                #[trigger] after.players[i]).id != (#[trigger] after.players[j]).id by {
                if i < n && j < n {
                    assert(self.players[i].id != self.players[j].id);
                } else if i < n {
                    assert(self.players[i].id != p.id);
                } else {
                    assert(self.players[j].id != p.id);
                }
            }
        }
    }

    /// A member of `without_player(id)` was a member before and is not `id`.
    pub proof fn lemma_without_player(self, id: Seq<char>)
        requires
            self.distinct(),
        ensures
            self.without_player(id).distinct(),
            forall|other: Seq<char>| #[trigger]
                self.without_player(id).has_player(other) <==> (other != id && self.has_player(
                    other,
                )),
            self.has_player(id) ==> self.without_player(id).players.len() + 1
                == self.players.len(),
            !self.has_player(id) ==> self.without_player(id) == self,
    {
        let after = self.without_player(id);
        if self.has_player(id) {
            let k = self.index_of(id);
            assert forall|i: int| 0 <= i < after.players.len() implies #[trigger] after.players[i]
                == self.players[if i < k { i } else { i + 1 }] by {}
            assert forall|other: Seq<char>| #[trigger]
                after.has_player(other) <==> (other != id && self.has_player(other)) by {
                if after.has_player(other) {
                    let i = choose|i: int|
                        0 <= i < after.players.len() && (#[trigger] after.players[i]).id == other;
                    let i0 = if i < k { i } else { i + 1 };
                    assert(self.players[i0].id == other);
                    assert(i0 != k);
                    assert(self.players[i0].id != self.players[k].id);
                }
                if other != id && self.has_player(other) {
                    let i = choose|i: int|
                        0 <= i < self.players.len() && (#[trigger] self.players[i]).id == other;
                    assert(i != k);
                    let i1 = if i < k { i } else { i - 1 };
                    assert(after.players[i1].id == other);
                }
            }
            assert forall|i: int, j: int|
                0 <= i < after.players.len() && 0 <= j < after.players.len() && i != j implies (
                #[trigger] after.players[i]).id != (#[trigger] after.players[j]).id by {
                let i0 = if i < k { i } else { i + 1 };
                let j0 = if j < k { j } else { j + 1 };
                assert(self.players[i0].id != self.players[j0].id);
            }
        }
    }
}

/// A bounded group of clients that share broadcasts.
#[derive(Debug)]
pub struct Room {
    id: String,
    room_type: RoomType,
    players: Vec<Player>,
    max_players: usize,
    game_state: Option<Value>,
}

impl View for Room {
    type V = RoomView;

    closed spec fn view(&self) -> RoomView {
        RoomView {
            id: self.id@,
            room_type: self.room_type,
            players: views(self.players@),
            max_players: self.max_players,
            game_state: self.game_state,
        }
    }
}

impl Clone for Room {
    fn clone(&self) -> (res: Self)
        ensures
            res@ == self@,
    {
        let game_state = match &self.game_state {
            Some(v) => Some(v.clone()),
            None => None,
        };
        Room {
            id: self.id.clone(),
            room_type: self.room_type,
            players: clone_players(&self.players),
            max_players: self.max_players,
            game_state,
        }
    }
}

impl Room {
    /// A room of the given kind and capacity, without members or game state.
    pub fn new(id: String, room_type: RoomType, max_players: usize) -> (room: Room)
        ensures
            room@ == RoomView::empty(id@, room_type, max_players),
            room@.wf(),
    {
        let room = Room { id, room_type, players: Vec::new(), max_players, game_state: None };
        assert(room@.players =~= Seq::empty());
        room
    }

    /// The room's id.
    pub fn id(&self) -> (id: &String)
        ensures
            id@ == self@.id,
    {
        &self.id
    }

    /// The room's kind.
    pub fn room_type(&self) -> (t: RoomType)
        ensures
            t == self@.room_type,
    {
        self.room_type
    }

    /// The most members the room takes.
    pub fn max_players(&self) -> (n: usize)
        ensures
            n == self@.max_players,
    {
        self.max_players
    }

    /// The game's state, which the room stores and never reads.
    pub fn game_state(&self) -> (state: &Option<Value>)
        ensures
            *state == self@.game_state,
    {
        &self.game_state
    }

    /// The number of members.
    pub fn player_count(&self) -> (n: usize)
        ensures
            n == self@.players.len(),
    {
        self.players.len()
    }

    /// Where the client stands in the member list, if it is a member.
    fn position(&self, client_id: &str) -> (r: Option<usize>)
        ensures
            match r {
                Some(i) => i < self@.players.len() && self@.players[i as int].id == client_id@,
                None => !self@.has_player(client_id@),
            },
    {
        let mut i: usize = 0;
        while i < self.players.len()
            invariant
                i <= self.players.len(),
                forall|j: int| 0 <= j < i ==> (#[trigger] self@.players[j]).id != client_id@,
            decreases self.players.len() - i,
        {
            if self.players[i].id.as_str().eq(client_id) {
                return Some(i);
            }
            i += 1;
        }
        None
    }

    /// Whether the client is a member.
    pub fn has_player(&self, client_id: &str) -> (r: bool)
        ensures
            r == self@.has_player(client_id@),
    {
        self.position(client_id).is_some()
    }

    /// Puts the player in, unless the room is full. A member with the same id
    /// is replaced. Says whether the player is in the room now.
    pub fn add_player(&mut self, player: Player) -> (added: bool)
        requires
            old(self)@.wf(),
        ensures
            added == !old(self)@.is_full(),
            added ==> final(self)@ == old(self)@.with_player(player@),
            !added ==> final(self)@ == old(self)@,
            final(self)@.wf(),
    {
        if self.players.len() >= self.max_players {
            return false;
        }
        proof {
            old(self)@.lemma_with_player(player@);
        }
        match self.position(player.id.as_str()) {
            Some(i) => {
                assert(old(self)@.index_of(player@.id) == i as int);
                self.players.set(i, player);
                assert(self@.players =~= old(self)@.players.update(i as int, player@));
            },
            None => {
                self.players.push(player);
                assert(self@.players =~= old(self)@.players.push(player@));
            },
        }
        true
    }

    /// Takes the client out. Says whether it was a member.
    pub fn remove_player(&mut self, client_id: &str) -> (removed: bool)
        requires
            old(self)@.wf(),
        ensures
            removed == old(self)@.has_player(client_id@),
            final(self)@ == old(self)@.without_player(client_id@),
            final(self)@.wf(),
    {
        proof {
            old(self)@.lemma_without_player(client_id@);
        }
        match self.position(client_id) {
            Some(i) => {
                assert(old(self)@.index_of(client_id@) == i as int);
                let _ = self.players.remove(i);
                assert(self@.players =~= old(self)@.players.remove(i as int));
                true
            },
            None => false,
        }
    }

    /// A copy of the members, in the order in which they joined.
    pub fn get_players(&self) -> (players: Vec<Player>)
        ensures
            views(players@) == self@.players,
    {
        clone_players(&self.players)
    }

    /// Whether the room has no members.
    pub fn is_empty(&self) -> (r: bool)
        ensures
            r == (self@.players.len() == 0),
    {
        self.players.len() == 0
    }

    /// The ids of the members, in order, leaving out `exclude`.
    pub fn recipients(&self, exclude: Option<&str>) -> (ids: Vec<String>)
        ensures
            views(ids@) == self@.recipients(opt_str(exclude)),
    {
        let mut ids: Vec<String> = Vec::new();
        let mut i: usize = 0;
        let ghost keep = |p: PlayerView| Some(p.id) != opt_str(exclude);
        let ghost name = |p: PlayerView| p.id;
        while i < self.players.len()
            invariant
                i <= self.players.len(),
                keep == |p: PlayerView| Some(p.id) != opt_str(exclude),
                name == |p: PlayerView| p.id,
                views(ids@) == self@.players.take(i as int).filter(keep).map_values(name),
            decreases self.players.len() - i,
        {
            let skip = match exclude {
                Some(x) => self.players[i].id.as_str().eq(x),
                None => false,
            };
            proof {
                let before = self@.players.take(i as int);
                let p = self@.players[i as int];
                assert(self@.players.take(i + 1) =~= before.push(p));
                assert(skip == !keep(p));
                before.lemma_filter_push(p, keep);
            }
            if !skip {
                let ghost earlier = ids@;
                ids.push(self.players[i].id.clone());
                proof {
                    let kept = self@.players.take(i as int).filter(keep);
                    let p = self@.players[i as int];
                    assert(views(ids@) =~= views(earlier).push(p.id));
                    assert(kept.push(p).map_values(name) =~= kept.map_values(name).push(p.id));
                }
            }
            i += 1;
        }
        assert(self@.players.take(i as int) =~= self@.players);
        ids
    }
}


} // verus!
