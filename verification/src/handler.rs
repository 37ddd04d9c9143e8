//! The message router of one authenticated client: what each request does
//! to the room registry, what is answered to the client, and what the other
//! members of its room are told.

use crate::outside::{
    clock_now, elapsed_since_epoch, random_id, seconds_in, since_epoch, whole_seconds,
};
use crate::registry::RegistryView;
use crate::room::RoomManager;
use crate::types::{
    address_all, addressed, clone_opt_text, effective_capacity, opt_text, views, ClientMessage,
    Outbound, OutboundView, Player, PlayerView, RelayError, RoomType, ServerMessage,
    ServerMessageView,
};
use serde_json::Value;
use std::time::SystemTime;
use vstd::prelude::*;

verus! {

/// What handling one request brings about.
#[derive(Debug, PartialEq)]
pub struct Outcome {
    /// The envelopes for the client that sent the request, in order.
    pub replies: Vec<ServerMessage>,
    /// The envelopes for other clients, in order.
    pub notices: Vec<Outbound>,
}

/// A request handled: the registry afterwards, and the [`Outcome`].
pub struct Routed {
    pub registry: RegistryView,
    pub replies: Seq<ServerMessageView>,
    pub notices: Seq<OutboundView>,
}

impl Outcome {
    /// Whether the outcome is that of `routed`.
    pub open spec fn matches_routed(self, routed: Routed) -> bool {
        &&& views(self.replies@) == routed.replies
        &&& views(self.notices@) == routed.notices
    }
}

impl Routed {
    /// Nothing changes, nothing is sent.
    pub open spec fn ignored(s: RegistryView) -> Routed {
        Routed { registry: s, replies: Seq::empty(), notices: Seq::empty() }
    }

    /// Nothing changes, and the client is told why.
    pub open spec fn refused(s: RegistryView, e: RelayError) -> Routed {
        Routed { registry: s, replies: seq![e.envelope()], notices: Seq::empty() }
    }

    /// A room is created under `rid` and the client is put into it. If the
    /// client cannot join (it is in a room already, or the capacity is zero)
    /// no room is left behind.
    pub open spec fn create_room(
        s: RegistryView,
        me: PlayerView,
        rid: Seq<char>,
        room_type: RoomType,
        max_players: Option<usize>,
    ) -> Routed {
        let created = s.create(rid, room_type, effective_capacity(room_type, max_players));
        match created.join_result(rid, me) {
            Ok(_) => Routed {
                registry: created.after_join(rid, me),
                replies: seq![
                    ServerMessageView::RoomCreated { room_id: rid, room_type },
                    ServerMessageView::RoomJoined { room_id: rid, room_type, players: seq![me] },
                ],
                notices: Seq::empty(),
            },
            Err(e) => Routed::refused(s, e.spec_relay_error()),
        }
    }

    /// The client is put into the room, is sent the room's members, itself
    /// among them, and the members that were there are told of it.
    pub open spec fn join_room(s: RegistryView, me: PlayerView, rid: Seq<char>) -> Routed {
        match s.join_result(rid, me) {
            Ok(_) => {
                let joined = s.after_join(rid, me);
                Routed {
                    registry: joined,
                    replies: seq![
                        ServerMessageView::RoomJoined {
                            room_id: rid,
                            room_type: joined.rooms[rid].room_type,
                            players: joined.rooms[rid].players,
                        },
                    ],
                    notices: addressed(
                        joined.recipients(rid, Some(me.id)),
                        ServerMessageView::PlayerJoined { player: me },
                    ),
                }
            },
            Err(e) => Routed::refused(s, e.spec_relay_error()),
        }
    }

    /// The client is taken out of its room, and the members that stay are
    /// told of it. Nothing happens if the client is in no room.
    pub open spec fn leave_room(s: RegistryView, me: Seq<char>) -> Routed {
        match s.leave_result(me) {
            Some(rid) => {
                let left = s.after_leave(me);
                Routed {
                    registry: left,
                    replies: Seq::empty(),
                    notices: addressed(
                        left.recipients(rid, Some(me)),
                        ServerMessageView::PlayerLeft { client_id: me },
                    ),
                }
            },
            None => Routed::ignored(s),
        }
    }

    /// The other members of the client's room are sent the text, with the
    /// sender and the time. The sender gets no copy. Without a reading of
    /// the clock nothing is sent.
    pub open spec fn send_message(
        s: RegistryView,
        me: Seq<char>,
        content: Seq<char>,
        now: Option<i64>,
    ) -> Routed {
        match s.room_of(me) {
            Some(rid) => match now {
                Some(timestamp) => Routed {
                    registry: s,
                    replies: Seq::empty(),
                    notices: addressed(
                        s.recipients(rid, Some(me)),
                        ServerMessageView::ChatMessage { from: me, content, timestamp },
                    ),
                },
                None => Routed::ignored(s),
            },
            None => Routed::refused(s, RelayError::NotInRoom),
        }
    }

    /// The other members of the client's room are sent the action as it
    /// came, with the sender. The sender gets no copy.
    pub open spec fn game_action(
        s: RegistryView,
        me: Seq<char>,
        action: Seq<char>,
        data: Value,
    ) -> Routed {
        match s.room_of(me) {
            Some(rid) => Routed {
                registry: s,
                replies: Seq::empty(),
                notices: addressed(
                    s.recipients(rid, Some(me)),
                    ServerMessageView::GameAction { player_id: me, action, data },
                ),
            },
            None => Routed::refused(s, RelayError::NotInRoom),
        }
    }

    /// What a request of an authenticated client brings about, given the id
    /// that a new room would get and the reading of the clock. A second
    /// authentication is passed over.
    pub open spec fn handle(
        s: RegistryView,
        me: PlayerView,
        message: ClientMessage,
        rid: Seq<char>,
        now: Option<i64>,
    ) -> Routed {
        match message {
            ClientMessage::Authenticate { token } => Routed::ignored(s),
            ClientMessage::CreateRoom { room_type, max_players } => Routed::create_room(
                s,
                me,
                rid,
                room_type,
                max_players,
            ),
            ClientMessage::JoinRoom { room_id } => Routed::join_room(s, me, room_id@),
            ClientMessage::LeaveRoom => Routed::leave_room(s, me.id),
            ClientMessage::SendMessage { content } => Routed::send_message(
                s,
                me.id,
                content@,
                now,
            ),
            ClientMessage::GameAction { action, data } => Routed::game_action(
                s,
                me.id,
                action@,
                data,
            ),
        }
    }

    /// Every request keeps the registry's invariant, and leaves no room
    /// without members if there was none before.
    pub proof fn handling_keeps_registry_sound(
        s: RegistryView,
        me: PlayerView,
        message: ClientMessage,
        rid: Seq<char>,
        now: Option<i64>,
    )
        requires
            s.wf(),
            !s.rooms.contains_key(rid),
        ensures
            Routed::handle(s, me, message, rid, now).registry.wf(),
            s.settled() ==> Routed::handle(s, me, message, rid, now).registry.settled(),
    {
        match message {
            ClientMessage::CreateRoom { room_type, max_players } => {
                Routed::lemma_create_room(s, me, rid, room_type, max_players);
            },
            ClientMessage::JoinRoom { room_id } => {
                Routed::lemma_join_room(s, me, room_id@);
            },
            ClientMessage::LeaveRoom => {
                RegistryView::lemma_leave_keeps_wf(s, me.id);
            },
            _ => {},
        }
    }

    /// Creating a room keeps the registry's invariant; the creator is the
    /// new room's only member.
    pub proof fn lemma_create_room(
        s: RegistryView,
        me: PlayerView,
        rid: Seq<char>,
        room_type: RoomType,
        max_players: Option<usize>,
    )
        requires
            s.wf(),
            !s.rooms.contains_key(rid),
        ensures
            s.create(rid, room_type, effective_capacity(room_type, max_players)).wf(),
            Routed::create_room(s, me, rid, room_type, max_players).registry.wf(),
            s.settled() ==> Routed::create_room(
                s,
                me,
                rid,
                room_type,
                max_players,
            ).registry.settled(),
            s.create(rid, room_type, effective_capacity(room_type, max_players)).join_result(
                rid,
                me,
            ) is Ok ==> Routed::create_room(
                s,
                me,
                rid,
                room_type,
                max_players,
            ).registry.rooms[rid].players == seq![me],
            s.create(rid, room_type, effective_capacity(room_type, max_players)).discard(rid)
                == s,
    {
        let created = s.create(rid, room_type, effective_capacity(room_type, max_players));
        RegistryView::lemma_create_keeps_wf(
            s,
            rid,
            room_type,
            effective_capacity(room_type, max_players),
        );
        RegistryView::lemma_join_keeps_wf(created, rid, me);
        if created.join_result(rid, me) is Ok {
            let joined = created.after_join(rid, me);
            assert(joined.rooms[rid].players =~= seq![me]);
            if s.settled() {
                assert forall|r: Seq<char>| #[trigger]
                    joined.rooms.contains_key(r) implies joined.rooms[r].players.len() > 0 by {
                    if r != rid {
                        assert(s.rooms.contains_key(r));
                    }
                }
            }
        }
    }

    /// Joining a room keeps the registry's invariant.
    pub proof fn lemma_join_room(s: RegistryView, me: PlayerView, rid: Seq<char>)
        requires
            s.wf(),
        ensures
            Routed::join_room(s, me, rid).registry.wf(),
            s.settled() ==> Routed::join_room(s, me, rid).registry.settled(),
    {
        RegistryView::lemma_join_keeps_wf(s, rid, me);
        if s.join_result(rid, me) is Ok && s.settled() {
            let joined = s.after_join(rid, me);
            assert forall|r: Seq<char>| #[trigger]
                joined.rooms.contains_key(r) implies joined.rooms[r].players.len() > 0 by {
                if r != rid {
                    assert(s.rooms.contains_key(r));
                }
            }
        }
    }
}

/// The router of one authenticated client.
pub struct MessageHandler {
    client_id: String,
    name: Option<String>,
}

impl MessageHandler {
    /// The client as a member of a room: its id and name, not ready.
    pub closed spec fn player(&self) -> PlayerView {
        PlayerView {
            id: self.client_id@,
            name: opt_text(self.name),
            ready: false,
        }
    }

    /// A router for the client with the given id and display name.
    pub fn new(client_id: String, name: Option<String>) -> (handler: Self)
        ensures
            handler.player() == (PlayerView {
                id: client_id@,
                name: opt_text(name),
                ready: false,
            }),
    {
        MessageHandler { client_id, name }
    }

    /// The client's id.
    pub fn client_id(&self) -> (id: &String)
        ensures
            id@ == self.player().id,
    {
        &self.client_id
    }

    /// The client as a member of a room.
    pub fn as_player(&self) -> (p: Player)
        ensures
            p@ == self.player(),
    {
        Player::new(self.client_id.clone(), clone_opt_text(&self.name))
    }

    /// Handles one request. A new room gets a fresh random id, and a chat
    /// message the time that the system clock shows; given those two, the
    /// outcome is that of [`Routed::handle`].
    pub fn handle_message(&self, rooms: &mut RoomManager, message: ClientMessage) -> (out: Outcome)
        requires
            old(rooms)@.wf(),
        ensures
            final(rooms)@.wf(),
            old(rooms)@.settled() ==> final(rooms)@.settled(),
            exists|rid: Seq<char>, now: Option<i64>|
                {
                    &&& !old(rooms)@.rooms.contains_key(rid)
                    &&& out.matches_routed(
                        #[trigger] Routed::handle(old(rooms)@, self.player(), message, rid, now),
                    )
                    &&& final(rooms)@ == Routed::handle(
                        old(rooms)@,
                        self.player(),
                        message,
                        rid,
                        now,
                    ).registry
                },
    {
        let ghost before = rooms@;
        let ghost me = self.player();
        let ghost spare = choose|rid: Seq<char>| before.first_free(Seq::empty(), rid);
        proof {
            before.lemma_first_free_exists(Seq::empty());
        }
        match message {
            ClientMessage::Authenticate { token } => {
                let out = Outcome { replies: Vec::new(), notices: Vec::new() };
                proof {
                    assert(views(out.replies@) =~= Seq::empty());
                    assert(views(out.notices@) =~= Seq::empty());
                    assert(out.matches_routed(Routed::handle(before, me, message, spare, None)));
                }
                out
            },
            ClientMessage::CreateRoom { room_type, max_players } => {
                let out = self.handle_create_room(rooms, room_type, max_players);
                proof {
                    let rid = choose|rid: Seq<char>|
                        {
                            &&& !before.rooms.contains_key(rid)
                            &&& out.matches_routed(
                                #[trigger] Routed::create_room(
                                    before,
                                    me,
                                    rid,
                                    room_type,
                                    max_players,
                                ),
                            )
                            &&& rooms@ == Routed::create_room(
                                before,
                                me,
                                rid,
                                room_type,
                                max_players,
                            ).registry
                        };
                    Routed::handling_keeps_registry_sound(before, me, message, rid, None);
                    assert(out.matches_routed(Routed::handle(before, me, message, rid, None)));
                }
                out
            },
            ClientMessage::JoinRoom { room_id } => {
                let out = self.handle_join_room(rooms, room_id.as_str());
                proof {
                    Routed::handling_keeps_registry_sound(before, me, message, spare, None);
                    assert(out.matches_routed(Routed::handle(before, me, message, spare, None)));
                }
                out
            },
            ClientMessage::LeaveRoom => {
                let out = self.handle_leave_room(rooms);
                proof {
                    Routed::handling_keeps_registry_sound(before, me, message, spare, None);
                    assert(out.matches_routed(Routed::handle(before, me, message, spare, None)));
                }
                out
            },
            ClientMessage::SendMessage { content } => {
                let out = self.handle_send_message(rooms, content.as_str());
                proof {
                    let now = choose|now: Option<i64>|
                        out.matches_routed(
                            #[trigger] Routed::send_message(before, me.id, content@, now),
                        );
                    assert(out.matches_routed(Routed::handle(before, me, message, spare, now)));
                }
                out
            },
            ClientMessage::GameAction { action, data } => {
                let out = self.handle_game_action(rooms, action.as_str(), data);
                proof {
                    assert(out.matches_routed(Routed::handle(before, me, message, spare, None)));
                }
                out
            },
        }
    }

    /// Handles one request, given the id to try for a new room and the
    /// reading of the clock.
    pub fn handle_message_with(
        &self,
        rooms: &mut RoomManager,
        message: ClientMessage,
        candidate: String,
        now: Option<i64>,
    ) -> (out: Outcome)
        requires
            old(rooms)@.wf(),
        ensures
            final(rooms)@.wf(),
            forall|rid: Seq<char>|
                old(rooms)@.first_free(candidate@, rid) ==> out.matches_routed(
                    #[trigger] Routed::handle(old(rooms)@, self.player(), message, rid, now),
                ) && final(rooms)@ == Routed::handle(
                    old(rooms)@,
                    self.player(),
                    message,
                    rid,
                    now,
                ).registry,
    {
        match message {
            ClientMessage::Authenticate { token } => {
                let out = Outcome { replies: Vec::new(), notices: Vec::new() };
                assert(views(out.replies@) =~= Seq::empty());
                assert(views(out.notices@) =~= Seq::empty());
                out
            },
            ClientMessage::CreateRoom { room_type, max_players } => {
                proof {
                    assert forall|rid: Seq<char>, other: Seq<char>|
                        old(rooms)@.first_free(candidate@, rid) && old(rooms)@.first_free(
                            candidate@,
                            other,
                        ) implies rid == other by {
                        crate::registry::lemma_first_free_unique(
                            old(rooms)@,
                            candidate@,
                            rid,
                            other,
                        );
                    }
                }
                self.handle_create_room_as(rooms, candidate, room_type, max_players)
            },
            ClientMessage::JoinRoom { room_id } => self.handle_join_room(rooms, room_id.as_str()),
            ClientMessage::LeaveRoom => self.handle_leave_room(rooms),
            ClientMessage::SendMessage { content } => self.handle_send_message_at(
                rooms,
                content.as_str(),
                now,
            ),
            ClientMessage::GameAction { action, data } => self.handle_game_action(
                rooms,
                action.as_str(),
                data,
            ),
        }
    }

    /// Creates a room under a fresh random id and puts the client into it.
    /// The client is sent the new room and its member list, or the reason
    /// why it could not join; in that case no room is left behind.
    pub fn handle_create_room(
        &self,
        rooms: &mut RoomManager,
        room_type: RoomType,
        max_players: Option<usize>,
    ) -> (out: Outcome)
        requires
            old(rooms)@.wf(),
        ensures
            final(rooms)@.wf(),
            exists|rid: Seq<char>|
                {
                    &&& !old(rooms)@.rooms.contains_key(rid)
                    &&& out.matches_routed(
                        #[trigger] Routed::create_room(
                            old(rooms)@,
                            self.player(),
                            rid,
                            room_type,
                            max_players,
                        ),
                    )
                    &&& final(rooms)@ == Routed::create_room(
                        old(rooms)@,
                        self.player(),
                        rid,
                        room_type,
                        max_players,
                    ).registry
                },
    {
        self.handle_create_room_as(rooms, random_id(), room_type, max_players)
    }

    /// Creates a room under the first free id that `candidate` gives and
    /// puts the client into it.
    pub fn handle_create_room_as(
        &self,
        rooms: &mut RoomManager,
        candidate: String,
        room_type: RoomType,
        max_players: Option<usize>,
    ) -> (out: Outcome)
        requires
            old(rooms)@.wf(),
        ensures
            final(rooms)@.wf(),
            exists|rid: Seq<char>|
                {
                    &&& old(rooms)@.first_free(candidate@, rid)
                    &&& out.matches_routed(
                        #[trigger] Routed::create_room(
                            old(rooms)@,
                            self.player(),
                            rid,
                            room_type,
                            max_players,
                        ),
                    )
                    &&& final(rooms)@ == Routed::create_room(
                        old(rooms)@,
                        self.player(),
                        rid,
                        room_type,
                        max_players,
                    ).registry
                },
    {
        let room_id = rooms.create_room_as(candidate, room_type, max_players);
        let me = self.as_player();
        let ghost routed = Routed::create_room(
            old(rooms)@,
            self.player(),
            room_id@,
            room_type,
            max_players,
        );
        proof {
            Routed::lemma_create_room(old(rooms)@, self.player(), room_id@, room_type, max_players);
        }
        let out = match rooms.join_room(room_id.as_str(), me.clone()) {
            Ok(_) => {
                let mut players: Vec<Player> = Vec::new();
                players.push(me);
                let mut replies: Vec<ServerMessage> = Vec::new();
                replies.push(ServerMessage::RoomCreated { room_id: room_id.clone(), room_type });
                replies.push(ServerMessage::RoomJoined { room_id, room_type, players });
                proof {
                    assert(views(players@) =~= seq![self.player()]);
                    assert(views(replies@) =~= routed.replies);
                }
                Outcome { replies, notices: Vec::new() }
            },
            Err(e) => {
                rooms.discard_room(room_id.as_str());
                let mut replies: Vec<ServerMessage> = Vec::new();
                replies.push(e.relay_error().to_message());
                assert(views(replies@) =~= routed.replies);
                Outcome { replies, notices: Vec::new() }
            },
        };
        assert(views(out.notices@) =~= routed.notices);
        out
    }

    /// Puts the client into the room. The client is sent the room's member
    /// list, or the reason why it could not join; the members that were
    /// there are told of the new one.
    pub fn handle_join_room(&self, rooms: &mut RoomManager, room_id: &str) -> (out: Outcome)
        requires
            old(rooms)@.wf(),
        ensures
            final(rooms)@.wf(),
            out.matches_routed(Routed::join_room(old(rooms)@, self.player(), room_id@)),
            final(rooms)@ == Routed::join_room(old(rooms)@, self.player(), room_id@).registry,
    {
        let me = self.as_player();
        let ghost routed = Routed::join_room(old(rooms)@, self.player(), room_id@);
        match rooms.join_room(room_id, me.clone()) {
            Ok(_) => {
                let mut replies: Vec<ServerMessage> = Vec::new();
                match rooms.get_room(room_id) {
                    Some(room) => {
                        replies.push(
                            ServerMessage::RoomJoined {
                                room_id: room_id.to_owned(),
                                room_type: room.room_type(),
                                players: room.get_players(),
                            },
                        );
                    },
                    None => {},
                }
                assert(views(replies@) =~= routed.replies);
                let others = rooms.room_recipients(room_id, Some(self.client_id.as_str()));
                let notices = address_all(others, &ServerMessage::PlayerJoined { player: me });
                Outcome { replies, notices }
            },
            Err(e) => {
                let mut replies: Vec<ServerMessage> = Vec::new();
                replies.push(e.relay_error().to_message());
                assert(views(replies@) =~= routed.replies);
                let out = Outcome { replies, notices: Vec::new() };
                assert(views(out.notices@) =~= routed.notices);
                out
            },
        }
    }

    /// Takes the client out of its room and tells the members that stay.
    /// The client itself is sent nothing.
    pub fn handle_leave_room(&self, rooms: &mut RoomManager) -> (out: Outcome)
        requires
            old(rooms)@.wf(),
        ensures
            final(rooms)@.wf(),
            out.matches_routed(Routed::leave_room(old(rooms)@, self.player().id)),
            final(rooms)@ == Routed::leave_room(old(rooms)@, self.player().id).registry,
    {
        let ghost routed = Routed::leave_room(old(rooms)@, self.player().id);
        let replies: Vec<ServerMessage> = Vec::new();
        assert(views(replies@) =~= routed.replies);
        match rooms.leave_room(self.client_id.as_str()) {
            Some(room_id) => {
                let others = rooms.room_recipients(
                    room_id.as_str(),
                    Some(self.client_id.as_str()),
                );
                let notices = address_all(
                    others,
                    &ServerMessage::PlayerLeft { client_id: self.client_id.clone() },
                );
                Outcome { replies, notices }
            },
            None => {
                let out = Outcome { replies, notices: Vec::new() };
                assert(views(out.notices@) =~= routed.notices);
                out
            },
        }
    }

    /// Sends the text to the other members of the client's room, with the
    /// time that the system clock shows.
    pub fn handle_send_message(&self, rooms: &RoomManager, content: &str) -> (out: Outcome)
        ensures
            exists|now: Option<i64>|
                out.matches_routed(
                    #[trigger] Routed::send_message(rooms@, self.player().id, content@, now),
                ),
    {
        let now = current_timestamp();
        self.handle_send_message_at(rooms, content, now)
    }

    /// Sends the text to the other members of the client's room, with the
    /// given time.
    pub fn handle_send_message_at(
        &self,
        rooms: &RoomManager,
        content: &str,
        now: Option<i64>,
    ) -> (out: Outcome)
        ensures
            out.matches_routed(Routed::send_message(rooms@, self.player().id, content@, now)),
    {
        let ghost routed = Routed::send_message(rooms@, self.player().id, content@, now);
        let mut replies: Vec<ServerMessage> = Vec::new();
        let mut notices: Vec<Outbound> = Vec::new();
        match rooms.get_client_room(self.client_id.as_str()) {
            Some(room_id) => {
                match now {
                    Some(timestamp) => {
                        let others = rooms.room_recipients(
                            room_id.as_str(),
                            Some(self.client_id.as_str()),
                        );
                        notices =
                        address_all(
                            others,
                            &ServerMessage::ChatMessage {
                                from: self.client_id.clone(),
                                content: content.to_owned(),
                                timestamp,
                            },
                        );
                    },
                    None => {
                        assert(views(notices@) =~= routed.notices);
                    },
                }
            },
            None => {
                replies.push(RelayError::NotInRoom.to_message());
                assert(views(notices@) =~= routed.notices);
            },
        }
        assert(views(replies@) =~= routed.replies);
        Outcome { replies, notices }
    }

    /// Passes the action on to the other members of the client's room, as
    /// it came.
    pub fn handle_game_action(&self, rooms: &RoomManager, action: &str, data: Value) -> (out:
        Outcome)
        ensures
            out.matches_routed(Routed::game_action(rooms@, self.player().id, action@, data)),
    {
        let ghost routed = Routed::game_action(rooms@, self.player().id, action@, data);
        let mut replies: Vec<ServerMessage> = Vec::new();
        let mut notices: Vec<Outbound> = Vec::new();
        match rooms.get_client_room(self.client_id.as_str()) {
            Some(room_id) => {
                let others = rooms.room_recipients(
                    room_id.as_str(),
                    Some(self.client_id.as_str()),
                );
                notices =
                address_all(
                    others,
                    &ServerMessage::GameAction {
                        player_id: self.client_id.clone(),
                        action: action.to_owned(),
                        data,
                    },
                );
            },
            None => {
                replies.push(RelayError::NotInRoom.to_message());
                assert(views(notices@) =~= routed.notices);
            },
        }
        assert(views(replies@) =~= routed.replies);
        Outcome { replies, notices }
    }

    /// What is left to do when the client's connection ends: the client
    /// leaves its room, as if it had asked to.
    pub fn cleanup(&self, rooms: &mut RoomManager) -> (out: Outcome)
        requires
            old(rooms)@.wf(),
        ensures
            final(rooms)@.wf(),
            out.matches_routed(Routed::leave_room(old(rooms)@, self.player().id)),
            final(rooms)@ == Routed::leave_room(old(rooms)@, self.player().id).registry,
    {
        self.handle_leave_room(rooms)
    }
}

/// The time that the system clock shows, in seconds since the Unix epoch;
/// `None` when the clock reads earlier than the epoch.
pub fn current_timestamp() -> (now: Option<i64>)
    ensures
        exists|reading: SystemTime| now == #[trigger] timestamp_at(reading),
{
    let reading = clock_now();
    let now = match since_epoch(&reading) {
        Some(elapsed) => Some(#[verifier::truncate] (whole_seconds(&elapsed) as i64)),
        None => None,
    };
    assert(now == timestamp_at(reading));
    now
}

/// The timestamp of a reading of the clock: the whole seconds that it is
/// past the Unix epoch, as a signed number; `None` for a reading that is
/// earlier than the epoch.
pub open spec fn timestamp_at(reading: SystemTime) -> Option<i64> {
    match elapsed_since_epoch(reading) {
        Some(elapsed) => Some(seconds_in(elapsed) as i64),
        None => None,
    }
}

} // verus!
