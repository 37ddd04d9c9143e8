//! One connection from accept to close: what each event on the transport
//! does to the session, to the two registries, and what has to be done next.
//!
//! The session decides and never waits. What takes waiting (looking up an
//! identity, writing a pong, closing the transport) is handed back as an
//! action, and its result comes in as the next event.

use crate::connection::ConnectionManager;
use crate::handler::{MessageHandler, Outcome, Routed};
use crate::outside::{channel_send, random_id};
use crate::registry::RegistryView;
use crate::room::RoomManager;
use crate::types::{
    address_all, addressed, views, ClientMessage, Outbound, OutboundView, PlayerView, RelayError,
    RoomType, ServerMessage, ServerMessageView, UserProfile, LOBBY_CAPACITY,
};
use tokio::sync::mpsc::UnboundedSender;
use vstd::prelude::*;

verus! {

/// The id of the room that every client is put into when it has
/// authenticated.
pub open spec fn lobby_id() -> Seq<char> {
    "lobby"@
}

/// The id of the room that every client is put into when it has
/// authenticated.
pub fn lobby() -> (id: &'static str)
    ensures
        id@ == lobby_id(),
{
    "lobby"
}

/// Where a connection stands between accept and close.
#[derive(Debug, Clone, Copy, PartialEq, Eq, Structural)]
pub enum SessionState {
    /// The transport's handshake is under way.
    Connecting,
    /// Frames are read and written.
    Open,
    /// The inbound side has ended and the session has cleaned up; the
    /// transport is being shut.
    Closing,
    /// The transport is shut.
    Closed,
}

impl SessionState {
    /// How far the state is on the way from accept to close.
    pub open spec fn rank(self) -> int {
        match self {
            SessionState::Connecting => 0,
            SessionState::Open => 1,
            SessionState::Closing => 2,
            SessionState::Closed => 3,
        }
    }
}

/// What happens on a connection.
#[derive(Debug, PartialEq)]
pub enum SessionEvent {
    /// The transport's handshake has succeeded.
    Accepted,
    /// A text frame has come in: the envelope it holds, or `None` if it
    /// holds none.
    Frame(Option<ClientMessage>),
    /// The identity provider has answered: the user's profile, or `None` if
    /// it knows no user for the token or the lookup failed.
    Identity(Option<UserProfile>),
    /// A keepalive frame has come in.
    Ping(Vec<u8>),
    /// The inbound side has ended: the peer closed, or the transport failed.
    Disconnected,
    /// The transport is shut.
    Closed,
}

/// What has to be done for a connection.
#[derive(Debug, PartialEq)]
pub enum SessionAction {
    /// Send the envelope to this connection's client.
    Reply(ServerMessage),
    /// Send the envelope to another client, through the connection registry.
    Deliver(Outbound),
    /// Ask the identity provider who the bearer of the token is, and come
    /// back with [`SessionEvent::Identity`].
    LookupIdentity(String),
    /// Answer a keepalive frame with the same payload.
    Pong(Vec<u8>),
    /// Shut the transport, and come back with [`SessionEvent::Closed`].
    Close,
}

/// The mathematical value of a [`SessionAction`].
pub enum SessionActionView {
    Reply(ServerMessageView),
    Deliver(OutboundView),
    LookupIdentity(Seq<char>),
    Pong(Seq<u8>),
    Close,
}

impl View for SessionAction {
    type V = SessionActionView;

    open spec fn view(&self) -> SessionActionView {
        match *self {
            SessionAction::Reply(m) => SessionActionView::Reply(m@),
            SessionAction::Deliver(o) => SessionActionView::Deliver(o@),
            SessionAction::LookupIdentity(token) => SessionActionView::LookupIdentity(token@),
            SessionAction::Pong(payload) => SessionActionView::Pong(payload@),
            SessionAction::Close => SessionActionView::Close,
        }
    }
}

impl SessionActionView {
    /// Whether the action is a send, which the session does itself.
    pub open spec fn is_send(self) -> bool {
        self is Reply || self is Deliver
    }
}

/// The replies and notices of an outcome as actions: the replies first.
pub open spec fn sends(replies: Seq<ServerMessageView>, notices: Seq<OutboundView>) -> Seq<
    SessionActionView,
> {
    replies.map_values(|m: ServerMessageView| SessionActionView::Reply(m)) + notices.map_values(
        |o: OutboundView| SessionActionView::Deliver(o),
    )
}

/// The actions that are left when the sends are done.
pub open spec fn not_sends(actions: Seq<SessionActionView>) -> Seq<SessionActionView> {
    actions.filter(|a: SessionActionView| !a.is_send())
}

/// The mathematical value of a [`Session`].
pub struct SessionView {
    pub state: SessionState,
    /// The id that the connection is given when it is accepted.
    pub session_id: Seq<char>,
    /// The connection's own delivery handle.
    pub handle: UnboundedSender<ServerMessage>,
    /// The client as the session knows it once it has authenticated.
    pub identity: Option<PlayerView>,
    /// Whether an identity lookup is under way.
    pub awaiting: bool,
}

/// The session, the room registry and the connection registry together.
pub struct World {
    pub session: SessionView,
    pub registry: RegistryView,
    pub links: Map<Seq<char>, UnboundedSender<ServerMessage>>,
}

/// One event handled: the world afterwards and what has to be done.
pub struct Stepped {
    pub world: World,
    pub actions: Seq<SessionActionView>,
}

impl World {
    /// The world with the session in another state.
    pub open spec fn in_state(self, state: SessionState) -> World {
        World { session: SessionView { state, ..self.session }, ..self }
    }

    /// Nothing changes, nothing is to be done.
    pub open spec fn idle(self) -> Stepped {
        Stepped { world: self, actions: Seq::empty() }
    }

    /// A frame has come in while the connection is open. One that holds no
    /// envelope is answered with a protocol error. A token is looked up
    /// unless the client has authenticated or a lookup is under way. Every
    /// other request is routed if the client has authenticated, and passed
    /// over if it has not.
    pub open spec fn on_frame(
        self,
        frame: Option<ClientMessage>,
        rid: Seq<char>,
        now: Option<i64>,
    ) -> Stepped {
        match frame {
            None => Stepped {
                world: self,
                actions: seq![SessionActionView::Reply(RelayError::Protocol.envelope())],
            },
            Some(ClientMessage::Authenticate { token }) => {
                if self.session.identity is None && !self.session.awaiting {
                    Stepped {
                        world: World {
                            session: SessionView { awaiting: true, ..self.session },
                            ..self
                        },
                        actions: seq![SessionActionView::LookupIdentity(token@)],
                    }
                } else {
                    self.idle()
                }
            },
            Some(message) => match self.session.identity {
                Some(me) => {
                    let routed = Routed::handle(self.registry, me, message, rid, now);
                    Stepped {
                        world: World { registry: routed.registry, ..self },
                        actions: sends(routed.replies, routed.notices),
                    }
                },
                None => self.idle(),
            },
        }
    }

    /// The identity provider has answered while the connection is open and
    /// waits for it. With a profile the client is authenticated: its handle
    /// is registered under the profile's id, it is put into the lobby, which
    /// is created if need be, it is sent its profile, and the lobby's other
    /// members are told of it. If it cannot join the lobby it is
    /// authenticated all the same. Without a profile the client is told that
    /// authentication failed and may try again.
    pub open spec fn on_identity(self, profile: Option<UserProfile>) -> Stepped {
        if !self.session.awaiting || self.session.identity is Some {
            self.idle()
        } else {
            match profile {
                None => Stepped {
                    world: World {
                        session: SessionView { awaiting: false, ..self.session },
                        ..self
                    },
                    actions: seq![SessionActionView::Reply(RelayError::Auth.envelope())],
                },
                Some(user) => {
                    let me = PlayerView { id: user@.id, name: Some(user@.username), ready: false };
                    let opened = self.registry.open(lobby_id(), RoomType::Chat, LOBBY_CAPACITY);
                    let joined = opened.after_join(lobby_id(), me);
                    let notices = if opened.join_result(lobby_id(), me) is Ok {
                        addressed(
                            joined.recipients(lobby_id(), Some(me.id)),
                            ServerMessageView::PlayerJoined { player: me },
                        )
                    } else {
                        Seq::empty()
                    };
                    Stepped {
                        world: World {
                            session: SessionView {
                                awaiting: false,
                                identity: Some(me),
                                ..self.session
                            },
                            registry: joined.discard(lobby_id()),
                            links: self.links.insert(me.id, self.session.handle),
                        },
                        actions: sends(
                            seq![ServerMessageView::Authenticated { user: user@ }],
                            notices,
                        ),
                    }
                },
            }
        }
    }

    /// The session cleans up: a client that has authenticated leaves its
    /// room, the members that stay are told, and the client's handle is
    /// taken out of the connection registry.
    pub open spec fn cleaned_up(self) -> Stepped {
        match self.session.identity {
            Some(me) => {
                let routed = Routed::leave_room(self.registry, me.id);
                Stepped {
                    world: World {
                        registry: routed.registry,
                        links: self.links.remove(me.id),
                        ..self
                    },
                    actions: sends(routed.replies, routed.notices),
                }
            },
            None => self.idle(),
        }
    }

    /// The connection ends, by way of `state`: the session cleans up if it
    /// has not yet, which is the case exactly when it has not left `Open`.
    pub open spec fn on_end(self, state: SessionState) -> Stepped {
        match self.session.state {
            SessionState::Connecting => self.in_state(SessionState::Closed).idle(),
            SessionState::Open => {
                let cleaned = self.cleaned_up();
                Stepped {
                    world: cleaned.world.in_state(state),
                    actions: if state == SessionState::Closing {
                        cleaned.actions.push(SessionActionView::Close)
                    } else {
                        cleaned.actions
                    },
                }
            },
            SessionState::Closing => if state == SessionState::Closed {
                self.in_state(SessionState::Closed).idle()
            } else {
                self.idle()
            },
            SessionState::Closed => self.idle(),
        }
    }

    /// What an event brings about, given the id that a new room would get
    /// and the reading of the clock.
    pub open spec fn next(self, event: SessionEvent, rid: Seq<char>, now: Option<i64>) -> Stepped {
        match event {
            SessionEvent::Accepted => if self.session.state == SessionState::Connecting {
                Stepped {
                    world: self.in_state(SessionState::Open),
                    actions: seq![
                        SessionActionView::Reply(
                            ServerMessageView::Connected { client_id: self.session.session_id },
                        ),
                    ],
                }
            } else {
                self.idle()
            },
            SessionEvent::Frame(frame) => if self.session.state == SessionState::Open {
                self.on_frame(frame, rid, now)
            } else {
                self.idle()
            },
            SessionEvent::Identity(profile) => if self.session.state == SessionState::Open {
                self.on_identity(profile)
            } else {
                self.idle()
            },
            SessionEvent::Ping(payload) => if self.session.state == SessionState::Open {
                Stepped { world: self, actions: seq![SessionActionView::Pong(payload@)] }
            } else {
                self.idle()
            },
            SessionEvent::Disconnected => self.on_end(SessionState::Closing),
            SessionEvent::Closed => self.on_end(SessionState::Closed),
        }
    }
}

/// A session only advances: from `Connecting` by way of `Open` and
/// `Closing` to `Closed`, or some steps of that way at once.
pub proof fn session_only_advances(w: World, event: SessionEvent, rid: Seq<char>, now: Option<i64>)
    ensures
        w.next(event, rid, now).world.session.state.rank() >= w.session.state.rank(),
        w.next(event, rid, now).world.session.session_id == w.session.session_id,
        w.next(event, rid, now).world.session.handle == w.session.handle,
{
}

/// A client that has authenticated stays who it is, whatever comes.
pub proof fn authentication_is_kept(
    w: World,
    event: SessionEvent,
    rid: Seq<char>,
    now: Option<i64>,
)
    requires
        w.session.identity is Some,
    ensures
        w.next(event, rid, now).world.session.identity == w.session.identity,
{
}

/// A client authenticates in one way only: by a profile that comes in while
/// the open connection waits for one.
pub proof fn authentication_needs_a_profile(
    w: World,
    event: SessionEvent,
    rid: Seq<char>,
    now: Option<i64>,
)
    requires
        w.session.identity is None,
        w.next(event, rid, now).world.session.identity is Some,
    ensures
        w.session.state == SessionState::Open,
        w.session.awaiting,
        event matches SessionEvent::Identity(Some(user)) && w.next(
            event,
            rid,
            now,
        ).world.session.identity->0.id == user@.id,
{
}

/// A client that has not authenticated changes no room and reaches no other
/// client, whatever it sends.
pub proof fn unauthenticated_frames_change_nothing(
    w: World,
    frame: Option<ClientMessage>,
    rid: Seq<char>,
    now: Option<i64>,
)
    requires
        w.session.identity is None,
    ensures
        w.next(SessionEvent::Frame(frame), rid, now).world.registry == w.registry,
        w.next(SessionEvent::Frame(frame), rid, now).world.links == w.links,
        forall|i: int|
            0 <= i < w.next(SessionEvent::Frame(frame), rid, now).actions.len() ==> !(w.next(
                SessionEvent::Frame(frame),
                rid,
                now,
            ).actions[i] is Deliver),
{
}

/// A frame that holds no envelope is answered with one error envelope, and
/// the connection stays open.
pub proof fn malformed_frame_keeps_connection_open(w: World, rid: Seq<char>, now: Option<i64>)
    requires
        w.session.state == SessionState::Open,
    ensures
        w.next(SessionEvent::Frame(None), rid, now).world == w,
        w.next(SessionEvent::Frame(None), rid, now).actions == seq![
            SessionActionView::Reply(RelayError::Protocol.envelope()),
        ],
{
}

/// The session cleans up when it leaves `Open`, and then only: afterwards
/// the client is in no room and has no handle in the connection registry.
pub proof fn leaving_open_cleans_up(
    w: World,
    event: SessionEvent,
    rid: Seq<char>,
    now: Option<i64>,
)
    requires
        w.registry.wf(),
        w.session.state == SessionState::Open,
        w.next(event, rid, now).world.session.state != SessionState::Open,
    ensures
        event is Disconnected || event is Closed,
        w.next(event, rid, now).world == w.cleaned_up().world.in_state(
            w.next(event, rid, now).world.session.state,
        ),
        w.session.identity matches Some(me) ==> !w.next(
            event,
            rid,
            now,
        ).world.registry.index.contains_key(me.id) && !w.next(
            event,
            rid,
            now,
        ).world.links.contains_key(me.id),
{
    if let Some(me) = w.session.identity {
        RegistryView::lemma_leave_keeps_wf(w.registry, me.id);
    }
}

/// A session that has left `Open` is done with both registries: no event
/// changes them or has anything sent, so that the cleaning up is not done a
/// second time.
pub proof fn ended_session_is_inert(
    w: World,
    event: SessionEvent,
    rid: Seq<char>,
    now: Option<i64>,
)
    requires
        w.session.state == SessionState::Closing || w.session.state == SessionState::Closed,
    ensures
        w.next(event, rid, now).world.registry == w.registry,
        w.next(event, rid, now).world.links == w.links,
        w.next(event, rid, now).actions == Seq::<SessionActionView>::empty(),
{
}

/// Cleaning up is idempotent: done a second time, it changes nothing and
/// has nothing sent.
pub proof fn cleaning_up_is_idempotent(w: World)
    requires
        w.registry.wf(),
    ensures
        w.cleaned_up().world.cleaned_up().world == w.cleaned_up().world,
        w.cleaned_up().world.cleaned_up().actions == Seq::<SessionActionView>::empty(),
{
    if let Some(me) = w.session.identity {
        RegistryView::lemma_leave_keeps_wf(w.registry, me.id);
        let once = w.cleaned_up().world;
        assert(once.links.remove(me.id) =~= once.links);
        let again = Routed::leave_room(once.registry, me.id);
        assert(sends(again.replies, again.notices) =~= Seq::empty());
    }
}

/// Every event keeps the room registry's invariant, and leaves no room
/// without members if there was none before.
pub proof fn step_keeps_registry_sound(
    w: World,
    event: SessionEvent,
    rid: Seq<char>,
    now: Option<i64>,
)
    requires
        w.registry.wf(),
        !w.registry.rooms.contains_key(rid),
    ensures
        w.next(event, rid, now).world.registry.wf(),
        w.registry.settled() ==> w.next(event, rid, now).world.registry.settled(),
{
    match event {
        SessionEvent::Frame(Some(message)) => {
            if let Some(me) = w.session.identity {
                Routed::handling_keeps_registry_sound(w.registry, me, message, rid, now);
            }
        },
        SessionEvent::Identity(Some(user)) => {
            let me = PlayerView { id: user@.id, name: Some(user@.username), ready: false };
            lemma_enter_lobby(w.registry, me);
        },
        SessionEvent::Disconnected | SessionEvent::Closed => {
            if let Some(me) = w.session.identity {
                RegistryView::lemma_leave_keeps_wf(w.registry, me.id);
            }
        },
        _ => {},
    }
}

/// Putting a client into the lobby, which is created if need be and taken
/// away again if it stays empty, keeps the registry's invariant.
proof fn lemma_enter_lobby(s: RegistryView, me: PlayerView)
    requires
        s.wf(),
    ensures
        s.open(lobby_id(), RoomType::Chat, LOBBY_CAPACITY).wf(),
        s.open(lobby_id(), RoomType::Chat, LOBBY_CAPACITY).after_join(lobby_id(), me).discard(
            lobby_id(),
        ).wf(),
        s.settled() ==> s.open(lobby_id(), RoomType::Chat, LOBBY_CAPACITY).after_join(
            lobby_id(),
            me,
        ).discard(lobby_id()).settled(),
{
    let rid = lobby_id();
    let opened = s.open(rid, RoomType::Chat, LOBBY_CAPACITY);
    if !s.rooms.contains_key(rid) {
        Routed::lemma_create_room(s, me, rid, RoomType::Chat, Some(LOBBY_CAPACITY));
    }
    RegistryView::lemma_join_keeps_wf(opened, rid, me);
    let joined = opened.after_join(rid, me);
    let kept = joined.discard(rid);
    RegistryView::lemma_discard_keeps_wf(joined, rid);
    if s.settled() {
        assert forall|r: Seq<char>| #[trigger]
            kept.rooms.contains_key(r) implies kept.rooms[r].players.len() > 0 by {
            if r != rid {
                assert(s.rooms.contains_key(r));
            }
        }
    }
}

/// Appends the outcome's replies and notices to the actions, the replies
/// first.
pub fn push_sends(actions: &mut Vec<SessionAction>, out: &Outcome)
    ensures
        views(final(actions)@) == views(old(actions)@) + sends(
            views(out.replies@),
            views(out.notices@),
        ),
{
    let ghost start = views(actions@);
    let ghost wrap_reply = |m: ServerMessageView| SessionActionView::Reply(m);
    let ghost wrap_notice = |o: OutboundView| SessionActionView::Deliver(o);
    let mut i: usize = 0;
    while i < out.replies.len()
        invariant
            i <= out.replies.len(),
            wrap_reply == |m: ServerMessageView| SessionActionView::Reply(m),
            views(actions@) == start + views(out.replies@).take(i as int).map_values(wrap_reply),
        decreases out.replies.len() - i,
    {
        let ghost earlier = views(actions@);
        actions.push(SessionAction::Reply(out.replies[i].clone()));
        proof {
            let m = out.replies@[i as int]@;
            assert(views(actions@) =~= earlier.push(SessionActionView::Reply(m)));
            assert(views(out.replies@).take(i + 1).map_values(wrap_reply) =~= views(
                out.replies@,
            ).take(i as int).map_values(wrap_reply).push(SessionActionView::Reply(m)));
        }
        i += 1;
    }
    assert(views(out.replies@).take(i as int) =~= views(out.replies@));
    let ghost middle = views(actions@);
    let mut j: usize = 0;
    while j < out.notices.len()
        invariant
            j <= out.notices.len(),
            wrap_notice == |o: OutboundView| SessionActionView::Deliver(o),
            views(actions@) == middle + views(out.notices@).take(j as int).map_values(
                wrap_notice,
            ),
        decreases out.notices.len() - j,
    {
        let ghost earlier = views(actions@);
        actions.push(SessionAction::Deliver(out.notices[j].clone()));
        proof {
            let o = out.notices@[j as int]@;
            assert(views(actions@) =~= earlier.push(SessionActionView::Deliver(o)));
            assert(views(out.notices@).take(j + 1).map_values(wrap_notice) =~= views(
                out.notices@,
            ).take(j as int).map_values(wrap_notice).push(SessionActionView::Deliver(o)));
        }
        j += 1;
    }
    assert(views(out.notices@).take(j as int) =~= views(out.notices@));
    assert(views(actions@) =~= start + sends(views(out.replies@), views(out.notices@)));
}

/// One connection's session.
pub struct Session {
    state: SessionState,
    session_id: String,
    handle: UnboundedSender<ServerMessage>,
    handler: Option<MessageHandler>,
    awaiting: bool,
}

impl View for Session {
    type V = SessionView;

    closed spec fn view(&self) -> SessionView {
        SessionView {
            state: self.state,
            session_id: self.session_id@,
            handle: self.handle,
            identity: match self.handler {
                Some(h) => Some(h.player()),
                None => None,
            },
            awaiting: self.awaiting,
        }
    }
}

impl Session {
    /// A session for a connection whose handshake is under way: it has the
    /// given id and delivery handle, and its client has not authenticated.
    pub fn new(session_id: String, handle: UnboundedSender<ServerMessage>) -> (session: Session)
        ensures
            session@ == (SessionView {
                state: SessionState::Connecting,
                session_id: session_id@,
                handle,
                identity: None,
                awaiting: false,
            }),
    {
        Session {
            state: SessionState::Connecting,
            session_id,
            handle,
            handler: None,
            awaiting: false,
        }
    }

    /// A session for a connection whose handshake is under way, under a
    /// random id.
    pub fn start(handle: UnboundedSender<ServerMessage>) -> (session: Session)
        ensures
            session@.state == SessionState::Connecting,
            session@.handle == handle,
            session@.identity is None,
            !session@.awaiting,
    {
        Session::new(random_id(), handle)
    }

    /// Where the connection stands.
    pub fn state(&self) -> (state: SessionState)
        ensures
            state == self@.state,
    {
        self.state
    }

    /// The id that the connection was given.
    pub fn session_id(&self) -> (id: &String)
        ensures
            id@ == self@.session_id,
    {
        &self.session_id
    }

    /// The id of the client, once it has authenticated.
    pub fn client_id(&self) -> (id: Option<&String>)
        ensures
            match id {
                Some(c) => self@.identity matches Some(me) && me.id == c@,
                None => self@.identity is None,
            },
    {
        match &self.handler {
            Some(h) => Some(h.client_id()),
            None => None,
        }
    }

    /// Whether the client has authenticated.
    pub fn is_authenticated(&self) -> (r: bool)
        ensures
            r == self@.identity.is_some(),
    {
        self.handler.is_some()
    }

    /// The world that the session lives in.
    pub open spec fn world(
        &self,
        rooms: &RoomManager,
        connections: &ConnectionManager,
    ) -> World {
        World { session: self@, registry: rooms@, links: connections@ }
    }

    /// Handles one event: changes the session and the two registries, and
    /// returns what has to be done, in order. A new room gets a fresh random
    /// id, and a chat message the time that the system clock shows; given
    /// those two, all of it is as [`World::next`] says.
    pub fn step(
        &mut self,
        rooms: &mut RoomManager,
        connections: &mut ConnectionManager,
        event: SessionEvent,
    ) -> (actions: Vec<SessionAction>)
        requires
            old(rooms)@.wf(),
        ensures
            final(rooms)@.wf(),
            old(rooms)@.settled() ==> final(rooms)@.settled(),
            exists|rid: Seq<char>, now: Option<i64>|
                {
                    &&& !old(rooms)@.rooms.contains_key(rid)
                    &&& (#[trigger] old(self).world(old(rooms), old(connections)).next(
                        event,
                        rid,
                        now,
                    )).world == final(self).world(final(rooms), final(connections))
                    &&& old(self).world(old(rooms), old(connections)).next(
                        event,
                        rid,
                        now,
                    ).actions == views(actions@)
                },
    {
        let ghost before = self.world(rooms, connections);
        let ghost spare = choose|rid: Seq<char>| before.registry.first_free(Seq::empty(), rid);
        proof {
            before.registry.lemma_first_free_exists(Seq::empty());
        }
        let mut actions: Vec<SessionAction> = Vec::new();
        assert(views(actions@) =~= Seq::empty());
        match event {
            SessionEvent::Accepted => {
                if self.state == SessionState::Connecting {
                    self.state = SessionState::Open;
                    actions.push(
                        SessionAction::Reply(
                            ServerMessage::Connected { client_id: self.session_id.clone() },
                        ),
                    );
                    assert(views(actions@) =~= before.next(event, spare, None).actions);
                }
                assert(before.next(event, spare, None).world == self.world(rooms, connections));
            },
            SessionEvent::Frame(frame) => {
                if self.state == SessionState::Open {
                    self.step_frame(rooms, connections, frame, &mut actions);
                    proof {
                        let (rid, now) = choose|rid: Seq<char>, now: Option<i64>|
                            {
                                &&& !before.registry.rooms.contains_key(rid)
                                &&& (#[trigger] before.on_frame(frame, rid, now)).world
                                    == self.world(rooms, connections)
                                &&& before.on_frame(frame, rid, now).actions == views(actions@)
                            };
                        assert(before.next(event, rid, now) == before.on_frame(frame, rid, now));
                    }
                } else {
                    assert(before.next(event, spare, None).world == self.world(
                        rooms,
                        connections,
                    ));
                }
            },
            SessionEvent::Identity(profile) => {
                if self.state == SessionState::Open {
                    self.step_identity(rooms, connections, profile, &mut actions);
                }
                assert(before.next(event, spare, None).world == self.world(rooms, connections));
            },
            SessionEvent::Ping(payload) => {
                if self.state == SessionState::Open {
                    actions.push(SessionAction::Pong(payload));
                    assert(views(actions@) =~= before.next(event, spare, None).actions);
                }
                assert(before.next(event, spare, None).world == self.world(rooms, connections));
            },
            SessionEvent::Disconnected => {
                self.step_end(rooms, connections, SessionState::Closing, &mut actions);
                assert(before.next(event, spare, None).world == self.world(rooms, connections));
            },
            SessionEvent::Closed => {
                self.step_end(rooms, connections, SessionState::Closed, &mut actions);
                assert(before.next(event, spare, None).world == self.world(rooms, connections));
            },
        }
        proof {
            let (rid, now) = choose|rid: Seq<char>, now: Option<i64>|
                {
                    &&& !before.registry.rooms.contains_key(rid)
                    &&& (#[trigger] before.next(event, rid, now)).world == self.world(
                        rooms,
                        connections,
                    )
                    &&& before.next(event, rid, now).actions == views(actions@)
                };
            step_keeps_registry_sound(before, event, rid, now);
        }
        actions
    }

    /// Handles a frame on an open connection; see [`World::on_frame`].
    fn step_frame(
        &mut self,
        rooms: &mut RoomManager,
        connections: &ConnectionManager,
        frame: Option<ClientMessage>,
        actions: &mut Vec<SessionAction>,
    )
        requires
            old(rooms)@.wf(),
            old(actions)@.len() == 0,
        ensures
            final(rooms)@.wf(),
            exists|rid: Seq<char>, now: Option<i64>|
                {
                    &&& !old(rooms)@.rooms.contains_key(rid)
                    &&& (#[trigger] old(self).world(old(rooms), connections).on_frame(
                        frame,
                        rid,
                        now,
                    )).world == final(self).world(final(rooms), connections)
                    &&& old(self).world(old(rooms), connections).on_frame(frame, rid, now).actions
                        == views(final(actions)@)
                },
    {
        let ghost before = self.world(rooms, connections);
        let ghost spare = choose|rid: Seq<char>| before.registry.first_free(Seq::empty(), rid);
        proof {
            before.registry.lemma_first_free_exists(Seq::empty());
            assert(views(actions@) =~= Seq::empty());
        }
        match frame {
            None => {
                actions.push(SessionAction::Reply(RelayError::Protocol.to_message()));
                proof {
                    assert(views(actions@) =~= before.on_frame(frame, spare, None).actions);
                    assert(before.on_frame(frame, spare, None).world == self.world(
                        rooms,
                        connections,
                    ));
                }
            },
            Some(ClientMessage::Authenticate { token }) => {
                if self.handler.is_none() && !self.awaiting {
                    self.awaiting = true;
                    actions.push(SessionAction::LookupIdentity(token));
                    assert(views(actions@) =~= before.on_frame(frame, spare, None).actions);
                }
                assert(before.on_frame(frame, spare, None).world == self.world(
                    rooms,
                    connections,
                ));
            },
            Some(message) => {
                match &self.handler {
                    Some(handler) => {
                        let out = handler.handle_message(rooms, message);
                        push_sends(actions, &out);
                        proof {
                            let me = handler.player();
                            let (rid, now) = choose|rid: Seq<char>, now: Option<i64>|
                                {
                                    &&& !before.registry.rooms.contains_key(rid)
                                    &&& out.matches_routed(
                                        #[trigger] Routed::handle(
                                            before.registry,
                                            me,
                                            message,
                                            rid,
                                            now,
                                        ),
                                    )
                                    &&& rooms@ == Routed::handle(
                                        before.registry,
                                        me,
                                        message,
                                        rid,
                                        now,
                                    ).registry
                                };
                            let routed = Routed::handle(before.registry, me, message, rid, now);
                            assert(views(actions@) =~= sends(routed.replies, routed.notices));
                            assert(before.on_frame(frame, rid, now).world == self.world(
                                rooms,
                                connections,
                            ));
                        }
                    },
                    None => {
                        assert(before.on_frame(frame, spare, None).world == self.world(
                            rooms,
                            connections,
                        ));
                    },
                }
            },
        }
    }

    /// Handles the identity provider's answer on an open connection; see
    /// [`World::on_identity`].
    fn step_identity(
        &mut self,
        rooms: &mut RoomManager,
        connections: &mut ConnectionManager,
        profile: Option<UserProfile>,
        actions: &mut Vec<SessionAction>,
    )
        requires
            old(rooms)@.wf(),
            old(actions)@.len() == 0,
        ensures
            final(rooms)@.wf(),
            old(self).world(old(rooms), old(connections)).on_identity(profile).world
                == final(self).world(final(rooms), final(connections)),
            old(self).world(old(rooms), old(connections)).on_identity(profile).actions == views(
                final(actions)@,
            ),
    {
        let ghost before = self.world(rooms, connections);
        let ghost after = before.on_identity(profile);
        assert(views(actions@) =~= Seq::empty());
        if !self.awaiting || self.handler.is_some() {
            return ;
        }
        match profile {
            None => {
                self.awaiting = false;
                actions.push(SessionAction::Reply(RelayError::Auth.to_message()));
                assert(views(actions@) =~= after.actions);
            },
            Some(user) => {
                let handler = MessageHandler::new(user.id.clone(), Some(user.username.clone()));
                let me = handler.as_player();
                connections.add(user.id.clone(), self.handle.clone());
                rooms.ensure_room(lobby(), RoomType::Chat, LOBBY_CAPACITY);
                let ghost opened = rooms@;
                let joined = rooms.join_room(lobby(), me.clone());
                let mut out = Outcome { replies: Vec::new(), notices: Vec::new() };
                out.replies.push(ServerMessage::Authenticated { user });
                match joined {
                    Ok(_) => {
                        let others = rooms.room_recipients(
                            lobby(),
                            Some(handler.client_id().as_str()),
                        );
                        out.notices =
                        address_all(others, &ServerMessage::PlayerJoined { player: me });
                        proof {
                            RegistryView::lemma_join_keeps_wf(opened, lobby_id(), me@);
                            assert(rooms@.discard(lobby_id()) == rooms@);
                        }
                    },
                    Err(_) => {
                        rooms.discard_room(lobby());
                    },
                }
                proof {
                    assert(views(out.replies@) =~= seq![
                        ServerMessageView::Authenticated { user: user@ },
                    ]);
                    if joined is Err {
                        assert(views(out.notices@) =~= Seq::empty());
                    }
                }
                push_sends(actions, &out);
                self.handler = Some(handler);
                self.awaiting = false;
                assert(views(actions@) =~= after.actions);
            },
        }
    }

    /// Ends the connection by way of `state`, which is `Closing` or
    /// `Closed`; see [`World::on_end`].
    fn step_end(
        &mut self,
        rooms: &mut RoomManager,
        connections: &mut ConnectionManager,
        state: SessionState,
        actions: &mut Vec<SessionAction>,
    )
        requires
            old(rooms)@.wf(),
            old(actions)@.len() == 0,
            state == SessionState::Closing || state == SessionState::Closed,
        ensures
            final(rooms)@.wf(),
            old(self).world(old(rooms), old(connections)).on_end(state).world == final(self).world(
                final(rooms),
                final(connections),
            ),
            old(self).world(old(rooms), old(connections)).on_end(state).actions == views(
                final(actions)@,
            ),
    {
        let ghost before = self.world(rooms, connections);
        let ghost after = before.on_end(state);
        assert(views(actions@) =~= Seq::empty());
        match self.state {
            SessionState::Connecting => {
                self.state = SessionState::Closed;
            },
            SessionState::Open => {
                match &self.handler {
                    Some(handler) => {
                        let out = handler.cleanup(rooms);
                        connections.remove(handler.client_id().as_str());
                        push_sends(actions, &out);
                    },
                    None => {},
                }
                assert(views(actions@) =~= before.cleaned_up().actions);
                let ghost sent = views(actions@);
                if state == SessionState::Closing {
                    actions.push(SessionAction::Close);
                    assert(views(actions@) =~= sent.push(SessionActionView::Close));
                }
                self.state = state;
            },
            SessionState::Closing => {
                if state == SessionState::Closed {
                    self.state = SessionState::Closed;
                }
            },
            SessionState::Closed => {},
        }
    }

    /// Does the sends among the actions, in order: a reply goes to this
    /// connection's own channel, a delivery to the channel that the
    /// connection registry has for its client. Returns the other actions,
    /// in order. Whether an envelope arrives is up to its channel.
    pub fn dispatch(&self, connections: &ConnectionManager, actions: Vec<SessionAction>) -> (rest:
        Vec<SessionAction>)
        ensures
            views(rest@) == not_sends(views(actions@)),
    {
        let mut rest: Vec<SessionAction> = Vec::new();
        let ghost keep = |a: SessionActionView| !a.is_send();
        let mut i: usize = 0;
        assert(views(actions@).take(0) =~= Seq::empty());
        assert(views(rest@) =~= Seq::empty());
        while i < actions.len()
            invariant
                i <= actions.len(),
                keep == |a: SessionActionView| !a.is_send(),
                views(rest@) == views(actions@).take(i as int).filter(keep),
            decreases actions.len() - i,
        {
            let ghost earlier = views(rest@);
            proof {
                let head = views(actions@).take(i as int);
                let a = actions@[i as int]@;
                assert(views(actions@).take(i + 1) =~= head.push(a));
                head.lemma_filter_push(a, keep);
            }
            match &actions[i] {
                SessionAction::Reply(message) => {
                    let _ = channel_send(&self.handle, message.clone());
                },
                SessionAction::Deliver(outbound) => {
                    connections.send_to(outbound.to.as_str(), outbound.message.clone());
                },
                SessionAction::LookupIdentity(token) => {
                    rest.push(SessionAction::LookupIdentity(token.clone()));
                    assert(views(rest@) =~= earlier.push(actions@[i as int]@));
                },
                SessionAction::Pong(payload) => {
                    rest.push(SessionAction::Pong(payload.clone()));
                    assert(views(rest@) =~= earlier.push(actions@[i as int]@));
                },
                SessionAction::Close => {
                    rest.push(SessionAction::Close);
                    assert(views(rest@) =~= earlier.push(actions@[i as int]@));
                },
            }
            i += 1;
        }
        assert(views(actions@).take(i as int) =~= views(actions@));
        rest
    }
}


} // verus!
