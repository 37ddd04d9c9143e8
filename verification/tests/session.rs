use tokio::sync::mpsc::error::TryRecvError;
use tokio::sync::mpsc::{unbounded_channel, UnboundedReceiver};
use yumana_websocket::connection::ConnectionManager;
use yumana_websocket::room::RoomManager;
use yumana_websocket::session::{lobby, Session, SessionAction, SessionEvent, SessionState};
use yumana_websocket::types::{
    ClientMessage, Outbound, Player, RoomType, ServerMessage, UserProfile,
};

struct Relay {
    rooms: RoomManager,
    connections: ConnectionManager,
}

fn relay() -> Relay {
    Relay { rooms: RoomManager::new(), connections: ConnectionManager::new() }
}

fn open_session(relay: &mut Relay, id: &str) -> (Session, UnboundedReceiver<ServerMessage>) {
    let (tx, rx) = unbounded_channel();
    let mut session = Session::new(id.to_string(), tx);
    let actions = session.step(&mut relay.rooms, &mut relay.connections, SessionEvent::Accepted);
    assert_eq!(
        actions,
        vec![SessionAction::Reply(ServerMessage::Connected { client_id: id.to_string() })]
    );
    (session, rx)
}

fn profile(id: &str, name: &str) -> UserProfile {
    UserProfile { id: id.to_string(), username: name.to_string() }
}

fn member(id: &str, name: &str) -> Player {
    Player { id: id.to_string(), name: Some(name.to_string()), ready: false }
}

fn authenticate(relay: &mut Relay, session: &mut Session, id: &str, name: &str) -> Vec<SessionAction> {
    let actions = session.step(
        &mut relay.rooms,
        &mut relay.connections,
        SessionEvent::Frame(Some(ClientMessage::Authenticate { token: format!("tok-{}", id) })),
    );
    assert_eq!(actions, vec![SessionAction::LookupIdentity(format!("tok-{}", id))]);
    session.step(
        &mut relay.rooms,
        &mut relay.connections,
        SessionEvent::Identity(Some(profile(id, name))),
    )
}

fn frame(relay: &mut Relay, session: &mut Session, message: ClientMessage) -> Vec<SessionAction> {
    session.step(&mut relay.rooms, &mut relay.connections, SessionEvent::Frame(Some(message)))
}

#[test]
fn lobby_is_called_lobby() {
    assert_eq!(lobby(), "lobby");
}

#[test]
fn new_session_is_connecting() {
    let (tx, _rx) = unbounded_channel();
    let session = Session::new("s1".to_string(), tx);
    assert_eq!(session.state(), SessionState::Connecting);
    assert_eq!(session.session_id(), "s1");
    assert!(!session.is_authenticated());
    assert!(session.client_id().is_none());
}

#[test]
fn accept_opens_the_session_and_greets() {
    let mut relay = relay();
    let (mut session, _rx) = open_session(&mut relay, "s1");
    assert_eq!(session.state(), SessionState::Open);
    let again = session.step(&mut relay.rooms, &mut relay.connections, SessionEvent::Accepted);
    assert!(again.is_empty());
    assert_eq!(session.state(), SessionState::Open);
}

#[test]
fn frames_before_accept_are_passed_over() {
    let mut relay = relay();
    let (tx, _rx) = unbounded_channel();
    let mut session = Session::new("s1".to_string(), tx);
    let actions = session.step(&mut relay.rooms, &mut relay.connections, SessionEvent::Frame(None));
    assert!(actions.is_empty());
    let actions =
        session.step(&mut relay.rooms, &mut relay.connections, SessionEvent::Ping(vec![1]));
    assert!(actions.is_empty());
    assert_eq!(session.state(), SessionState::Connecting);
}

#[test]
fn authenticate_then_profile_joins_the_lobby() {
    let mut relay = relay();
    let (mut session, _rx) = open_session(&mut relay, "s1");
    let actions = session.step(
        &mut relay.rooms,
        &mut relay.connections,
        SessionEvent::Frame(Some(ClientMessage::Authenticate { token: "tok1".to_string() })),
    );
    assert_eq!(actions, vec![SessionAction::LookupIdentity("tok1".to_string())]);
    assert!(!session.is_authenticated());
    let actions = session.step(
        &mut relay.rooms,
        &mut relay.connections,
        SessionEvent::Identity(Some(profile("42", "alice"))),
    );
    assert_eq!(
        actions,
        vec![SessionAction::Reply(ServerMessage::Authenticated { user: profile("42", "alice") })]
    );
    assert!(session.is_authenticated());
    assert_eq!(session.client_id().unwrap(), "42");
    assert!(relay.connections.is_connected("42"));
    assert_eq!(relay.rooms.get_client_room("42"), Some("lobby".to_string()));
    let lobby = relay.rooms.get_room("lobby").unwrap();
    assert_eq!(lobby.room_type(), RoomType::Chat);
    assert_eq!(lobby.max_players(), 100);
    assert_eq!(lobby.get_players(), vec![member("42", "alice")]);
}

#[test]
fn authentication_is_announced_in_the_lobby() {
    let mut relay = relay();
    let (mut alice, mut alice_rx) = open_session(&mut relay, "s1");
    let (mut bob, mut bob_rx) = open_session(&mut relay, "s2");
    authenticate(&mut relay, &mut alice, "42", "alice");
    let actions = authenticate(&mut relay, &mut bob, "43", "bob");
    assert_eq!(
        actions,
        vec![
            SessionAction::Reply(ServerMessage::Authenticated { user: profile("43", "bob") }),
            SessionAction::Deliver(Outbound {
                to: "42".to_string(),
                message: ServerMessage::PlayerJoined { player: member("43", "bob") },
            }),
        ]
    );
    let rest = bob.dispatch(&relay.connections, actions);
    assert!(rest.is_empty());
    assert_eq!(
        bob_rx.try_recv(),
        Ok(ServerMessage::Authenticated { user: profile("43", "bob") })
    );
    assert_eq!(bob_rx.try_recv(), Err(TryRecvError::Empty));
    assert_eq!(
        alice_rx.try_recv(),
        Ok(ServerMessage::PlayerJoined { player: member("43", "bob") })
    );
    assert_eq!(alice_rx.try_recv(), Err(TryRecvError::Empty));
}

#[test]
fn failed_lookup_is_reported_and_can_be_retried() {
    let mut relay = relay();
    let (mut session, _rx) = open_session(&mut relay, "s1");
    let actions = frame(
        &mut relay,
        &mut session,
        ClientMessage::Authenticate { token: "bad".to_string() },
    );
    assert_eq!(actions, vec![SessionAction::LookupIdentity("bad".to_string())]);
    let actions =
        session.step(&mut relay.rooms, &mut relay.connections, SessionEvent::Identity(None));
    assert_eq!(
        actions,
        vec![SessionAction::Reply(ServerMessage::Error { message: "Auth Gagal".to_string() })]
    );
    assert!(!session.is_authenticated());
    assert_eq!(session.state(), SessionState::Open);
    assert!(relay.rooms.get_room("lobby").is_none());
    let actions = authenticate(&mut relay, &mut session, "42", "alice");
    assert_eq!(actions.len(), 1);
    assert!(session.is_authenticated());
}

#[test]
fn second_token_during_lookup_is_passed_over() {
    let mut relay = relay();
    let (mut session, _rx) = open_session(&mut relay, "s1");
    let first = frame(
        &mut relay,
        &mut session,
        ClientMessage::Authenticate { token: "one".to_string() },
    );
    assert_eq!(first.len(), 1);
    let second = frame(
        &mut relay,
        &mut session,
        ClientMessage::Authenticate { token: "two".to_string() },
    );
    assert!(second.is_empty());
}

#[test]
fn profile_that_nobody_asked_for_is_passed_over() {
    let mut relay = relay();
    let (mut session, _rx) = open_session(&mut relay, "s1");
    let actions = session.step(
        &mut relay.rooms,
        &mut relay.connections,
        SessionEvent::Identity(Some(profile("42", "alice"))),
    );
    assert!(actions.is_empty());
    assert!(!session.is_authenticated());
    assert!(!relay.connections.is_connected("42"));
}

#[test]
fn authenticated_client_stays_who_it_is() {
    let mut relay = relay();
    let (mut session, _rx) = open_session(&mut relay, "s1");
    authenticate(&mut relay, &mut session, "42", "alice");
    let actions = frame(
        &mut relay,
        &mut session,
        ClientMessage::Authenticate { token: "other".to_string() },
    );
    assert!(actions.is_empty());
    let actions = session.step(
        &mut relay.rooms,
        &mut relay.connections,
        SessionEvent::Identity(Some(profile("99", "mallory"))),
    );
    assert!(actions.is_empty());
    assert_eq!(session.client_id().unwrap(), "42");
    assert!(!relay.connections.is_connected("99"));
}

#[test]
fn requests_before_authentication_are_passed_over() {
    let mut relay = relay();
    let (mut session, _rx) = open_session(&mut relay, "s1");
    relay.rooms.ensure_room("r", RoomType::Chat, 5);
    let actions =
        frame(&mut relay, &mut session, ClientMessage::JoinRoom { room_id: "r".to_string() });
    assert!(actions.is_empty());
    let actions = frame(
        &mut relay,
        &mut session,
        ClientMessage::CreateRoom { room_type: RoomType::Chat, max_players: None },
    );
    assert!(actions.is_empty());
    assert!(relay.rooms.get_room("r").unwrap().is_empty());
}

#[test]
fn malformed_frame_gets_an_error_and_the_session_stays_open() {
    let mut relay = relay();
    let (mut session, _rx) = open_session(&mut relay, "s1");
    let actions = session.step(&mut relay.rooms, &mut relay.connections, SessionEvent::Frame(None));
    assert_eq!(
        actions,
        vec![SessionAction::Reply(ServerMessage::Error {
            message: "Invalid message".to_string()
        })]
    );
    assert_eq!(session.state(), SessionState::Open);
    authenticate(&mut relay, &mut session, "42", "alice");
    let actions = session.step(&mut relay.rooms, &mut relay.connections, SessionEvent::Frame(None));
    assert_eq!(actions.len(), 1);
    assert_eq!(session.state(), SessionState::Open);
    assert!(session.is_authenticated());
}

#[test]
fn created_room_is_answered_with_created_and_joined() {
    let mut relay = relay();
    let (mut session, _rx) = open_session(&mut relay, "s1");
    authenticate(&mut relay, &mut session, "42", "alice");
    assert!(frame(&mut relay, &mut session, ClientMessage::LeaveRoom).is_empty());
    assert!(relay.rooms.get_room("lobby").is_none());
    let actions = frame(
        &mut relay,
        &mut session,
        ClientMessage::CreateRoom { room_type: RoomType::Chat, max_players: Some(2) },
    );
    assert_eq!(actions.len(), 2);
    let id = match &actions[0] {
        SessionAction::Reply(ServerMessage::RoomCreated { room_id, room_type }) => {
            assert_eq!(*room_type, RoomType::Chat);
            room_id.clone()
        }
        other => panic!("expected room_created, got {:?}", other),
    };
    assert_eq!(
        actions[1],
        SessionAction::Reply(ServerMessage::RoomJoined {
            room_id: id.clone(),
            room_type: RoomType::Chat,
            players: vec![member("42", "alice")],
        })
    );
    assert_eq!(relay.rooms.get_room(&id).unwrap().max_players(), 2);
}

#[test]
fn chat_reaches_the_other_client_only() {
    let mut relay = relay();
    let (mut a, mut a_rx) = open_session(&mut relay, "s1");
    let (mut b, mut b_rx) = open_session(&mut relay, "s2");
    let first = authenticate(&mut relay, &mut a, "A", "alice");
    a.dispatch(&relay.connections, first);
    let second = authenticate(&mut relay, &mut b, "B", "bob");
    b.dispatch(&relay.connections, second);
    while a_rx.try_recv().is_ok() {}
    while b_rx.try_recv().is_ok() {}
    let actions =
        frame(&mut relay, &mut a, ClientMessage::SendMessage { content: "hi".to_string() });
    assert_eq!(actions.len(), 1);
    let rest = a.dispatch(&relay.connections, actions);
    assert!(rest.is_empty());
    match b_rx.try_recv() {
        Ok(ServerMessage::ChatMessage { from, content, timestamp }) => {
            assert_eq!(from, "A");
            assert_eq!(content, "hi");
            assert!(timestamp > 1_600_000_000);
        }
        other => panic!("expected chat_message, got {:?}", other),
    }
    assert_eq!(b_rx.try_recv(), Err(TryRecvError::Empty));
    assert_eq!(a_rx.try_recv(), Err(TryRecvError::Empty));
}

#[test]
fn ping_is_answered_with_the_same_payload() {
    let mut relay = relay();
    let (mut session, _rx) = open_session(&mut relay, "s1");
    let actions =
        session.step(&mut relay.rooms, &mut relay.connections, SessionEvent::Ping(vec![1, 2, 3]));
    assert_eq!(actions, vec![SessionAction::Pong(vec![1, 2, 3])]);
}

#[test]
fn disconnect_cleans_up_once() {
    let mut relay = relay();
    let (mut a, _a_rx) = open_session(&mut relay, "s1");
    let (mut b, _b_rx) = open_session(&mut relay, "s2");
    authenticate(&mut relay, &mut a, "A", "alice");
    authenticate(&mut relay, &mut b, "B", "bob");
    let actions = a.step(&mut relay.rooms, &mut relay.connections, SessionEvent::Disconnected);
    assert_eq!(
        actions,
        vec![
            SessionAction::Deliver(Outbound {
                to: "B".to_string(),
                message: ServerMessage::PlayerLeft { client_id: "A".to_string() },
            }),
            SessionAction::Close,
        ]
    );
    assert_eq!(a.state(), SessionState::Closing);
    assert!(!relay.connections.is_connected("A"));
    assert!(relay.rooms.get_client_room("A").is_none());
    assert_eq!(relay.rooms.get_room("lobby").unwrap().get_players(), vec![member("B", "bob")]);
    let again = a.step(&mut relay.rooms, &mut relay.connections, SessionEvent::Disconnected);
    assert!(again.is_empty());
    assert_eq!(a.state(), SessionState::Closing);
    let closed = a.step(&mut relay.rooms, &mut relay.connections, SessionEvent::Closed);
    assert!(closed.is_empty());
    assert_eq!(a.state(), SessionState::Closed);
    let late = frame(&mut relay, &mut a, ClientMessage::LeaveRoom);
    assert!(late.is_empty());
    assert_eq!(a.state(), SessionState::Closed);
    assert!(relay.connections.is_connected("B"));
}

#[test]
fn abrupt_close_cleans_up_too() {
    let mut relay = relay();
    let (mut a, _a_rx) = open_session(&mut relay, "s1");
    authenticate(&mut relay, &mut a, "A", "alice");
    let actions = a.step(&mut relay.rooms, &mut relay.connections, SessionEvent::Closed);
    assert!(actions.is_empty());
    assert_eq!(a.state(), SessionState::Closed);
    assert!(!relay.connections.is_connected("A"));
    assert!(relay.rooms.get_room("lobby").is_none());
}

#[test]
fn session_that_never_opened_closes_without_cleanup() {
    let mut relay = relay();
    let (tx, _rx) = unbounded_channel();
    let mut session = Session::new("s1".to_string(), tx);
    let actions =
        session.step(&mut relay.rooms, &mut relay.connections, SessionEvent::Disconnected);
    assert!(actions.is_empty());
    assert_eq!(session.state(), SessionState::Closed);
}

#[test]
fn unauthenticated_disconnect_only_closes() {
    let mut relay = relay();
    let (mut session, _rx) = open_session(&mut relay, "s1");
    let actions =
        session.step(&mut relay.rooms, &mut relay.connections, SessionEvent::Disconnected);
    assert_eq!(actions, vec![SessionAction::Close]);
    assert_eq!(session.state(), SessionState::Closing);
}

#[test]
fn client_that_is_in_a_room_elsewhere_is_authenticated_without_lobby() {
    let mut relay = relay();
    relay.rooms.ensure_room("r", RoomType::Chat, 5);
    relay.rooms.join_room("r", Player::new("42".to_string(), None)).unwrap();
    let (mut session, _rx) = open_session(&mut relay, "s1");
    let actions = authenticate(&mut relay, &mut session, "42", "alice");
    assert_eq!(
        actions,
        vec![SessionAction::Reply(ServerMessage::Authenticated { user: profile("42", "alice") })]
    );
    assert!(relay.rooms.get_room("lobby").is_none());
    assert_eq!(relay.rooms.get_client_room("42"), Some("r".to_string()));
}

#[test]
fn dispatch_sends_and_returns_the_rest_in_order() {
    let mut relay = relay();
    let (session, mut rx) = open_session(&mut relay, "s1");
    let (other_tx, mut other_rx) = unbounded_channel();
    relay.connections.add("o".to_string(), other_tx);
    let hello = ServerMessage::Connected { client_id: "s1".to_string() };
    let left = ServerMessage::PlayerLeft { client_id: "x".to_string() };
    let actions = vec![
        SessionAction::Pong(vec![9]),
        SessionAction::Reply(hello.clone()),
        SessionAction::LookupIdentity("tok".to_string()),
        SessionAction::Deliver(Outbound { to: "o".to_string(), message: left.clone() }),
        SessionAction::Deliver(Outbound { to: "nobody".to_string(), message: left.clone() }),
        SessionAction::Close,
    ];
    let rest = session.dispatch(&relay.connections, actions);
    assert_eq!(
        rest,
        vec![
            SessionAction::Pong(vec![9]),
            SessionAction::LookupIdentity("tok".to_string()),
            SessionAction::Close,
        ]
    );
    assert_eq!(rx.try_recv(), Ok(hello));
    assert_eq!(rx.try_recv(), Err(TryRecvError::Empty));
    assert_eq!(other_rx.try_recv(), Ok(left));
    assert_eq!(other_rx.try_recv(), Err(TryRecvError::Empty));
}

#[test]
fn started_session_has_a_random_id() {
    let (tx, _rx) = unbounded_channel();
    let first = Session::start(tx.clone());
    let second = Session::start(tx);
    assert_eq!(first.state(), SessionState::Connecting);
    assert!(!first.is_authenticated());
    assert_eq!(first.session_id().len(), 36);
    assert_ne!(first.session_id(), second.session_id());
}
