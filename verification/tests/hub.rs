use std::sync::Arc;
use tokio::sync::mpsc::error::TryRecvError;
use tokio::sync::mpsc::{unbounded_channel, UnboundedReceiver};
use yumana_websocket::hub::Hub;
use yumana_websocket::session::{Session, SessionAction, SessionEvent};
use yumana_websocket::types::{ClientMessage, Player, RoomType, ServerMessage, UserProfile};

fn login(hub: &Hub, id: &str) -> (Session, UnboundedReceiver<ServerMessage>) {
    let (tx, rx) = unbounded_channel();
    let mut session = Session::new(format!("session-{}", id), tx);
    assert!(hub.handle(&mut session, SessionEvent::Accepted).is_empty());
    let asked = hub.handle(
        &mut session,
        SessionEvent::Frame(Some(ClientMessage::Authenticate { token: id.to_string() })),
    );
    assert_eq!(asked, vec![SessionAction::LookupIdentity(id.to_string())]);
    let profile = UserProfile { id: id.to_string(), username: format!("user-{}", id) };
    assert!(hub.handle(&mut session, SessionEvent::Identity(Some(profile))).is_empty());
    (session, rx)
}

fn send(hub: &Hub, session: &mut Session, message: ClientMessage) {
    let rest = hub.handle(session, SessionEvent::Frame(Some(message)));
    assert!(rest.is_empty());
}

fn drain(rx: &mut UnboundedReceiver<ServerMessage>) -> Vec<ServerMessage> {
    let mut got = Vec::new();
    while let Ok(m) = rx.try_recv() {
        got.push(m);
    }
    got
}

#[test]
fn hub_starts_without_rooms() {
    let hub = Hub::new();
    assert!(hub.get_room("lobby").is_none());
    assert!(hub.get_client_room("a").is_none());
}

#[test]
fn hub_sends_what_the_session_decides() {
    let hub = Hub::new();
    let (tx, mut rx) = unbounded_channel();
    let mut session = Session::new("s1".to_string(), tx);
    let rest = hub.handle(&mut session, SessionEvent::Accepted);
    assert!(rest.is_empty());
    assert_eq!(rx.try_recv(), Ok(ServerMessage::Connected { client_id: "s1".to_string() }));
    let rest = hub.handle(&mut session, SessionEvent::Ping(vec![7]));
    assert_eq!(rest, vec![SessionAction::Pong(vec![7])]);
    let rest = hub.handle(&mut session, SessionEvent::Frame(None));
    assert!(rest.is_empty());
    assert_eq!(rx.try_recv(), Ok(ServerMessage::Error { message: "Invalid message".to_string() }));
    let rest = hub.handle(&mut session, SessionEvent::Disconnected);
    assert_eq!(rest, vec![SessionAction::Close]);
    assert_eq!(rx.try_recv(), Err(TryRecvError::Empty));
}

#[test]
fn hub_login_puts_the_client_into_the_lobby() {
    let hub = Hub::new();
    let (_alice, mut alice_rx) = login(&hub, "42");
    assert_eq!(hub.get_client_room("42"), Some("lobby".to_string()));
    let lobby = hub.get_room("lobby").unwrap();
    assert_eq!(lobby.room_type(), RoomType::Chat);
    assert_eq!(lobby.max_players(), 100);
    assert_eq!(
        lobby.get_players(),
        vec![Player { id: "42".to_string(), name: Some("user-42".to_string()), ready: false }]
    );
    assert_eq!(
        drain(&mut alice_rx),
        vec![
            ServerMessage::Connected { client_id: "session-42".to_string() },
            ServerMessage::Authenticated {
                user: UserProfile { id: "42".to_string(), username: "user-42".to_string() }
            },
        ]
    );
}

#[test]
fn hub_relays_chat_between_sessions() {
    let hub = Hub::new();
    let (mut a, mut a_rx) = login(&hub, "A");
    let (mut b, mut b_rx) = login(&hub, "B");
    drain(&mut a_rx);
    drain(&mut b_rx);
    send(&hub, &mut a, ClientMessage::SendMessage { content: "hi".to_string() });
    let got = drain(&mut b_rx);
    assert_eq!(got.len(), 1);
    match &got[0] {
        ServerMessage::ChatMessage { from, content, .. } => {
            assert_eq!(from, "A");
            assert_eq!(content, "hi");
        }
        other => panic!("expected chat_message, got {:?}", other),
    }
    assert!(drain(&mut a_rx).is_empty());
    send(&hub, &mut b, ClientMessage::LeaveRoom);
    assert_eq!(
        drain(&mut a_rx),
        vec![ServerMessage::PlayerLeft { client_id: "B".to_string() }]
    );
    assert!(hub.get_client_room("B").is_none());
}

#[test]
fn hub_removes_the_lobby_with_its_last_member() {
    let hub = Hub::new();
    let (mut a, _a_rx) = login(&hub, "A");
    let (mut b, _b_rx) = login(&hub, "B");
    hub.handle(&mut a, SessionEvent::Disconnected);
    assert!(hub.get_room("lobby").is_some());
    hub.handle(&mut b, SessionEvent::Closed);
    assert!(hub.get_room("lobby").is_none());
}

#[test]
fn hub_keeps_rooms_within_capacity_under_concurrent_joins() {
    let capacity = 6usize;
    let clients = 30usize;
    let hub = Arc::new(Hub::new());
    let (mut host, mut host_rx) = login(&hub, "host");
    send(&hub, &mut host, ClientMessage::LeaveRoom);
    drain(&mut host_rx);
    send(
        &hub,
        &mut host,
        ClientMessage::CreateRoom { room_type: RoomType::CardGame, max_players: Some(capacity) },
    );
    let room_id = match drain(&mut host_rx).remove(0) {
        ServerMessage::RoomCreated { room_id, .. } => room_id,
        other => panic!("expected room_created, got {:?}", other),
    };
    let runtime = tokio::runtime::Builder::new_multi_thread().worker_threads(4).build().unwrap();
    let outcomes = runtime.block_on(async {
        let mut tasks = Vec::new();
        for i in 0..clients {
            let hub = hub.clone();
            let room_id = room_id.clone();
            tasks.push(tokio::spawn(async move {
                let (mut session, mut rx) = login(&hub, &format!("c{}", i));
                send(&hub, &mut session, ClientMessage::LeaveRoom);
                drain(&mut rx);
                send(&hub, &mut session, ClientMessage::JoinRoom { room_id: room_id.clone() });
                let seen = hub.get_room(&room_id).unwrap().player_count();
                let answer = drain(&mut rx).remove(0);
                (answer, seen, session, rx)
            }));
        }
        let mut outcomes = Vec::new();
        for task in tasks {
            outcomes.push(task.await.unwrap());
        }
        outcomes
    });
    let mut joined = 0;
    let mut full = 0;
    for (answer, seen, _, _) in &outcomes {
        assert!(*seen <= capacity);
        match answer {
            ServerMessage::RoomJoined { players, .. } => {
                assert!(players.len() <= capacity);
                joined += 1;
            }
            ServerMessage::Error { message } => {
                assert_eq!(message, "Room is full");
                full += 1;
            }
            other => panic!("unexpected answer {:?}", other),
        }
    }
    assert_eq!(joined, capacity - 1);
    assert_eq!(full, clients - (capacity - 1));
    assert_eq!(hub.get_room(&room_id).unwrap().player_count(), capacity);
}

#[test]
fn hub_forgets_the_handle_of_a_session_that_ended() {
    let hub = Hub::new();
    let (mut a, mut a_rx) = login(&hub, "A");
    let (mut b, mut b_rx) = login(&hub, "B");
    hub.handle(&mut a, SessionEvent::Disconnected);
    drain(&mut a_rx);
    drain(&mut b_rx);
    send(&hub, &mut b, ClientMessage::SendMessage { content: "anyone?".to_string() });
    assert!(drain(&mut a_rx).is_empty());
    assert!(drain(&mut b_rx).is_empty());
}
