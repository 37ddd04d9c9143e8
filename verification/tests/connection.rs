use tokio::sync::mpsc::error::TryRecvError;
use tokio::sync::mpsc::unbounded_channel;
use yumana_websocket::connection::ConnectionManager;
use yumana_websocket::room::RoomManager;
use yumana_websocket::types::{Player, RoomType, ServerMessage};

fn notice(text: &str) -> ServerMessage {
    ServerMessage::Error { message: text.to_string() }
}

#[test]
fn send_to_reaches_the_registered_handle() {
    let mut connections = ConnectionManager::new();
    let (tx, mut rx) = unbounded_channel();
    assert!(!connections.is_connected("a"));
    connections.add("a".to_string(), tx);
    assert!(connections.is_connected("a"));
    connections.send_to("a", notice("one"));
    connections.send_to("a", notice("two"));
    assert_eq!(rx.try_recv(), Ok(notice("one")));
    assert_eq!(rx.try_recv(), Ok(notice("two")));
    assert_eq!(rx.try_recv(), Err(TryRecvError::Empty));
}

#[test]
fn send_to_unknown_client_is_dropped() {
    let mut connections = ConnectionManager::default();
    let (tx, mut rx) = unbounded_channel();
    connections.add("a".to_string(), tx);
    connections.send_to("b", notice("lost"));
    assert_eq!(rx.try_recv(), Err(TryRecvError::Empty));
}

#[test]
fn send_to_closed_channel_is_dropped() {
    let mut connections = ConnectionManager::new();
    let (tx, rx) = unbounded_channel();
    connections.add("a".to_string(), tx);
    drop(rx);
    connections.send_to("a", notice("lost"));
    assert!(connections.is_connected("a"));
}

#[test]
fn add_replaces_the_handle() {
    let mut connections = ConnectionManager::new();
    let (old_tx, mut old_rx) = unbounded_channel();
    let (new_tx, mut new_rx) = unbounded_channel();
    connections.add("a".to_string(), old_tx);
    connections.add("a".to_string(), new_tx);
    connections.send_to("a", notice("hello"));
    assert_eq!(old_rx.try_recv(), Err(TryRecvError::Disconnected));
    assert_eq!(new_rx.try_recv(), Ok(notice("hello")));
}

#[test]
fn remove_is_a_no_op_for_unknown_client() {
    let mut connections = ConnectionManager::new();
    let (tx, mut rx) = unbounded_channel();
    connections.add("a".to_string(), tx);
    connections.remove("b");
    assert!(connections.is_connected("a"));
    connections.remove("a");
    connections.remove("a");
    assert!(!connections.is_connected("a"));
    connections.send_to("a", notice("lost"));
    assert_eq!(rx.try_recv(), Err(TryRecvError::Disconnected));
}

#[test]
fn send_to_many_passes_over_missing_clients() {
    let mut connections = ConnectionManager::new();
    let (tx_a, mut rx_a) = unbounded_channel();
    let (tx_c, mut rx_c) = unbounded_channel();
    connections.add("a".to_string(), tx_a);
    connections.add("c".to_string(), tx_c);
    let ids = vec!["a".to_string(), "b".to_string(), "c".to_string()];
    connections.send_to_many(&ids, &notice("all"));
    assert_eq!(rx_a.try_recv(), Ok(notice("all")));
    assert_eq!(rx_a.try_recv(), Err(TryRecvError::Empty));
    assert_eq!(rx_c.try_recv(), Ok(notice("all")));
    assert_eq!(rx_c.try_recv(), Err(TryRecvError::Empty));
}

#[test]
fn broadcast_reaches_every_member_once() {
    let mut connections = ConnectionManager::new();
    let mut rooms = RoomManager::new();
    let (tx_a, mut rx_a) = unbounded_channel();
    let (tx_b, mut rx_b) = unbounded_channel();
    let (tx_c, mut rx_c) = unbounded_channel();
    connections.add("a".to_string(), tx_a);
    connections.add("b".to_string(), tx_b);
    connections.add("c".to_string(), tx_c);
    let id = rooms.create_room(RoomType::Chat, None);
    rooms.join_room(&id, Player::new("a".to_string(), None)).unwrap();
    rooms.join_room(&id, Player::new("b".to_string(), None)).unwrap();
    let reached = rooms.broadcast_to_room(&connections, &id, None, &notice("m"));
    assert_eq!(reached, vec!["a", "b"]);
    rooms.join_room(&id, Player::new("c".to_string(), None)).unwrap();
    assert_eq!(rx_a.try_recv(), Ok(notice("m")));
    assert_eq!(rx_a.try_recv(), Err(TryRecvError::Empty));
    assert_eq!(rx_b.try_recv(), Ok(notice("m")));
    assert_eq!(rx_b.try_recv(), Err(TryRecvError::Empty));
    assert_eq!(rx_c.try_recv(), Err(TryRecvError::Empty));
}

#[test]
fn broadcast_leaves_out_the_excluded_client() {
    let mut connections = ConnectionManager::new();
    let mut rooms = RoomManager::new();
    let (tx_a, mut rx_a) = unbounded_channel();
    let (tx_b, mut rx_b) = unbounded_channel();
    connections.add("a".to_string(), tx_a);
    connections.add("b".to_string(), tx_b);
    rooms.ensure_room("r", RoomType::Chat, 5);
    rooms.join_room("r", Player::new("a".to_string(), None)).unwrap();
    rooms.join_room("r", Player::new("b".to_string(), None)).unwrap();
    let reached = rooms.broadcast_to_room(&connections, "r", Some("a"), &notice("m"));
    assert_eq!(reached, vec!["b"]);
    assert_eq!(rx_a.try_recv(), Err(TryRecvError::Empty));
    assert_eq!(rx_b.try_recv(), Ok(notice("m")));
}

#[test]
fn broadcast_to_unknown_room_reaches_nobody() {
    let mut connections = ConnectionManager::new();
    let rooms = RoomManager::new();
    let (tx_a, mut rx_a) = unbounded_channel();
    connections.add("a".to_string(), tx_a);
    let reached = rooms.broadcast_to_room(&connections, "nowhere", None, &notice("m"));
    assert!(reached.is_empty());
    assert_eq!(rx_a.try_recv(), Err(TryRecvError::Empty));
}
