use yumana_websocket::types::{Player, Room, RoomType};

fn player(id: &str) -> Player {
    Player::new(id.to_string(), None)
}

#[test]
fn new_room_is_empty() {
    let room = Room::new("r1".to_string(), RoomType::Chat, 3);
    assert!(room.is_empty());
    assert_eq!(room.player_count(), 0);
    assert_eq!(room.id(), "r1");
    assert_eq!(room.room_type(), RoomType::Chat);
    assert_eq!(room.max_players(), 3);
    assert!(room.game_state().is_none());
    assert!(room.get_players().is_empty());
}

#[test]
fn add_player_stops_at_capacity() {
    let mut room = Room::new("r1".to_string(), RoomType::CardGame, 2);
    assert!(room.add_player(player("a")));
    assert!(room.add_player(player("b")));
    assert!(!room.add_player(player("c")));
    assert_eq!(room.player_count(), 2);
    assert!(room.has_player("a"));
    assert!(room.has_player("b"));
    assert!(!room.has_player("c"));
}

#[test]
fn add_player_to_room_without_places_fails() {
    let mut room = Room::new("r1".to_string(), RoomType::Chat, 0);
    assert!(!room.add_player(player("a")));
    assert!(room.is_empty());
}

#[test]
fn add_player_twice_replaces_the_member() {
    let mut room = Room::new("r1".to_string(), RoomType::Chat, 3);
    assert!(room.add_player(player("a")));
    assert!(room.add_player(player("b")));
    assert!(room.add_player(Player::new("a".to_string(), Some("Alice".to_string()))));
    let players = room.get_players();
    assert_eq!(players.len(), 2);
    assert_eq!(players[0], Player { id: "a".to_string(), name: Some("Alice".to_string()), ready: false });
    assert_eq!(players[1], Player { id: "b".to_string(), name: None, ready: false });
}

#[test]
fn remove_player_says_whether_it_was_a_member() {
    let mut room = Room::new("r1".to_string(), RoomType::Chat, 3);
    room.add_player(player("a"));
    room.add_player(player("b"));
    room.add_player(player("c"));
    assert!(room.remove_player("b"));
    assert!(!room.remove_player("b"));
    assert!(!room.remove_player("zzz"));
    let ids: Vec<String> = room.get_players().into_iter().map(|p| p.id).collect();
    assert_eq!(ids, vec!["a".to_string(), "c".to_string()]);
    assert!(room.remove_player("a"));
    assert!(room.remove_player("c"));
    assert!(room.is_empty());
}

#[test]
fn recipients_leave_out_the_excluded_member() {
    let mut room = Room::new("r1".to_string(), RoomType::Chat, 5);
    room.add_player(player("a"));
    room.add_player(player("b"));
    room.add_player(player("c"));
    assert_eq!(room.recipients(None), vec!["a".to_string(), "b".to_string(), "c".to_string()]);
    assert_eq!(room.recipients(Some("b")), vec!["a".to_string(), "c".to_string()]);
    assert_eq!(room.recipients(Some("x")), vec!["a".to_string(), "b".to_string(), "c".to_string()]);
}

#[test]
fn default_capacity_by_kind() {
    assert_eq!(RoomType::Chat.default_capacity(), 50);
    assert_eq!(RoomType::CardGame.default_capacity(), 4);
}
