use yumana_websocket::config::listen_address;
use yumana_websocket::identity::{authorization_value, identity_endpoint, select_profile};
use yumana_websocket::types::{
    address_all, clone_opt_text, clone_players, JoinError, Outbound, Player, RelayError,
    ServerMessage, UserProfile,
};

fn profile(id: &str, name: &str) -> UserProfile {
    UserProfile { id: id.to_string(), username: name.to_string() }
}

#[test]
fn listen_address_defaults_to_port_8080() {
    assert_eq!(listen_address(None), "0.0.0.0:8080");
    assert_eq!(listen_address(Some("9001".to_string())), "0.0.0.0:9001");
}

#[test]
fn authorization_value_is_bearer_and_token() {
    assert_eq!(authorization_value("tok1"), "Bearer tok1");
    assert_eq!(authorization_value(""), "Bearer ");
    assert_eq!(identity_endpoint(), "https://api.yumana.my.id/me");
}

#[test]
fn select_profile_prefers_the_wrapped_reading() {
    let wrapped = profile("1", "w");
    let bare = profile("2", "b");
    assert_eq!(select_profile(true, Some(wrapped.clone()), Some(bare.clone())), Some(wrapped.clone()));
    assert_eq!(select_profile(true, None, Some(bare.clone())), Some(bare.clone()));
    assert_eq!(select_profile(true, Some(wrapped.clone()), None), Some(wrapped.clone()));
    assert_eq!(select_profile(true, None, None), None);
    assert_eq!(select_profile(false, Some(wrapped), Some(bare)), None);
}

#[test]
fn join_errors_map_to_relay_errors() {
    assert_eq!(JoinError::RoomNotFound.relay_error(), RelayError::RoomNotFound);
    assert_eq!(JoinError::RoomFull.relay_error(), RelayError::RoomFull);
    assert_eq!(JoinError::AlreadyInRoom.relay_error(), RelayError::AlreadyInRoom);
}

#[test]
fn clones_are_equal() {
    let players = vec![
        Player { id: "a".to_string(), name: Some("Ann".to_string()), ready: true },
        Player { id: "b".to_string(), name: None, ready: false },
    ];
    assert_eq!(clone_players(&players), players);
    assert_eq!(players[0].clone(), players[0]);
    assert_eq!(clone_opt_text(&Some("x".to_string())), Some("x".to_string()));
    assert_eq!(clone_opt_text(&None), None);
    let user = profile("42", "alice");
    assert_eq!(user.clone(), user);
    let messages = vec![
        ServerMessage::Connected { client_id: "c".to_string() },
        ServerMessage::Authenticated { user: user.clone() },
        ServerMessage::RoomCreated {
            room_id: "r".to_string(),
            room_type: yumana_websocket::types::RoomType::CardGame,
        },
        ServerMessage::RoomJoined {
            room_id: "r".to_string(),
            room_type: yumana_websocket::types::RoomType::Chat,
            players: players.clone(),
        },
        ServerMessage::PlayerJoined { player: players[0].clone() },
        ServerMessage::PlayerLeft { client_id: "c".to_string() },
        ServerMessage::ChatMessage {
            from: "a".to_string(),
            content: "hi".to_string(),
            timestamp: -3,
        },
        ServerMessage::GameState { state: serde_json::Value::from("s") },
        ServerMessage::GameAction {
            player_id: "a".to_string(),
            action: "draw".to_string(),
            data: serde_json::Value::from(vec![1, 2]),
        },
        ServerMessage::Error { message: "e".to_string() },
    ];
    for m in &messages {
        assert_eq!(&m.clone(), m);
    }
}

#[test]
fn address_all_makes_one_copy_per_client() {
    let message = ServerMessage::PlayerLeft { client_id: "x".to_string() };
    let out = address_all(vec!["a".to_string(), "b".to_string()], &message);
    assert_eq!(
        out,
        vec![
            Outbound { to: "a".to_string(), message: message.clone() },
            Outbound { to: "b".to_string(), message: message.clone() },
        ]
    );
    assert_eq!(out[0].clone(), out[0]);
    assert!(address_all(vec![], &message).is_empty());
}
