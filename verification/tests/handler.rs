use voidmat_relay::client::ClientHandler;
use voidmat_relay::messages::{ClientMessage, Outgoing, ServerMessage};
use voidmat_relay::room::RoomRegistry;

fn create(pid: &str) -> ClientMessage {
    ClientMessage::CreateRoom { player_id: pid.to_string(), username: format!("user-{}", pid) }
}

fn join(code: &str, pid: &str) -> ClientMessage {
    ClientMessage::JoinRoom {
        room_code: code.to_string(),
        player_id: pid.to_string(),
        username: format!("user-{}", pid),
    }
}

fn error_text(out: &Outgoing) -> String {
    match &out.message {
        ServerMessage::Error { message } => message.clone(),
        _ => panic!("not an error"),
    }
}

/// Creates a room with a host and gives the handler and the room code.
fn hosted_room(reg: &mut RoomRegistry) -> (ClientHandler, String) {
    let mut host = ClientHandler::new();
    let out = host.handle_message(reg, create("h"));
    assert_eq!(out.len(), 1);
    assert_eq!(out[0].recipients, vec![host.connection_id().to_string()]);
    let code = match &out[0].message {
        ServerMessage::RoomCreated { room_code } => room_code.clone(),
        _ => panic!("expected RoomCreated"),
    };
    assert_eq!(host.current_room(), Some(code.as_str()));
    (host, code)
}

#[test]
fn new_handlers_get_distinct_uuid_ids() {
    let a = ClientHandler::new();
    let b = ClientHandler::new();
    assert_eq!(a.connection_id().len(), 36);
    assert_ne!(a.connection_id(), b.connection_id());
    assert_eq!(a.current_room(), None);
}

#[test]
fn connection_ids_are_lowercase_uuid_v4_text() {
    for _ in 0..20 {
        let h = ClientHandler::new();
        let id: Vec<char> = h.connection_id().chars().collect();
        assert_eq!(id.len(), 36);
        for (i, c) in id.iter().enumerate() {
            if i == 8 || i == 13 || i == 18 || i == 23 {
                assert_eq!(*c, '-');
            } else {
                assert!(c.is_ascii_digit() || ('a'..='f').contains(c), "id {:?}", id);
            }
        }
        assert_eq!(id[14], '4');
        assert!(['8', '9', 'a', 'b'].contains(&id[19]));
    }
}

#[test]
fn ping_is_answered_with_pong() {
    let mut reg = RoomRegistry::new(10, 8);
    let mut h = ClientHandler::new();
    let out = h.handle_message(&mut reg, ClientMessage::Ping);
    assert_eq!(out.len(), 1);
    assert_eq!(out[0].recipients, vec![h.connection_id().to_string()]);
    assert!(matches!(out[0].message, ServerMessage::Pong));
    assert_eq!(reg.room_count(), 0);
}

#[test]
fn create_room_twice_is_refused() {
    let mut reg = RoomRegistry::new(10, 8);
    let (mut host, _code) = hosted_room(&mut reg);
    let out = host.handle_message(&mut reg, create("h2"));
    assert_eq!(out.len(), 1);
    assert_eq!(error_text(&out[0]), "already in a room");
    assert_eq!(out[0].recipients, vec![host.connection_id().to_string()]);
    assert_eq!(reg.room_count(), 1);
    let out = host.handle_message(&mut reg, join("ROOM22", "h3"));
    assert_eq!(error_text(&out[0]), "already in a room");
    assert_eq!(reg.room_count(), 1);
}

#[test]
fn create_room_when_server_is_full() {
    let mut reg = RoomRegistry::new(0, 8);
    let mut h = ClientHandler::new();
    let out = h.handle_message(&mut reg, create("h"));
    assert_eq!(error_text(&out[0]), "server is full");
    assert_eq!(h.current_room(), None);
}

#[test]
fn join_room_tells_the_joiner_and_the_others() {
    let mut reg = RoomRegistry::new(10, 8);
    let (host, code) = hosted_room(&mut reg);
    let mut guest = ClientHandler::new();
    let out = guest.handle_message(&mut reg, join(&code, "g"));
    assert_eq!(out.len(), 2);
    assert_eq!(out[0].recipients, vec![guest.connection_id().to_string()]);
    match &out[0].message {
        ServerMessage::RoomJoined { room_code, players } => {
            assert_eq!(room_code, &code);
            assert_eq!(players.len(), 1);
            assert_eq!(players[0].player_id, "h");
            assert!(players[0].is_host);
        },
        _ => panic!("expected RoomJoined"),
    }
    assert_eq!(out[1].recipients, vec![host.connection_id().to_string()]);
    match &out[1].message {
        ServerMessage::PlayerJoined(info) => {
            assert_eq!(info.player_id, "g");
            assert_eq!(info.username, "user-g");
            assert!(!info.is_host);
        },
        _ => panic!("expected PlayerJoined"),
    }
    assert_eq!(guest.current_room(), Some(code.as_str()));
}

#[test]
fn join_room_errors_reach_the_joiner_only() {
    let mut reg = RoomRegistry::new(10, 1);
    let (_host, code) = hosted_room(&mut reg);
    let mut guest = ClientHandler::new();
    let out = guest.handle_message(&mut reg, join("NOPE22", "g"));
    assert_eq!(error_text(&out[0]), "room not found");
    let out = guest.handle_message(&mut reg, join(&code, "g"));
    assert_eq!(error_text(&out[0]), "room is full");
    assert_eq!(out[0].recipients, vec![guest.connection_id().to_string()]);
    assert_eq!(guest.current_room(), None);
}

#[test]
fn joining_with_a_taken_id_is_refused() {
    let mut reg = RoomRegistry::new(10, 8);
    let (_host, code) = hosted_room(&mut reg);
    let mut guest = ClientHandler::new();
    let out = guest.handle_message(&mut reg, join(&code, "h"));
    assert_eq!(error_text(&out[0]), "already in a room");
}

#[test]
fn game_action_goes_to_the_other_players() {
    let mut reg = RoomRegistry::new(10, 8);
    let (mut host, code) = hosted_room(&mut reg);
    let mut a = ClientHandler::new();
    let mut b = ClientHandler::new();
    a.handle_message(&mut reg, join(&code, "a"));
    b.handle_message(&mut reg, join(&code, "b"));
    let payload: serde_json::Value = serde_json::from_str(r#"{"card":"Island","zone":[1,2]}"#).unwrap();
    let out = a.handle_message(&mut reg, ClientMessage::GameAction { payload: payload.clone() });
    assert_eq!(out.len(), 1);
    assert_eq!(
        out[0].recipients,
        vec![host.connection_id().to_string(), b.connection_id().to_string()]
    );
    match &out[0].message {
        ServerMessage::GameAction { from, payload: p } => {
            assert_eq!(from, "a");
            assert_eq!(p, &payload);
        },
        _ => panic!("expected GameAction"),
    }
    let out = host.handle_message(&mut reg, ClientMessage::GameAction { payload: payload.clone() });
    assert_eq!(
        out[0].recipients,
        vec![a.connection_id().to_string(), b.connection_id().to_string()]
    );
}

#[test]
fn game_action_outside_a_room_is_an_error() {
    let mut reg = RoomRegistry::new(10, 8);
    let mut h = ClientHandler::new();
    let out = h.handle_message(&mut reg, ClientMessage::GameAction { payload: serde_json::Value::Null });
    assert_eq!(out.len(), 1);
    assert_eq!(error_text(&out[0]), "not in a room");
    assert_eq!(out[0].recipients, vec![h.connection_id().to_string()]);
}

#[test]
fn leave_room_outside_a_room_does_nothing() {
    let mut reg = RoomRegistry::new(10, 8);
    let mut h = ClientHandler::new();
    assert!(h.handle_message(&mut reg, ClientMessage::LeaveRoom).is_empty());
    assert!(h.handle_leave(&mut reg).is_empty());
}

#[test]
fn host_leaving_hands_the_room_on() {
    let mut reg = RoomRegistry::new(10, 8);
    let (mut host, code) = hosted_room(&mut reg);
    let mut a = ClientHandler::new();
    let mut b = ClientHandler::new();
    a.handle_message(&mut reg, join(&code, "a"));
    b.handle_message(&mut reg, join(&code, "b"));
    let out = host.handle_message(&mut reg, ClientMessage::LeaveRoom);
    assert_eq!(out.len(), 2);
    let everyone = vec![a.connection_id().to_string(), b.connection_id().to_string()];
    assert_eq!(out[0].recipients, everyone);
    match &out[0].message {
        ServerMessage::PlayerLeft { player_id, username } => {
            assert_eq!(player_id, "h");
            assert_eq!(username, "user-h");
        },
        _ => panic!("expected PlayerLeft"),
    }
    assert_eq!(out[1].recipients, everyone);
    match &out[1].message {
        ServerMessage::HostChanged { new_host_id } => assert_eq!(new_host_id, "a"),
        _ => panic!("expected HostChanged"),
    }
    assert_eq!(host.current_room(), None);
    let players = reg.get_room_players(&code).unwrap();
    assert_eq!(players.len(), 2);
    assert!(players[0].is_host);
    assert_eq!(players[0].player_id, "a");
}

#[test]
fn guest_leaving_is_announced_without_host_change() {
    let mut reg = RoomRegistry::new(10, 8);
    let (host, code) = hosted_room(&mut reg);
    let mut a = ClientHandler::new();
    a.handle_message(&mut reg, join(&code, "a"));
    let out = a.handle_leave(&mut reg);
    assert_eq!(out.len(), 1);
    assert_eq!(out[0].recipients, vec![host.connection_id().to_string()]);
    assert!(matches!(out[0].message, ServerMessage::PlayerLeft { .. }));
    assert_eq!(a.current_room(), None);
}

#[test]
fn last_player_leaving_closes_the_room() {
    let mut reg = RoomRegistry::new(10, 8);
    let (mut host, code) = hosted_room(&mut reg);
    let out = host.handle_leave(&mut reg);
    assert_eq!(out.len(), 1);
    assert!(out[0].recipients.is_empty());
    assert!(reg.get_room_players(&code).is_none());
    assert_eq!(reg.room_count(), 0);
    let out = host.handle_message(&mut reg, create("h"));
    assert!(matches!(out[0].message, ServerMessage::RoomCreated { .. }));
}

#[test]
fn others_leaving_keep_a_player_in_the_room() {
    let mut reg = RoomRegistry::new(10, 8);
    let (mut host, code) = hosted_room(&mut reg);
    let mut a = ClientHandler::new();
    let mut b = ClientHandler::new();
    a.handle_message(&mut reg, join(&code, "a"));
    b.handle_message(&mut reg, join(&code, "b"));
    host.handle_leave(&mut reg);
    a.handle_leave(&mut reg);
    let players = reg.get_room_players(&code).unwrap();
    assert_eq!(players.len(), 1);
    assert_eq!(players[0].player_id, "b");
    assert!(players[0].is_host);
    let out = b.handle_message(&mut reg, ClientMessage::GameAction { payload: serde_json::Value::Bool(true) });
    assert!(out[0].recipients.is_empty());
}
