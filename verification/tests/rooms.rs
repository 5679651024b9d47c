use voidmat_relay::messages::ServerMessage;
use voidmat_relay::room::{ConnectedPlayer, Room, RoomRegistry};

fn player(id: &str, host: bool) -> ConnectedPlayer {
    ConnectedPlayer {
        player_id: id.to_string(),
        username: format!("name-{}", id),
        is_host: host,
        connection_id: format!("conn-{}", id),
    }
}

fn room_of(ids: &[&str]) -> Room {
    Room { players: ids.iter().enumerate().map(|(i, id)| player(id, i == 0)).collect() }
}

fn ids(room: &Room) -> Vec<String> {
    room.players.iter().map(|p| p.player_id.clone()).collect()
}

#[test]
fn broadcast_skips_the_excluded_player() {
    let room = room_of(&["a", "b", "c"]);
    let out = room.broadcast(ServerMessage::Pong, Some("b"));
    assert_eq!(out.recipients, vec!["conn-a".to_string(), "conn-c".to_string()]);
    assert!(matches!(out.message, ServerMessage::Pong));
}

#[test]
fn broadcast_all_reaches_everyone_in_order() {
    let room = room_of(&["a", "b", "c"]);
    let out = room.broadcast_all(ServerMessage::Pong);
    assert_eq!(out.recipients, vec!["conn-a", "conn-b", "conn-c"]);
    let unknown = room.broadcast(ServerMessage::Pong, Some("zzz"));
    assert_eq!(unknown.recipients.len(), 3);
}

#[test]
fn remove_player_takes_the_first_match() {
    let mut room = room_of(&["a", "b", "c"]);
    let removed = room.remove_player("b").unwrap();
    assert_eq!(removed.player_id, "b");
    assert_eq!(ids(&room), vec!["a", "c"]);
    assert!(room.remove_player("b").is_none());
    assert_eq!(ids(&room), vec!["a", "c"]);
}

#[test]
fn is_empty_and_player_infos() {
    let mut room = room_of(&["a", "b"]);
    assert!(!room.is_empty());
    let infos = room.player_infos();
    assert_eq!(infos.len(), 2);
    assert_eq!(infos[0].player_id, "a");
    assert_eq!(infos[0].username, "name-a");
    assert!(infos[0].is_host);
    assert!(!infos[1].is_host);
    room.remove_player("a");
    room.remove_player("b");
    assert!(room.is_empty());
    assert!(room.player_infos().is_empty());
}

#[test]
fn migrate_host_promotes_the_first_player() {
    let mut room = Room { players: vec![player("x", false), player("y", false)] };
    assert_eq!(room.migrate_host(), Some("x".to_string()));
    assert!(room.players[0].is_host);
    assert!(!room.players[1].is_host);
    let mut empty = Room { players: vec![] };
    assert_eq!(empty.migrate_host(), None);
}

#[test]
fn create_room_refuses_when_full() {
    let mut reg = RoomRegistry::new(1, 8);
    assert_eq!(reg.create_room("AAAAAA".to_string(), player("h", true)), Ok(()));
    assert_eq!(reg.create_room("BBBBBB".to_string(), player("k", true)), Err("server is full"));
    assert_eq!(reg.room_count(), 1);
    let mut none = RoomRegistry::new(0, 8);
    assert_eq!(none.create_room("AAAAAA".to_string(), player("h", true)), Err("server is full"));
    assert_eq!(none.room_count(), 0);
}

#[test]
fn join_room_errors() {
    let mut reg = RoomRegistry::new(10, 2);
    assert_eq!(reg.join_room("NOPE22", player("p", false)).unwrap_err(), "room not found");
    reg.create_room("ROOM22".to_string(), player("h", true)).unwrap();
    assert_eq!(reg.join_room("ROOM22", player("h", false)).unwrap_err(), "already in a room");
    let infos = reg.join_room("ROOM22", player("p", false)).unwrap();
    assert_eq!(infos.len(), 1);
    assert_eq!(infos[0].player_id, "h");
    assert_eq!(reg.join_room("ROOM22", player("q", false)).unwrap_err(), "room is full");
    let players = reg.get_room_players("ROOM22").unwrap();
    assert_eq!(players.len(), 2);
    assert_eq!(players[1].player_id, "p");
}

#[test]
fn leave_room_migrates_host_and_removes_empty_rooms() {
    let mut reg = RoomRegistry::new(10, 8);
    reg.create_room("ROOM22".to_string(), player("h", true)).unwrap();
    reg.join_room("ROOM22", player("p", false)).unwrap();
    reg.join_room("ROOM22", player("q", false)).unwrap();
    assert_eq!(reg.leave_room("NOPE22", "h"), None);
    assert_eq!(reg.leave_room("ROOM22", "q"), Some((false, None)));
    assert_eq!(reg.leave_room("ROOM22", "h"), Some((true, Some("p".to_string()))));
    let players = reg.get_room_players("ROOM22").unwrap();
    assert_eq!(players.len(), 1);
    assert!(players[0].is_host);
    assert_eq!(reg.leave_room("ROOM22", "ghost"), Some((false, None)));
    assert_eq!(reg.leave_room("ROOM22", "p"), Some((true, None)));
    assert!(reg.get_room_players("ROOM22").is_none());
    assert_eq!(reg.room_count(), 0);
}

#[test]
fn broadcast_in_room_addresses_the_room() {
    let mut reg = RoomRegistry::new(10, 8);
    reg.create_room("ROOM22".to_string(), player("h", true)).unwrap();
    reg.join_room("ROOM22", player("p", false)).unwrap();
    let out = reg.broadcast_in_room("ROOM22", ServerMessage::Pong, Some("p"));
    assert_eq!(out.recipients, vec!["conn-h"]);
    let nobody = reg.broadcast_in_room("NOPE22", ServerMessage::Pong, None);
    assert!(nobody.recipients.is_empty());
}

#[test]
fn generate_code_gives_fresh_codes_of_the_alphabet() {
    let mut reg = RoomRegistry::new(100, 8);
    let alphabet = "ABCDEFGHIJKLMNPQRSTUVWXYZ23456789";
    for i in 0..50 {
        let code = reg.generate_code();
        assert_eq!(code.chars().count(), 6);
        assert!(code.chars().all(|c| alphabet.contains(c)), "code {}", code);
        assert!(reg.get_room_players(&code).is_none());
        reg.create_room(code, player(&format!("h{}", i), true)).unwrap();
    }
    assert_eq!(reg.room_count(), 50);
}

#[test]
fn law_join_then_leave_on_values() {
    let mut reg = RoomRegistry::new(10, 8);
    reg.create_room("ROOM22".to_string(), player("h", true)).unwrap();
    reg.join_room("ROOM22", player("p", false)).unwrap();
    let before = reg.get_room_players("ROOM22").unwrap();
    reg.join_room("ROOM22", player("q", false)).unwrap();
    assert_eq!(reg.leave_room("ROOM22", "q"), Some((false, None)));
    let after = reg.get_room_players("ROOM22").unwrap();
    assert_eq!(before.len(), after.len());
    for (b, a) in before.iter().zip(after.iter()) {
        assert_eq!(b.player_id, a.player_id);
        assert_eq!(b.username, a.username);
        assert_eq!(b.is_host, a.is_host);
    }
    assert_eq!(reg.room_count(), 1);
}

#[test]
fn law_create_then_leave_on_values() {
    let mut reg = RoomRegistry::new(10, 8);
    reg.create_room("ROOM22".to_string(), player("h", true)).unwrap();
    assert_eq!(reg.leave_room("ROOM22", "h"), Some((true, None)));
    assert_eq!(reg.room_count(), 0);
    assert!(reg.get_room_players("ROOM22").is_none());
}
