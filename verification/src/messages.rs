//! The messages that clients send to the relay and that the relay sends
//! back. A game action's payload is any JSON value; the relay never looks
//! into it and hands it on unchanged.
use vstd::prelude::*;

verus! {

/// `serde_json::Value`, carried through the relay as it came in.
#[verifier::external_type_specification]
#[verifier::external_body]
pub struct ExJsonValue(serde_json::Value);

/// `Clone::clone` for `serde_json::Value`, which the derived `Clone` of
/// `ServerMessage` calls. Nothing is claimed of the copy.
pub assume_specification[ <serde_json::Value as Clone>::clone ](value: &serde_json::Value) -> serde_json::Value;

/// A player as the other players of the room see them.
#[derive(Debug, Clone)]
pub struct PlayerInfo {
    pub player_id: String,
    pub username: String,
    pub is_host: bool,
}

pub struct PlayerInfoView {
    pub player_id: Seq<char>,
    pub username: Seq<char>,
    pub is_host: bool,
}

impl View for PlayerInfo {
    type V = PlayerInfoView;

    open spec fn view(&self) -> PlayerInfoView {
        PlayerInfoView {
            player_id: self.player_id@,
            username: self.username@,
            is_host: self.is_host,
        }
    }
}

/// What a client asks of the relay.
#[derive(Debug)]
pub enum ClientMessage {
    CreateRoom { player_id: String, username: String },
    JoinRoom { room_code: String, player_id: String, username: String },
    LeaveRoom,
    GameAction { payload: serde_json::Value },
    Ping,
}

pub enum ClientMessageView {
    CreateRoom { player_id: Seq<char>, username: Seq<char> },
    JoinRoom { room_code: Seq<char>, player_id: Seq<char>, username: Seq<char> },
    LeaveRoom,
    GameAction { payload: serde_json::Value },
    Ping,
}

impl View for ClientMessage {
    type V = ClientMessageView;

    open spec fn view(&self) -> ClientMessageView {
        match self {
            ClientMessage::CreateRoom { player_id, username } => ClientMessageView::CreateRoom {
                player_id: player_id@,
                username: username@,
            },
            ClientMessage::JoinRoom { room_code, player_id, username } => ClientMessageView::JoinRoom {
                room_code: room_code@,
                player_id: player_id@,
                username: username@,
            },
            ClientMessage::LeaveRoom => ClientMessageView::LeaveRoom,
            ClientMessage::GameAction { payload } => ClientMessageView::GameAction {
                payload: *payload,
            },
            ClientMessage::Ping => ClientMessageView::Ping,
        }
    }
}

/// What the relay tells a client.
#[derive(Debug, Clone)]
pub enum ServerMessage {
    RoomCreated { room_code: String },
    RoomJoined { room_code: String, players: Vec<PlayerInfo> },
    PlayerJoined(PlayerInfo),
    PlayerLeft { player_id: String, username: String },
    GameAction { from: String, payload: serde_json::Value },
    HostChanged { new_host_id: String },
    Error { message: String },
    Pong,
}

pub enum ServerMessageView {
    RoomCreated { room_code: Seq<char> },
    RoomJoined { room_code: Seq<char>, players: Seq<PlayerInfoView> },
    PlayerJoined(PlayerInfoView),
    PlayerLeft { player_id: Seq<char>, username: Seq<char> },
    GameAction { from: Seq<char>, payload: serde_json::Value },
    HostChanged { new_host_id: Seq<char> },
    Error { message: Seq<char> },
    Pong,
}

impl View for ServerMessage {
    type V = ServerMessageView;

    open spec fn view(&self) -> ServerMessageView {
        match self {
            ServerMessage::RoomCreated { room_code } => ServerMessageView::RoomCreated {
                room_code: room_code@,
            },
            ServerMessage::RoomJoined { room_code, players } => ServerMessageView::RoomJoined {
                room_code: room_code@,
                players: players@.map_values(|p: PlayerInfo| p@),
            },
            ServerMessage::PlayerJoined(info) => ServerMessageView::PlayerJoined(info@),
            ServerMessage::PlayerLeft { player_id, username } => ServerMessageView::PlayerLeft {
                player_id: player_id@,
                username: username@,
            },
            ServerMessage::GameAction { from, payload } => ServerMessageView::GameAction {
                from: from@,
                payload: *payload,
            },
            ServerMessage::HostChanged { new_host_id } => ServerMessageView::HostChanged {
                new_host_id: new_host_id@,
            },
            ServerMessage::Error { message } => ServerMessageView::Error { message: message@ },
            ServerMessage::Pong => ServerMessageView::Pong,
        }
    }
}

/// A message together with the connections it is to be delivered to, in the
/// order in which they are to receive it.
#[derive(Debug)]
pub struct Outgoing {
    pub recipients: Vec<String>,
    pub message: ServerMessage,
}

pub struct OutgoingView {
    pub recipients: Seq<Seq<char>>,
    pub message: ServerMessageView,
}

impl View for Outgoing {
    type V = OutgoingView;

    open spec fn view(&self) -> OutgoingView {
        OutgoingView {
            recipients: self.recipients@.map_values(|c: String| c@),
            message: self.message@,
        }
    }
}

} // verus!
