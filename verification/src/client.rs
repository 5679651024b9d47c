//! One client connection: what the relay does with each message the client
//! sends, and which connections hear of it.
use vstd::prelude::*;
use vstd::string::*;

use crate::messages::{
    ClientMessage, ClientMessageView, Outgoing, OutgoingView, PlayerInfo, PlayerInfoView,
    ServerMessage, ServerMessageView,
};
use crate::room::{
    code_count, create_outcome, infos_of, is_room_code, join_outcome, leave_outcome,
    room_recipients, string_view, ConnectedPlayer, PlayerView, RegistryView, RoomRegistry,
};

verus! {

pub open spec fn is_lower_hex_digit(c: char) -> bool {
    ('0' <= c && c <= '9') || ('a' <= c && c <= 'f')
}

/// A version-4 UUID in lowercase hyphenated text: 8-4-4-4-12 lowercase hex
/// digits, the version digit `4`, and a variant digit of `8`, `9`, `a` or `b`.
pub open spec fn is_uuid_v4_text(s: Seq<char>) -> bool {
    &&& s.len() == 36
    &&& forall|i: int|
        0 <= i < 36 ==> if i == 8 || i == 13 || i == 18 || i == 23 {
            #[trigger] s[i] == '-'
        } else {
            is_lower_hex_digit(s[i])
        }
    &&& s[14] == '4'
    &&& (s[19] == '8' || s[19] == '9' || s[19] == 'a' || s[19] == 'b')
}

/// `uuid::Uuid::new_v4().to_string()`: a random version-4 UUID in the
/// lowercase hyphenated form that `Display` writes. Which UUID comes out is
/// left open.
#[verifier::external_body]
fn new_connection_id() -> (id: String)
    ensures
        is_uuid_v4_text(id@),
{
    uuid::Uuid::new_v4().to_string()
}

/// The state of one client connection: its id, and the room and name it
/// entered with, if any.
#[derive(Debug)]
pub struct ClientHandler {
    connection_id: String,
    current_room: Option<String>,
    player_id: Option<String>,
    username: Option<String>,
}

pub struct HandlerView {
    pub connection_id: Seq<char>,
    pub current_room: Option<Seq<char>>,
    pub player_id: Option<Seq<char>>,
    pub username: Option<Seq<char>>,
}

impl View for ClientHandler {
    type V = HandlerView;

    closed spec fn view(&self) -> HandlerView {
        HandlerView {
            connection_id: self.connection_id@,
            current_room: string_view(self.current_room),
            player_id: string_view(self.player_id),
            username: string_view(self.username),
        }
    }
}

pub open spec fn outgoing_view(out: Seq<Outgoing>) -> Seq<OutgoingView> {
    out.map_values(|o: Outgoing| o@)
}

/// `message`, for this client alone.
pub open spec fn reply(h: HandlerView, message: ServerMessageView) -> OutgoingView {
    OutgoingView { recipients: seq![h.connection_id], message }
}

pub open spec fn error_reply(h: HandlerView, text: Seq<char>) -> OutgoingView {
    reply(h, ServerMessageView::Error { message: text })
}

/// The room entry of this client's player.
pub open spec fn player_entry(h: HandlerView, player_id: Seq<char>, username: Seq<char>, is_host: bool) -> PlayerView {
    PlayerView { player_id, username, is_host, connection_id: h.connection_id }
}

pub open spec fn entered(h: HandlerView, code: Seq<char>, player_id: Seq<char>, username: Seq<char>) -> HandlerView {
    HandlerView {
        current_room: Some(code),
        player_id: Some(player_id),
        username: Some(username),
        ..h
    }
}

/// `CreateRoom` by a client in no room, with `code` the fresh code drawn for
/// it: the new room and handler state and the messages sent.
pub open spec fn create_step(
    h: HandlerView,
    reg: RegistryView,
    player_id: Seq<char>,
    username: Seq<char>,
    code: Seq<char>,
) -> (HandlerView, RegistryView, Seq<OutgoingView>) {
    match create_outcome(reg, code, player_entry(h, player_id, username, true)) {
        None => (h, reg, seq![error_reply(h, "server is full"@)]),
        Some(next) => (
            entered(h, code, player_id, username),
            next,
            seq![reply(h, ServerMessageView::RoomCreated { room_code: code })],
        ),
    }
}

/// `JoinRoom` by a client in no room.
pub open spec fn join_step(
    h: HandlerView,
    reg: RegistryView,
    code: Seq<char>,
    player_id: Seq<char>,
    username: Seq<char>,
) -> (HandlerView, RegistryView, Seq<OutgoingView>) {
    match join_outcome(reg, code, player_entry(h, player_id, username, false)) {
        Err(e) => (h, reg, seq![error_reply(h, e@)]),
        Ok((next, infos)) => (
            entered(h, code, player_id, username),
            next,
            seq![
                reply(h, ServerMessageView::RoomJoined { room_code: code, players: infos }),
                OutgoingView {
                    recipients: room_recipients(next, code, Some(player_id)),
                    message: ServerMessageView::PlayerJoined(
                        PlayerInfoView { player_id, username, is_host: false },
                    ),
                },
            ],
        ),
    }
}

pub open spec fn or_empty(t: Option<Seq<char>>) -> Seq<char> {
    match t {
        Some(s) => s,
        None => seq![],
    }
}

/// Leaving the current room, on `LeaveRoom` and when the connection closes:
/// the player leaves it, the players who remain hear of it, and of the new
/// host where the host left.
pub open spec fn leave_step(h: HandlerView, reg: RegistryView) -> (
    HandlerView,
    RegistryView,
    Seq<OutgoingView>,
) {
    match h.current_room {
        None => (h, reg, seq![]),
        Some(code) => {
            let player_id = or_empty(h.player_id);
            let username = or_empty(h.username);
            let out_of_room = HandlerView { current_room: None, ..h };
            match leave_outcome(reg, code, player_id) {
                None => (out_of_room, reg, seq![]),
                Some((next, _was_host, new_host)) => {
                    let left = OutgoingView {
                        recipients: room_recipients(next, code, None),
                        message: ServerMessageView::PlayerLeft { player_id, username },
                    };
                    match new_host {
                        None => (out_of_room, next, seq![left]),
                        Some(id) => (
                            out_of_room,
                            next,
                            seq![
                                left,
                                OutgoingView {
                                    recipients: room_recipients(next, code, None),
                                    message: ServerMessageView::HostChanged { new_host_id: id },
                                },
                            ],
                        ),
                    }
                },
            }
        },
    }
}

/// `GameAction`: the payload goes to the other players of the room.
pub open spec fn action_step(h: HandlerView, reg: RegistryView, payload: serde_json::Value) -> (
    HandlerView,
    RegistryView,
    Seq<OutgoingView>,
) {
    match h.current_room {
        Some(code) => match h.player_id {
            Some(player_id) => (
                h,
                reg,
                seq![
                    OutgoingView {
                        recipients: room_recipients(reg, code, Some(player_id)),
                        message: ServerMessageView::GameAction { from: player_id, payload },
                    },
                ],
            ),
            None => (h, reg, seq![]),
        },
        None => (h, reg, seq![error_reply(h, "not in a room"@)]),
    }
}

/// What handling `msg` does: from handler `h` and registry `reg` to `h2`
/// and `reg2`, sending `out`. A room created gets some code that was free.
pub open spec fn handled(
    h: HandlerView,
    reg: RegistryView,
    msg: ClientMessageView,
    h2: HandlerView,
    reg2: RegistryView,
    out: Seq<OutgoingView>,
) -> bool {
    match msg {
        ClientMessageView::CreateRoom { player_id, username } => if h.current_room is Some {
            (h2, reg2, out) == (h, reg, seq![error_reply(h, "already in a room"@)])
        } else {
            exists|code: Seq<char>|
                #[trigger] is_room_code(code) && !reg.rooms.contains_key(code) && (h2, reg2, out)
                    == create_step(h, reg, player_id, username, code)
        },
        ClientMessageView::JoinRoom { room_code, player_id, username } => if h.current_room is Some {
            (h2, reg2, out) == (h, reg, seq![error_reply(h, "already in a room"@)])
        } else {
            (h2, reg2, out) == join_step(h, reg, room_code, player_id, username)
        },
        ClientMessageView::LeaveRoom => (h2, reg2, out) == leave_step(h, reg),
        ClientMessageView::GameAction { payload } => (h2, reg2, out) == action_step(
            h,
            reg,
            payload,
        ),
        ClientMessageView::Ping => (h2, reg2, out) == (h, reg, seq![reply(h, ServerMessageView::Pong)]),
    }
}

impl ClientHandler {
    /// A fresh connection, in no room yet, under a new random id.
    pub fn new() -> (h: Self)
        ensures
            h@.current_room is None,
            h@.player_id is None,
            h@.username is None,
            is_uuid_v4_text(h@.connection_id),
    {
        ClientHandler {
            connection_id: new_connection_id(),
            current_room: None,
            player_id: None,
            username: None,
        }
    }

    /// The id under which messages reach this connection.
    pub fn connection_id(&self) -> (id: &str)
        ensures
            id@ == self@.connection_id,
    {
        self.connection_id.as_str()
    }

    /// The code of the room this client is in.
    pub fn current_room(&self) -> (code: Option<&str>)
        ensures
            match code {
                Some(c) => self@.current_room == Some(c@),
                None => self@.current_room is None,
            },
    {
        match &self.current_room {
            Some(c) => Some(c.as_str()),
            None => None,
        }
    }

    /// `message`, for this client alone.
    fn reply(&self, message: ServerMessage) -> (out: Outgoing)
        ensures
            out@ == reply(self@, message@),
    {
        let mut recipients: Vec<String> = Vec::new();
        recipients.push(self.connection_id.clone());
        let out = Outgoing { recipients, message };
        assert(out@.recipients =~= seq![self@.connection_id]);
        out
    }

    fn error_reply(&self, text: &str) -> (out: Outgoing)
        ensures
            out@ == error_reply(self@, text@),
    {
        self.reply(ServerMessage::Error { message: String::from_str(text) })
    }

    /// Handles one message of the client and gives the messages to deliver,
    /// in order.
    pub fn handle_message(&mut self, registry: &mut RoomRegistry, msg: ClientMessage) -> (out: Vec<
        Outgoing,
    >)
        requires
            msg is CreateRoom && old(self)@.current_room is None ==> old(registry)@.rooms.len()
                < code_count(6),
        ensures
            handled(
                old(self)@,
                old(registry)@,
                msg@,
                final(self)@,
                final(registry)@,
                outgoing_view(out@),
            ),
            final(self)@.connection_id == old(self)@.connection_id,
            final(registry)@.wf(),
            old(registry)@.hosted() ==> final(registry)@.hosted(),
    {
        proof {
            use_type_invariant(&*registry);
        }
        let ghost msg_view = msg@;
        match msg {
            ClientMessage::CreateRoom { player_id, username } => {
                if self.current_room.is_some() {
                    let out = vec![self.error_reply("already in a room")];
                    proof {
                        reveal_strlit("already in a room");
                        assert(outgoing_view(out@) =~= seq![error_reply(self@, "already in a room"@)]);
                    }
                    return out;
                }
                let ghost h = self@;
                let ghost reg = registry@;
                let code = registry.generate_code();
                let player = ConnectedPlayer {
                    player_id: player_id.clone(),
                    username: username.clone(),
                    is_host: true,
                    connection_id: self.connection_id.clone(),
                };
                assert(player@ == player_entry(h, player_id@, username@, true));
                match registry.create_room(code.clone(), player) {
                    Ok(()) => {
                        self.current_room = Some(code.clone());
                        self.player_id = Some(player_id);
                        self.username = Some(username);
                        let out = vec![self.reply(ServerMessage::RoomCreated { room_code: code })];
                        proof {
                            assert(self@ == entered(h, code@, player_id@, username@));
                            assert(outgoing_view(out@) =~= seq![
                                reply(h, ServerMessageView::RoomCreated { room_code: code@ }),
                            ]);
                            assert(is_room_code(code@));
                        }
                        out
                    },
                    Err(e) => {
                        let out = vec![self.error_reply(e)];
                        proof {
                            reveal_strlit("server is full");
                            assert(outgoing_view(out@) =~= seq![error_reply(h, "server is full"@)]);
                            assert(is_room_code(code@));
                        }
                        out
                    },
                }
            },
            ClientMessage::JoinRoom { room_code, player_id, username } => {
                if self.current_room.is_some() {
                    let out = vec![self.error_reply("already in a room")];
                    proof {
                        reveal_strlit("already in a room");
                        assert(outgoing_view(out@) =~= seq![error_reply(self@, "already in a room"@)]);
                    }
                    return out;
                }
                let ghost h = self@;
                let player = ConnectedPlayer {
                    player_id: player_id.clone(),
                    username: username.clone(),
                    is_host: false,
                    connection_id: self.connection_id.clone(),
                };
                assert(player@ == player_entry(h, player_id@, username@, false));
                match registry.join_room(room_code.as_str(), player) {
                    Ok(players) => {
                        self.current_room = Some(room_code.clone());
                        let joined = PlayerInfo {
                            player_id: player_id.clone(),
                            username: username.clone(),
                            is_host: false,
                        };
                        let welcome = self.reply(
                            ServerMessage::RoomJoined { room_code: room_code.clone(), players },
                        );
                        let announce = registry.broadcast_in_room(
                            room_code.as_str(),
                            ServerMessage::PlayerJoined(joined),
                            Some(player_id.as_str()),
                        );
                        self.player_id = Some(player_id);
                        self.username = Some(username);
                        let out = vec![welcome, announce];
                        proof {
                            assert(outgoing_view(out@) =~= join_step(
                                h,
                                old(registry)@,
                                room_code@,
                                player_id@,
                                username@,
                            ).2);
                        }
                        out
                    },
                    Err(e) => {
                        let out = vec![self.error_reply(e)];
                        proof {
                            assert(outgoing_view(out@) =~= seq![error_reply(h, e@)]);
                        }
                        out
                    },
                }
            },
            ClientMessage::LeaveRoom => self.handle_leave(registry),
            ClientMessage::GameAction { payload } => {
                let ghost h = self@;
                match &self.current_room {
                    Some(room_code) => match &self.player_id {
                        Some(player_id) => {
                            let out = vec![
                                registry.broadcast_in_room(
                                    room_code.as_str(),
                                    ServerMessage::GameAction { from: player_id.clone(), payload },
                                    Some(player_id.as_str()),
                                ),
                            ];
                            proof {
                                assert(outgoing_view(out@) =~= action_step(h, registry@, msg_view->payload).2);
                            }
                            out
                        },
                        None => {
                            let out: Vec<Outgoing> = Vec::new();
                            assert(outgoing_view(out@) =~= seq![]);
                            out
                        },
                    },
                    None => {
                        let out = vec![self.error_reply("not in a room")];
                        proof {
                            reveal_strlit("not in a room");
                            assert(outgoing_view(out@) =~= seq![error_reply(h, "not in a room"@)]);
                        }
                        out
                    },
                }
            },
            ClientMessage::Ping => {
                let out = vec![self.reply(ServerMessage::Pong)];
                assert(outgoing_view(out@) =~= seq![reply(self@, ServerMessageView::Pong)]);
                out
            },
        }
    }

    /// Leaves the current room, if any, and gives the messages to deliver.
    pub fn handle_leave(&mut self, registry: &mut RoomRegistry) -> (out: Vec<Outgoing>)
        ensures
            (final(self)@, final(registry)@, outgoing_view(out@)) == leave_step(
                old(self)@,
                old(registry)@,
            ),
            final(registry)@.wf(),
            old(registry)@.hosted() ==> final(registry)@.hosted(),
    {
        proof {
            use_type_invariant(&*registry);
        }
        let ghost h = self@;
        let mut out: Vec<Outgoing> = Vec::new();
        if let Some(room_code) = self.current_room.take() {
            let player_id = match &self.player_id {
                Some(p) => p.clone(),
                None => String::new(),
            };
            let username = match &self.username {
                Some(u) => u.clone(),
                None => String::new(),
            };
            if let Some((_was_host, new_host)) = registry.leave_room(
                room_code.as_str(),
                player_id.as_str(),
            ) {
                out.push(
                    registry.broadcast_in_room(
                        room_code.as_str(),
                        ServerMessage::PlayerLeft { player_id, username },
                        None,
                    ),
                );
                if let Some(new_host_id) = new_host {
                    out.push(
                        registry.broadcast_in_room(
                            room_code.as_str(),
                            ServerMessage::HostChanged { new_host_id },
                            None,
                        ),
                    );
                }
            }
            proof {
                assert(outgoing_view(out@) =~= leave_step(h, old(registry)@).2);
            }
        } else {
            assert(outgoing_view(out@) =~= seq![]);
        }
        out
    }
}

} // verus!
