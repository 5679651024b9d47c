//! Properties of the relay that span several operations or several clients.
use vstd::prelude::*;

use crate::client::{
    action_step, create_step, handled, leave_step, or_empty, player_entry, HandlerView,
};
use crate::messages::{ClientMessageView, OutgoingView, PlayerInfoView, ServerMessageView};
use crate::config::{loaded_config, RelayConfigView, RelayEnvView};
use crate::text::{all_digits, decimal, decimal_digit_chars, digits_value, parse_unsigned};
use crate::room::{
    create_outcome, is_room_code, has_player, join_outcome, lemma_position_of, leave_outcome, position_of,
    receives, recipients, room_hosted, room_recipients, without_player, PlayerView, RegistryView,
};

verus! {

/// A player who joins a room and then leaves it leaves the registry exactly
/// as it was before the join.
pub proof fn law_join_then_leave(reg: RegistryView, code: Seq<char>, player: PlayerView)
    requires
        reg.wf(),
        !player.is_host,
    ensures
        join_outcome(reg, code, player) matches Ok((next, _)) ==> leave_outcome(
            next,
            code,
            player.player_id,
        ) == Some((reg, false, None::<Seq<char>>)),
{
    if let Ok((next, _)) = join_outcome(reg, code, player) {
        let ps = reg.rooms[code];
        let joined = ps.push(player);
        assert(next.rooms[code] == joined);
        lemma_position_of(joined, player.player_id);
        let pos = position_of(joined, player.player_id);
        assert(joined[ps.len() as int].player_id == player.player_id);
        if pos < ps.len() {
            assert(ps[pos].player_id == player.player_id);
            assert(has_player(ps, player.player_id));
        }
        assert(pos == ps.len());
        assert(without_player(joined, player.player_id) =~= ps);
        assert(next.rooms.insert(code, ps) =~= reg.rooms);
    }
}

/// A room's creator who leaves before anyone joined takes the room away:
/// the registry is as it was before the room was created.
pub proof fn law_create_then_leave(reg: RegistryView, code: Seq<char>, host: PlayerView)
    requires
        !reg.rooms.contains_key(code),
    ensures
        create_outcome(reg, code, host) matches Some(next) ==> leave_outcome(
            next,
            code,
            host.player_id,
        ) == Some((reg, host.is_host, None::<Seq<char>>)),
{
    if let Some(next) = create_outcome(reg, code, host) {
        let ps = seq![host];
        lemma_position_of(ps, host.player_id);
        assert(ps[0].player_id == host.player_id);
        assert(position_of(ps, host.player_id) == 0);
        assert(without_player(ps, host.player_id) =~= Seq::<PlayerView>::empty());
        assert(next.rooms.remove(code) =~= reg.rooms);
    }
}

/// When the host leaves a room in which others remain, the player who
/// entered the room next after them becomes its host, the only one, and
/// their id is what the leave reports.
pub proof fn law_host_migrates(reg: RegistryView, code: Seq<char>)
    requires
        reg.wf(),
        reg.hosted(),
        reg.rooms.contains_key(code),
        reg.rooms[code].len() > 1,
    ensures
        ({
            let ps = reg.rooms[code];
            leave_outcome(reg, code, ps[0].player_id) matches Some((next, was_host, new_host)) && {
                &&& was_host
                &&& new_host == Some(ps[1].player_id)
                &&& next.rooms[code].len() == ps.len() - 1
                &&& next.rooms[code][0].player_id == ps[1].player_id
                &&& room_hosted(next.rooms[code])
            }
        }),
{
    let ps = reg.rooms[code];
    lemma_position_of(ps, ps[0].player_id);
    assert(position_of(ps, ps[0].player_id) == 0);
    let rest = without_player(ps, ps[0].player_id);
    assert(rest[0] == ps[1]);
    assert(room_hosted(ps));
    let hosted = rest.update(0, PlayerView { is_host: true, ..rest[0] });
    assert forall|i: int| 1 <= i < hosted.len() implies !(#[trigger] hosted[i].is_host) by {
        assert(hosted[i] == ps[i + 1]);
    }
}

/// The handler is in a room that holds its player, reachable at its
/// connection.
pub open spec fn consistent(h: HandlerView, reg: RegistryView) -> bool {
    match h.current_room {
        None => true,
        Some(code) => {
            &&& h.player_id is Some
            &&& reg.rooms.contains_key(code)
            &&& exists|i: int|
                0 <= i < reg.rooms[code].len() && #[trigger] reg.rooms[code][i].player_id
                    == h.player_id->0 && reg.rooms[code][i].connection_id == h.connection_id
        },
    }
}

/// A client that entered a room is in it, as far as the registry knows,
/// after each message it sends, until it leaves.
pub proof fn law_handler_stays_consistent(
    h: HandlerView,
    reg: RegistryView,
    msg: ClientMessageView,
    h2: HandlerView,
    reg2: RegistryView,
    out: Seq<OutgoingView>,
)
    requires
        reg.wf(),
        consistent(h, reg),
        handled(h, reg, msg, h2, reg2, out),
    ensures
        consistent(h2, reg2),
{
    match msg {
        ClientMessageView::CreateRoom { player_id, username } => {
            if h.current_room is None {
                let code = choose|code: Seq<char>|
                    #[trigger] is_room_code(code) && !reg.rooms.contains_key(code) && (
                    h2,
                    reg2,
                    out,
                ) == create_step(h, reg, player_id, username, code);
                if create_outcome(reg, code, player_entry(h, player_id, username, true)) is Some {
                    let entry = reg2.rooms[code][0];
                    assert(entry.player_id == h2.player_id->0);
                    assert(entry.connection_id == h2.connection_id);
                }
            }
        },
        ClientMessageView::JoinRoom { room_code, player_id, username } => {
            if h.current_room is None {
                let entry = player_entry(h, player_id, username, false);
                if let Ok((next, _)) = join_outcome(reg, room_code, entry) {
                    let ps = reg.rooms[room_code];
                    assert(next.rooms[room_code][ps.len() as int].player_id == h2.player_id->0);
                }
            }
        },
        _ => {},
    }
}

/// The players of room `code` other than the one with id `other_id` keep
/// their place and connection through `other_id` leaving it.
proof fn lemma_others_stay(reg: RegistryView, code: Seq<char>, other_id: Seq<char>, i: int)
    requires
        reg.wf(),
        reg.rooms.contains_key(code),
        0 <= i < reg.rooms[code].len(),
        reg.rooms[code][i].player_id != other_id,
    ensures
        leave_outcome(reg, code, other_id) matches Some((next, _, _)) && next.rooms.contains_key(code)
            && exists|j: int|
            0 <= j < next.rooms[code].len() && #[trigger] next.rooms[code][j].player_id
                == reg.rooms[code][i].player_id && next.rooms[code][j].connection_id
                == reg.rooms[code][i].connection_id,
{
    let ps = reg.rooms[code];
    lemma_position_of(ps, other_id);
    let pos = position_of(ps, other_id);
    let rest = without_player(ps, other_id);
    let j = if pos >= 0 && pos < i {
        i - 1
    } else {
        i
    };
    assert(rest[j] == ps[i]);
    assert(rest.len() > 0);
    if let Some((next, _, _)) = leave_outcome(reg, code, other_id) {
        assert(next.rooms[code][j].player_id == ps[i].player_id);
        assert(next.rooms[code][j].connection_id == ps[i].connection_id);
    }
}

/// Another client's message never takes a client out of its room: whatever
/// a second connection does, the first stays in the room it entered until
/// it leaves itself.
pub proof fn law_others_keep_handler_in_room(
    h: HandlerView,
    other: HandlerView,
    reg: RegistryView,
    msg: ClientMessageView,
    other2: HandlerView,
    reg2: RegistryView,
    out: Seq<OutgoingView>,
)
    requires
        reg.wf(),
        h.connection_id != other.connection_id,
        consistent(h, reg),
        consistent(other, reg),
        handled(other, reg, msg, other2, reg2, out),
    ensures
        consistent(h, reg2),
{
    if let Some(c) = h.current_room {
        let ps = reg.rooms[c];
        let i = choose|i: int|
            0 <= i < ps.len() && #[trigger] ps[i].player_id == h.player_id->0 && ps[i].connection_id
                == h.connection_id;
        match msg {
            ClientMessageView::CreateRoom { player_id, username } => {
                if other.current_room is None {
                    let code = choose|code: Seq<char>|
                        #[trigger] is_room_code(code) && !reg.rooms.contains_key(code)
                            && (other2, reg2, out) == create_step(
                            other,
                            reg,
                            player_id,
                            username,
                            code,
                        );
                    assert(code != c);
                    assert(reg2.rooms[c] == ps);
                }
            },
            ClientMessageView::JoinRoom { room_code, player_id, username } => {
                if other.current_room is None {
                    let entry = player_entry(other, player_id, username, false);
                    if let Ok((next, _)) = join_outcome(reg, room_code, entry) {
                        assert(next.rooms[c][i] == ps[i]);
                    }
                }
            },
            ClientMessageView::LeaveRoom => {
                if let Some(oc) = other.current_room {
                    let oid = or_empty(other.player_id);
                    if oc == c {
                        let ops = reg.rooms[oc];
                        let k = choose|k: int|
                            0 <= k < ops.len() && #[trigger] ops[k].player_id == other.player_id->0
                                && ops[k].connection_id == other.connection_id;
                        if ps[i].player_id == oid {
                            assert(k == i);
                        }
                        lemma_others_stay(reg, c, oid, i);
                        let j = choose|j: int|
                            0 <= j < reg2.rooms[c].len() && #[trigger] reg2.rooms[c][j].player_id
                                == ps[i].player_id && reg2.rooms[c][j].connection_id
                                == ps[i].connection_id;
                        assert(reg2.rooms[c][j].player_id == h.player_id->0);
                    } else {
                        if let Some((next, _, _)) = leave_outcome(reg, oc, oid) {
                            assert(next.rooms[c] == ps);
                            assert(next.rooms[c][i].player_id == h.player_id->0);
                        }
                    }
                }
            },
            _ => {
                assert(reg2 == reg);
                assert(reg2.rooms[c][i].player_id == h.player_id->0);
            },
        }
    }
}

/// A client that leaves its room is no longer among the room's players, and
/// is in no room.
pub proof fn law_leave_removes_player(h: HandlerView, reg: RegistryView)
    requires
        reg.wf(),
        consistent(h, reg),
        h.current_room is Some,
    ensures
        ({
            let (h2, reg2, _) = leave_step(h, reg);
            let code = h.current_room->0;
            &&& h2.current_room is None
            &&& reg2.rooms.contains_key(code) ==> !has_player(reg2.rooms[code], h.player_id->0)
        }),
{
    let code = h.current_room->0;
    let id = h.player_id->0;
    let ps = reg.rooms[code];
    lemma_position_of(ps, id);
    let pos = position_of(ps, id);
    let i = choose|i: int|
        0 <= i < ps.len() && #[trigger] ps[i].player_id == id && ps[i].connection_id == h.connection_id;
    assert(pos >= 0);
    let rest = without_player(ps, id);
    assert forall|j: int| 0 <= j < rest.len() implies #[trigger] rest[j].player_id != id by {
        let j0 = if j < pos { j } else { j + 1 };
        assert(rest[j] == ps[j0]);
        if j0 < pos {
        } else {
            assert(ps[pos].player_id == id);
        }
    }
    if let Some((next, _, _)) = leave_outcome(reg, code, id) {
        if next.rooms.contains_key(code) && has_player(next.rooms[code], id) {
            let k = choose|k: int| 0 <= k < next.rooms[code].len() && #[trigger] next.rooms[code][k].player_id == id;
            assert(next.rooms[code][k].player_id == rest[k].player_id);
        }
    }
}

/// A message sent in a room with `exclude_id` reaches the connection of
/// every player of the room whose id differs.
pub proof fn law_broadcast_reaches_others(
    players: Seq<PlayerView>,
    exclude_id: Option<Seq<char>>,
    i: int,
)
    requires
        0 <= i < players.len(),
        receives(players[i], exclude_id),
    ensures
        recipients(players, exclude_id).contains(players[i].connection_id),
    decreases players.len(),
{
    let rest = recipients(players.drop_last(), exclude_id);
    if i == players.len() - 1 {
        assert(recipients(players, exclude_id).last() == players[i].connection_id);
    } else {
        law_broadcast_reaches_others(players.drop_last(), exclude_id, i);
        let k = choose|k: int| 0 <= k < rest.len() && rest[k] == players[i].connection_id;
        assert(recipients(players, exclude_id)[k] == players[i].connection_id);
    }
}

/// A game action sent by a client in a room reaches every other client of
/// that room whose player id differs from the sender's.
pub proof fn law_action_reaches_room(
    sender: HandlerView,
    receiver: HandlerView,
    reg: RegistryView,
    payload: serde_json::Value,
)
    requires
        consistent(sender, reg),
        consistent(receiver, reg),
        sender.current_room is Some,
        receiver.current_room == sender.current_room,
        receiver.player_id != sender.player_id,
    ensures
        action_step(sender, reg, payload).2.len() == 1,
        action_step(sender, reg, payload).2[0].recipients.contains(receiver.connection_id),
        action_step(sender, reg, payload).2[0].message == (ServerMessageView::GameAction {
            from: sender.player_id->0,
            payload,
        }),
        action_step(sender, reg, payload).0 == sender,
        action_step(sender, reg, payload).1 == reg,
{
    let c = sender.current_room->0;
    let ps = reg.rooms[c];
    let i = choose|i: int|
        0 <= i < ps.len() && #[trigger] ps[i].player_id == receiver.player_id->0 && ps[i].connection_id
            == receiver.connection_id;
    law_broadcast_reaches_others(ps, sender.player_id, i);
    assert(room_recipients(reg, c, sender.player_id) == recipients(ps, sender.player_id));
}

/// Creating a room succeeds exactly while fewer than `max_rooms` rooms exist:
/// the new room holds the creator alone, every other room and both limits
/// stay as they were. At the limit or above, creation is refused.
pub proof fn law_create_below_limit(reg: RegistryView, code: Seq<char>, host: PlayerView)
    ensures
        reg.rooms.len() < reg.max_rooms ==> (create_outcome(reg, code, host) matches Some(next) && {
            &&& next.rooms.contains_key(code)
            &&& next.rooms[code].len() == 1
            &&& next.rooms[code][0] == host
            &&& next.max_rooms == reg.max_rooms
            &&& next.max_players == reg.max_players
            &&& forall|c: Seq<char>|
                c != code ==> (#[trigger] next.rooms.contains_key(c) == reg.rooms.contains_key(c)
                    && (reg.rooms.contains_key(c) ==> next.rooms[c] == reg.rooms[c]))
        }),
        reg.rooms.len() >= reg.max_rooms ==> create_outcome(reg, code, host) is None,
{
}

/// Joining succeeds exactly when the room exists, has fewer players than
/// the limit and has no player with the joiner's id; otherwise the refusal
/// names which of these failed, in that order.
pub proof fn law_join_succeeds_exactly(reg: RegistryView, code: Seq<char>, player: PlayerView)
    ensures
        !reg.rooms.contains_key(code) ==> join_outcome(reg, code, player) == Err::<
            (RegistryView, Seq<PlayerInfoView>),
            &'static str,
        >("room not found"),
        reg.rooms.contains_key(code) && reg.rooms[code].len() >= reg.max_players ==> join_outcome(
            reg,
            code,
            player,
        ) == Err::<(RegistryView, Seq<PlayerInfoView>), &'static str>("room is full"),
        reg.rooms.contains_key(code) && reg.rooms[code].len() < reg.max_players && (exists|i: int|
            0 <= i < reg.rooms[code].len() && #[trigger] reg.rooms[code][i].player_id
                == player.player_id) ==> join_outcome(reg, code, player) == Err::<
            (RegistryView, Seq<PlayerInfoView>),
            &'static str,
        >("already in a room"),
        reg.rooms.contains_key(code) && reg.rooms[code].len() < reg.max_players && (forall|i: int|
            0 <= i < reg.rooms[code].len() ==> #[trigger] reg.rooms[code][i].player_id
                != player.player_id) ==> join_outcome(reg, code, player) is Ok,
{
}

/// A successful join tells the joiner every player who was already in the
/// room, in room order, and puts the joiner last; no other room changes.
pub proof fn law_join_reports_players_before(reg: RegistryView, code: Seq<char>, player: PlayerView)
    ensures
        join_outcome(reg, code, player) matches Ok((next, infos)) ==> {
            let before = reg.rooms[code];
            &&& reg.rooms.contains_key(code)
            &&& infos.len() == before.len()
            &&& forall|i: int|
                0 <= i < before.len() ==> #[trigger] infos[i].player_id == before[i].player_id
                    && infos[i].username == before[i].username && infos[i].is_host
                    == before[i].is_host
            &&& next.rooms.contains_key(code)
            &&& next.rooms[code].len() == before.len() + 1
            &&& forall|i: int| 0 <= i < before.len() ==> #[trigger] next.rooms[code][i] == before[i]
            &&& next.rooms[code][before.len() as int] == player
            &&& next.max_rooms == reg.max_rooms
            &&& next.max_players == reg.max_players
            &&& forall|c: Seq<char>|
                c != code ==> (#[trigger] next.rooms.contains_key(c) == reg.rooms.contains_key(c)
                    && (reg.rooms.contains_key(c) ==> next.rooms[c] == reg.rooms[c]))
        },
{
}

/// Leaving takes exactly the leaving player out of the room and keeps the
/// others in their order, with their ids, names and connections; a room left
/// empty disappears; the leave reports whether the leaver was host. A player
/// not in the room changes nothing.
pub proof fn law_leave_removes_exactly(reg: RegistryView, code: Seq<char>, i: int)
    requires
        reg.wf(),
        reg.rooms.contains_key(code),
        0 <= i < reg.rooms[code].len(),
    ensures
        ({
            let ps = reg.rooms[code];
            leave_outcome(reg, code, ps[i].player_id) matches Some((next, was_host, new_host)) && {
                &&& was_host == ps[i].is_host
                &&& new_host == (if ps[i].is_host && ps.len() > 1 {
                    Some(ps[if i == 0 {
                        1int
                    } else {
                        0int
                    }].player_id)
                } else {
                    None
                })
                &&& next.max_rooms == reg.max_rooms
                &&& next.max_players == reg.max_players
                &&& forall|c: Seq<char>|
                    c != code ==> (#[trigger] next.rooms.contains_key(c) == reg.rooms.contains_key(c)
                        && (reg.rooms.contains_key(c) ==> next.rooms[c] == reg.rooms[c]))
                &&& ps.len() == 1 ==> !next.rooms.contains_key(code)
                &&& ps.len() > 1 ==> {
                    &&& next.rooms.contains_key(code)
                    &&& next.rooms[code].len() == ps.len() - 1
                    &&& forall|j: int|
                        0 <= j < ps.len() - 1 ==> {
                            let k = if j < i {
                                j
                            } else {
                                j + 1
                            };
                            &&& #[trigger] next.rooms[code][j].player_id == ps[k].player_id
                            &&& next.rooms[code][j].username == ps[k].username
                            &&& next.rooms[code][j].connection_id == ps[k].connection_id
                            &&& next.rooms[code][j].is_host == (ps[k].is_host || (j == 0
                                && ps[i].is_host))
                        }
                }
            }
        }),
{
    let ps = reg.rooms[code];
    let id = ps[i].player_id;
    lemma_position_of(ps, id);
    let pos = position_of(ps, id);
    if pos != i {
        assert(ps[pos].player_id == ps[i].player_id);
    }
    assert(pos == i);
    let rest = without_player(ps, id);
    assert forall|j: int| 0 <= j < ps.len() - 1 implies rest[j] == ps[if j < i {
        j
    } else {
        j + 1
    }] by {}
    if rest.len() > 0 {
        let hosted = crate::room::with_first_as_host(rest);
        assert forall|j: int| 0 <= j < rest.len() implies hosted[j].player_id == rest[j].player_id
            && hosted[j].username == rest[j].username && hosted[j].connection_id
            == rest[j].connection_id && hosted[j].is_host == (rest[j].is_host || j == 0) by {}
        assert(rest[0] == ps[if i == 0 {
            1int
        } else {
            0int
        }]);
    }
}

/// Leaving a room one is not in changes nothing and reports no host.
pub proof fn law_leave_by_stranger(reg: RegistryView, code: Seq<char>, player_id: Seq<char>)
    requires
        reg.rooms.contains_key(code),
        reg.rooms[code].len() > 0,
        forall|i: int| 0 <= i < reg.rooms[code].len() ==> #[trigger] reg.rooms[code][i].player_id != player_id,
    ensures
        leave_outcome(reg, code, player_id) == Some((reg, false, None::<Seq<char>>)),
{
    lemma_position_of(reg.rooms[code], player_id);
    assert(reg.rooms.insert(code, reg.rooms[code]) =~= reg.rooms);
}

/// `connection` belongs to a player whose id is not `exclude_id`.
pub open spec fn connection_of_other(
    players: Seq<PlayerView>,
    exclude_id: Option<Seq<char>>,
    connection: Seq<char>,
) -> bool {
    exists|i: int|
        0 <= i < players.len() && exclude_id != Some(players[i].player_id) && connection == (
        #[trigger] players[i]).connection_id
}

/// A message sent in a room reaches only connections of players whose id is
/// not the excluded one, never more connections than the room has players,
/// and all of them when no id is excluded.
pub proof fn law_broadcast_reaches_only_others(players: Seq<PlayerView>, exclude_id: Option<Seq<char>>)
    ensures
        forall|k: int|
            0 <= k < recipients(players, exclude_id).len() ==> connection_of_other(
                players,
                exclude_id,
                #[trigger] recipients(players, exclude_id)[k],
            ),
        recipients(players, exclude_id).len() <= players.len(),
        exclude_id is None ==> recipients(players, exclude_id).len() == players.len(),
    decreases players.len(),
{
    if players.len() > 0 {
        let init = players.drop_last();
        law_broadcast_reaches_only_others(init, exclude_id);
        let r = recipients(players, exclude_id);
        let ri = recipients(init, exclude_id);
        let last = players[players.len() - 1];
        assert(players.last() == last);
        if receives(last, exclude_id) {
            assert(r == ri.push(last.connection_id));
        } else {
            assert(r == ri);
        }
        assert forall|k: int| 0 <= k < r.len() implies connection_of_other(
            players,
            exclude_id,
            #[trigger] r[k],
        ) by {
            if k < ri.len() {
                assert(r[k] == ri[k]);
                assert(connection_of_other(init, exclude_id, ri[k]));
                let i0 = choose|i: int|
                    0 <= i < init.len() && exclude_id != Some(init[i].player_id) && ri[k]
                        == (#[trigger] init[i]).connection_id;
                assert(players[i0] == init[i0]);
            } else {
                assert(r[k] == last.connection_id);
                assert(exclude_id != Some(last.player_id));
                assert(players[players.len() - 1] == last);
            }
        }
    } else {
        assert(recipients(players, exclude_id).len() == 0);
    }
}

proof fn lemma_digit_chars()
    ensures
        forall|d: int| 0 <= d < 10 ==> #[trigger] decimal_digit_chars()[d] as int == 48 + d,
{
    assert forall|d: int| 0 <= d < 10 implies #[trigger] decimal_digit_chars()[d] as int == 48 + d by {
        assert(decimal_digit_chars()[d] as int == 48 + d);
    }
}

proof fn lemma_decimal_digits(n: nat)
    ensures
        decimal(n).len() > 0,
        all_digits(decimal(n)),
        digits_value(decimal(n)) == n,
    decreases n,
{
    lemma_digit_chars();
    let s = decimal(n);
    if n < 10 {
        assert(s.drop_last() =~= Seq::<char>::empty());
        assert(digits_value(s.drop_last()) == 0);
    } else {
        lemma_decimal_digits(n / 10);
        let init = decimal(n / 10);
        assert(s.drop_last() =~= init);
        assert(s.last() == decimal_digit_chars()[(n % 10) as int]);
        assert forall|i: int| 0 <= i < s.len() implies crate::text::is_digit(#[trigger] s[i]) by {
            if i < init.len() {
                assert(s[i] == init[i]);
            }
        }
    }
}

/// The decimal text of a number reads back as that number: what `addr`
/// writes for the port is the port, and every number no larger than the
/// type's maximum survives writing and reading.
pub proof fn law_decimal_reads_back(n: nat, max: nat)
    requires
        n <= max,
    ensures
        parse_unsigned(decimal(n), max) == Some(n),
{
    lemma_decimal_digits(n);
    let s = decimal(n);
    assert(crate::text::is_digit(s[0]));
    assert(s[0] != '+');
}

/// With no settings file and no environment, the settings are the defaults:
/// port 7777 on host 0.0.0.0, 1000 rooms of 8 players, pings every 30 s
/// with a 10 s timeout, messages up to 65536 bytes.
pub proof fn law_defaults(env: RelayEnvView)
    requires
        env.port is None,
        env.host is None,
        env.max_rooms is None,
        env.max_players is None,
    ensures
        ({
            let c = loaded_config(None, env);
            &&& c.port == 7777
            &&& c.host == "0.0.0.0"@
            &&& c.max_rooms == 1000
            &&& c.max_players_per_room == 8
            &&& c.ping_interval_secs == 30
            &&& c.ping_timeout_secs == 10
            &&& c.max_message_size_bytes == 65536
        }),
{
}

/// Every entry that the file's `[relay]` table gives is the setting, unless
/// the environment gives that setting; every entry it leaves out keeps its
/// default. The environment gives only the port, host and the two limits.
pub proof fn law_file_entries_loaded(r: RelayConfigView, env: RelayEnvView)
    ensures
        ({
            let c = loaded_config(Some(Some(r)), env);
            &&& env.port is None ==> c.port == (match r.port {
                Some(v) => v,
                None => 7777u16,
            })
            &&& env.host is None ==> c.host == (match r.host {
                Some(v) => v,
                None => "0.0.0.0"@,
            })
            &&& env.max_rooms is None ==> c.max_rooms == (match r.max_rooms {
                Some(v) => v,
                None => 1000usize,
            })
            &&& env.max_players is None ==> c.max_players_per_room == (
            match r.max_players_per_room {
                Some(v) => v,
                None => 8usize,
            })
            &&& c.ping_interval_secs == (match r.ping_interval_secs {
                Some(v) => v,
                None => 30u64,
            })
            &&& c.ping_timeout_secs == (match r.ping_timeout_secs {
                Some(v) => v,
                None => 10u64,
            })
            &&& c.max_message_size_bytes == (match r.max_message_size_bytes {
                Some(v) => v,
                None => 65536usize,
            })
        }),
{
}

/// An environment setting that is set wins over the file and the defaults:
/// the host as given, a number where its text reads as one of its type.
/// Text that does not read as a number leaves the setting as the file or
/// the default gave it.
pub proof fn law_env_overrides(file: Option<Option<RelayConfigView>>, env: RelayEnvView)
    ensures
        ({
            let c = loaded_config(file, env);
            let without = loaded_config(
                file,
                RelayEnvView { port: None, host: None, max_rooms: None, max_players: None },
            );
            &&& env.host matches Some(h) ==> c.host == h
            &&& env.host is None ==> c.host == without.host
            &&& env.port matches Some(t) ==> c.port as nat == match parse_unsigned(t, 65535) {
                Some(v) => v,
                None => without.port as nat,
            }
            &&& env.port is None ==> c.port == without.port
            &&& env.max_rooms matches Some(t) ==> c.max_rooms as nat == match parse_unsigned(
                t,
                usize::MAX as nat,
            ) {
                Some(v) => v,
                None => without.max_rooms as nat,
            }
            &&& env.max_rooms is None ==> c.max_rooms == without.max_rooms
            &&& env.max_players matches Some(t) ==> c.max_players_per_room as nat == match parse_unsigned(
                t,
                usize::MAX as nat,
            ) {
                Some(v) => v,
                None => without.max_players_per_room as nat,
            }
            &&& env.max_players is None ==> c.max_players_per_room == without.max_players_per_room
            &&& c.ping_interval_secs == without.ping_interval_secs
            &&& c.ping_timeout_secs == without.ping_timeout_secs
            &&& c.max_message_size_bytes == without.max_message_size_bytes
        }),
{
}

/// A client that enters a room, by creating or joining it, is recorded with
/// the id and name it entered with, in that room, at the same connection.
pub proof fn law_entering_records_identity(
    h: HandlerView,
    reg: RegistryView,
    msg: ClientMessageView,
    h2: HandlerView,
    reg2: RegistryView,
    out: Seq<OutgoingView>,
)
    requires
        handled(h, reg, msg, h2, reg2, out),
        h.current_room is None,
        h2.current_room is Some,
    ensures
        h2.connection_id == h.connection_id,
        reg2.rooms.contains_key(h2.current_room->0),
        match msg {
            ClientMessageView::CreateRoom { player_id, username } => h2.player_id == Some(player_id)
                && h2.username == Some(username) && reg2.rooms[h2.current_room->0].len() == 1
                && reg2.rooms[h2.current_room->0][0].username == username,
            ClientMessageView::JoinRoom { room_code, player_id, username } => h2.current_room == Some(
                room_code,
            ) && h2.player_id == Some(player_id) && h2.username == Some(username),
            _ => false,
        },
{
    match msg {
        ClientMessageView::CreateRoom { player_id, username } => {
            let code = choose|code: Seq<char>|
                #[trigger] is_room_code(code) && !reg.rooms.contains_key(code) && (h2, reg2, out)
                    == create_step(h, reg, player_id, username, code);
        },
        _ => {},
    }
}

/// A client leaving its room announces itself with the id and name it
/// entered with, to the players who remain; where it was the host, the new
/// host follows.
pub proof fn law_leave_announces_identity(h: HandlerView, reg: RegistryView)
    requires
        h.current_room is Some,
        h.player_id is Some,
        h.username is Some,
        reg.rooms.contains_key(h.current_room->0),
    ensures
        ({
            let (h2, reg2, out) = leave_step(h, reg);
            let code = h.current_room->0;
            &&& h2.current_room is None
            &&& out.len() >= 1
            &&& out[0].message == (ServerMessageView::PlayerLeft {
                player_id: h.player_id->0,
                username: h.username->0,
            })
            &&& out[0].recipients == room_recipients(reg2, code, None)
            &&& leave_outcome(reg, code, h.player_id->0) matches Some((_, _, Some(id))) ==> (
            out.len() == 2 && out[1].recipients == room_recipients(reg2, code, None)
                && out[1].message == (ServerMessageView::HostChanged { new_host_id: id }))
            &&& leave_outcome(reg, code, h.player_id->0) matches Some((_, _, None)) ==> out.len()
                == 1
        }),
{
}

/// A game action from a client in no room is refused with "not in a room",
/// to the sender alone, and nothing changes.
pub proof fn law_action_outside_room(h: HandlerView, reg: RegistryView, payload: serde_json::Value)
    requires
        h.current_room is None,
    ensures
        action_step(h, reg, payload).0 == h,
        action_step(h, reg, payload).1 == reg,
        action_step(h, reg, payload).2 == seq![
            OutgoingView {
                recipients: seq![h.connection_id],
                message: ServerMessageView::Error { message: "not in a room"@ },
            },
        ],
{
}

/// A join followed by a leave of the same client announces the name it
/// joined with.
pub proof fn law_join_then_leave_announces_name(
    h: HandlerView,
    reg: RegistryView,
    room_code: Seq<char>,
    player_id: Seq<char>,
    username: Seq<char>,
    h2: HandlerView,
    reg2: RegistryView,
    out: Seq<OutgoingView>,
)
    requires
        h.current_room is None,
        handled(
            h,
            reg,
            (ClientMessageView::JoinRoom { room_code, player_id, username }),
            h2,
            reg2,
            out,
        ),
        h2.current_room is Some,
    ensures
        leave_step(h2, reg2).2[0].message == (ServerMessageView::PlayerLeft { player_id, username }),
{
    law_entering_records_identity(
        h,
        reg,
        ClientMessageView::JoinRoom { room_code, player_id, username },
        h2,
        reg2,
        out,
    );
    law_leave_announces_identity(h2, reg2);
}

/// In a room whose ids are unique, a message excluding one id reaches one
/// connection fewer than the room has players when that id is in the room,
/// and as many when it is not.
pub proof fn law_broadcast_count(players: Seq<PlayerView>, exclude_id: Seq<char>)
    requires
        crate::room::unique_ids(players),
    ensures
        recipients(players, Some(exclude_id)).len() == players.len() - (if has_player(
            players,
            exclude_id,
        ) {
            1int
        } else {
            0int
        }),
    decreases players.len(),
{
    if players.len() > 0 {
        let init = players.drop_last();
        assert(crate::room::unique_ids(init)) by {
            assert forall|i: int, j: int| 0 <= i < j < init.len() implies #[trigger] init[i].player_id
                != #[trigger] init[j].player_id by {
                assert(init[i] == players[i] && init[j] == players[j]);
            }
        }
        law_broadcast_count(init, exclude_id);
        let last = players[players.len() - 1];
        assert(players.last() == last);
        if has_player(init, exclude_id) {
            let k = choose|k: int| 0 <= k < init.len() && #[trigger] init[k].player_id == exclude_id;
            assert(players[k] == init[k]);
            assert(last.player_id != exclude_id);
        }
        if has_player(players, exclude_id) && !has_player(init, exclude_id) {
            let k = choose|k: int| 0 <= k < players.len() && #[trigger] players[k].player_id == exclude_id;
            if k < init.len() {
                assert(init[k] == players[k]);
            }
        }
        if has_player(init, exclude_id) {
            let k = choose|k: int| 0 <= k < init.len() && #[trigger] init[k].player_id == exclude_id;
            assert(players[k].player_id == exclude_id);
        }
        if last.player_id == exclude_id {
            assert(players[players.len() - 1].player_id == exclude_id);
        }
    }
}

/// Ping is answered with Pong to the sender alone and changes nothing.
pub proof fn law_ping_answers_pong(
    h: HandlerView,
    reg: RegistryView,
    h2: HandlerView,
    reg2: RegistryView,
    out: Seq<OutgoingView>,
)
    requires
        handled(h, reg, ClientMessageView::Ping, h2, reg2, out),
    ensures
        h2 == h,
        reg2 == reg,
        out.len() == 1,
        out[0].recipients == seq![h.connection_id],
        out[0].message == ServerMessageView::Pong,
{
}

/// A client already in a room that asks to create or join one is told
/// "already in a room", alone, and nothing changes.
pub proof fn law_second_room_refused(
    h: HandlerView,
    reg: RegistryView,
    msg: ClientMessageView,
    h2: HandlerView,
    reg2: RegistryView,
    out: Seq<OutgoingView>,
)
    requires
        h.current_room is Some,
        msg is CreateRoom || msg is JoinRoom,
        handled(h, reg, msg, h2, reg2, out),
    ensures
        h2 == h,
        reg2 == reg,
        out.len() == 1,
        out[0].recipients == seq![h.connection_id],
        out[0].message == (ServerMessageView::Error { message: "already in a room"@ }),
{
}

/// A client that creates a room is told the room's code, alone; the code is
/// a fresh room code and the room holds the client alone, as host.
pub proof fn law_create_messages(
    h: HandlerView,
    reg: RegistryView,
    player_id: Seq<char>,
    username: Seq<char>,
    h2: HandlerView,
    reg2: RegistryView,
    out: Seq<OutgoingView>,
)
    requires
        h.current_room is None,
        handled(h, reg, (ClientMessageView::CreateRoom { player_id, username }), h2, reg2, out),
        h2.current_room is Some,
    ensures
        is_room_code(h2.current_room->0),
        !reg.rooms.contains_key(h2.current_room->0),
        reg2.rooms[h2.current_room->0] == seq![
            PlayerView { player_id, username, is_host: true, connection_id: h.connection_id },
        ],
        out.len() == 1,
        out[0].recipients == seq![h.connection_id],
        out[0].message == (ServerMessageView::RoomCreated { room_code: h2.current_room->0 }),
{
    let code = choose|code: Seq<char>|
        #[trigger] is_room_code(code) && !reg.rooms.contains_key(code) && (h2, reg2, out)
            == create_step(h, reg, player_id, username, code);
    assert(reg2.rooms[code] =~= seq![player_entry(h, player_id, username, true)]);
}

/// A client that joins a room is told the room's code and every player who
/// was there before it, in room order; every other connection of the room
/// is told of the newcomer, as a player who is not host.
pub proof fn law_join_messages(
    h: HandlerView,
    reg: RegistryView,
    room_code: Seq<char>,
    player_id: Seq<char>,
    username: Seq<char>,
    h2: HandlerView,
    reg2: RegistryView,
    out: Seq<OutgoingView>,
)
    requires
        h.current_room is None,
        handled(h, reg, (ClientMessageView::JoinRoom { room_code, player_id, username }), h2, reg2, out),
        h2.current_room is Some,
    ensures
        reg.rooms.contains_key(room_code),
        out.len() == 2,
        out[0].recipients == seq![h.connection_id],
        out[0].message matches ServerMessageView::RoomJoined { room_code: c, players } && c
            == room_code && players.len() == reg.rooms[room_code].len() && forall|i: int|
            0 <= i < players.len() ==> (#[trigger] players[i]).player_id
                == reg.rooms[room_code][i].player_id && players[i].username
                == reg.rooms[room_code][i].username && players[i].is_host
                == reg.rooms[room_code][i].is_host,
        out[1].recipients == recipients(reg2.rooms[room_code], Some(player_id)),
        out[1].message == (ServerMessageView::PlayerJoined(
            PlayerInfoView { player_id, username, is_host: false },
        )),
{
    law_join_reports_players_before(reg, room_code, player_entry(h, player_id, username, false));
}

/// A number written in decimal and read with a maximum below it does not
/// read: overflow is refused.
pub proof fn law_decimal_overflow_refused(n: nat, max: nat)
    requires
        n > max,
    ensures
        parse_unsigned(decimal(n), max) is None,
{
    lemma_decimal_digits(n);
    let s = decimal(n);
    assert(crate::text::is_digit(s[0]));
}

/// Only text made of digits, after at most one leading `+`, and holding at
/// least one digit, reads as a number; and a number read is at most `max`.
pub proof fn law_parse_reads_only_digits(s: Seq<char>, max: nat)
    ensures
        parse_unsigned(s, max) matches Some(v) ==> {
            &&& v <= max
            &&& s.len() > 0
            &&& s.len() > 1 || s[0] != '+'
            &&& forall|i: int|
                0 <= i < s.len() ==> crate::text::is_digit(#[trigger] s[i]) || (i == 0 && s[i]
                    == '+')
        },
{
    if let Some(v) = parse_unsigned(s, max) {
        if s[0] == '+' {
            let d = s.drop_first();
            assert forall|i: int| 0 <= i < s.len() implies crate::text::is_digit(#[trigger] s[i])
                || (i == 0 && s[i] == '+') by {
                if i > 0 {
                    assert(s[i] == d[i - 1]);
                }
            }
        }
    }
}

proof fn lemma_leading_zero_value(t: Seq<char>)
    ensures
        digits_value(seq!['0'] + t) == digits_value(t),
    decreases t.len(),
{
    let z = seq!['0'] + t;
    if t.len() == 0 {
        assert(z.drop_last() =~= Seq::<char>::empty());
        assert(z.last() == '0');
        assert(crate::text::digit_value('0') == 0);
        assert(digits_value(z.drop_last()) == 0);
    } else {
        lemma_leading_zero_value(t.drop_last());
        assert(z.drop_last() =~= seq!['0'] + t.drop_last());
        assert(z.last() == t.last());
    }
}

/// Leading zeros and a leading `+` do not change what digits read as.
pub proof fn law_parse_ignores_zeros_and_plus(t: Seq<char>, max: nat)
    requires
        t.len() > 0,
        crate::text::is_digit(t[0]),
    ensures
        parse_unsigned(seq!['0'] + t, max) == parse_unsigned(t, max),
        parse_unsigned(seq!['+'] + t, max) == parse_unsigned(t, max),
{
    lemma_leading_zero_value(t);
    let z = seq!['0'] + t;
    let p = seq!['+'] + t;
    assert(p.drop_first() =~= t);
    if crate::text::all_digits(t) {
        assert forall|i: int| 0 <= i < z.len() implies crate::text::is_digit(#[trigger] z[i]) by {
            if i > 0 {
                assert(z[i] == t[i - 1]);
            }
        }
    } else {
        let k = choose|k: int| 0 <= k < t.len() && !crate::text::is_digit(#[trigger] t[k]);
        assert(z[k + 1] == t[k]);
    }
}

} // verus!
