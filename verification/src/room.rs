//! Rooms and the registry of rooms: who is in which room, who hosts it, and
//! to whom a message sent in a room goes.
use vstd::prelude::*;
use vstd::string::*;

use crate::messages::{Outgoing, PlayerInfo, PlayerInfoView, ServerMessage};
use dashmap::DashMap;
use rand::Rng;
use vstd::set_lib::lemma_len_subset;

verus! {

/// A player in a room, with the connection that messages for them go to.
#[derive(Debug, Clone)]
pub struct ConnectedPlayer {
    pub player_id: String,
    pub username: String,
    pub is_host: bool,
    pub connection_id: String,
}

pub struct PlayerView {
    pub player_id: Seq<char>,
    pub username: Seq<char>,
    pub is_host: bool,
    pub connection_id: Seq<char>,
}

impl View for ConnectedPlayer {
    type V = PlayerView;

    open spec fn view(&self) -> PlayerView {
        PlayerView {
            player_id: self.player_id@,
            username: self.username@,
            is_host: self.is_host,
            connection_id: self.connection_id@,
        }
    }
}

/// The players of a room, in the order in which they entered it.
#[derive(Debug, Default)]
pub struct Room {
    pub players: Vec<ConnectedPlayer>,
}

impl View for Room {
    type V = Seq<PlayerView>;

    open spec fn view(&self) -> Seq<PlayerView> {
        self.players@.map_values(|p: ConnectedPlayer| p@)
    }
}

pub open spec fn text_view(t: Option<&str>) -> Option<Seq<char>> {
    match t {
        Some(s) => Some(s@),
        None => None,
    }
}

pub open spec fn string_view(t: Option<String>) -> Option<Seq<char>> {
    match t {
        Some(s) => Some(s@),
        None => None,
    }
}

/// Whether a message sent with `exclude_id` reaches `p`.
pub open spec fn receives(p: PlayerView, exclude_id: Option<Seq<char>>) -> bool {
    match exclude_id {
        Some(id) => p.player_id != id,
        None => true,
    }
}

/// The connections that a message sent in a room with these players reaches:
/// every player but those with the excluded id, in room order.
pub open spec fn recipients(players: Seq<PlayerView>, exclude_id: Option<Seq<char>>) -> Seq<
    Seq<char>,
>
    decreases players.len(),
{
    if players.len() == 0 {
        seq![]
    } else {
        let rest = recipients(players.drop_last(), exclude_id);
        if receives(players.last(), exclude_id) {
            rest.push(players.last().connection_id)
        } else {
            rest
        }
    }
}

/// The index of the first player with id `id`, or -1 when there is none.
pub open spec fn position_of(players: Seq<PlayerView>, id: Seq<char>) -> int
    decreases players.len(),
{
    if players.len() == 0 {
        -1
    } else if players[0].player_id == id {
        0
    } else {
        let rest = position_of(players.drop_first(), id);
        if rest < 0 {
            -1
        } else {
            rest + 1
        }
    }
}

pub open spec fn has_player(players: Seq<PlayerView>, id: Seq<char>) -> bool {
    exists|i: int| 0 <= i < players.len() && #[trigger] players[i].player_id == id
}

/// The players after the first one with id `id` has left.
pub open spec fn without_player(players: Seq<PlayerView>, id: Seq<char>) -> Seq<PlayerView> {
    let pos = position_of(players, id);
    if pos >= 0 {
        players.remove(pos)
    } else {
        players
    }
}

pub open spec fn info_of(p: PlayerView) -> PlayerInfoView {
    PlayerInfoView { player_id: p.player_id, username: p.username, is_host: p.is_host }
}

pub open spec fn infos_of(players: Seq<PlayerView>) -> Seq<PlayerInfoView> {
    players.map_values(|p: PlayerView| info_of(p))
}

/// The players once the first of them has been made host.
pub open spec fn with_first_as_host(players: Seq<PlayerView>) -> Seq<PlayerView> {
    players.update(0, PlayerView { is_host: true, ..players[0] })
}

pub proof fn lemma_position_of(players: Seq<PlayerView>, id: Seq<char>)
    ensures
        -1 <= position_of(players, id) < players.len(),
        position_of(players, id) == -1 <==> !has_player(players, id),
        position_of(players, id) >= 0 ==> players[position_of(players, id)].player_id == id,
        forall|j: int|
            0 <= j < position_of(players, id) ==> #[trigger] players[j].player_id != id,
    decreases players.len(),
{
    if players.len() > 0 {
        let rest = players.drop_first();
        lemma_position_of(rest, id);
        if players[0].player_id != id {
            assert forall|j: int| 1 <= j < players.len() implies players[j] == rest[j - 1] by {}
            if has_player(players, id) {
                let i = choose|i: int| 0 <= i < players.len() && #[trigger] players[i].player_id == id;
                assert(rest[i - 1].player_id == id);
            }
            if has_player(rest, id) {
                let i = choose|i: int| 0 <= i < rest.len() && #[trigger] rest[i].player_id == id;
                assert(players[i + 1].player_id == id);
            }
        }
    }
}

impl Room {
    /// The connections of every player whose id is not `exclude_id`.
    pub fn recipients(&self, exclude_id: Option<&str>) -> (to: Vec<String>)
        ensures
            to@.map_values(|c: String| c@) == recipients(self@, text_view(exclude_id)),
    {
        let excluded: Option<String> = match exclude_id {
            Some(id) => Some(String::from_str(id)),
            None => None,
        };
        let ghost ex = text_view(exclude_id);
        let mut to: Vec<String> = Vec::new();
        let mut i: usize = 0;
        while i < self.players.len()
            invariant
                i <= self.players.len(),
                match excluded {
                    Some(s) => ex == Some(s@),
                    None => ex is None,
                },
                to@.map_values(|c: String| c@) == recipients(self@.take(i as int), ex),
            decreases self.players.len() - i,
        {
            let player = &self.players[i];
            let included = match &excluded {
                Some(id) => !(player.player_id == *id),
                None => true,
            };
            let ghost before = to@.map_values(|c: String| c@);
            assert(self@.take(i + 1).drop_last() =~= self@.take(i as int));
            assert(self@.take(i + 1).last() == player@);
            if included {
                to.push(player.connection_id.clone());
                assert(to@.map_values(|c: String| c@) =~= before.push(player.connection_id@));
            }
            i = i + 1;
        }
        assert(self@.take(i as int) =~= self@);
        to
    }

    /// The message, addressed to every player whose id is not `exclude_id`.
    pub fn broadcast(&self, message: ServerMessage, exclude_id: Option<&str>) -> (out: Outgoing)
        ensures
            out@.recipients == recipients(self@, text_view(exclude_id)),
            out.message == message,
    {
        Outgoing { recipients: self.recipients(exclude_id), message }
    }

    /// The message, addressed to every player of the room.
    pub fn broadcast_all(&self, message: ServerMessage) -> (out: Outgoing)
        ensures
            out@.recipients == recipients(self@, None),
            out.message == message,
    {
        self.broadcast(message, None)
    }

    /// The index of the first player with id `player_id`.
    fn find_player(&self, player_id: &str) -> (pos: Option<usize>)
        ensures
            match pos {
                Some(i) => i as int == position_of(self@, player_id@),
                None => position_of(self@, player_id@) == -1,
            },
    {
        proof {
            lemma_position_of(self@, player_id@);
        }
        let id = String::from_str(player_id);
        let mut i: usize = 0;
        while i < self.players.len()
            invariant
                i <= self.players.len(),
                id@ == player_id@,
                forall|j: int| 0 <= j < i ==> #[trigger] self@[j].player_id != player_id@,
            decreases self.players.len() - i,
        {
            if self.players[i].player_id == id {
                proof {
                    assert(self@[i as int].player_id == player_id@);
                    lemma_position_of(self@, player_id@);
                    let pos = position_of(self@, player_id@);
                    assert(pos >= 0);
                    if pos < i {
                        assert(self@[pos].player_id == player_id@);
                    }
                    if pos > i {
                        assert(self@[i as int].player_id == player_id@);
                    }
                }
                return Some(i);
            }
            i = i + 1;
        }
        proof {
            lemma_position_of(self@, player_id@);
            if has_player(self@, player_id@) {
                let k = choose|k: int| 0 <= k < self@.len() && #[trigger] self@[k].player_id == player_id@;
                assert(self@[k].player_id != player_id@);
            }
        }
        None
    }

    /// Takes the first player with id `player_id` out of the room.
    pub fn remove_player(&mut self, player_id: &str) -> (removed: Option<ConnectedPlayer>)
        ensures
            final(self)@ == without_player(old(self)@, player_id@),
            position_of(old(self)@, player_id@) < 0 ==> removed is None,
            position_of(old(self)@, player_id@) >= 0 ==> (removed matches Some(p) && p@ == old(
                self,
            )@[position_of(old(self)@, player_id@)]),
    {
        proof {
            lemma_position_of(self@, player_id@);
        }
        match self.find_player(player_id) {
            Some(i) => {
                let ghost before = self@;
                let p = self.players.remove(i);
                assert(self@ =~= before.remove(i as int));
                Some(p)
            },
            None => None,
        }
    }

    pub fn is_empty(&self) -> (b: bool)
        ensures
            b == (self@.len() == 0),
    {
        self.players.len() == 0
    }

    /// The players as the other players see them, in room order.
    pub fn player_infos(&self) -> (infos: Vec<PlayerInfo>)
        ensures
            infos@.map_values(|p: PlayerInfo| p@) == infos_of(self@),
    {
        let mut infos: Vec<PlayerInfo> = Vec::new();
        let mut i: usize = 0;
        while i < self.players.len()
            invariant
                i <= self.players.len(),
                infos@.map_values(|p: PlayerInfo| p@) =~= infos_of(self@.take(i as int)),
            decreases self.players.len() - i,
        {
            let p = &self.players[i];
            let ghost before = infos@.map_values(|p: PlayerInfo| p@);
            let info = PlayerInfo {
                player_id: p.player_id.clone(),
                username: p.username.clone(),
                is_host: p.is_host,
            };
            assert(info@ == info_of(self@[i as int]));
            infos.push(info);
            assert(infos@.map_values(|p: PlayerInfo| p@) =~= before.push(info_of(self@[i as int])));
            assert(self@.take(i + 1) =~= self@.take(i as int).push(self@[i as int]));
            assert(infos_of(self@.take(i + 1)) =~= infos_of(self@.take(i as int)).push(
                info_of(self@[i as int]),
            ));
            i = i + 1;
        }
        assert(self@.take(i as int) =~= self@);
        infos
    }

    /// Makes the first player the host and gives their id; `None` for an
    /// empty room.
    pub fn migrate_host(&mut self) -> (new_host: Option<String>)
        ensures
            old(self)@.len() == 0 ==> new_host is None && final(self)@ == old(self)@,
            old(self)@.len() > 0 ==> (new_host matches Some(id) && id@ == old(self)@[0].player_id
                && final(self)@ == with_first_as_host(old(self)@)),
    {
        if self.players.len() == 0 {
            return None;
        }
        let ghost before = self@;
        self.players[0].is_host = true;
        assert(self@ =~= with_first_as_host(before));
        Some(self.players[0].player_id.clone())
    }
}

/// `dashmap::DashMap`, the concurrent map that holds the rooms by code.
#[verifier::external_type_specification]
#[verifier::external_body]
#[verifier::reject_recursive_types(K)]
#[verifier::reject_recursive_types(V)]
#[verifier::reject_recursive_types(S)]
pub struct ExDashMap<K, V, S>(DashMap<K, V, S>);

/// What a map of rooms holds: for each room code, the room's players.
pub uninterp spec fn room_table(rooms: DashMap<String, Room>) -> Map<Seq<char>, Seq<PlayerView>>;

/// `DashMap::new`: an empty map.
#[verifier::external_body]
fn new_room_table() -> (table: DashMap<String, Room>)
    ensures
        room_table(table).dom().is_empty(),
{
    DashMap::new()
}

/// `DashMap::len`: the number of entries.
#[verifier::external_body]
fn room_table_len(rooms: &DashMap<String, Room>) -> (n: usize)
    ensures
        n == room_table(*rooms).len(),
{
    rooms.len()
}

/// `DashMap::contains_key`: whether `code` has an entry.
#[verifier::external_body]
fn room_table_contains(rooms: &DashMap<String, Room>, code: &str) -> (b: bool)
    ensures
        b == room_table(*rooms).contains_key(code@),
{
    rooms.contains_key(code)
}

/// `DashMap::insert`: the entry for `code` becomes `room`, replacing any
/// earlier one. The map is taken by `&mut`: no other handle sees it meanwhile.
#[verifier::external_body]
fn room_table_insert(rooms: &mut DashMap<String, Room>, code: String, room: Room)
    ensures
        room_table(*final(rooms)) == room_table(*old(rooms)).insert(code@, room@),
{
    rooms.insert(code, room);
}

/// `DashMap::remove`: takes the entry for `code` out and hands back its key
/// and value, or `None` when there is no such entry.
#[verifier::external_body]
fn room_table_remove(rooms: &mut DashMap<String, Room>, code: &str) -> (entry: Option<
    (String, Room),
>)
    ensures
        room_table(*final(rooms)) == room_table(*old(rooms)).remove(code@),
        room_table(*old(rooms)).contains_key(code@) <==> entry is Some,
        entry matches Some((key, room)) ==> key@ == code@ && room@ == room_table(*old(rooms))[code@],
{
    rooms.remove(code)
}

/// `DashMap::view`: `f` applied to the key and room stored under `code`, or
/// `None` when there is no such room.
#[verifier::external_body]
fn room_table_view<R, F: FnOnce(&String, &Room) -> R>(
    rooms: &DashMap<String, Room>,
    code: &str,
    f: F,
) -> (r: Option<R>)
    requires
        forall|key: &String, room: &Room|
            key@ == code@ && room@ == room_table(*rooms)[code@] ==> call_requires(f, (key, room)),
    ensures
        room_table(*rooms).contains_key(code@) <==> r is Some,
        r matches Some(v) ==> exists|key: &String, room: &Room|
            key@ == code@ && room@ == room_table(*rooms)[code@] && call_ensures(f, (key, room), v),
{
    rooms.view(code, f)
}

/// `rand::rngs::ThreadRng`, the thread's random number generator.
#[verifier::external_type_specification]
#[verifier::external_body]
pub struct ExThreadRng(rand::rngs::ThreadRng);

/// `rand::thread_rng`: a handle on the thread's random number generator.
#[verifier::external_body]
fn new_thread_rng() -> rand::rngs::ThreadRng {
    rand::thread_rng()
}

/// `Rng::gen_range(0..bound)`: a random index below `bound`, which must not be 0
/// (an empty range panics). Which index comes out is left open.
#[verifier::external_body]
fn random_index(rng: &mut rand::rngs::ThreadRng, bound: usize) -> (i: usize)
    requires
        bound > 0,
    ensures
        i < bound,
{
    rng.gen_range(0..bound)
}

/// The characters of room codes: capital letters and digits, without the
/// easily confused `O`, `0` and `1`.
pub open spec fn code_alphabet() -> Seq<char> {
    seq![
        'A', 'B', 'C', 'D', 'E', 'F', 'G', 'H', 'I', 'J', 'K', 'L', 'M', 'N', 'P', 'Q', 'R',
        'S', 'T', 'U', 'V', 'W', 'X', 'Y', 'Z', '2', '3', '4', '5', '6', '7', '8', '9',
    ]
}

/// A room code: six characters of the code alphabet.
pub open spec fn is_room_code(code: Seq<char>) -> bool {
    &&& code.len() == 6
    &&& forall|i: int| 0 <= i < 6 ==> code_alphabet().contains(#[trigger] code[i])
}

/// 33 to the power `len`: how many codes of length `len` there are.
pub open spec fn code_count(len: nat) -> nat
    decreases len,
{
    if len == 0 {
        1
    } else {
        33 * code_count((len - 1) as nat)
    }
}

/// The code whose characters are the base-33 digits of `n`, most
/// significant first.
pub open spec fn indexed_code(n: nat, len: nat) -> Seq<char>
    decreases len,
{
    if len == 0 {
        seq![]
    } else {
        indexed_code(n / 33, (len - 1) as nat).push(code_alphabet()[(n % 33) as int])
    }
}

spec fn alphabet_value(i: int) -> int {
    if i < 14 {
        65 + i
    } else if i < 25 {
        66 + i
    } else {
        25 + i
    }
}

proof fn lemma_alphabet()
    ensures
        code_alphabet().len() == 33,
        forall|i: int| 0 <= i < 33 ==> #[trigger] code_alphabet()[i] as int == alphabet_value(i),
{
    assert forall|i: int| 0 <= i < 33 implies #[trigger] code_alphabet()[i] as int == alphabet_value(
        i,
    ) by {
        assert(code_alphabet()[i] as int == alphabet_value(i));
    }
}

proof fn lemma_indexed_code_is_code(n: nat, len: nat)
    ensures
        indexed_code(n, len).len() == len,
        forall|i: int| 0 <= i < len ==> code_alphabet().contains(#[trigger] indexed_code(n, len)[i]),
    decreases len,
{
    lemma_alphabet();
    if len > 0 {
        lemma_indexed_code_is_code(n / 33, (len - 1) as nat);
        let c = indexed_code(n, len);
        assert forall|i: int| 0 <= i < len implies code_alphabet().contains(#[trigger] c[i]) by {
            if i < len - 1 {
                assert(c[i] == indexed_code(n / 33, (len - 1) as nat)[i]);
            } else {
                assert(c[i] == code_alphabet()[(n % 33) as int]);
            }
        }
    }
}

proof fn lemma_indexed_code_injective(a: nat, b: nat, len: nat)
    requires
        a < code_count(len),
        b < code_count(len),
        indexed_code(a, len) == indexed_code(b, len),
    ensures
        a == b,
    decreases len,
{
    lemma_alphabet();
    if len > 0 {
        let p = code_count((len - 1) as nat);
        let ca = indexed_code(a, len);
        let cb = indexed_code(b, len);
        assert(ca.last() == code_alphabet()[(a % 33) as int]);
        assert(cb.last() == code_alphabet()[(b % 33) as int]);
        assert(a % 33 == b % 33);
        assert(ca.drop_last() =~= indexed_code(a / 33, (len - 1) as nat));
        assert(cb.drop_last() =~= indexed_code(b / 33, (len - 1) as nat));
        assert(a / 33 < p) by (nonlinear_arith)
            requires
                a < 33 * p,
        ;
        assert(b / 33 < p) by (nonlinear_arith)
            requires
                b < 33 * p,
        ;
        lemma_indexed_code_injective(a / 33, b / 33, (len - 1) as nat);
    }
}

/// When the first `n` indexed codes are all taken, at least `n` rooms exist.
proof fn lemma_taken_codes(rooms: Map<Seq<char>, Seq<PlayerView>>, n: nat)
    requires
        rooms.dom().finite(),
        n <= code_count(6),
        forall|k: nat| k < n ==> rooms.contains_key(#[trigger] indexed_code(k, 6)),
    ensures
        rooms.len() >= n,
{
    let codes = Seq::new(n, |k: int| indexed_code(k as nat, 6));
    assert forall|i: int, j: int| 0 <= i < codes.len() && 0 <= j < codes.len() && i != j implies codes[i]
        != codes[j] by {
        if codes[i] == codes[j] {
            lemma_indexed_code_injective(i as nat, j as nat, 6);
        }
    }
    assert(codes.no_duplicates());
    codes.unique_seq_to_set();
    assert forall|c: Seq<char>| codes.to_set().contains(c) implies rooms.dom().contains(c) by {
        let k = choose|k: int| 0 <= k < codes.len() && codes[k] == c;
        assert(rooms.contains_key(indexed_code(k as nat, 6)));
    }
    lemma_len_subset(codes.to_set(), rooms.dom());
}

/// The indexed code of `n` as text.
fn indexed_code_text(n: u64, len: u64) -> (code: String)
    ensures
        code@ == indexed_code(n as nat, len as nat),
    decreases len,
{
    if len == 0 {
        String::new()
    } else {
        let mut code = indexed_code_text(n / 33, len - 1);
        let alphabet = "ABCDEFGHIJKLMNPQRSTUVWXYZ23456789";
        proof {
            reveal_strlit("ABCDEFGHIJKLMNPQRSTUVWXYZ23456789");
        }
        assert(alphabet@ =~= code_alphabet());
        let i = (n % 33) as usize;
        code.append(alphabet.substring_char(i, i + 1));
        assert(code@ =~= indexed_code(n as nat, len as nat));
        code
    }
}

/// Six random characters of the code alphabet.
fn random_code(rng: &mut rand::rngs::ThreadRng) -> (code: String)
    ensures
        is_room_code(code@),
{
    let alphabet = "ABCDEFGHIJKLMNPQRSTUVWXYZ23456789";
    proof {
        reveal_strlit("ABCDEFGHIJKLMNPQRSTUVWXYZ23456789");
    }
    assert(alphabet@ =~= code_alphabet());
    let mut code = String::new();
    let mut k: usize = 0;
    while k < 6
        invariant
            k <= 6,
            alphabet@ == code_alphabet(),
            code@.len() == k,
            forall|i: int| 0 <= i < k ==> code_alphabet().contains(#[trigger] code@[i]),
        decreases 6 - k,
    {
        let idx = random_index(rng, 33);
        let ghost before = code@;
        code.append(alphabet.substring_char(idx, idx + 1));
        assert(code@ =~= before.push(code_alphabet()[idx as int]));
        assert(code_alphabet().contains(code@[k as int]));
        k = k + 1;
    }
    code
}

pub struct RegistryView {
    pub rooms: Map<Seq<char>, Seq<PlayerView>>,
    pub max_rooms: nat,
    pub max_players: nat,
}

/// No two players of the room share an id.
pub open spec fn unique_ids(players: Seq<PlayerView>) -> bool {
    forall|i: int, j: int|
        0 <= i < j < players.len() ==> #[trigger] players[i].player_id != #[trigger] players[j].player_id
}

/// A room as the registry keeps it: never empty, ids unique, and no more
/// players than the limit (a room's creator is alone in it even where the
/// limit is 0).
pub open spec fn room_wf(players: Seq<PlayerView>, max_players: nat) -> bool {
    &&& players.len() > 0
    &&& unique_ids(players)
    &&& (players.len() <= max_players || players.len() == 1)
}

/// The first player of the room is its host, and no one else is.
pub open spec fn room_hosted(players: Seq<PlayerView>) -> bool {
    &&& players.len() > 0
    &&& players[0].is_host
    &&& forall|i: int| 1 <= i < players.len() ==> !(#[trigger] players[i].is_host)
}

impl RegistryView {
    pub open spec fn wf(self) -> bool {
        &&& self.rooms.dom().finite()
        &&& self.rooms.len() <= self.max_rooms
        &&& forall|c: Seq<char>| #[trigger]
            self.rooms.contains_key(c) ==> room_wf(self.rooms[c], self.max_players)
    }

    pub open spec fn hosted(self) -> bool {
        forall|c: Seq<char>| #[trigger] self.rooms.contains_key(c) ==> room_hosted(self.rooms[c])
    }

    pub open spec fn with_rooms(self, rooms: Map<Seq<char>, Seq<PlayerView>>) -> RegistryView {
        RegistryView { rooms, ..self }
    }
}

/// `create_room`: `None` when the server is full; else the registry with
/// room `code` holding the host alone.
pub open spec fn create_outcome(reg: RegistryView, code: Seq<char>, host: PlayerView) -> Option<
    RegistryView,
> {
    if reg.rooms.len() >= reg.max_rooms {
        None
    } else {
        Some(reg.with_rooms(reg.rooms.insert(code, seq![host])))
    }
}

/// `join_room`: the error, or the registry with the player added last to
/// room `code` and the players who were there before.
pub open spec fn join_outcome(reg: RegistryView, code: Seq<char>, player: PlayerView) -> Result<
    (RegistryView, Seq<PlayerInfoView>),
    &'static str,
> {
    if !reg.rooms.contains_key(code) {
        Err("room not found")
    } else if reg.rooms[code].len() >= reg.max_players {
        Err("room is full")
    } else if has_player(reg.rooms[code], player.player_id) {
        Err("already in a room")
    } else {
        Ok(
            (
                reg.with_rooms(reg.rooms.insert(code, reg.rooms[code].push(player))),
                infos_of(reg.rooms[code]),
            ),
        )
    }
}

/// `leave_room`: `None` when there is no room `code`; else the registry
/// after the player left, whether they were its host, and the new host's id.
/// A room left empty is removed; a room whose host left gets its first
/// remaining player as host.
pub open spec fn leave_outcome(reg: RegistryView, code: Seq<char>, player_id: Seq<char>) -> Option<
    (RegistryView, bool, Option<Seq<char>>),
> {
    if !reg.rooms.contains_key(code) {
        None
    } else {
        let players = reg.rooms[code];
        let pos = position_of(players, player_id);
        let was_host = pos >= 0 && players[pos].is_host;
        let rest = without_player(players, player_id);
        if rest.len() == 0 {
            Some((reg.with_rooms(reg.rooms.remove(code)), was_host, None))
        } else if was_host {
            Some(
                (
                    reg.with_rooms(reg.rooms.insert(code, with_first_as_host(rest))),
                    true,
                    Some(rest[0].player_id),
                ),
            )
        } else {
            Some((reg.with_rooms(reg.rooms.insert(code, rest)), false, None))
        }
    }
}

/// The connections that a message sent in room `code` reaches; none when
/// there is no such room.
pub open spec fn room_recipients(reg: RegistryView, code: Seq<char>, exclude_id: Option<Seq<char>>) -> Seq<
    Seq<char>,
> {
    if reg.rooms.contains_key(code) {
        recipients(reg.rooms[code], exclude_id)
    } else {
        seq![]
    }
}

/// A map of rooms with its limits, as a registry sees it.
pub open spec fn table_view(rooms: DashMap<String, Room>, max_rooms: usize, max_players: usize) -> RegistryView {
    RegistryView {
        rooms: room_table(rooms),
        max_rooms: max_rooms as nat,
        max_players: max_players as nat,
    }
}

/// The rooms of the relay, each under its code, with the limits on their
/// number and size.
pub struct RoomRegistry {
    rooms: DashMap<String, Room>,
    max_rooms: usize,
    max_players: usize,
}

impl View for RoomRegistry {
    type V = RegistryView;

    closed spec fn view(&self) -> RegistryView {
        table_view(self.rooms, self.max_rooms, self.max_players)
    }
}

impl RoomRegistry {
    /// Every registry is well formed: `new` makes it so and each method
    /// keeps it so. A change of the map takes the map out first, leaving an
    /// empty one in its place, and puts it back when done.
    #[verifier::type_invariant]
    pub open spec fn well_formed(self) -> bool {
        self@.wf()
    }

    pub fn new(max_rooms: usize, max_players: usize) -> (registry: Self)
        ensures
            registry@.rooms == Map::<Seq<char>, Seq<PlayerView>>::empty(),
            registry@.max_rooms == max_rooms,
            registry@.max_players == max_players,
            registry@.wf(),
            registry@.hosted(),
    {
        RoomRegistry { rooms: new_room_table(), max_rooms, max_players }
    }

    pub fn create_room(&mut self, code: String, host: ConnectedPlayer) -> (r: Result<(), &'static str>)
        ensures
            match create_outcome(old(self)@, code@, host@) {
                None => r == Err::<(), &'static str>("server is full") && final(self)@ == old(self)@,
                Some(next) => r is Ok && final(self)@ == next,
            },
            final(self)@.wf(),
            old(self)@.hosted() && host.is_host ==> final(self)@.hosted(),
    {
        proof {
            use_type_invariant(&*self);
        }
        let mut rooms = new_room_table();
        std::mem::swap(&mut rooms, &mut self.rooms);
        let r = create_in(&mut rooms, self.max_rooms, self.max_players, code, host);
        self.rooms = rooms;
        r
    }

    pub fn join_room(&mut self, code: &str, player: ConnectedPlayer) -> (r: Result<
        Vec<PlayerInfo>,
        &'static str,
    >)
        ensures
            match join_outcome(old(self)@, code@, player@) {
                Err(e) => r == Err::<Vec<PlayerInfo>, &'static str>(e) && final(self)@ == old(
                    self,
                )@,
                Ok((next, infos)) => r matches Ok(v) && v@.map_values(|p: PlayerInfo| p@) == infos
                    && final(self)@ == next,
            },
            final(self)@.wf(),
            old(self)@.hosted() && !player.is_host ==> final(self)@.hosted(),
    {
        proof {
            use_type_invariant(&*self);
        }
        let mut rooms = new_room_table();
        std::mem::swap(&mut rooms, &mut self.rooms);
        let r = join_in(&mut rooms, self.max_rooms, self.max_players, code, player);
        self.rooms = rooms;
        r
    }

    pub fn leave_room(&mut self, code: &str, player_id: &str) -> (r: Option<(bool, Option<String>)>)
        ensures
            match leave_outcome(old(self)@, code@, player_id@) {
                None => r is None && final(self)@ == old(self)@,
                Some((next, was_host, new_host)) => r matches Some((w, h)) && w == was_host
                    && string_view(h) == new_host && final(self)@ == next,
            },
            final(self)@.wf(),
            old(self)@.hosted() ==> final(self)@.hosted(),
    {
        proof {
            use_type_invariant(&*self);
        }
        let mut rooms = new_room_table();
        std::mem::swap(&mut rooms, &mut self.rooms);
        let r = leave_in(&mut rooms, self.max_rooms, self.max_players, code, player_id);
        self.rooms = rooms;
        r
    }

    /// The message, addressed to the players of room `code` whose id is not
    /// `exclude_id`; to no one when there is no such room.
    pub fn broadcast_in_room(&self, code: &str, message: ServerMessage, exclude_id: Option<&str>) -> (out:
        Outgoing)
        ensures
            out@.recipients == room_recipients(self@, code@, text_view(exclude_id)),
            out.message == message,
    {
        let ghost ex = text_view(exclude_id);
        let found = room_table_view(
            &self.rooms,
            code,
            (|_key: &String, room: &Room| -> (to: Vec<String>)
                ensures
                    to@.map_values(|c: String| c@) == recipients(room@, ex),
                { room.recipients(exclude_id) }),
        );
        let recipients = match found {
            Some(to) => to,
            None => Vec::new(),
        };
        Outgoing { recipients, message }
    }

    /// A room code that no room has yet, drawn at random as long as draws
    /// keep hitting taken codes. The draws stop only after `u64::MAX` misses;
    /// the first free code in base-33 order is taken then, so that a code
    /// comes back whenever one is free.
    pub fn generate_code(&self) -> (code: String)
        requires
            self@.rooms.len() < code_count(6),
        ensures
            is_room_code(code@),
            !self@.rooms.contains_key(code@),
    {
        proof {
            use_type_invariant(self);
        }
        let mut rng = new_thread_rng();
        let mut attempts: u64 = 0;
        while attempts < u64::MAX
            decreases u64::MAX - attempts,
        {
            let code = random_code(&mut rng);
            if !room_table_contains(&self.rooms, code.as_str()) {
                return code;
            }
            attempts = attempts + 1;
        }
        assert(code_count(6) == 1291467969) by {
            reveal_with_fuel(code_count, 7);
        }
        let mut n: u64 = 0;
        while n < 1291467969
            invariant
                n <= 1291467969,
                code_count(6) == 1291467969,
                forall|k: nat| k < n ==> self@.rooms.contains_key(#[trigger] indexed_code(k, 6)),
            decreases 1291467969 - n,
        {
            let code = indexed_code_text(n, 6);
            if !room_table_contains(&self.rooms, code.as_str()) {
                proof {
                    lemma_indexed_code_is_code(n as nat, 6);
                }
                return code;
            }
            n = n + 1;
        }
        proof {
            lemma_taken_codes(self@.rooms, n as nat);
        }
        String::new()
    }

    pub fn room_count(&self) -> (n: usize)
        ensures
            n == self@.rooms.len(),
    {
        room_table_len(&self.rooms)
    }

    pub fn get_room_players(&self, code: &str) -> (infos: Option<Vec<PlayerInfo>>)
        ensures
            self@.rooms.contains_key(code@) <==> infos is Some,
            infos matches Some(v) ==> v@.map_values(|p: PlayerInfo| p@) == infos_of(
                self@.rooms[code@],
            ),
    {
        room_table_view(
            &self.rooms,
            code,
            (|_key: &String, room: &Room| -> (infos: Vec<PlayerInfo>)
                ensures
                    infos@.map_values(|p: PlayerInfo| p@) == infos_of(room@),
                { room.player_infos() }),
        )
    }
}

/// `create_room`, done on the map of rooms itself.
fn create_in(
    rooms: &mut DashMap<String, Room>,
    max_rooms: usize,
    max_players: usize,
    code: String,
    host: ConnectedPlayer,
) -> (r: Result<(), &'static str>)
    ensures
        match create_outcome(table_view(*old(rooms), max_rooms, max_players), code@, host@) {
            None => r == Err::<(), &'static str>("server is full") && table_view(*final(rooms), max_rooms, max_players) == table_view(*old(rooms), max_rooms, max_players),
            Some(next) => r is Ok && table_view(*final(rooms), max_rooms, max_players) == next,
        },
        table_view(*old(rooms), max_rooms, max_players).wf() ==> table_view(*final(rooms), max_rooms, max_players).wf(),
        table_view(*old(rooms), max_rooms, max_players).hosted() && host.is_host ==> table_view(*final(rooms), max_rooms, max_players).hosted(),
{
    if room_table_len(rooms) >= max_rooms {
        return Err("server is full");
    }
    let ghost host_view = host@;
    let mut room = Room { players: Vec::new() };
    room.players.push(host);
    assert(room@ =~= seq![host_view]);
    room_table_insert(rooms, code, room);
    proof {
        let o = table_view(*old(rooms), max_rooms, max_players);
        let n = table_view(*rooms, max_rooms, max_players);
        if o.wf() {
            assert forall|c: Seq<char>| #[trigger] n.rooms.contains_key(c) implies room_wf(
                n.rooms[c],
                n.max_players,
            ) by {
                if c != code@ {
                    assert(o.rooms.contains_key(c));
                }
            }
            if !o.rooms.contains_key(code@) {
                assert(n.rooms.len() == o.rooms.len() + 1);
            } else {
                assert(n.rooms.dom() =~= o.rooms.dom());
            }
        }
        if o.hosted() && host_view.is_host {
            assert forall|c: Seq<char>| #[trigger] n.rooms.contains_key(c) implies room_hosted(
                n.rooms[c],
            ) by {
                if c != code@ {
                    assert(o.rooms.contains_key(c));
                }
            }
        }
    }
    Ok(())
}

/// `join_room`, done on the map of rooms itself.
fn join_in(
    rooms: &mut DashMap<String, Room>,
    max_rooms: usize,
    max_players: usize,
    code: &str,
    player: ConnectedPlayer,
) -> (r: Result<Vec<PlayerInfo>, &'static str>)
    ensures
        match join_outcome(table_view(*old(rooms), max_rooms, max_players), code@, player@) {
            Err(e) => r == Err::<Vec<PlayerInfo>, &'static str>(e) && table_view(
                *final(rooms),
                max_rooms,
                max_players,
            ) == table_view(*old(rooms), max_rooms, max_players),
            Ok((next, infos)) => r matches Ok(v) && v@.map_values(|p: PlayerInfo| p@) == infos
                && table_view(*final(rooms), max_rooms, max_players) == next,
        },
        table_view(*old(rooms), max_rooms, max_players).wf() ==> table_view(*final(rooms), max_rooms, max_players).wf(),
        table_view(*old(rooms), max_rooms, max_players).hosted() && !player.is_host ==> table_view(*final(rooms), max_rooms, max_players).hosted(),
{
    let ghost o = table_view(*rooms, max_rooms, max_players);
    let ghost pv = player@;
    match room_table_remove(rooms, code) {
        None => {
            assert(table_view(*rooms, max_rooms, max_players).rooms =~= o.rooms);
            return Err("room not found");
        },
        Some((key, mut room)) => {
            assert(o.rooms.remove(code@).insert(key@, room@) =~= o.rooms);
            if room.players.len() >= max_players {
                room_table_insert(rooms, key, room);
                return Err("room is full");
            }
            if room.find_player(player.player_id.as_str()).is_some() {
                proof {
                    lemma_position_of(room@, pv.player_id);
                }
                room_table_insert(rooms, key, room);
                return Err("already in a room");
            }
            proof {
                lemma_position_of(room@, pv.player_id);
            }
            let infos = room.player_infos();
            let ghost before = room@;
            room.players.push(player);
            assert(room@ =~= before.push(pv));
            room_table_insert(rooms, key, room);
            proof {
                let n = table_view(*rooms, max_rooms, max_players);
                assert(n.rooms =~= o.rooms.insert(code@, before.push(pv)));
                if o.wf() {
                    assert(n.rooms.dom() =~= o.rooms.dom());
                    assert forall|c: Seq<char>| #[trigger] n.rooms.contains_key(c) implies room_wf(
                        n.rooms[c],
                        n.max_players,
                    ) by {
                        if c == code@ {
                            let ps = before.push(pv);
                            assert forall|i: int, j: int|
                                0 <= i < j < ps.len() implies #[trigger] ps[i].player_id
                                != #[trigger] ps[j].player_id by {
                                if j == ps.len() - 1 {
                                    assert(before[i].player_id != pv.player_id);
                                }
                            }
                        }
                    }
                }
                if o.hosted() && !pv.is_host {
                    assert forall|c: Seq<char>| #[trigger] n.rooms.contains_key(c) implies room_hosted(
                        n.rooms[c],
                    ) by {}
                }
            }
            Ok(infos)
        },
    }
}

/// `leave_room`, done on the map of rooms itself.
fn leave_in(
    rooms: &mut DashMap<String, Room>,
    max_rooms: usize,
    max_players: usize,
    code: &str,
    player_id: &str,
) -> (r: Option<(bool, Option<String>)>)
    ensures
        match leave_outcome(table_view(*old(rooms), max_rooms, max_players), code@, player_id@) {
            None => r is None && table_view(*final(rooms), max_rooms, max_players) == table_view(*old(rooms), max_rooms, max_players),
            Some((next, was_host, new_host)) => r matches Some((w, h)) && w == was_host
                && string_view(h) == new_host && table_view(*final(rooms), max_rooms, max_players) == next,
        },
        table_view(*old(rooms), max_rooms, max_players).wf() ==> table_view(*final(rooms), max_rooms, max_players).wf(),
        table_view(*old(rooms), max_rooms, max_players).wf() && table_view(*old(rooms), max_rooms, max_players).hosted() ==> table_view(*final(rooms), max_rooms, max_players).hosted(),
{
    let ghost o = table_view(*rooms, max_rooms, max_players);
    match room_table_remove(rooms, code) {
        None => {
            assert(table_view(*rooms, max_rooms, max_players).rooms =~= o.rooms);
            None
        },
        Some((key, mut room)) => {
            let ghost players = room@;
            proof {
                lemma_position_of(players, player_id@);
            }
            let was_host = match room.find_player(player_id) {
                Some(i) => room.players[i].is_host,
                None => false,
            };
            room.remove_player(player_id);
            let ghost rest = room@;
            if room.is_empty() {
                proof {
                    let n = table_view(*rooms, max_rooms, max_players);
                    if o.wf() {
                        assert forall|c: Seq<char>| #[trigger] n.rooms.contains_key(c) implies room_wf(
                            n.rooms[c],
                            n.max_players,
                        ) by {
                            assert(o.rooms.contains_key(c));
                        }
                    }
                    if o.hosted() {
                        assert forall|c: Seq<char>| #[trigger] n.rooms.contains_key(c) implies room_hosted(
                            n.rooms[c],
                        ) by {
                            assert(o.rooms.contains_key(c));
                        }
                    }
                }
                return Some((was_host, None));
            }
            let new_host = if was_host {
                room.migrate_host()
            } else {
                None
            };
            let ghost last = room@;
            room_table_insert(rooms, key, room);
            proof {
                let n = table_view(*rooms, max_rooms, max_players);
                assert(n.rooms =~= o.rooms.insert(code@, last));
                assert(was_host == (position_of(players, player_id@) >= 0
                    && players[position_of(players, player_id@)].is_host));
                if o.wf() {
                    lemma_leave_keeps_room_wf(players, player_id@, o.max_players);
                    assert(n.rooms.dom() =~= o.rooms.dom());
                    assert forall|c: Seq<char>| #[trigger] n.rooms.contains_key(c) implies room_wf(
                        n.rooms[c],
                        n.max_players,
                    ) by {}
                }
                if o.wf() && o.hosted() {
                    lemma_leave_keeps_room_hosted(players, player_id@);
                    assert forall|c: Seq<char>| #[trigger] n.rooms.contains_key(c) implies room_hosted(
                        n.rooms[c],
                    ) by {}
                }
            }
            Some((was_host, new_host))
        },
    }
}

proof fn lemma_leave_keeps_room_wf(players: Seq<PlayerView>, id: Seq<char>, max_players: nat)
    requires
        room_wf(players, max_players),
        without_player(players, id).len() > 0,
    ensures
        room_wf(without_player(players, id), max_players),
        room_wf(with_first_as_host(without_player(players, id)), max_players),
{
    lemma_position_of(players, id);
    let rest = without_player(players, id);
    let pos = position_of(players, id);
    if pos >= 0 {
        assert forall|i: int, j: int| 0 <= i < j < rest.len() implies #[trigger] rest[i].player_id
            != #[trigger] rest[j].player_id by {
            let i0 = if i < pos { i } else { i + 1 };
            let j0 = if j < pos { j } else { j + 1 };
            assert(rest[i] == players[i0]);
            assert(rest[j] == players[j0]);
        }
    }
    let hosted = with_first_as_host(rest);
    assert forall|i: int, j: int| 0 <= i < j < hosted.len() implies #[trigger] hosted[i].player_id
        != #[trigger] hosted[j].player_id by {
        assert(hosted[i].player_id == rest[i].player_id);
        assert(hosted[j].player_id == rest[j].player_id);
    }
}

proof fn lemma_leave_keeps_room_hosted(players: Seq<PlayerView>, id: Seq<char>)
    requires
        room_hosted(players),
        unique_ids(players),
        without_player(players, id).len() > 0,
    ensures
        ({
            let pos = position_of(players, id);
            let was_host = pos >= 0 && players[pos].is_host;
            let rest = without_player(players, id);
            if was_host {
                room_hosted(with_first_as_host(rest))
            } else {
                room_hosted(rest)
            }
        }),
{
    lemma_position_of(players, id);
    let pos = position_of(players, id);
    let rest = without_player(players, id);
    if pos >= 0 {
        if pos == 0 {
            let hosted = with_first_as_host(rest);
            assert forall|i: int| 1 <= i < hosted.len() implies !(#[trigger] hosted[i].is_host) by {
                assert(hosted[i] == players[i + 1]);
            }
        } else {
            assert(rest[0] == players[0]);
            assert forall|i: int| 1 <= i < rest.len() implies !(#[trigger] rest[i].is_host) by {
                let i0 = if i < pos { i } else { i + 1 };
                assert(rest[i] == players[i0]);
            }
        }
    }
}

} // verus!
