//! The state owner: the single authority over players, lobbies and sides.
//!
//! Each command is applied whole by one call, which returns the messages to
//! deliver to clients. Delivering them is left to the caller.

use vstd::prelude::*;
use crate::protocol::{LobbyClientMessage, LobbyId, LobbyInfo, LobbyServerMessage, Player, PlayerId, ShortLobbyInfo, Side, side_rank};

verus! {

/// A registered connection.
#[derive(Debug)]
pub struct Client {
    pub player_id: PlayerId,
    pub username: String,
    pub in_lobby: Option<LobbyId>,
}

/// A lobby with its two side lists, each in join order.
#[derive(Debug)]
pub struct Lobby {
    pub id: LobbyId,
    pub red: Vec<PlayerId>,
    pub blue: Vec<PlayerId>,
    pub owner: PlayerId,
}

/// What a lobby holds, with its side lists as sequences.
pub struct LobbyView {
    pub id: LobbyId,
    pub red: Seq<PlayerId>,
    pub blue: Seq<PlayerId>,
    pub owner: PlayerId,
}

impl View for Lobby {
    type V = LobbyView;

    open spec fn view(&self) -> LobbyView {
        LobbyView { id: self.id, red: self.red@, blue: self.blue@, owner: self.owner }
    }
}

impl LobbyView {
    pub open spec fn side(self, s: Side) -> Seq<PlayerId> {
        match s {
            Side::Red => self.red,
            Side::Blue => self.blue,
        }
    }

    /// Every member, red side first.
    pub open spec fn members(self) -> Seq<PlayerId> {
        self.red + self.blue
    }

    pub open spec fn is_empty(self) -> bool {
        self.red.len() == 0 && self.blue.len() == 0
    }

    pub open spec fn player_count(self) -> nat {
        self.red.len() + self.blue.len()
    }

    /// The lobby with `p` appended to side `s`.
    pub open spec fn with_player(self, s: Side, p: PlayerId) -> LobbyView {
        match s {
            Side::Red => LobbyView { red: self.red.push(p), ..self },
            Side::Blue => LobbyView { blue: self.blue.push(p), ..self },
        }
    }

    /// The lobby with `p` taken out of the side list that holds it.
    pub open spec fn without_player(self, p: PlayerId) -> LobbyView {
        if self.red.contains(p) {
            LobbyView { red: self.red.remove(self.red.index_of(p)), ..self }
        } else if self.blue.contains(p) {
            LobbyView { blue: self.blue.remove(self.blue.index_of(p)), ..self }
        } else {
            self
        }
    }
}

/// The side a joining player is placed on: the one with fewer players, and
/// on equal counts the one that comes first in the order of sides.
pub open spec fn join_side(l: LobbyView) -> Side {
    if l.blue.len() < l.red.len() {
        Side::Blue
    } else {
        Side::Red
    }
}

/// A message addressed to one player.
#[derive(Debug)]
pub struct Outgoing {
    pub to: PlayerId,
    pub msg: LobbyServerMessage,
}

/// A single `Negative` reply to `p`.
pub open spec fn rejects(outs: Seq<Outgoing>, p: PlayerId) -> bool {
    outs.len() == 1 && outs[0].to == p && outs[0].msg is Negative
}

/// One message to each of `members`, in their order.
pub open spec fn notify(members: Seq<PlayerId>, msg: LobbyServerMessage) -> Seq<Outgoing> {
    members.map_values(|q: PlayerId| Outgoing { to: q, msg: msg })
}

/// An event handed to the state owner.
#[derive(Debug)]
pub enum Command {
    NewClient { player_id: PlayerId, username: String },
    ClientDisconnected(PlayerId),
    MsgFromClient { id: PlayerId, msg: LobbyClientMessage },
}

/// All players and lobbies.
pub struct State {
    pub players: Vec<Client>,
    pub lobbies: Vec<Lobby>,
}

pub struct StateView {
    pub players: Seq<Client>,
    pub lobbies: Seq<LobbyView>,
}

impl View for State {
    type V = StateView;

    open spec fn view(&self) -> StateView {
        StateView { players: self.players@, lobbies: self.lobbies@.map_values(|l: Lobby| l@) }
    }
}

impl StateView {
    pub open spec fn has_client(self, p: PlayerId) -> bool {
        exists|i: int| 0 <= i < self.players.len() && #[trigger] self.players[i].player_id == p
    }

    pub open spec fn client_index(self, p: PlayerId) -> int {
        choose|i: int| 0 <= i < self.players.len() && #[trigger] self.players[i].player_id == p
    }

    pub open spec fn client(self, p: PlayerId) -> Client {
        self.players[self.client_index(p)]
    }

    pub open spec fn has_lobby(self, id: LobbyId) -> bool {
        exists|j: int| 0 <= j < self.lobbies.len() && #[trigger] self.lobbies[j].id == id
    }

    pub open spec fn lobby_index(self, id: LobbyId) -> int {
        choose|j: int| 0 <= j < self.lobbies.len() && #[trigger] self.lobbies[j].id == id
    }

    pub open spec fn lobby(self, id: LobbyId) -> LobbyView {
        self.lobbies[self.lobby_index(id)]
    }

    /// The players with `p`'s lobby set to `l`.
    pub open spec fn players_with_lobby(self, p: PlayerId, l: Option<LobbyId>) -> Seq<Client> {
        let i = self.client_index(p);
        self.players.update(i, Client { in_lobby: l, ..self.players[i] })
    }

    /// How other clients see player `p`.
    pub open spec fn player_info(self, p: PlayerId) -> Player {
        Player { id: p, username: self.client(p).username }
    }

    pub open spec fn players_unique(self) -> bool {
        forall|i: int, k: int|
            0 <= i < self.players.len() && 0 <= k < self.players.len() && i != k
                ==> #[trigger] self.players[i].player_id != #[trigger] self.players[k].player_id
    }

    pub open spec fn lobbies_unique(self) -> bool {
        forall|i: int, k: int|
            0 <= i < self.lobbies.len() && 0 <= k < self.lobbies.len() && i != k
                ==> #[trigger] self.lobbies[i].id != #[trigger] self.lobbies[k].id
    }

    /// No lobby is left with every side empty.
    pub open spec fn lobbies_nonempty(self) -> bool {
        forall|j: int| 0 <= j < self.lobbies.len() ==> !(#[trigger] self.lobbies[j]).is_empty()
    }

    /// No player is listed twice in one lobby.
    pub open spec fn rosters_distinct(self) -> bool {
        forall|j: int|
            0 <= j < self.lobbies.len() ==> (#[trigger] self.lobbies[j]).members().no_duplicates()
    }

    /// Each member of a lobby is a client that names that lobby.
    pub open spec fn members_registered(self) -> bool {
        forall|j: int, k: int|
            0 <= j < self.lobbies.len() && 0 <= k < self.lobbies[j].members().len() ==> {
                let m = #[trigger] self.lobbies[j].members()[k];
                self.has_client(m) && self.client(m).in_lobby == Some(self.lobbies[j].id)
            }
    }

    /// Each client that names a lobby is listed in it.
    pub open spec fn clients_placed(self) -> bool {
        forall|i: int|
            0 <= i < self.players.len() && (#[trigger] self.players[i]).in_lobby is Some ==> {
                let id = self.players[i].in_lobby->Some_0;
                self.has_lobby(id) && self.lobby(id).members().contains(self.players[i].player_id)
            }
    }

    pub open spec fn wf(self) -> bool {
        &&& self.players_unique()
        &&& self.lobbies_unique()
        &&& self.lobbies_nonempty()
        &&& self.rosters_distinct()
        &&& self.members_registered()
        &&& self.clients_placed()
    }

    /// Whether `p` is a client in a lobby that exists.
    pub open spec fn in_some_lobby(self, p: PlayerId) -> bool {
        self.has_client(p) && self.client(p).in_lobby is Some && self.has_lobby(
            self.client(p).in_lobby->Some_0,
        )
    }

    /// The state after `p` leaves its lobby: it is taken off its side, its
    /// lobby is cleared, and a lobby left empty is deleted.
    pub open spec fn after_leave(self, p: PlayerId) -> StateView {
        if self.in_some_lobby(p) {
            let j = self.lobby_index(self.client(p).in_lobby->Some_0);
            let rest = self.lobbies[j].without_player(p);
            StateView {
                players: self.players_with_lobby(p, None),
                lobbies: if rest.is_empty() {
                    self.lobbies.remove(j)
                } else {
                    self.lobbies.update(j, rest)
                },
            }
        } else {
            self
        }
    }

    /// What leaving sends: `YouLeftLobby` to `p`, then `PlayerLeftLobby` to
    /// each remaining member of a lobby that still exists.
    pub open spec fn leave_replies(self, p: PlayerId) -> Seq<Outgoing> {
        if self.in_some_lobby(p) {
            let j = self.lobby_index(self.client(p).in_lobby->Some_0);
            let rest = self.lobbies[j].without_player(p);
            seq![Outgoing { to: p, msg: LobbyServerMessage::YouLeftLobby }] + if rest.is_empty() {
                Seq::empty()
            } else {
                notify(
                    rest.members(),
                    LobbyServerMessage::PlayerLeftLobby { player: self.player_info(p) },
                )
            }
        } else {
            Seq::empty()
        }
    }

    /// The state after `p` is registered under `name`; an id already in
    /// use changes nothing.
    pub open spec fn after_new_client(self, p: PlayerId, name: String) -> StateView {
        if self.has_client(p) {
            self
        } else {
            StateView {
                players: self.players.push(Client { player_id: p, username: name, in_lobby: None }),
                ..self
            }
        }
    }

    /// The state after `p` disconnects: it leaves its lobby, then its record
    /// is deleted.
    pub open spec fn after_disconnect(self, p: PlayerId) -> StateView {
        let t = self.after_leave(p);
        if t.has_client(p) {
            StateView { players: t.players.remove(t.client_index(p)), ..t }
        } else {
            t
        }
    }

    /// The first number from `i` on that no lobby uses as its id; the search
    /// stops one past the number of lobbies.
    pub open spec fn free_from(self, i: nat) -> nat
        decreases self.lobbies.len() + 1 - i,
    {
        if i > self.lobbies.len() || !self.has_lobby(LobbyId(i as u128)) {
            i
        } else {
            self.free_from(i + 1)
        }
    }

    /// The id a new lobby gets: `fresh` if no lobby uses it, else the first
    /// unused number.
    pub open spec fn new_lobby_id(self, fresh: LobbyId) -> LobbyId {
        if !self.has_lobby(fresh) {
            fresh
        } else {
            LobbyId(self.free_from(0) as u128)
        }
    }

    /// Whether client `p` may create a lobby, given `fresh`.
    pub open spec fn can_create(self, p: PlayerId, fresh: LobbyId) -> bool {
        self.client(p).in_lobby is None && !self.has_lobby(self.new_lobby_id(fresh))
    }

    /// The state after client `p` creates a lobby, alone on the red side and
    /// its owner, under the id `new_lobby_id(fresh)`.
    pub open spec fn after_create(self, p: PlayerId, fresh: LobbyId) -> StateView {
        let id = self.new_lobby_id(fresh);
        if self.can_create(p, fresh) {
            StateView {
                players: self.players_with_lobby(p, Some(id)),
                lobbies: self.lobbies.push(
                    LobbyView { id: id, red: seq![p], blue: Seq::empty(), owner: p },
                ),
            }
        } else {
            self
        }
    }

    /// Whether client `p` may join lobby `id`.
    pub open spec fn can_join(self, p: PlayerId, id: LobbyId) -> bool {
        self.client(p).in_lobby is None && self.has_lobby(id)
    }

    /// The state after client `p` joins lobby `id` on the side `join_side` picks.
    pub open spec fn after_join(self, p: PlayerId, id: LobbyId) -> StateView {
        if self.can_join(p, id) {
            let j = self.lobby_index(id);
            let l = self.lobbies[j];
            StateView {
                players: self.players_with_lobby(p, Some(id)),
                lobbies: self.lobbies.update(j, l.with_player(join_side(l), p)),
            }
        } else {
            self
        }
    }

    /// What joining sends: `YouJoinedLobby` to `p`, then `PlayerJoinedLobby`
    /// to each member that was there before.
    pub open spec fn join_replies(self, p: PlayerId, id: LobbyId) -> Seq<Outgoing> {
        let l = self.lobby(id);
        seq![Outgoing { to: p, msg: LobbyServerMessage::YouJoinedLobby { lobby_id: id } }] + notify(
            l.members(),
            LobbyServerMessage::PlayerJoinedLobby { player: self.player_info(p), side: join_side(l) },
        )
    }

    /// Each lobby as a listing entry, in the order the lobbies are held.
    pub open spec fn listing(self) -> Seq<ShortLobbyInfo> {
        self.lobbies.map_values(
            |l: LobbyView| ShortLobbyInfo { id: l.id, players: l.player_count() as usize },
        )
    }

    /// The players of a side list as other clients see them.
    pub open spec fn roster(self, ids: Seq<PlayerId>) -> Seq<Player> {
        ids.map_values(|q: PlayerId| self.player_info(q))
    }

    /// `info` describes lobby `id`: its owner, then the red and the blue side.
    pub open spec fn describes(self, id: LobbyId, info: LobbyInfo) -> bool {
        let l = self.lobby(id);
        &&& info.id == id
        &&& info.lobby_owner == l.owner
        &&& info.players@.len() == 2
        &&& info.players@[0].0 == Side::Red
        &&& info.players@[0].1@ == self.roster(l.red)
        &&& info.players@[1].0 == Side::Blue
        &&& info.players@[1].1@ == self.roster(l.blue)
    }

    /// Handling `msg` from client `p` leads from this state to `t` and sends
    /// `outs`; `fresh` is the id a new lobby gets.
    pub open spec fn message_step(
        self,
        p: PlayerId,
        msg: LobbyClientMessage,
        fresh: LobbyId,
        t: StateView,
        outs: Seq<Outgoing>,
    ) -> bool {
        if !self.has_client(p) {
            t == self && outs.len() == 0
        } else {
            match msg {
                LobbyClientMessage::CreateLobby => {
                    &&& t == self.after_create(p, fresh)
                    &&& if self.client(p).in_lobby is None {
                        &&& self.can_create(p, fresh)
                        &&& outs == seq![
                            Outgoing {
                                to: p,
                                msg: LobbyServerMessage::YouJoinedLobby {
                                    lobby_id: self.new_lobby_id(fresh),
                                },
                            },
                        ]
                    } else {
                        rejects(outs, p)
                    }
                },
                LobbyClientMessage::ListLobbies => {
                    &&& t == self
                    &&& outs.len() == 1
                    &&& outs[0].to == p
                    &&& outs[0].msg matches LobbyServerMessage::LobbyList { lobbies }
                    &&& lobbies@ == self.listing()
                },
                LobbyClientMessage::JoinLobby { id } => {
                    &&& t == self.after_join(p, id)
                    &&& if self.can_join(p, id) {
                        outs == self.join_replies(p, id)
                    } else {
                        rejects(outs, p)
                    }
                },
                LobbyClientMessage::LeaveLobby => {
                    &&& t == self.after_leave(p)
                    &&& outs == self.leave_replies(p)
                },
                LobbyClientMessage::GetLobbyInfo { id } => {
                    &&& t == self
                    &&& if self.has_lobby(id) {
                        &&& outs.len() == 1
                        &&& outs[0].to == p
                        &&& outs[0].msg matches LobbyServerMessage::LobbyInfo { info }
                        &&& self.describes(id, info)
                    } else {
                        rejects(outs, p)
                    }
                },
                _ => t == self && rejects(outs, p),
            }
        }
    }

    /// Applying command `cmd` leads from this state to `t` and sends `outs`;
    /// `fresh` is the id offered to a lobby it creates.
    pub open spec fn command_step(
        self,
        cmd: Command,
        fresh: LobbyId,
        t: StateView,
        outs: Seq<Outgoing>,
    ) -> bool {
        match cmd {
            Command::NewClient { player_id, username } => {
                &&& t == self.after_new_client(player_id, username)
                &&& outs.len() == 0
            },
            Command::ClientDisconnected(p) => {
                &&& t == self.after_disconnect(p)
                &&& outs == self.leave_replies(p)
            },
            Command::MsgFromClient { id, msg } => self.message_step(id, msg, fresh, t, outs),
        }
    }
}

/// With unique ids, the client found at index `i` is the one `client` names.
pub proof fn lemma_client_at(s: StateView, i: int)
    requires
        s.players_unique(),
        0 <= i < s.players.len(),
    ensures
        s.has_client(s.players[i].player_id),
        s.client_index(s.players[i].player_id) == i,
{
    let p = s.players[i].player_id;
    assert(s.players[i].player_id == p);
    let k = s.client_index(p);
    if k != i {
        assert(s.players[k].player_id != s.players[i].player_id);
    }
}

/// With unique ids, the lobby found at index `j` is the one `lobby` names.
pub proof fn lemma_lobby_at(s: StateView, j: int)
    requires
        s.lobbies_unique(),
        0 <= j < s.lobbies.len(),
    ensures
        s.has_lobby(s.lobbies[j].id),
        s.lobby_index(s.lobbies[j].id) == j,
{
    let id = s.lobbies[j].id;
    assert(s.lobbies[j].id == id);
    let k = s.lobby_index(id);
    if k != j {
        assert(s.lobbies[k].id != s.lobbies[j].id);
    }
}

/// In a sequence without duplicates, `index_of` finds the one occurrence.
proof fn lemma_index_of_unique(s: Seq<PlayerId>, k: int)
    requires
        s.no_duplicates(),
        0 <= k < s.len(),
    ensures
        s.contains(s[k]),
        s.index_of(s[k]) == k,
{
    assert(s[k] == s[k]);
    let j = s.index_of(s[k]);
    assert(s[j] == s[k]);
}

/// Removing one entry of a sequence without duplicates removes exactly that
/// value and keeps the rest distinct.
proof fn lemma_remove_distinct(s: Seq<PlayerId>, k: int)
    requires
        s.no_duplicates(),
        0 <= k < s.len(),
    ensures
        s.remove(k).no_duplicates(),
        forall|q: PlayerId| s.remove(k).contains(q) <==> (s.contains(q) && q != s[k]),
{
    let r = s.remove(k);
    assert forall|a: int, b: int| 0 <= a < r.len() && 0 <= b < r.len() && a != b implies r[a]
        != r[b] by {
        let oa = if a < k { a } else { a + 1 };
        let ob = if b < k { b } else { b + 1 };
        assert(r[a] == s[oa]);
        assert(r[b] == s[ob]);
    }
    assert forall|q: PlayerId| r.contains(q) <==> (s.contains(q) && q != s[k]) by {
        if r.contains(q) {
            let a = choose|a: int| 0 <= a < r.len() && r[a] == q;
            let oa = if a < k { a } else { a + 1 };
            assert(s[oa] == q);
        }
        if s.contains(q) && q != s[k] {
            let a = choose|a: int| 0 <= a < s.len() && s[a] == q;
            let ra = if a < k { a } else { a - 1 };
            assert(r[ra] == q);
        }
    }
}

/// Taking a member out of a lobby leaves the other members, still distinct.
pub proof fn lemma_without_player(l: LobbyView, p: PlayerId)
    requires
        l.members().no_duplicates(),
        l.members().contains(p),
    ensures
        l.without_player(p).id == l.id,
        l.without_player(p).owner == l.owner,
        l.without_player(p).player_count() + 1 == l.player_count(),
        l.without_player(p).members().no_duplicates(),
        forall|q: PlayerId|
            l.without_player(p).members().contains(q) <==> (l.members().contains(q) && q != p),
{
    let m = l.members();
    let r = l.without_player(p);
    if l.red.contains(p) {
        let k = l.red.index_of(p);
        assert(m.remove(k) =~= r.members());
        assert(m[k] == p);
        lemma_remove_distinct(m, k);
    } else {
        let a = choose|a: int| 0 <= a < m.len() && m[a] == p;
        if a < l.red.len() {
            assert(l.red[a] == p);
        }
        assert(l.blue[a - l.red.len()] == p);
        assert(l.blue.contains(p));
        let k = l.blue.index_of(p);
        assert(m.remove(l.red.len() + k) =~= r.members());
        assert(m[l.red.len() + k] == p);
        lemma_remove_distinct(m, l.red.len() + k);
    }
}

/// Leaving keeps the state well formed.
pub proof fn lemma_leave_wf(s: StateView, p: PlayerId)
    requires
        s.wf(),
    ensures
        s.after_leave(p).wf(),
{
    if !s.in_some_lobby(p) {
        return;
    }
    let c = s.client_index(p);
    let id = s.client(p).in_lobby->Some_0;
    let j = s.lobby_index(id);
    let l = s.lobbies[j];
    let rest = l.without_player(p);
    let t = s.after_leave(p);
    assert(s.players[c].in_lobby is Some);
    assert(l.members().contains(p));
    lemma_without_player(l, p);
    assert forall|i: int| 0 <= i < t.players.len() implies #[trigger] t.players[i].player_id
        == s.players[i].player_id && (i != c ==> t.players[i] == s.players[i]) by {}
    assert(t.players_unique()) by {
        assert forall|i: int, k: int|
            0 <= i < t.players.len() && 0 <= k < t.players.len() && i != k implies #[trigger] t.players[i].player_id
            != #[trigger] t.players[k].player_id by {
            assert(t.players[i].player_id == s.players[i].player_id);
            assert(t.players[k].player_id == s.players[k].player_id);
        }
    }
    // where each lobby of `t` stood in `s`
    let orig = |jj: int| if rest.is_empty() && jj >= j { jj + 1 } else { jj };
    assert forall|jj: int| 0 <= jj < t.lobbies.len() implies 0 <= #[trigger] orig(jj) < s.lobbies.len()
        && (orig(jj) != j ==> t.lobbies[jj] == s.lobbies[orig(jj)]) && (orig(jj) == j
        ==> t.lobbies[jj] == rest) by {}
    assert(t.lobbies_unique()) by {
        assert forall|a: int, b: int|
            0 <= a < t.lobbies.len() && 0 <= b < t.lobbies.len() && a != b implies #[trigger] t.lobbies[a].id
            != #[trigger] t.lobbies[b].id by {
            assert(orig(a) != orig(b));
            assert(s.lobbies[orig(a)].id != s.lobbies[orig(b)].id);
        }
    }
    assert(t.lobbies_nonempty()) by {
        assert forall|jj: int| 0 <= jj < t.lobbies.len() implies !(#[trigger] t.lobbies[jj]).is_empty() by {
            assert(!s.lobbies[orig(jj)].is_empty());
        }
    }
    assert(t.rosters_distinct()) by {
        assert forall|jj: int| 0 <= jj < t.lobbies.len() implies (
        #[trigger] t.lobbies[jj]).members().no_duplicates() by {
            assert(s.lobbies[orig(jj)].members().no_duplicates());
        }
    }
    assert(t.members_registered()) by {
        assert forall|jj: int, k: int|
            0 <= jj < t.lobbies.len() && 0 <= k < t.lobbies[jj].members().len() implies {
            let m = #[trigger] t.lobbies[jj].members()[k];
            t.has_client(m) && t.client(m).in_lobby == Some(t.lobbies[jj].id)
        } by {
            let m = t.lobbies[jj].members()[k];
            let oj = orig(jj);
            assert(t.lobbies[jj].members().contains(m));
            let ok: int = if oj == j {
                assert(l.members().contains(m) && m != p);
                choose|ok: int| 0 <= ok < l.members().len() && l.members()[ok] == m
            } else {
                k
            };
            assert(s.lobbies[oj].members()[ok] == m);
            assert(s.has_client(m) && s.client(m).in_lobby == Some(s.lobbies[oj].id));
            let idx = s.client_index(m);
            if oj != j {
                assert(s.lobbies[oj].id != s.lobbies[j].id);
            }
            assert(idx != c);
            assert(t.players[idx] == s.players[idx]);
            lemma_client_at(t, idx);
        }
    }
    assert(t.clients_placed()) by {
        assert forall|i: int|
            0 <= i < t.players.len() && (#[trigger] t.players[i]).in_lobby is Some implies {
            let id2 = t.players[i].in_lobby->Some_0;
            t.has_lobby(id2) && t.lobby(id2).members().contains(t.players[i].player_id)
        } by {
            let q = t.players[i].player_id;
            let id2 = t.players[i].in_lobby->Some_0;
            assert(i != c);
            assert(s.players[i] == t.players[i]);
            let oj = s.lobby_index(id2);
            assert(s.lobby(id2).members().contains(q));
            let nj = if rest.is_empty() && oj > j { oj - 1 } else { oj };
            if oj == j {
                assert(q != p);
                assert(rest.members().contains(q));
                assert(!rest.is_empty());
            } else {
                assert(s.lobbies[oj].id != s.lobbies[j].id);
            }
            assert(orig(nj) == oj);
            assert(t.lobbies[nj].id == id2);
            lemma_lobby_at(t, nj);
        }
    }
}

impl State {
    /// No players and no lobbies.
    pub fn new() -> (s: State)
        ensures
            s@.players.len() == 0,
            s@.lobbies.len() == 0,
            s@.wf(),
    {
        State { players: Vec::new(), lobbies: Vec::new() }
    }

    fn find_client(&self, p: PlayerId) -> (r: Option<usize>)
        ensures
            match r {
                Some(i) => i < self@.players.len() && self@.players[i as int].player_id == p,
                None => !self@.has_client(p),
            },
    {
        let mut i: usize = 0;
        while i < self.players.len()
            invariant
                i <= self@.players.len(),
                forall|k: int| 0 <= k < i ==> self@.players[k].player_id != p,
            decreases self@.players.len() - i,
        {
            if self.players[i].player_id == p {
                return Some(i);
            }
            i += 1;
        }
        None
    }

    fn find_lobby(&self, id: LobbyId) -> (r: Option<usize>)
        ensures
            match r {
                Some(j) => j < self@.lobbies.len() && self@.lobbies[j as int].id == id,
                None => !self@.has_lobby(id),
            },
    {
        let mut j: usize = 0;
        while j < self.lobbies.len()
            invariant
                j <= self@.lobbies.len(),
                forall|k: int| 0 <= k < j ==> self@.lobbies[k].id != id,
            decreases self@.lobbies.len() - j,
        {
            if self.lobbies[j].id == id {
                return Some(j);
            }
            j += 1;
        }
        None
    }

    /// Registers player `p` as `username`, in no lobby. An id that is
    /// already registered changes nothing.
    pub fn new_client(&mut self, p: PlayerId, username: String)
        requires
            old(self)@.wf(),
        ensures
            final(self)@ == old(self)@.after_new_client(p, username),
            final(self)@.wf(),
    {
        proof {
            lemma_new_client_wf(self@, p, username);
        }
        if self.find_client(p).is_some() {
            return;
        }
        self.players.push(Client { player_id: p, username, in_lobby: None });
        assert(self@.lobbies =~= old(self)@.lobbies);
    }

    /// Handles the loss of `p`'s connection: it leaves its lobby as with
    /// `LeaveLobby`, then its record is deleted. An unknown id changes nothing.
    pub fn client_disconnected(&mut self, p: PlayerId) -> (outs: Vec<Outgoing>)
        requires
            old(self)@.wf(),
        ensures
            final(self)@ == old(self)@.after_disconnect(p),
            outs@ == old(self)@.leave_replies(p),
            final(self)@.wf(),
    {
        proof {
            lemma_disconnect_wf(self@, p);
        }
        let outs = self.leave_lobby(p);
        let ghost t = self@;
        match self.find_client(p) {
            Some(i) => {
                proof {
                    lemma_client_at(t, i as int);
                }
                self.players.remove(i);
                assert(self@.lobbies =~= t.lobbies);
            },
            None => {},
        }
        outs
    }

    /// The id a new lobby gets: `fresh`, or the first unused number if
    /// `fresh` is taken.
    fn pick_lobby_id(&self, fresh: LobbyId) -> (id: LobbyId)
        requires
            self@.lobbies_unique(),
        ensures
            id == self@.new_lobby_id(fresh),
            !self@.has_lobby(id),
    {
        if self.find_lobby(fresh).is_none() {
            return fresh;
        }
        let ghost s = self@;
        let n = self.lobbies.len();
        proof {
            lemma_some_id_free(s);
            lemma_free_from(s, 0);
        }
        let mut i: u128 = 0;
        while self.find_lobby(LobbyId(i)).is_some()
            invariant
                self@ == s,
                n == s.lobbies.len(),
                i as nat <= s.free_from(0),
                s.free_from(0) <= n,
                s.free_from(i as nat) == s.free_from(0),
                !s.has_lobby(LobbyId(s.free_from(0) as u128)),
            decreases n - i,
        {
            proof {
                if i as nat == s.free_from(0) {
                    assert(s.has_lobby(LobbyId(i)));
                }
                lemma_free_from_ge(s, i as nat + 1);
            }
            i += 1;
        }
        LobbyId(i)
    }

    fn create_lobby(&mut self, ci: usize, p: PlayerId, fresh: LobbyId) -> (outs: Vec<Outgoing>)
        requires
            old(self)@.wf(),
            ci < old(self)@.players.len(),
            old(self)@.players[ci as int].player_id == p,
        ensures
            final(self)@ == old(self)@.after_create(p, fresh),
            if old(self)@.client(p).in_lobby is None {
                &&& old(self)@.can_create(p, fresh)
                &&& outs@ == seq![
                    Outgoing {
                        to: p,
                        msg: LobbyServerMessage::YouJoinedLobby {
                            lobby_id: old(self)@.new_lobby_id(fresh),
                        },
                    },
                ]
            } else {
                rejects(outs@, p)
            },
    {
        let ghost s = self@;
        proof {
            lemma_client_at(s, ci as int);
        }
        let mut outs: Vec<Outgoing> = Vec::new();
        if self.players[ci].in_lobby.is_some() {
            outs.push(
                Outgoing {
                    to: p,
                    msg: LobbyServerMessage::Negative {
                        msg: String::from_str("Cannot create lobby while in one"),
                    },
                },
            );
            return outs;
        }
        let id = self.pick_lobby_id(fresh);
        let mut red: Vec<PlayerId> = Vec::new();
        red.push(p);
        self.lobbies.push(Lobby { id, red, blue: Vec::new(), owner: p });
        let mut client = self.players.remove(ci);
        client.in_lobby = Some(id);
        self.players.insert(ci, client);
        assert(self@.players =~= s.players_with_lobby(p, Some(id)));
        assert(self@.lobbies =~= s.lobbies.push(
            LobbyView { id: id, red: seq![p], blue: Seq::empty(), owner: p },
        ));
        outs.push(Outgoing { to: p, msg: LobbyServerMessage::YouJoinedLobby { lobby_id: id } });
        outs
    }

    fn join_lobby(&mut self, ci: usize, p: PlayerId, id: LobbyId) -> (outs: Vec<Outgoing>)
        requires
            old(self)@.wf(),
            ci < old(self)@.players.len(),
            old(self)@.players[ci as int].player_id == p,
        ensures
            final(self)@ == old(self)@.after_join(p, id),
            if old(self)@.can_join(p, id) {
                outs@ == old(self)@.join_replies(p, id)
            } else {
                rejects(outs@, p)
            },
    {
        let ghost s = self@;
        proof {
            lemma_client_at(s, ci as int);
        }
        let mut outs: Vec<Outgoing> = Vec::new();
        if self.players[ci].in_lobby.is_some() {
            outs.push(
                Outgoing {
                    to: p,
                    msg: LobbyServerMessage::Negative {
                        msg: String::from_str("Cannot join lobby while in one already"),
                    },
                },
            );
            return outs;
        }
        let lj = match self.find_lobby(id) {
            Some(j) => j,
            None => {
                outs.push(
                    Outgoing {
                        to: p,
                        msg: LobbyServerMessage::Negative {
                            msg: String::from_str("Cannot join lobby; lobby does not exist"),
                        },
                    },
                );
                return outs;
            },
        };
        proof {
            lemma_lobby_at(s, lj as int);
        }
        let mut lobby = self.lobbies.remove(lj);
        assert(lobby@ == s.lobbies[lj as int]);
        let side = pick_side(&lobby);
        let username = self.players[ci].username.clone();
        outs.push(Outgoing { to: p, msg: LobbyServerMessage::YouJoinedLobby { lobby_id: id } });
        let notice = LobbyServerMessage::PlayerJoinedLobby {
            player: Player { id: p, username },
            side,
        };
        assert(notice == LobbyServerMessage::PlayerJoinedLobby {
            player: s.player_info(p),
            side: join_side(s.lobby(id)),
        });
        notify_into(&mut outs, &lobby.red, &notice);
        notify_into(&mut outs, &lobby.blue, &notice);
        proof {
            lemma_notify_concat(lobby.red@, lobby.blue@, notice);
        }
        match side {
            Side::Red => lobby.red.push(p),
            Side::Blue => lobby.blue.push(p),
        }
        assert(lobby@ == s.lobbies[lj as int].with_player(side, p));
        self.lobbies.insert(lj, lobby);
        let mut client = self.players.remove(ci);
        client.in_lobby = Some(id);
        self.players.insert(ci, client);
        assert(self@.players =~= s.players_with_lobby(p, Some(id)));
        assert(self@.lobbies =~= s.lobbies.update(
            lj as int,
            s.lobbies[lj as int].with_player(side, p),
        ));
        assert(outs@ =~= s.join_replies(p, id));
        outs
    }

    /// One listing entry per lobby.
    fn list_lobbies(&self) -> (r: Vec<ShortLobbyInfo>)
        requires
            self@.wf(),
        ensures
            r@ == self@.listing(),
    {
        let mut r: Vec<ShortLobbyInfo> = Vec::new();
        // no lobby holds more players than are registered
        let registered = self.players.len();
        let mut j: usize = 0;
        while j < self.lobbies.len()
            invariant
                self@.wf(),
                registered == self@.players.len(),
                j <= self@.lobbies.len(),
                r@ == self@.listing().subrange(0, j as int),
            decreases self@.lobbies.len() - j,
        {
            proof {
                lemma_lobby_bounded(self@, j as int);
            }
            let lobby = &self.lobbies[j];
            r.push(ShortLobbyInfo { id: lobby.id, players: lobby.red.len() + lobby.blue.len() });
            j += 1;
            assert(r@ =~= self@.listing().subrange(0, j as int));
        }
        assert(self@.listing().subrange(0, j as int) =~= self@.listing());
        r
    }

    /// The registered players `ids` as other clients see them.
    fn roster_of(&self, ids: &Vec<PlayerId>) -> (r: Vec<Player>)
        requires
            self@.wf(),
            forall|k: int| 0 <= k < ids@.len() ==> self@.has_client(#[trigger] ids@[k]),
        ensures
            r@ == self@.roster(ids@),
    {
        let mut r: Vec<Player> = Vec::new();
        let mut k: usize = 0;
        while k < ids.len()
            invariant
                self@.wf(),
                forall|k: int| 0 <= k < ids@.len() ==> self@.has_client(#[trigger] ids@[k]),
                k <= ids@.len(),
                r@ == self@.roster(ids@.subrange(0, k as int)),
            decreases ids@.len() - k,
        {
            let q = ids[k];
            assert(self@.has_client(ids@[k as int]));
            if let Some(ci) = self.find_client(q) {
                proof {
                    lemma_client_at(self@, ci as int);
                }
                r.push(Player { id: q, username: self.players[ci].username.clone() });
            }
            k += 1;
            assert(r@ =~= self@.roster(ids@.subrange(0, k as int)));
        }
        assert(ids@.subrange(0, k as int) =~= ids@);
        r
    }

    /// A snapshot of the lobby at index `lj`.
    fn lobby_info(&self, lj: usize) -> (info: LobbyInfo)
        requires
            self@.wf(),
            lj < self@.lobbies.len(),
        ensures
            self@.describes(self@.lobbies[lj as int].id, info),
    {
        proof {
            lemma_lobby_at(self@, lj as int);
        }
        let lobby = &self.lobbies[lj];
        assert(self@.lobbies[lj as int] == lobby@);
        assert forall|k: int| 0 <= k < lobby.red@.len() implies self@.has_client(
            #[trigger] lobby.red@[k],
        ) by {
            assert(lobby@.members()[k] == lobby.red@[k]);
        }
        assert forall|k: int| 0 <= k < lobby.blue@.len() implies self@.has_client(
            #[trigger] lobby.blue@[k],
        ) by {
            assert(lobby@.members()[lobby.red@.len() + k] == lobby.blue@[k]);
        }
        let red = self.roster_of(&lobby.red);
        let blue = self.roster_of(&lobby.blue);
        let mut players: Vec<(Side, Vec<Player>)> = Vec::new();
        players.push((Side::Red, red));
        players.push((Side::Blue, blue));
        LobbyInfo { id: lobby.id, players, lobby_owner: lobby.owner }
    }

    /// Applies `msg` from client `p`. A lobby it creates gets the id `fresh`,
    /// or the first unused number when `fresh` is taken. Returns the replies
    /// and notices to deliver.
    pub fn handle_message(&mut self, p: PlayerId, msg: LobbyClientMessage, fresh: LobbyId) -> (outs: Vec<Outgoing>)
        requires
            old(self)@.wf(),
        ensures
            old(self)@.message_step(p, msg, fresh, final(self)@, outs@),
            final(self)@.wf(),
    {
        let ghost s = self@;
        let ci = match self.find_client(p) {
            Some(i) => i,
            None => return Vec::new(),
        };
        proof {
            lemma_client_at(s, ci as int);
        }
        let mut outs: Vec<Outgoing> = Vec::new();
        match msg {
            LobbyClientMessage::CreateLobby => {
                proof {
                    lemma_create_wf(s, p, fresh);
                }
                self.create_lobby(ci, p, fresh)
            },
            LobbyClientMessage::ListLobbies => {
                let lobbies = self.list_lobbies();
                outs.push(Outgoing { to: p, msg: LobbyServerMessage::LobbyList { lobbies } });
                outs
            },
            LobbyClientMessage::JoinLobby { id } => {
                proof {
                    lemma_join_wf(s, p, id);
                }
                self.join_lobby(ci, p, id)
            },
            LobbyClientMessage::LeaveLobby => self.leave_lobby(p),
            LobbyClientMessage::GetLobbyInfo { id } => {
                match self.find_lobby(id) {
                    Some(lj) => {
                        proof {
                            lemma_lobby_at(s, lj as int);
                        }
                        let info = self.lobby_info(lj);
                        outs.push(Outgoing { to: p, msg: LobbyServerMessage::LobbyInfo { info } });
                    },
                    None => {
                        outs.push(
                            Outgoing {
                                to: p,
                                msg: LobbyServerMessage::Negative {
                                    msg: String::from_str(
                                        "Cannot get lobby info of non-existent lobby",
                                    ),
                                },
                            },
                        );
                    },
                }
                outs
            },
            LobbyClientMessage::StartMatchmaking
            | LobbyClientMessage::StopMatchmaking
            | LobbyClientMessage::SwitchSide
            | LobbyClientMessage::SelectChampion { .. }
            | LobbyClientMessage::LockInChampion { .. } => {
                outs.push(
                    Outgoing {
                        to: p,
                        msg: LobbyServerMessage::Negative {
                            msg: String::from_str("Not supported"),
                        },
                    },
                );
                outs
            },
        }
    }

    /// Applies one command; a lobby it creates gets the id `fresh`, or the
    /// first unused number when `fresh` is taken. Returns the messages to
    /// deliver.
    pub fn handle_command(&mut self, cmd: Command, fresh: LobbyId) -> (outs: Vec<Outgoing>)
        requires
            old(self)@.wf(),
        ensures
            old(self)@.command_step(cmd, fresh, final(self)@, outs@),
            final(self)@.wf(),
    {
        match cmd {
            Command::NewClient { player_id, username } => {
                self.new_client(player_id, username);
                Vec::new()
            },
            Command::ClientDisconnected(p) => self.client_disconnected(p),
            Command::MsgFromClient { id, msg } => self.handle_message(id, msg, fresh),
        }
    }

    /// Takes `p` out of its lobby, deleting the lobby if that empties it, and
    /// returns the notices to send. A player in no lobby changes nothing.
    pub fn leave_lobby(&mut self, p: PlayerId) -> (outs: Vec<Outgoing>)
        requires
            old(self)@.wf(),
        ensures
            final(self)@ == old(self)@.after_leave(p),
            outs@ == old(self)@.leave_replies(p),
            final(self)@.wf(),
    {
        proof {
            lemma_leave_wf(self@, p);
        }
        let ghost s = self@;
        let ci = match self.find_client(p) {
            Some(i) => i,
            None => return Vec::new(),
        };
        proof {
            lemma_client_at(s, ci as int);
        }
        let id = match self.players[ci].in_lobby {
            Some(id) => id,
            None => return Vec::new(),
        };
        let lj = match self.find_lobby(id) {
            Some(j) => j,
            None => return Vec::new(),
        };
        proof {
            lemma_lobby_at(s, lj as int);
            lemma_without_player(s.lobbies[lj as int], p);
        }
        let mut lobby = self.lobbies.remove(lj);
        assert(lobby@ == s.lobbies[lj as int]);
        match position(&lobby.red, p) {
            Some(k) => {
                proof {
                    lemma_sides_distinct(lobby@);
                    lemma_index_of_unique(lobby.red@, k as int);
                }
                lobby.red.remove(k);
            },
            None => {
                match position(&lobby.blue, p) {
                    Some(k) => {
                        proof {
                            lemma_sides_distinct(lobby@);
                            lemma_index_of_unique(lobby.blue@, k as int);
                        }
                        lobby.blue.remove(k);
                    },
                    None => {},
                }
            },
        }
        let ghost rest = s.lobbies[lj as int].without_player(p);
        assert(lobby@ =~= rest);
        let mut client = self.players.remove(ci);
        client.in_lobby = None;
        let username = client.username.clone();
        self.players.insert(ci, client);
        assert(self@.players =~= s.players_with_lobby(p, None));
        let mut outs: Vec<Outgoing> = Vec::new();
        outs.push(Outgoing { to: p, msg: LobbyServerMessage::YouLeftLobby });
        if lobby.red.len() == 0 && lobby.blue.len() == 0 {
            assert(self@.lobbies =~= s.lobbies.remove(lj as int));
        } else {
            let notice = LobbyServerMessage::PlayerLeftLobby {
                player: Player { id: p, username },
            };
            assert(notice == LobbyServerMessage::PlayerLeftLobby { player: s.player_info(p) });
            notify_into(&mut outs, &lobby.red, &notice);
            notify_into(&mut outs, &lobby.blue, &notice);
            proof {
                lemma_notify_concat(lobby.red@, lobby.blue@, notice);
            }
            self.lobbies.insert(lj, lobby);
            assert(self@.lobbies =~= s.lobbies.update(lj as int, rest));
        }
        outs
    }
}

proof fn lemma_sides_distinct(l: LobbyView)
    requires
        l.members().no_duplicates(),
    ensures
        l.red.no_duplicates(),
        l.blue.no_duplicates(),
        forall|q: PlayerId| l.red.contains(q) ==> !l.blue.contains(q),
{
    let m = l.members();
    assert forall|a: int, b: int| 0 <= a < l.blue.len() && 0 <= b < l.blue.len() && a != b implies l.blue[a]
        != l.blue[b] by {
        assert(m[l.red.len() + a] == l.blue[a]);
        assert(m[l.red.len() + b] == l.blue[b]);
    }
    assert forall|a: int, b: int| 0 <= a < l.red.len() && 0 <= b < l.red.len() && a != b implies l.red[a]
        != l.red[b] by {
        assert(m[a] == l.red[a]);
        assert(m[b] == l.red[b]);
    }
    assert forall|q: PlayerId| l.red.contains(q) implies !l.blue.contains(q) by {
        let a = choose|a: int| 0 <= a < l.red.len() && l.red[a] == q;
        if l.blue.contains(q) {
            let b = choose|b: int| 0 <= b < l.blue.len() && l.blue[b] == q;
            assert(m[a] == q);
            assert(m[l.red.len() + b] == q);
        }
    }
}

proof fn lemma_notify_concat(a: Seq<PlayerId>, b: Seq<PlayerId>, msg: LobbyServerMessage)
    ensures
        notify(a + b, msg) == notify(a, msg) + notify(b, msg),
{
    assert(notify(a + b, msg) =~= notify(a, msg) + notify(b, msg));
}

/// Inserting a new value into a sequence without duplicates keeps it so.
proof fn lemma_insert_distinct(s: Seq<PlayerId>, k: int, x: PlayerId)
    requires
        s.no_duplicates(),
        !s.contains(x),
        0 <= k <= s.len(),
    ensures
        s.insert(k, x).no_duplicates(),
        forall|q: PlayerId| s.insert(k, x).contains(q) <==> (s.contains(q) || q == x),
{
    let r = s.insert(k, x);
    assert forall|a: int, b: int| 0 <= a < r.len() && 0 <= b < r.len() && a != b implies r[a]
        != r[b] by {
        if a != k && b != k {
            let oa = if a < k { a } else { a - 1 };
            let ob = if b < k { b } else { b - 1 };
            assert(r[a] == s[oa]);
            assert(r[b] == s[ob]);
        } else if a == k {
            let ob = if b < k { b } else { b - 1 };
            assert(r[b] == s[ob]);
        } else {
            let oa = if a < k { a } else { a - 1 };
            assert(r[a] == s[oa]);
        }
    }
    assert forall|q: PlayerId| r.contains(q) <==> (s.contains(q) || q == x) by {
        if r.contains(q) {
            let a = choose|a: int| 0 <= a < r.len() && r[a] == q;
            if a != k {
                let oa = if a < k { a } else { a - 1 };
                assert(s[oa] == q);
            }
        }
        if s.contains(q) {
            let a = choose|a: int| 0 <= a < s.len() && s[a] == q;
            let ra = if a < k { a } else { a + 1 };
            assert(r[ra] == q);
        }
        if q == x {
            assert(r[k] == x);
        }
    }
}

/// Adding a non-member to a side keeps the members distinct.
pub proof fn lemma_with_player(l: LobbyView, side: Side, p: PlayerId)
    requires
        l.members().no_duplicates(),
        !l.members().contains(p),
    ensures
        l.with_player(side, p).members().no_duplicates(),
        forall|q: PlayerId|
            l.with_player(side, p).members().contains(q) <==> (l.members().contains(q) || q == p),
        l.with_player(side, p).player_count() == l.player_count() + 1,
        l.with_player(side, p).id == l.id,
        l.with_player(side, p).owner == l.owner,
{
    let m = l.members();
    match side {
        Side::Red => {
            assert(l.with_player(side, p).members() =~= m.insert(l.red.len() as int, p));
            lemma_insert_distinct(m, l.red.len() as int, p);
        },
        Side::Blue => {
            assert(l.with_player(side, p).members() =~= m.insert(m.len() as int, p));
            lemma_insert_distinct(m, m.len() as int, p);
        },
    }
}

/// Distinct registered players are no more than the registered players.
pub proof fn lemma_roster_bounded(s: StateView, m: Seq<PlayerId>)
    requires
        s.players_unique(),
        m.no_duplicates(),
        forall|k: int| 0 <= k < m.len() ==> s.has_client(#[trigger] m[k]),
    ensures
        m.len() <= s.players.len(),
{
    let ms = m.to_set();
    m.unique_seq_to_set();
    let f = |q: PlayerId| s.client_index(q);
    assert(vstd::relations::injective_on(f, ms)) by {
        assert forall|a: PlayerId, b: PlayerId|
            ms.contains(a) && ms.contains(b) && #[trigger] f(a) == #[trigger] f(b) implies a == b by {
            let ka = choose|k: int| 0 <= k < m.len() && m[k] == a;
            let kb = choose|k: int| 0 <= k < m.len() && m[k] == b;
            assert(s.has_client(m[ka]));
            assert(s.has_client(m[kb]));
        }
    }
    vstd::set_lib::lemma_map_size(ms, ms.map(f), f);
    vstd::set_lib::lemma_int_range(0, s.players.len() as int);
    assert forall|i: int| ms.map(f).contains(i) implies vstd::set_lib::set_int_range(
        0,
        s.players.len() as int,
    ).contains(i) by {
        let q = choose|q: PlayerId| ms.contains(q) && f(q) == i;
        let k = choose|k: int| 0 <= k < m.len() && m[k] == q;
        assert(s.has_client(m[k]));
    }
    vstd::set_lib::lemma_len_subset(
        ms.map(f),
        vstd::set_lib::set_int_range(0, s.players.len() as int),
    );
}

/// The members of a lobby are no more than the registered players.
pub proof fn lemma_lobby_bounded(s: StateView, j: int)
    requires
        s.wf(),
        0 <= j < s.lobbies.len(),
    ensures
        s.lobbies[j].player_count() <= s.players.len(),
{
    let m = s.lobbies[j].members();
    assert forall|k: int| 0 <= k < m.len() implies s.has_client(#[trigger] m[k]) by {
        assert(s.lobbies[j].members()[k] == m[k]);
    }
    lemma_roster_bounded(s, m);
}

/// Registering a new client keeps the state well formed.
pub proof fn lemma_new_client_wf(s: StateView, p: PlayerId, name: String)
    requires
        s.wf(),
    ensures
        s.after_new_client(p, name).wf(),
{
    if s.has_client(p) {
        return;
    }
    let t = s.after_new_client(p, name);
    let n = s.players.len() as int;
    assert(t.players[n].player_id == p);
    assert forall|i: int| 0 <= i < n implies #[trigger] t.players[i] == s.players[i] by {}
    assert(t.players_unique()) by {
        assert forall|i: int, k: int|
            0 <= i < t.players.len() && 0 <= k < t.players.len() && i != k implies #[trigger] t.players[i].player_id
            != #[trigger] t.players[k].player_id by {
            if i < n && k < n {
                assert(s.players[i].player_id != s.players[k].player_id);
            } else if i < n {
                assert(s.players[i].player_id != p);
            } else {
                assert(s.players[k].player_id != p);
            }
        }
    }
    assert(t.members_registered()) by {
        assert forall|j: int, k: int|
            0 <= j < t.lobbies.len() && 0 <= k < t.lobbies[j].members().len() implies {
            let m = #[trigger] t.lobbies[j].members()[k];
            t.has_client(m) && t.client(m).in_lobby == Some(t.lobbies[j].id)
        } by {
            let m = t.lobbies[j].members()[k];
            assert(s.lobbies[j].members()[k] == m);
            lemma_client_at(t, s.client_index(m));
        }
    }
    assert(t.clients_placed()) by {
        assert forall|i: int|
            0 <= i < t.players.len() && (#[trigger] t.players[i]).in_lobby is Some implies {
            let id = t.players[i].in_lobby->Some_0;
            t.has_lobby(id) && t.lobby(id).members().contains(t.players[i].player_id)
        } by {
            assert(i < n);
            assert(s.players[i] == t.players[i]);
        }
    }
}

/// After leaving, a registered player names no lobby.
pub proof fn lemma_leave_clears(s: StateView, p: PlayerId)
    requires
        s.wf(),
        s.has_client(p),
    ensures
        s.after_leave(p).has_client(p),
        s.after_leave(p).client_index(p) == s.client_index(p),
        s.after_leave(p).client(p).in_lobby is None,
{
    let c = s.client_index(p);
    let t = s.after_leave(p);
    lemma_leave_wf(s, p);
    assert(t.players[c].player_id == p);
    lemma_client_at(t, c);
    if !s.in_some_lobby(p) && s.players[c].in_lobby is Some {
        assert(s.has_lobby(s.players[c].in_lobby->Some_0));
    }
}

/// Disconnecting keeps the state well formed.
pub proof fn lemma_disconnect_wf(s: StateView, p: PlayerId)
    requires
        s.wf(),
    ensures
        s.after_disconnect(p).wf(),
{
    let t = s.after_leave(p);
    lemma_leave_wf(s, p);
    if !t.has_client(p) {
        return;
    }
    if !s.has_client(p) {
        assert(t == s);
    }
    lemma_leave_clears(s, p);
    let c = t.client_index(p);
    let u = s.after_disconnect(p);
    assert(u.lobbies == t.lobbies);
    let orig = |i: int| if i < c { i } else { i + 1 };
    assert forall|i: int| 0 <= i < u.players.len() implies #[trigger] u.players[i] == t.players[orig(i)] by {}
    assert(u.players_unique()) by {
        assert forall|i: int, k: int|
            0 <= i < u.players.len() && 0 <= k < u.players.len() && i != k implies #[trigger] u.players[i].player_id
            != #[trigger] u.players[k].player_id by {
            assert(t.players[orig(i)].player_id != t.players[orig(k)].player_id);
        }
    }
    assert(u.members_registered()) by {
        assert forall|j: int, k: int|
            0 <= j < u.lobbies.len() && 0 <= k < u.lobbies[j].members().len() implies {
            let m = #[trigger] u.lobbies[j].members()[k];
            u.has_client(m) && u.client(m).in_lobby == Some(u.lobbies[j].id)
        } by {
            let m = u.lobbies[j].members()[k];
            assert(t.lobbies[j].members()[k] == m);
            let ti = t.client_index(m);
            assert(ti != c);
            let ui = if ti < c { ti } else { ti - 1 };
            assert(u.players[ui] == t.players[ti]);
            lemma_client_at(u, ui);
        }
    }
    assert(u.clients_placed()) by {
        assert forall|i: int|
            0 <= i < u.players.len() && (#[trigger] u.players[i]).in_lobby is Some implies {
            let id = u.players[i].in_lobby->Some_0;
            u.has_lobby(id) && u.lobby(id).members().contains(u.players[i].player_id)
        } by {
            assert(t.players[orig(i)] == u.players[i]);
        }
    }
}

/// Among the numbers up to the number of lobbies, one is no lobby's id.
pub proof fn lemma_some_id_free(s: StateView)
    requires
        s.lobbies_unique(),
        s.lobbies.len() < u128::MAX,
    ensures
        exists|j: nat| j <= s.lobbies.len() && !#[trigger] s.has_lobby(LobbyId(j as u128)),
{
    let n = s.lobbies.len() as int;
    if forall|j: nat| j <= n ==> #[trigger] s.has_lobby(LobbyId(j as u128)) {
        let a = vstd::set_lib::set_int_range(0, n + 1);
        let f = |j: int| s.lobby_index(LobbyId(j as u128));
        assert forall|j: int| a.contains(j) implies 0 <= #[trigger] f(j) < n && s.lobbies[f(j)].id
            == LobbyId(j as u128) by {
            assert(s.has_lobby(LobbyId((j as nat) as u128)));
        }
        assert(vstd::relations::injective_on(f, a)) by {
            assert forall|x: int, y: int|
                a.contains(x) && a.contains(y) && #[trigger] f(x) == #[trigger] f(y) implies x
                == y by {
                assert(LobbyId(x as u128) == LobbyId(y as u128));
            }
        }
        vstd::set_lib::lemma_int_range(0, n + 1);
        vstd::set_lib::lemma_int_range(0, n);
        vstd::set_lib::lemma_map_size(a, a.map(f), f);
        assert forall|k: int| a.map(f).contains(k) implies vstd::set_lib::set_int_range(
            0,
            n,
        ).contains(k) by {
            let j = choose|j: int| a.contains(j) && f(j) == k;
        }
        vstd::set_lib::lemma_len_subset(a.map(f), vstd::set_lib::set_int_range(0, n));
    }
}

proof fn lemma_free_from_ge(s: StateView, i: nat)
    ensures
        s.free_from(i) >= i,
    decreases s.lobbies.len() + 1 - i,
{
    if i <= s.lobbies.len() && s.has_lobby(LobbyId(i as u128)) {
        lemma_free_from_ge(s, i + 1);
    }
}

/// When some number from `i` up to the number of lobbies is unused, the
/// search from `i` finds an unused one in that range.
proof fn lemma_free_from(s: StateView, i: nat)
    requires
        i <= s.lobbies.len(),
        exists|j: nat| i <= j <= s.lobbies.len() && !#[trigger] s.has_lobby(LobbyId(j as u128)),
    ensures
        s.free_from(i) <= s.lobbies.len(),
        !s.has_lobby(LobbyId(s.free_from(i) as u128)),
    decreases s.lobbies.len() + 1 - i,
{
    if s.has_lobby(LobbyId(i as u128)) {
        let j = choose|j: nat| i <= j <= s.lobbies.len() && !#[trigger] s.has_lobby(LobbyId(j as u128));
        assert(j != i);
        lemma_free_from(s, i + 1);
    }
}

/// Creating a lobby keeps the state well formed.
pub proof fn lemma_create_wf(s: StateView, p: PlayerId, fresh: LobbyId)
    requires
        s.wf(),
        s.has_client(p),
    ensures
        s.after_create(p, fresh).wf(),
{
    if !s.can_create(p, fresh) {
        return;
    }
    let t = s.after_create(p, fresh);
    let id = s.new_lobby_id(fresh);
    let c = s.client_index(p);
    let n = s.lobbies.len() as int;
    let nl = LobbyView { id: id, red: seq![p], blue: Seq::<PlayerId>::empty(), owner: p };
    assert(t.lobbies[n] == nl);
    assert(nl.members() =~= seq![p]);
    assert forall|j: int| 0 <= j < n implies #[trigger] t.lobbies[j] == s.lobbies[j] by {}
    assert forall|i: int| 0 <= i < t.players.len() implies #[trigger] t.players[i].player_id
        == s.players[i].player_id && (i != c ==> t.players[i] == s.players[i]) by {}
    assert(t.players_unique()) by {
        assert forall|i: int, k: int|
            0 <= i < t.players.len() && 0 <= k < t.players.len() && i != k implies #[trigger] t.players[i].player_id
            != #[trigger] t.players[k].player_id by {
            assert(s.players[i].player_id != s.players[k].player_id);
        }
    }
    assert(t.lobbies_unique()) by {
        assert forall|a: int, b: int|
            0 <= a < t.lobbies.len() && 0 <= b < t.lobbies.len() && a != b implies #[trigger] t.lobbies[a].id
            != #[trigger] t.lobbies[b].id by {
            if a < n && b < n {
                assert(s.lobbies[a].id != s.lobbies[b].id);
            } else if a < n {
                assert(s.lobbies[a].id != id);
            } else {
                assert(s.lobbies[b].id != id);
            }
        }
    }
    assert(t.lobbies_nonempty()) by {
        assert forall|j: int| 0 <= j < t.lobbies.len() implies !(#[trigger] t.lobbies[j]).is_empty() by {
            if j < n {
                assert(!s.lobbies[j].is_empty());
            }
        }
    }
    assert(t.rosters_distinct()) by {
        assert forall|j: int| 0 <= j < t.lobbies.len() implies (
        #[trigger] t.lobbies[j]).members().no_duplicates() by {
            if j < n {
                assert(s.lobbies[j].members().no_duplicates());
            }
        }
    }
    lemma_client_at(t, c);
    lemma_lobby_at(t, n);
    assert(t.members_registered()) by {
        assert forall|j: int, k: int|
            0 <= j < t.lobbies.len() && 0 <= k < t.lobbies[j].members().len() implies {
            let m = #[trigger] t.lobbies[j].members()[k];
            t.has_client(m) && t.client(m).in_lobby == Some(t.lobbies[j].id)
        } by {
            let m = t.lobbies[j].members()[k];
            if j < n {
                assert(s.lobbies[j].members()[k] == m);
                let i = s.client_index(m);
                assert(i != c);
                lemma_client_at(t, i);
            }
        }
    }
    assert(t.clients_placed()) by {
        assert forall|i: int|
            0 <= i < t.players.len() && (#[trigger] t.players[i]).in_lobby is Some implies {
            let id = t.players[i].in_lobby->Some_0;
            t.has_lobby(id) && t.lobby(id).members().contains(t.players[i].player_id)
        } by {
            if i == c {
                assert(nl.members()[0] == p);
            } else {
                let id = s.players[i].in_lobby->Some_0;
                let j = s.lobby_index(id);
                lemma_lobby_at(t, j);
            }
        }
    }
}

/// Joining a lobby keeps the state well formed.
pub proof fn lemma_join_wf(s: StateView, p: PlayerId, id: LobbyId)
    requires
        s.wf(),
        s.has_client(p),
    ensures
        s.after_join(p, id).wf(),
{
    if !s.can_join(p, id) {
        return;
    }
    let t = s.after_join(p, id);
    let c = s.client_index(p);
    let j = s.lobby_index(id);
    let l = s.lobbies[j];
    let side = join_side(l);
    let nl = l.with_player(side, p);
    assert(!l.members().contains(p)) by {
        if l.members().contains(p) {
            let k = choose|k: int| 0 <= k < l.members().len() && l.members()[k] == p;
            assert(s.lobbies[j].members()[k] == p);
        }
    }
    lemma_with_player(l, side, p);
    assert forall|jj: int| 0 <= jj < t.lobbies.len() implies (#[trigger] t.lobbies[jj]).id
        == s.lobbies[jj].id && (jj != j ==> t.lobbies[jj] == s.lobbies[jj]) by {}
    assert forall|i: int| 0 <= i < t.players.len() implies #[trigger] t.players[i].player_id
        == s.players[i].player_id && (i != c ==> t.players[i] == s.players[i]) by {}
    assert(t.players_unique()) by {
        assert forall|i: int, k: int|
            0 <= i < t.players.len() && 0 <= k < t.players.len() && i != k implies #[trigger] t.players[i].player_id
            != #[trigger] t.players[k].player_id by {
            assert(s.players[i].player_id != s.players[k].player_id);
        }
    }
    assert(t.lobbies_unique()) by {
        assert forall|a: int, b: int|
            0 <= a < t.lobbies.len() && 0 <= b < t.lobbies.len() && a != b implies #[trigger] t.lobbies[a].id
            != #[trigger] t.lobbies[b].id by {
            assert(s.lobbies[a].id != s.lobbies[b].id);
        }
    }
    assert(t.lobbies_nonempty()) by {
        assert forall|jj: int| 0 <= jj < t.lobbies.len() implies !(#[trigger] t.lobbies[jj]).is_empty() by {
            assert(!s.lobbies[jj].is_empty());
        }
    }
    assert(t.rosters_distinct()) by {
        assert forall|jj: int| 0 <= jj < t.lobbies.len() implies (
        #[trigger] t.lobbies[jj]).members().no_duplicates() by {
            assert(s.lobbies[jj].members().no_duplicates());
        }
    }
    lemma_client_at(t, c);
    lemma_lobby_at(t, j);
    assert(t.members_registered()) by {
        assert forall|jj: int, k: int|
            0 <= jj < t.lobbies.len() && 0 <= k < t.lobbies[jj].members().len() implies {
            let m = #[trigger] t.lobbies[jj].members()[k];
            t.has_client(m) && t.client(m).in_lobby == Some(t.lobbies[jj].id)
        } by {
            let m = t.lobbies[jj].members()[k];
            assert(t.lobbies[jj].members().contains(m));
            if m != p {
                let ok: int = if jj == j {
                    assert(l.members().contains(m));
                    choose|ok: int| 0 <= ok < l.members().len() && l.members()[ok] == m
                } else {
                    k
                };
                assert(s.lobbies[jj].members()[ok] == m);
                let i = s.client_index(m);
                assert(i != c);
                lemma_client_at(t, i);
            } else if jj != j {
                assert(s.lobbies[jj].members()[k] == p);
            }
        }
    }
    assert(t.clients_placed()) by {
        assert forall|i: int|
            0 <= i < t.players.len() && (#[trigger] t.players[i]).in_lobby is Some implies {
            let id2 = t.players[i].in_lobby->Some_0;
            t.has_lobby(id2) && t.lobby(id2).members().contains(t.players[i].player_id)
        } by {
            if i != c {
                let id2 = s.players[i].in_lobby->Some_0;
                let oj = s.lobby_index(id2);
                assert(s.lobby(id2).members().contains(s.players[i].player_id));
                lemma_lobby_at(t, oj);
            }
        }
    }
}

/// The side a player joining `lobby` is placed on.
pub fn pick_side(lobby: &Lobby) -> (side: Side)
    ensures
        side == join_side(lobby@),
        forall|s: Side|
            lobby@.side(side).len() <= #[trigger] lobby@.side(s).len() && (lobby@.side(s).len()
                == lobby@.side(side).len() ==> side_rank(side) <= side_rank(s)),
{
    if lobby.blue.len() < lobby.red.len() {
        Side::Blue
    } else {
        Side::Red
    }
}

/// Index of the first occurrence of `p` in `v`.
fn position(v: &Vec<PlayerId>, p: PlayerId) -> (r: Option<usize>)
    ensures
        match r {
            Some(k) => k < v@.len() && v@[k as int] == p,
            None => !v@.contains(p),
        },
{
    let mut k: usize = 0;
    while k < v.len()
        invariant
            k <= v@.len(),
            forall|j: int| 0 <= j < k ==> v@[j] != p,
        decreases v@.len() - k,
    {
        if v[k] == p {
            return Some(k);
        }
        k += 1;
    }
    None
}

/// A copy of a join or leave notice.
fn copy_notice(m: &LobbyServerMessage) -> (r: LobbyServerMessage)
    requires
        m is PlayerJoinedLobby || m is PlayerLeftLobby,
    ensures
        r == *m,
{
    match m {
        LobbyServerMessage::PlayerJoinedLobby { player, side } => {
            LobbyServerMessage::PlayerJoinedLobby {
                player: Player { id: player.id, username: player.username.clone() },
                side: *side,
            }
        },
        LobbyServerMessage::PlayerLeftLobby { player } => {
            LobbyServerMessage::PlayerLeftLobby {
                player: Player { id: player.id, username: player.username.clone() },
            }
        },
        // excluded by the precondition
        _ => LobbyServerMessage::YouLeftLobby,
    }
}

/// Appends one copy of `msg` for each of `to`, in order.
fn notify_into(outs: &mut Vec<Outgoing>, to: &Vec<PlayerId>, msg: &LobbyServerMessage)
    requires
        msg is PlayerJoinedLobby || msg is PlayerLeftLobby,
    ensures
        final(outs)@ == old(outs)@ + notify(to@, *msg),
{
    let mut k: usize = 0;
    while k < to.len()
        invariant
            k <= to@.len(),
            msg is PlayerJoinedLobby || msg is PlayerLeftLobby,
            outs@ == old(outs)@ + notify(to@.subrange(0, k as int), *msg),
        decreases to@.len() - k,
    {
        outs.push(Outgoing { to: to[k], msg: copy_notice(msg) });
        proof {
            assert(to@.subrange(0, k + 1) == to@.subrange(0, k as int).push(to@[k as int]));
        }
        k += 1;
        assert(outs@ =~= old(outs)@ + notify(to@.subrange(0, k as int), *msg));
    }
    assert(to@.subrange(0, to@.len() as int) == to@);
}

} // verus!
