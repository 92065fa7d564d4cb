//! What a client makes of its own requests and of the server's messages.

use vstd::prelude::*;
use crate::protocol::{
    LobbyClientMessage, LobbyId, LobbyInfo, LobbyServerMessage, Player, PlayerId, PlayerView,
    ShortLobbyInfo, Side, players_view,
};

verus! {

/// An action the user asked for.
#[derive(Debug, Clone, Copy, PartialEq, Eq, Structural)]
pub enum Request {
    GetLobbyList,
    CreateLobby,
    GetLobbyInfo { id: LobbyId },
    JoinLobby { id: LobbyId },
    LeaveLobby,
}

/// Whether the connection to the server came up.
#[derive(Debug, Clone, Copy, PartialEq, Eq, Structural)]
pub enum ServerConnectionStatus {
    Connected,
    ConnectionFailed,
}

#[derive(Debug)]
pub struct UpdateLobbyList {
    pub lobbies: Vec<ShortLobbyInfo>,
}

#[derive(Debug)]
pub struct UpdateLobbyInfo {
    pub lobby_info: LobbyInfo,
}

#[derive(Debug)]
pub struct PlayerJoinedLobby {
    pub player: Player,
    pub side: Side,
}

#[derive(Debug)]
pub struct PlayerLeftLobby {
    pub player: Player,
}

#[derive(Debug, Clone, Copy, PartialEq, Eq, Structural)]
pub struct JoinedLobby {
    pub lobby_id: LobbyId,
}

#[derive(Debug, Clone, Copy, PartialEq, Eq, Structural)]
pub struct LeftLobby;

/// Something the user interface reacts to.
#[derive(Debug)]
pub enum Event {
    ServerConnectionStatus(ServerConnectionStatus),
    UpdateLobbyList(UpdateLobbyList),
    UpdateLobbyInfo(UpdateLobbyInfo),
    PlayerJoinedLobby(PlayerJoinedLobby),
    PlayerLeftLobby(PlayerLeftLobby),
    JoinedLobby(JoinedLobby),
    LeftLobby(LeftLobby),
}

/// The message that carries a request to the server.
pub fn request_message(request: Request) -> (m: LobbyClientMessage)
    ensures
        m == match request {
            Request::GetLobbyList => LobbyClientMessage::ListLobbies,
            Request::CreateLobby => LobbyClientMessage::CreateLobby,
            Request::GetLobbyInfo { id } => LobbyClientMessage::GetLobbyInfo { id },
            Request::JoinLobby { id } => LobbyClientMessage::JoinLobby { id },
            Request::LeaveLobby => LobbyClientMessage::LeaveLobby,
        },
{
    match request {
        Request::GetLobbyList => LobbyClientMessage::ListLobbies,
        Request::GetLobbyInfo { id } => LobbyClientMessage::GetLobbyInfo { id },
        Request::JoinLobby { id } => LobbyClientMessage::JoinLobby { id },
        Request::LeaveLobby => LobbyClientMessage::LeaveLobby,
        Request::CreateLobby => LobbyClientMessage::CreateLobby,
    }
}

/// Server messages a client knows how to handle; the matchmaking and
/// champion messages are not among them.
pub open spec fn is_handled(msg: LobbyServerMessage) -> bool {
    !(msg is StopMatchmaking || msg is MatchmakingDone || msg is PlayerSwitchedSide
        || msg is PlayerSelectedChampion || msg is PlayerLockedInChampion)
}

/// The event a server message raises, if any: `OK` and `Negative` raise
/// none, every other handled message the event of the same name.
pub fn event_of(msg: LobbyServerMessage) -> (e: Option<Event>)
    requires
        is_handled(msg),
    ensures
        match msg {
            LobbyServerMessage::LobbyList { lobbies } => e matches Some(
                Event::UpdateLobbyList(u),
            ) && u.lobbies == lobbies,
            LobbyServerMessage::LobbyInfo { info } => e matches Some(Event::UpdateLobbyInfo(u))
                && u.lobby_info == info,
            LobbyServerMessage::PlayerJoinedLobby { player, side } => e matches Some(
                Event::PlayerJoinedLobby(p),
            ) && p.player == player && p.side == side,
            LobbyServerMessage::PlayerLeftLobby { player } => e matches Some(
                Event::PlayerLeftLobby(p),
            ) && p.player == player,
            LobbyServerMessage::YouJoinedLobby { lobby_id } => e == Some(
                Event::JoinedLobby(JoinedLobby { lobby_id }),
            ),
            LobbyServerMessage::YouLeftLobby => e == Some(Event::LeftLobby(LeftLobby)),
            _ => e is None,
        },
{
    match msg {
        LobbyServerMessage::LobbyList { lobbies } => Some(
            Event::UpdateLobbyList(UpdateLobbyList { lobbies }),
        ),
        LobbyServerMessage::LobbyInfo { info } => Some(
            Event::UpdateLobbyInfo(UpdateLobbyInfo { lobby_info: info }),
        ),
        LobbyServerMessage::PlayerJoinedLobby { player, side } => Some(
            Event::PlayerJoinedLobby(PlayerJoinedLobby { player, side }),
        ),
        LobbyServerMessage::PlayerLeftLobby { player } => Some(
            Event::PlayerLeftLobby(PlayerLeftLobby { player }),
        ),
        LobbyServerMessage::YouJoinedLobby { lobby_id } => Some(
            Event::JoinedLobby(JoinedLobby { lobby_id }),
        ),
        LobbyServerMessage::YouLeftLobby => Some(Event::LeftLobby(LeftLobby)),
        _ => None,
    }
}

/// Whether `k` is the first entry of `r` for side `side`.
pub open spec fn first_entry(r: Seq<(Side, Seq<PlayerView>)>, side: Side, k: int) -> bool {
    0 <= k < r.len() && r[k].0 == side && forall|j: int| 0 <= j < k ==> (#[trigger] r[j]).0 != side
}

/// Whether `j` is the first position of player `id` in `ps`.
pub open spec fn first_position(ps: Seq<PlayerView>, id: PlayerId, j: int) -> bool {
    0 <= j < ps.len() && ps[j].id == id && forall|i: int| 0 <= i < j ==> (#[trigger] ps[i]).id != id
}

/// `ps` without the first entry of player `id`, if it has one.
pub open spec fn without_first(ps: Seq<PlayerView>, id: PlayerId) -> Seq<PlayerView> {
    if exists|j: int| first_position(ps, id, j) {
        ps.remove(choose|j: int| first_position(ps, id, j))
    } else {
        ps
    }
}

pub open spec fn lists_player(ps: Seq<PlayerView>, id: PlayerId) -> bool {
    exists|j: int| 0 <= j < ps.len() && (#[trigger] ps[j]).id == id
}

/// The side of the last entry that lists player `id`; red when none does.
pub open spec fn last_side_with(r: Seq<(Side, Seq<PlayerView>)>, id: PlayerId) -> Side
    decreases r.len(),
{
    if r.len() == 0 {
        Side::Red
    } else if lists_player(r.last().1, id) {
        r.last().0
    } else {
        last_side_with(r.drop_last(), id)
    }
}

proof fn lemma_first_position_unique(ps: Seq<PlayerView>, id: PlayerId, j: int)
    requires
        first_position(ps, id, j),
    ensures
        without_first(ps, id) == ps.remove(j),
{
    let c = choose|c: int| first_position(ps, id, c);
    if c < j {
        assert(ps[c].id != id);
    } else if j < c {
        assert(ps[j].id != id);
    }
}

/// Appends `player` to the list of side `side` in a lobby snapshot; a side
/// without a list gets one.
pub fn add_player(info: &mut LobbyInfo, player: Player, side: Side)
    ensures
        final(info)@.id == old(info)@.id,
        final(info)@.lobby_owner == old(info)@.lobby_owner,
        forall|k: int|
            first_entry(old(info)@.players, side, k) ==> final(info)@.players == old(
                info,
            )@.players.update(k, (side, old(info)@.players[k].1.push(player@))),
        (forall|k: int| 0 <= k < old(info)@.players.len() ==> (#[trigger] old(info)@.players[k]).0
            != side) ==> final(info)@.players == old(info)@.players.push((side, seq![player@])),
        old(info)@.sides_distinct() ==> final(info)@.sides_distinct(),
{
    let ghost old_r = info@.players;
    let mut k: usize = 0;
    while k < info.players.len()
        invariant
            info@ == old(info)@,
            old_r == old(info)@.players,
            k <= info.players@.len(),
            forall|j: int| 0 <= j < k ==> (#[trigger] old_r[j]).0 != side,
        decreases info.players@.len() - k,
    {
        if info.players[k].0 == side {
            let ghost pv = player@;
            let mut entry = info.players.remove(k);
            let ghost before = entry.1@;
            assert(old_r[k as int].1 == players_view(before));
            entry.1.push(player);
            assert(players_view(entry.1@) =~= players_view(before).push(pv));
            info.players.insert(k, entry);
            proof {
                assert(info@.players =~= old_r.update(k as int, (side, old_r[k as int].1.push(pv))));
                assert forall|c: int| first_entry(old_r, side, c) implies c == k by {
                    if c < k {
                        assert(old_r[c].0 != side);
                    } else if c > k {
                        assert(old_r[k as int].0 != side);
                    }
                }
            }
            return;
        }
        k += 1;
    }
    let ghost pv = player@;
    let mut list: Vec<Player> = Vec::new();
    list.push(player);
    assert(players_view(list@) =~= seq![pv]);
    info.players.push((side, list));
    assert(info@.players =~= old_r.push((side, seq![pv])));
    assert(old(info)@.sides_distinct() ==> info@.sides_distinct()) by {
        if old(info)@.sides_distinct() {
            assert forall|i: int, j: int|
                0 <= i < info@.players.len() && 0 <= j < info@.players.len() && i != j implies #[trigger] info@.players[i].0
                != #[trigger] info@.players[j].0 by {
                if i < old_r.len() && j < old_r.len() {
                    assert(old_r[i].0 != old_r[j].0);
                } else if i < old_r.len() {
                    assert(old_r[i].0 != side);
                } else {
                    assert(old_r[j].0 != side);
                }
            }
        }
    }
}

/// Takes the first entry of player `id` out of every side list of a lobby
/// snapshot, and returns the side of the last list that held it (red when
/// none did).
pub fn remove_player(info: &mut LobbyInfo, id: PlayerId) -> (side: Side)
    ensures
        final(info)@.id == old(info)@.id,
        final(info)@.lobby_owner == old(info)@.lobby_owner,
        final(info)@.players.len() == old(info)@.players.len(),
        old(info)@.sides_distinct() ==> final(info)@.sides_distinct(),
        forall|k: int|
            0 <= k < old(info)@.players.len() ==> #[trigger] final(info)@.players[k] == (
                old(info)@.players[k].0,
                without_first(old(info)@.players[k].1, id),
            ),
        side == last_side_with(old(info)@.players, id),
{
    let ghost old_r = info@.players;
    let mut side = Side::Red;
    let mut k: usize = 0;
    while k < info.players.len()
        invariant
            info@.id == old(info)@.id,
            info@.lobby_owner == old(info)@.lobby_owner,
            old_r == old(info)@.players,
            k <= info.players@.len(),
            info.players@.len() == old_r.len(),
            forall|j: int|
                0 <= j < k ==> #[trigger] info@.players[j] == (
                    old_r[j].0,
                    without_first(old_r[j].1, id),
                ),
            forall|j: int| k <= j < old_r.len() ==> #[trigger] info@.players[j] == old_r[j],
            side == last_side_with(old_r.subrange(0, k as int), id),
        decreases info.players@.len() - k,
    {
        let ghost before = info@.players;
        let mut entry = info.players.remove(k);
        let ghost ev = before[k as int];
        let mut j: usize = 0;
        while j < entry.1.len() && entry.1[j].id != id
            invariant
                j <= entry.1@.len(),
                (entry.0, players_view(entry.1@)) == ev,
                forall|i: int| 0 <= i < j ==> (#[trigger] entry.1@[i]).id != id,
            decreases entry.1@.len() - j,
        {
            j += 1;
        }
        let found = j < entry.1.len();
        proof {
            assert(ev.1 == players_view(entry.1@));
        }
        if found {
            proof {
                assert forall|i: int| 0 <= i < j implies (#[trigger] ev.1[i]).id != id by {
                    assert(entry.1@[i].id != id);
                }
                assert(ev.1[j as int] == entry.1@[j as int]@);
                assert(first_position(ev.1, id, j as int));
                lemma_first_position_unique(ev.1, id, j as int);
            }
            entry.1.remove(j);
            proof {
                assert(players_view(entry.1@) =~= ev.1.remove(j as int));
            }
            side = entry.0;
        } else {
            assert forall|c: int| !first_position(ev.1, id, c) by {
                if 0 <= c < ev.1.len() && ev.1[c].id == id {
                    assert(ev.1[c] == entry.1@[c]@);
                    assert(entry.1@[c].id != id);
                }
            }
            assert(!lists_player(ev.1, id)) by {
                if lists_player(ev.1, id) {
                    let c = choose|c: int| 0 <= c < ev.1.len() && (#[trigger] ev.1[c]).id == id;
                    assert(ev.1[c] == entry.1@[c]@);
                    assert(entry.1@[c].id != id);
                }
            }
        }
        if found {
            assert(lists_player(ev.1, id)) by {
                assert(ev.1[j as int].id == id);
            }
        }
        assert(players_view(entry.1@) == without_first(ev.1, id));
        let ghost newv = (ev.0, without_first(ev.1, id));
        info.players.insert(k, entry);
        assert(info@.players =~= before.update(k as int, newv));
        proof {
            let sub = old_r.subrange(0, k + 1);
            assert(sub.last() == ev);
            assert(sub.drop_last() =~= old_r.subrange(0, k as int));
        }
        k += 1;
    }
    assert(old_r.subrange(0, k as int) =~= old_r);
    assert(old(info)@.sides_distinct() ==> info@.sides_distinct()) by {
        if old(info)@.sides_distinct() {
            assert forall|i: int, j: int|
                0 <= i < info@.players.len() && 0 <= j < info@.players.len() && i != j implies #[trigger] info@.players[i].0
                != #[trigger] info@.players[j].0 by {
                assert(info@.players[i].0 == old_r[i].0);
                assert(info@.players[j].0 == old_r[j].0);
            }
        }
    }
    side
}

} // verus!
