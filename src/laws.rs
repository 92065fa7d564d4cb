//! Properties of the state owner that hold over whole runs of commands.

use vstd::prelude::*;
use crate::protocol::{LobbyClientMessage, LobbyId, LobbyServerMessage, PlayerId, Side, side_rank};
use crate::state::{
    lemma_create_wf, lemma_disconnect_wf, lemma_join_wf, lemma_leave_wf, lemma_lobby_at,
    join_side, lemma_new_client_wf, lemma_without_player, rejects, Command, LobbyView, Outgoing,
    StateView,
};

verus! {

/// Every client message keeps the state well formed.
pub proof fn lemma_message_wf(
    s: StateView,
    p: PlayerId,
    msg: LobbyClientMessage,
    fresh: LobbyId,
    t: StateView,
    outs: Seq<Outgoing>,
)
    requires
        s.wf(),
        s.message_step(p, msg, fresh, t, outs),
    ensures
        t.wf(),
{
    if s.has_client(p) {
        match msg {
            LobbyClientMessage::CreateLobby => lemma_create_wf(s, p, fresh),
            LobbyClientMessage::JoinLobby { id } => lemma_join_wf(s, p, id),
            LobbyClientMessage::LeaveLobby => lemma_leave_wf(s, p),
            _ => {},
        }
    }
}

/// Every command keeps the state well formed.
pub proof fn lemma_command_wf(
    s: StateView,
    cmd: Command,
    fresh: LobbyId,
    t: StateView,
    outs: Seq<Outgoing>,
)
    requires
        s.wf(),
        s.command_step(cmd, fresh, t, outs),
    ensures
        t.wf(),
{
    match cmd {
        Command::NewClient { player_id, username } => lemma_new_client_wf(s, player_id, username),
        Command::ClientDisconnected(p) => lemma_disconnect_wf(s, p),
        Command::MsgFromClient { id, msg } => lemma_message_wf(s, id, msg, fresh, t, outs),
    }
}

/// Over any run of commands from the empty state, in any interleaving of
/// clients, every state reached lists each player in at most one lobby, at
/// most once, and holds no lobby whose sides are all empty.
pub proof fn law_runs_keep_lobbies_consistent(
    states: Seq<StateView>,
    cmds: Seq<Command>,
    freshes: Seq<LobbyId>,
    outs: Seq<Seq<Outgoing>>,
)
    requires
        states.len() == cmds.len() + 1,
        freshes.len() == cmds.len(),
        outs.len() == cmds.len(),
        states[0].players.len() == 0,
        states[0].lobbies.len() == 0,
        forall|i: int|
            0 <= i < cmds.len() ==> #[trigger] states[i].command_step(cmds[i], freshes[i], states[i + 1], outs[i]),
    ensures
        forall|i: int| 0 <= i < states.len() ==> (#[trigger] states[i]).wf(),
        forall|i: int, a: int, b: int, p: PlayerId|
            0 <= i < states.len() && 0 <= a < states[i].lobbies.len() && 0 <= b
                < states[i].lobbies.len() && #[trigger] states[i].lobbies[a].members().contains(p)
                && #[trigger] states[i].lobbies[b].members().contains(p) ==> a == b,
        forall|i: int, a: int|
            0 <= i < states.len() && 0 <= a < states[i].lobbies.len() ==> !(
            #[trigger] states[i].lobbies[a]).is_empty(),
{
    lemma_run_wf(states, cmds, freshes, outs, cmds.len() as int);
    assert forall|i: int, a: int, b: int, p: PlayerId|
        0 <= i < states.len() && 0 <= a < states[i].lobbies.len() && 0 <= b
            < states[i].lobbies.len() && #[trigger] states[i].lobbies[a].members().contains(p)
            && #[trigger] states[i].lobbies[b].members().contains(p) implies a == b by {
        law_one_lobby_per_player(states[i], p, a, b);
    }
}

proof fn lemma_run_wf(
    states: Seq<StateView>,
    cmds: Seq<Command>,
    freshes: Seq<LobbyId>,
    outs: Seq<Seq<Outgoing>>,
    n: int,
)
    requires
        states.len() == cmds.len() + 1,
        freshes.len() == cmds.len(),
        outs.len() == cmds.len(),
        0 <= n <= cmds.len(),
        states[0].players.len() == 0,
        states[0].lobbies.len() == 0,
        forall|i: int|
            0 <= i < cmds.len() ==> #[trigger] states[i].command_step(cmds[i], freshes[i], states[i + 1], outs[i]),
    ensures
        forall|i: int| 0 <= i <= n ==> (#[trigger] states[i]).wf(),
    decreases n,
{
    if n > 0 {
        lemma_run_wf(states, cmds, freshes, outs, n - 1);
        let k = n - 1;
        assert(states[k].command_step(cmds[k], freshes[k], states[k + 1], outs[k]));
        lemma_command_wf(states[k], cmds[k], freshes[k], states[k + 1], outs[k]);
        assert(states[k + 1] == states[n]);
    }
}

/// In a well-formed state a player is listed in at most one lobby, and at
/// most once there.
pub proof fn law_one_lobby_per_player(s: StateView, p: PlayerId, a: int, b: int)
    requires
        s.wf(),
        0 <= a < s.lobbies.len(),
        0 <= b < s.lobbies.len(),
        s.lobbies[a].members().contains(p),
        s.lobbies[b].members().contains(p),
    ensures
        a == b,
        s.lobbies[a].members().no_duplicates(),
{
    let ka = choose|k: int| 0 <= k < s.lobbies[a].members().len() && s.lobbies[a].members()[k] == p;
    let kb = choose|k: int| 0 <= k < s.lobbies[b].members().len() && s.lobbies[b].members()[k] == p;
    assert(s.client(s.lobbies[a].members()[ka]).in_lobby == Some(s.lobbies[a].id));
    assert(s.client(s.lobbies[b].members()[kb]).in_lobby == Some(s.lobbies[b].id));
    if a != b {
        assert(s.lobbies[a].id != s.lobbies[b].id);
    }
}

/// After any command, no lobby that still exists has all its sides empty:
/// a leave or a disconnect that empties a lobby deletes it in the same step.
pub proof fn law_no_empty_lobby(
    s: StateView,
    cmd: Command,
    fresh: LobbyId,
    t: StateView,
    outs: Seq<Outgoing>,
)
    requires
        s.wf(),
        s.command_step(cmd, fresh, t, outs),
    ensures
        forall|j: int| 0 <= j < t.lobbies.len() ==> !(#[trigger] t.lobbies[j]).is_empty(),
{
    lemma_command_wf(s, cmd, fresh, t, outs);
}

/// A joining player goes to the side with the fewest players, and on equal
/// counts to the side that comes first in the order of sides.
pub proof fn law_join_side_balances(l: LobbyView, s: Side)
    ensures
        l.side(join_side(l)).len() <= l.side(s).len(),
        l.side(s).len() == l.side(join_side(l)).len() ==> side_rank(join_side(l)) <= side_rank(s),
{
}

/// Joining puts the player at the end of the side `join_side` picks.
pub proof fn law_join_appends_to_chosen_side(
    s: StateView,
    p: PlayerId,
    id: LobbyId,
    fresh: LobbyId,
    t: StateView,
    outs: Seq<Outgoing>,
)
    requires
        s.wf(),
        s.has_client(p),
        s.client(p).in_lobby is None,
        s.has_lobby(id),
        s.message_step(p, LobbyClientMessage::JoinLobby { id }, fresh, t, outs),
    ensures
        t.lobbies[s.lobby_index(id)].side(join_side(s.lobby(id))) == s.lobby(id).side(
            join_side(s.lobby(id)),
        ).push(p),
        outs[0] == (Outgoing { to: p, msg: LobbyServerMessage::YouJoinedLobby { lobby_id: id } }),
{
    assert(s.join_replies(p, id)[0] == Outgoing {
        to: p,
        msg: LobbyServerMessage::YouJoinedLobby { lobby_id: id },
    });
}

/// A client in no lobby that asks to create one always gets a new lobby,
/// under an id no lobby had, alone on the red side and its owner, and is the
/// only one told.
pub proof fn law_create_succeeds(
    s: StateView,
    p: PlayerId,
    fresh: LobbyId,
    t: StateView,
    outs: Seq<Outgoing>,
)
    requires
        s.wf(),
        s.has_client(p),
        s.client(p).in_lobby is None,
        s.message_step(p, LobbyClientMessage::CreateLobby, fresh, t, outs),
    ensures
        !s.has_lobby(s.new_lobby_id(fresh)),
        !s.has_lobby(fresh) ==> s.new_lobby_id(fresh) == fresh,
        t.lobbies == s.lobbies.push(
            LobbyView { id: s.new_lobby_id(fresh), red: seq![p], blue: Seq::empty(), owner: p },
        ),
        t.players == s.players_with_lobby(p, Some(s.new_lobby_id(fresh))),
        outs == seq![
            Outgoing {
                to: p,
                msg: LobbyServerMessage::YouJoinedLobby { lobby_id: s.new_lobby_id(fresh) },
            },
        ],
{
}

/// Creating a lobby while in one is rejected with `Negative`, and the state,
/// the player's membership included, stays as it was.
pub proof fn law_double_create_rejected(
    s: StateView,
    p: PlayerId,
    fresh: LobbyId,
    t: StateView,
    outs: Seq<Outgoing>,
)
    requires
        s.wf(),
        s.has_client(p),
        s.client(p).in_lobby is Some,
        s.message_step(p, LobbyClientMessage::CreateLobby, fresh, t, outs),
    ensures
        t == s,
        rejects(outs, p),
{
}

/// When the only member of a lobby leaves it, the lobby is gone.
proof fn lemma_sole_leave(s: StateView, p: PlayerId)
    requires
        s.wf(),
        s.has_client(p),
        s.client(p).in_lobby is Some,
        s.lobby(s.client(p).in_lobby->Some_0).members() == seq![p],
    ensures
        !s.after_leave(p).has_lobby(s.client(p).in_lobby->Some_0),
        s.after_leave(p).lobbies.len() + 1 == s.lobbies.len(),
        s.leave_replies(p) == seq![Outgoing { to: p, msg: LobbyServerMessage::YouLeftLobby }],
{
    let id = s.client(p).in_lobby->Some_0;
    let c = s.client_index(p);
    assert(s.players[c].in_lobby is Some);
    assert(s.in_some_lobby(p));
    let j = s.lobby_index(id);
    let l = s.lobbies[j];
    assert(l.members().contains(p)) by {
        assert(l.members()[0] == p);
    }
    lemma_without_player(l, p);
    let rest = l.without_player(p);
    assert(rest.is_empty());
    let u = s.after_leave(p);
    assert(u.lobbies == s.lobbies.remove(j));
    if u.has_lobby(id) {
        let k = choose|k: int| 0 <= k < u.lobbies.len() && u.lobbies[k].id == id;
        let ok = if k < j { k } else { k + 1 };
        assert(s.lobbies[ok].id == id);
        lemma_lobby_at(s, ok);
        assert(s.lobbies[j].id == id);
    }
    assert(s.leave_replies(p) =~= seq![Outgoing { to: p, msg: LobbyServerMessage::YouLeftLobby }]);
}

/// When the only member of a lobby leaves it, the lobby is deleted in the
/// same step and the leaver alone is told.
pub proof fn law_last_leave_deletes_lobby(
    s: StateView,
    p: PlayerId,
    fresh: LobbyId,
    t: StateView,
    outs: Seq<Outgoing>,
)
    requires
        s.wf(),
        s.has_client(p),
        s.client(p).in_lobby is Some,
        s.lobby(s.client(p).in_lobby->Some_0).members() == seq![p],
        s.message_step(p, LobbyClientMessage::LeaveLobby, fresh, t, outs),
    ensures
        !t.has_lobby(s.client(p).in_lobby->Some_0),
        t.lobbies.len() + 1 == s.lobbies.len(),
        outs == seq![Outgoing { to: p, msg: LobbyServerMessage::YouLeftLobby }],
{
    lemma_sole_leave(s, p);
}

/// When the only member of a lobby disconnects, the lobby is deleted, and a
/// later `GetLobbyInfo` for its id is answered with `Negative`.
pub proof fn law_sole_member_disconnect(
    s: StateView,
    p: PlayerId,
    q: PlayerId,
    fresh: LobbyId,
    t: StateView,
    outs: Seq<Outgoing>,
)
    requires
        s.wf(),
        s.has_client(p),
        s.client(p).in_lobby is Some,
        s.lobby(s.client(p).in_lobby->Some_0).members() == seq![p],
        s.after_disconnect(p).has_client(q),
        s.after_disconnect(p).message_step(
            q,
            LobbyClientMessage::GetLobbyInfo { id: s.client(p).in_lobby->Some_0 },
            fresh,
            t,
            outs,
        ),
    ensures
        !s.after_disconnect(p).has_lobby(s.client(p).in_lobby->Some_0),
        t == s.after_disconnect(p),
        rejects(outs, q),
{
    lemma_sole_leave(s, p);
    assert(s.after_disconnect(p).lobbies == s.after_leave(p).lobbies);
}

} // verus!
