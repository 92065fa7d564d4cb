//! The wire codec: messages as bytes, and framing with a four-byte
//! big-endian length prefix.
//!
//! Payloads follow the compact serde encoding of the message types: a varint
//! variant index, then the fields in order; strings and lists carry a varint
//! length; an identifier is a 16-byte string.

use vstd::prelude::*;
use vstd::string::StrSliceExecFns;
use vstd::utf8::{decode_utf8, encode_utf8, valid_utf8};
use crate::protocol::{
    LobbyClientMessage, LobbyClientMessageView, LobbyClientNewConnectionMessage, LobbyId,
    LobbyInfo, LobbyInfoView, LobbyServerMessage, LobbyServerMessageView, Player, PlayerId,
    PlayerView, ShortLobbyInfo, Side, players_view, side_rank,
};
use crate::wire::{
    be32, be32_value, get_id, get_varint, id_bytes, lemma_be32_round_trip, lemma_id_round_trip,
    lemma_varint_round_trip, parse_id, put_bytes, put_id, put_varint, varint_bytes, varint_take,
};

verus! {

/// Why bytes could not be read as a message.
#[derive(Clone, Copy, Debug, PartialEq, Eq, Structural)]
pub enum CodecError {
    /// The peer closed or reset the connection.
    ConnectionClosed,
    /// No message came in the time allowed.
    Timeout,
    /// The length prefix does not match the payload, or the payload is no
    /// known message.
    MalformedMessage,
}

// ---- encodings ----

/// Each element's encoding, one after the other.
pub open spec fn concat_map<A>(s: Seq<A>, f: spec_fn(A) -> Seq<u8>) -> Seq<u8>
    decreases s.len(),
{
    if s.len() == 0 {
        Seq::empty()
    } else {
        f(s[0]) + concat_map(s.drop_first(), f)
    }
}

/// A list: its length as a varint, then its elements.
pub open spec fn list_bytes<A>(s: Seq<A>, f: spec_fn(A) -> Seq<u8>) -> Seq<u8> {
    varint_bytes(s.len() as u64) + concat_map(s, f)
}

/// A string: the length of its UTF-8 form as a varint, then that form.
pub open spec fn text_bytes(s: Seq<char>) -> Seq<u8> {
    varint_bytes(encode_utf8(s).len() as u64) + encode_utf8(s)
}

pub open spec fn side_bytes(s: Side) -> Seq<u8> {
    varint_bytes(side_rank(s) as u64)
}

pub open spec fn player_bytes(p: PlayerView) -> Seq<u8> {
    id_bytes(p.id.0) + text_bytes(p.username)
}

pub open spec fn players_bytes(ps: Seq<PlayerView>) -> Seq<u8> {
    list_bytes(ps, |p: PlayerView| player_bytes(p))
}

pub open spec fn side_entry_bytes(e: (Side, Seq<PlayerView>)) -> Seq<u8> {
    side_bytes(e.0) + players_bytes(e.1)
}

pub open spec fn short_info_bytes(l: ShortLobbyInfo) -> Seq<u8> {
    id_bytes(l.id.0) + varint_bytes(l.players as u64)
}

pub open spec fn lobby_info_bytes(i: LobbyInfoView) -> Seq<u8> {
    id_bytes(i.id.0) + list_bytes(i.players, |e: (Side, Seq<PlayerView>)| side_entry_bytes(e))
        + id_bytes(i.lobby_owner.0)
}

/// The payload of a client request.
pub open spec fn client_bytes(m: LobbyClientMessageView) -> Seq<u8> {
    match m {
        LobbyClientMessageView::StartMatchmaking => varint_bytes(0),
        LobbyClientMessageView::StopMatchmaking => varint_bytes(1),
        LobbyClientMessageView::CreateLobby => varint_bytes(2),
        LobbyClientMessageView::ListLobbies => varint_bytes(3),
        LobbyClientMessageView::JoinLobby { id } => varint_bytes(4) + id_bytes(id.0),
        LobbyClientMessageView::LeaveLobby => varint_bytes(5),
        LobbyClientMessageView::GetLobbyInfo { id } => varint_bytes(6) + id_bytes(id.0),
        LobbyClientMessageView::SwitchSide => varint_bytes(7),
        LobbyClientMessageView::SelectChampion { champion } => varint_bytes(8) + text_bytes(
            champion,
        ),
        LobbyClientMessageView::LockInChampion { champion } => varint_bytes(9) + text_bytes(
            champion,
        ),
    }
}

/// The payload of a server message.
pub open spec fn server_bytes(m: LobbyServerMessageView) -> Seq<u8> {
    match m {
        LobbyServerMessageView::OK => varint_bytes(0),
        LobbyServerMessageView::Negative { msg } => varint_bytes(1) + text_bytes(msg),
        LobbyServerMessageView::StopMatchmaking => varint_bytes(2),
        LobbyServerMessageView::LobbyList { lobbies } => varint_bytes(3) + list_bytes(
            lobbies,
            |l: ShortLobbyInfo| short_info_bytes(l),
        ),
        LobbyServerMessageView::LobbyInfo { info } => varint_bytes(4) + lobby_info_bytes(info),
        LobbyServerMessageView::MatchmakingDone { lobby_id } => varint_bytes(5) + id_bytes(
            lobby_id.0,
        ),
        LobbyServerMessageView::PlayerJoinedLobby { player, side } => varint_bytes(6)
            + player_bytes(player) + side_bytes(side),
        LobbyServerMessageView::PlayerLeftLobby { player } => varint_bytes(7) + player_bytes(
            player,
        ),
        LobbyServerMessageView::PlayerSwitchedSide { player, side } => varint_bytes(8)
            + player_bytes(player) + side_bytes(side),
        LobbyServerMessageView::PlayerSelectedChampion { player, champion } => varint_bytes(9)
            + player_bytes(player) + text_bytes(champion),
        LobbyServerMessageView::PlayerLockedInChampion { player, champion } => varint_bytes(10)
            + player_bytes(player) + text_bytes(champion),
        LobbyServerMessageView::YouJoinedLobby { lobby_id } => varint_bytes(11) + id_bytes(
            lobby_id.0,
        ),
        LobbyServerMessageView::YouLeftLobby => varint_bytes(12),
    }
}

/// A frame: the payload's length in four big-endian bytes, then the payload.
pub open spec fn frame_bytes(payload: Seq<u8>) -> Seq<u8> {
    be32(payload.len() as u32) + payload
}

// ---- parsing ----

/// `n` elements read one after the other by `p`, and the bytes after them.
pub open spec fn parse_n<A>(b: Seq<u8>, n: nat, p: spec_fn(Seq<u8>) -> Option<(A, Seq<u8>)>) -> Option<
    (Seq<A>, Seq<u8>),
>
    decreases n,
{
    if n == 0 {
        Some((Seq::empty(), b))
    } else {
        match p(b) {
            Some((a, r)) => match parse_n(r, (n - 1) as nat, p) {
                Some((rest, r2)) => Some((seq![a] + rest, r2)),
                None => None,
            },
            None => None,
        }
    }
}

/// A list: a varint count, then that many elements.
pub open spec fn parse_list<A>(b: Seq<u8>, p: spec_fn(Seq<u8>) -> Option<(A, Seq<u8>)>) -> Option<
    (Seq<A>, Seq<u8>),
> {
    match varint_take(b) {
        Some((n, r)) => parse_n(r, n as nat, p),
        None => None,
    }
}

/// A string: a varint length, then that many bytes of valid UTF-8.
pub open spec fn parse_text(b: Seq<u8>) -> Option<(Seq<char>, Seq<u8>)> {
    match varint_take(b) {
        Some((n, r)) => if n <= r.len() && valid_utf8(r.subrange(0, n as int)) {
            Some((decode_utf8(r.subrange(0, n as int)), r.subrange(n as int, r.len() as int)))
        } else {
            None
        },
        None => None,
    }
}

pub open spec fn parse_side(b: Seq<u8>) -> Option<(Side, Seq<u8>)> {
    match varint_take(b) {
        Some((n, r)) => if n == 0 {
            Some((Side::Red, r))
        } else if n == 1 {
            Some((Side::Blue, r))
        } else {
            None
        },
        None => None,
    }
}

pub open spec fn parse_player(b: Seq<u8>) -> Option<(PlayerView, Seq<u8>)> {
    match parse_id(b) {
        Some((id, r)) => match parse_text(r) {
            Some((name, r2)) => Some((PlayerView { id: PlayerId(id), username: name }, r2)),
            None => None,
        },
        None => None,
    }
}

pub open spec fn parse_players(b: Seq<u8>) -> Option<(Seq<PlayerView>, Seq<u8>)> {
    parse_list(b, |x: Seq<u8>| parse_player(x))
}

pub open spec fn parse_side_entry(b: Seq<u8>) -> Option<((Side, Seq<PlayerView>), Seq<u8>)> {
    match parse_side(b) {
        Some((s, r)) => match parse_players(r) {
            Some((ps, r2)) => Some(((s, ps), r2)),
            None => None,
        },
        None => None,
    }
}

pub open spec fn parse_roster(b: Seq<u8>) -> Option<(Seq<(Side, Seq<PlayerView>)>, Seq<u8>)> {
    parse_list(b, |x: Seq<u8>| parse_side_entry(x))
}

pub open spec fn parse_short_info(b: Seq<u8>) -> Option<(ShortLobbyInfo, Seq<u8>)> {
    match parse_id(b) {
        Some((id, r)) => match varint_take(r) {
            Some((n, r2)) => if n <= usize::MAX {
                Some((ShortLobbyInfo { id: LobbyId(id), players: n as usize }, r2))
            } else {
                None
            },
            None => None,
        },
        None => None,
    }
}

pub open spec fn parse_listing(b: Seq<u8>) -> Option<(Seq<ShortLobbyInfo>, Seq<u8>)> {
    parse_list(b, |x: Seq<u8>| parse_short_info(x))
}

pub open spec fn parse_lobby_info(b: Seq<u8>) -> Option<(LobbyInfoView, Seq<u8>)> {
    match parse_id(b) {
        Some((id, r)) => match parse_roster(r) {
            Some((roster, r2)) => match parse_id(r2) {
                Some((owner, r3)) => Some(
                    (
                        LobbyInfoView {
                            id: LobbyId(id),
                            players: roster,
                            lobby_owner: PlayerId(owner),
                        },
                        r3,
                    ),
                ),
                None => None,
            },
            None => None,
        },
        None => None,
    }
}

/// The client request at the front of `b`, and the bytes after it.
pub open spec fn parse_client(b: Seq<u8>) -> Option<(LobbyClientMessageView, Seq<u8>)> {
    match varint_take(b) {
        Some((tag, r)) => if tag == 0 {
            Some((LobbyClientMessageView::StartMatchmaking, r))
        } else if tag == 1 {
            Some((LobbyClientMessageView::StopMatchmaking, r))
        } else if tag == 2 {
            Some((LobbyClientMessageView::CreateLobby, r))
        } else if tag == 3 {
            Some((LobbyClientMessageView::ListLobbies, r))
        } else if tag == 4 {
            match parse_id(r) {
                Some((v, r2)) => Some((LobbyClientMessageView::JoinLobby { id: LobbyId(v) }, r2)),
                None => None,
            }
        } else if tag == 5 {
            Some((LobbyClientMessageView::LeaveLobby, r))
        } else if tag == 6 {
            match parse_id(r) {
                Some((v, r2)) => Some((LobbyClientMessageView::GetLobbyInfo { id: LobbyId(v) }, r2)),
                None => None,
            }
        } else if tag == 7 {
            Some((LobbyClientMessageView::SwitchSide, r))
        } else if tag == 8 {
            match parse_text(r) {
                Some((c, r2)) => Some((LobbyClientMessageView::SelectChampion { champion: c }, r2)),
                None => None,
            }
        } else if tag == 9 {
            match parse_text(r) {
                Some((c, r2)) => Some((LobbyClientMessageView::LockInChampion { champion: c }, r2)),
                None => None,
            }
        } else {
            None
        },
        None => None,
    }
}

/// A player followed by a side.
pub open spec fn parse_player_side(b: Seq<u8>) -> Option<(PlayerView, Side, Seq<u8>)> {
    match parse_player(b) {
        Some((p, r)) => match parse_side(r) {
            Some((s, r2)) => Some((p, s, r2)),
            None => None,
        },
        None => None,
    }
}

/// A player followed by a string.
pub open spec fn parse_player_text(b: Seq<u8>) -> Option<(PlayerView, Seq<char>, Seq<u8>)> {
    match parse_player(b) {
        Some((p, r)) => match parse_text(r) {
            Some((c, r2)) => Some((p, c, r2)),
            None => None,
        },
        None => None,
    }
}

/// The server message at the front of `b`, and the bytes after it.
pub open spec fn parse_server(b: Seq<u8>) -> Option<(LobbyServerMessageView, Seq<u8>)> {
    match varint_take(b) {
        Some((tag, r)) => if tag == 0 {
            Some((LobbyServerMessageView::OK, r))
        } else if tag == 1 {
            match parse_text(r) {
                Some((t, r2)) => Some((LobbyServerMessageView::Negative { msg: t }, r2)),
                None => None,
            }
        } else if tag == 2 {
            Some((LobbyServerMessageView::StopMatchmaking, r))
        } else if tag == 3 {
            match parse_listing(r) {
                Some((l, r2)) => Some((LobbyServerMessageView::LobbyList { lobbies: l }, r2)),
                None => None,
            }
        } else if tag == 4 {
            match parse_lobby_info(r) {
                Some((i, r2)) => Some((LobbyServerMessageView::LobbyInfo { info: i }, r2)),
                None => None,
            }
        } else if tag == 5 {
            match parse_id(r) {
                Some((v, r2)) => Some(
                    (LobbyServerMessageView::MatchmakingDone { lobby_id: LobbyId(v) }, r2),
                ),
                None => None,
            }
        } else if tag == 6 {
            match parse_player_side(r) {
                Some((p, s, r2)) => Some(
                    (LobbyServerMessageView::PlayerJoinedLobby { player: p, side: s }, r2),
                ),
                None => None,
            }
        } else if tag == 7 {
            match parse_player(r) {
                Some((p, r2)) => Some((LobbyServerMessageView::PlayerLeftLobby { player: p }, r2)),
                None => None,
            }
        } else if tag == 8 {
            match parse_player_side(r) {
                Some((p, s, r2)) => Some(
                    (LobbyServerMessageView::PlayerSwitchedSide { player: p, side: s }, r2),
                ),
                None => None,
            }
        } else if tag == 9 {
            match parse_player_text(r) {
                Some((p, c, r2)) => Some(
                    (LobbyServerMessageView::PlayerSelectedChampion { player: p, champion: c }, r2),
                ),
                None => None,
            }
        } else if tag == 10 {
            match parse_player_text(r) {
                Some((p, c, r2)) => Some(
                    (LobbyServerMessageView::PlayerLockedInChampion { player: p, champion: c }, r2),
                ),
                None => None,
            }
        } else if tag == 11 {
            match parse_id(r) {
                Some((v, r2)) => Some(
                    (LobbyServerMessageView::YouJoinedLobby { lobby_id: LobbyId(v) }, r2),
                ),
                None => None,
            }
        } else if tag == 12 {
            Some((LobbyServerMessageView::YouLeftLobby, r))
        } else {
            None
        },
        None => None,
    }
}

/// The payload of a frame whose length prefix matches the bytes after it.
pub open spec fn unframe(b: Seq<u8>) -> Option<Seq<u8>> {
    if b.len() >= 4 && be32_value(b.subrange(0, 4)) as int == b.len() - 4 {
        Some(b.subrange(4, b.len() as int))
    } else {
        None
    }
}

// ---- round trips ----

/// The lengths that the wire format writes as varints fit in 64 bits.
pub open spec fn text_fits(s: Seq<char>) -> bool {
    encode_utf8(s).len() <= u64::MAX
}

pub open spec fn players_fit(ps: Seq<PlayerView>) -> bool {
    ps.len() <= u64::MAX && forall|i: int| 0 <= i < ps.len() ==> text_fits(#[trigger] ps[i].username)
}

pub open spec fn lobby_info_fits(i: LobbyInfoView) -> bool {
    i.players.len() <= u64::MAX && forall|k: int|
        0 <= k < i.players.len() ==> players_fit(#[trigger] i.players[k].1)
}

pub open spec fn client_fits(m: LobbyClientMessageView) -> bool {
    match m {
        LobbyClientMessageView::SelectChampion { champion } => text_fits(champion),
        LobbyClientMessageView::LockInChampion { champion } => text_fits(champion),
        _ => true,
    }
}

pub open spec fn server_fits(m: LobbyServerMessageView) -> bool {
    match m {
        LobbyServerMessageView::Negative { msg } => text_fits(msg),
        LobbyServerMessageView::LobbyList { lobbies } => lobbies.len() <= u64::MAX,
        LobbyServerMessageView::LobbyInfo { info } => lobby_info_fits(info),
        LobbyServerMessageView::PlayerJoinedLobby { player, .. } => text_fits(player.username),
        LobbyServerMessageView::PlayerLeftLobby { player } => text_fits(player.username),
        LobbyServerMessageView::PlayerSwitchedSide { player, .. } => text_fits(player.username),
        LobbyServerMessageView::PlayerSelectedChampion { player, champion } => text_fits(
            player.username,
        ) && text_fits(champion),
        LobbyServerMessageView::PlayerLockedInChampion { player, champion } => text_fits(
            player.username,
        ) && text_fits(champion),
        _ => true,
    }
}

proof fn lemma_text_round_trip(s: Seq<char>, rest: Seq<u8>)
    requires
        text_fits(s),
    ensures
        parse_text(text_bytes(s) + rest) == Some((s, rest)),
{
    let e = encode_utf8(s);
    assert(text_bytes(s) + rest =~= varint_bytes(e.len() as u64) + (e + rest));
    lemma_varint_round_trip(e.len() as u64, e + rest);
    assert((e + rest).subrange(0, e.len() as int) =~= e);
    assert((e + rest).subrange(e.len() as int, (e + rest).len() as int) =~= rest);
    vstd::utf8::encode_utf8_valid_utf8(s);
    vstd::utf8::encode_utf8_decode_utf8(s);
}

proof fn lemma_parse_n<A>(
    s: Seq<A>,
    f: spec_fn(A) -> Seq<u8>,
    p: spec_fn(Seq<u8>) -> Option<(A, Seq<u8>)>,
    rest: Seq<u8>,
)
    requires
        forall|i: int, r: Seq<u8>| 0 <= i < s.len() ==> #[trigger] p(f(s[i]) + r) == Some((s[i], r)),
    ensures
        parse_n(concat_map(s, f) + rest, s.len(), p) == Some((s, rest)),
    decreases s.len(),
{
    if s.len() > 0 {
        let t = s.drop_first();
        assert forall|i: int, r: Seq<u8>| 0 <= i < t.len() implies #[trigger] p(f(t[i]) + r) == Some(
            (t[i], r),
        ) by {
            assert(t[i] == s[i + 1]);
            assert(p(f(s[i + 1]) + r) == Some((s[i + 1], r)));
        }
        lemma_parse_n(t, f, p, rest);
        assert(concat_map(s, f) + rest =~= f(s[0]) + (concat_map(t, f) + rest));
        assert(p(f(s[0]) + (concat_map(t, f) + rest)) == Some((s[0], concat_map(t, f) + rest)));
        assert(seq![s[0]] + t =~= s);
    }
}

proof fn lemma_list_round_trip<A>(
    s: Seq<A>,
    f: spec_fn(A) -> Seq<u8>,
    p: spec_fn(Seq<u8>) -> Option<(A, Seq<u8>)>,
    rest: Seq<u8>,
)
    requires
        s.len() <= u64::MAX,
        forall|i: int, r: Seq<u8>| 0 <= i < s.len() ==> #[trigger] p(f(s[i]) + r) == Some((s[i], r)),
    ensures
        parse_list(list_bytes(s, f) + rest, p) == Some((s, rest)),
{
    lemma_parse_n(s, f, p, rest);
    assert(list_bytes(s, f) + rest =~= varint_bytes(s.len() as u64) + (concat_map(s, f) + rest));
    lemma_varint_round_trip(s.len() as u64, concat_map(s, f) + rest);
}

proof fn lemma_side_round_trip(s: Side, rest: Seq<u8>)
    ensures
        parse_side(side_bytes(s) + rest) == Some((s, rest)),
{
    lemma_varint_round_trip(side_rank(s) as u64, rest);
}

proof fn lemma_player_round_trip(pv: PlayerView, rest: Seq<u8>)
    requires
        text_fits(pv.username),
    ensures
        parse_player(player_bytes(pv) + rest) == Some((pv, rest)),
{
    assert(player_bytes(pv) + rest =~= id_bytes(pv.id.0) + (text_bytes(pv.username) + rest));
    lemma_id_round_trip(pv.id.0, text_bytes(pv.username) + rest);
    lemma_text_round_trip(pv.username, rest);
}

proof fn lemma_players_round_trip(ps: Seq<PlayerView>, rest: Seq<u8>)
    requires
        players_fit(ps),
    ensures
        parse_players(players_bytes(ps) + rest) == Some((ps, rest)),
{
    let f = |p: PlayerView| player_bytes(p);
    let p = |x: Seq<u8>| parse_player(x);
    assert forall|i: int, r: Seq<u8>| 0 <= i < ps.len() implies #[trigger] p(f(ps[i]) + r) == Some(
        (ps[i], r),
    ) by {
        lemma_player_round_trip(ps[i], r);
    }
    lemma_list_round_trip(ps, f, p, rest);
}

proof fn lemma_side_entry_round_trip(e: (Side, Seq<PlayerView>), rest: Seq<u8>)
    requires
        players_fit(e.1),
    ensures
        parse_side_entry(side_entry_bytes(e) + rest) == Some((e, rest)),
{
    assert(side_entry_bytes(e) + rest =~= side_bytes(e.0) + (players_bytes(e.1) + rest));
    lemma_side_round_trip(e.0, players_bytes(e.1) + rest);
    lemma_players_round_trip(e.1, rest);
}

proof fn lemma_lobby_info_round_trip(i: LobbyInfoView, rest: Seq<u8>)
    requires
        lobby_info_fits(i),
    ensures
        parse_lobby_info(lobby_info_bytes(i) + rest) == Some((i, rest)),
{
    let f = |e: (Side, Seq<PlayerView>)| side_entry_bytes(e);
    let p = |x: Seq<u8>| parse_side_entry(x);
    assert forall|k: int, r: Seq<u8>| 0 <= k < i.players.len() implies #[trigger] p(
        f(i.players[k]) + r,
    ) == Some((i.players[k], r)) by {
        lemma_side_entry_round_trip(i.players[k], r);
    }
    let owner = id_bytes(i.lobby_owner.0) + rest;
    lemma_list_round_trip(i.players, f, p, owner);
    assert(lobby_info_bytes(i) + rest =~= id_bytes(i.id.0) + (list_bytes(i.players, f) + owner));
    lemma_id_round_trip(i.id.0, list_bytes(i.players, f) + owner);
    lemma_id_round_trip(i.lobby_owner.0, rest);
}

proof fn lemma_listing_round_trip(l: Seq<ShortLobbyInfo>, rest: Seq<u8>)
    requires
        l.len() <= u64::MAX,
    ensures
        parse_listing(list_bytes(l, |x: ShortLobbyInfo| short_info_bytes(x)) + rest) == Some(
            (l, rest),
        ),
{
    let f = |x: ShortLobbyInfo| short_info_bytes(x);
    let p = |x: Seq<u8>| parse_short_info(x);
    assert forall|i: int, r: Seq<u8>| 0 <= i < l.len() implies #[trigger] p(f(l[i]) + r) == Some(
        (l[i], r),
    ) by {
        let e = l[i];
        assert(f(e) + r =~= id_bytes(e.id.0) + (varint_bytes(e.players as u64) + r));
        lemma_id_round_trip(e.id.0, varint_bytes(e.players as u64) + r);
        lemma_varint_round_trip(e.players as u64, r);
    }
    lemma_list_round_trip(l, f, p, rest);
}

/// Reading back the bytes of any client request gives that request, and
/// leaves what follows it.
pub proof fn law_client_round_trip(m: LobbyClientMessageView, rest: Seq<u8>)
    requires
        client_fits(m),
    ensures
        parse_client(client_bytes(m) + rest) == Some((m, rest)),
{
    match m {
        LobbyClientMessageView::StartMatchmaking => lemma_varint_round_trip(0, rest),
        LobbyClientMessageView::StopMatchmaking => lemma_varint_round_trip(1, rest),
        LobbyClientMessageView::CreateLobby => lemma_varint_round_trip(2, rest),
        LobbyClientMessageView::ListLobbies => lemma_varint_round_trip(3, rest),
        LobbyClientMessageView::JoinLobby { id } => {
            assert(client_bytes(m) + rest =~= varint_bytes(4) + (id_bytes(id.0) + rest));
            lemma_varint_round_trip(4, id_bytes(id.0) + rest);
            lemma_id_round_trip(id.0, rest);
        },
        LobbyClientMessageView::LeaveLobby => lemma_varint_round_trip(5, rest),
        LobbyClientMessageView::GetLobbyInfo { id } => {
            assert(client_bytes(m) + rest =~= varint_bytes(6) + (id_bytes(id.0) + rest));
            lemma_varint_round_trip(6, id_bytes(id.0) + rest);
            lemma_id_round_trip(id.0, rest);
        },
        LobbyClientMessageView::SwitchSide => lemma_varint_round_trip(7, rest),
        LobbyClientMessageView::SelectChampion { champion } => {
            assert(client_bytes(m) + rest =~= varint_bytes(8) + (text_bytes(champion) + rest));
            lemma_varint_round_trip(8, text_bytes(champion) + rest);
            lemma_text_round_trip(champion, rest);
        },
        LobbyClientMessageView::LockInChampion { champion } => {
            assert(client_bytes(m) + rest =~= varint_bytes(9) + (text_bytes(champion) + rest));
            lemma_varint_round_trip(9, text_bytes(champion) + rest);
            lemma_text_round_trip(champion, rest);
        },
    }
}

/// Reading back the bytes of any server message gives that message, and
/// leaves what follows it.
#[verifier::rlimit(60)]
pub proof fn law_server_round_trip(m: LobbyServerMessageView, rest: Seq<u8>)
    requires
        server_fits(m),
    ensures
        parse_server(server_bytes(m) + rest) == Some((m, rest)),
{
    match m {
        LobbyServerMessageView::OK => lemma_varint_round_trip(0, rest),
        LobbyServerMessageView::Negative { msg } => {
            assert(server_bytes(m) + rest =~= varint_bytes(1) + (text_bytes(msg) + rest));
            lemma_varint_round_trip(1, text_bytes(msg) + rest);
            lemma_text_round_trip(msg, rest);
        },
        LobbyServerMessageView::StopMatchmaking => lemma_varint_round_trip(2, rest),
        LobbyServerMessageView::LobbyList { lobbies } => {
            let body = list_bytes(lobbies, |x: ShortLobbyInfo| short_info_bytes(x));
            assert(server_bytes(m) + rest =~= varint_bytes(3) + (body + rest));
            lemma_varint_round_trip(3, body + rest);
            lemma_listing_round_trip(lobbies, rest);
        },
        LobbyServerMessageView::LobbyInfo { info } => {
            assert(server_bytes(m) + rest =~= varint_bytes(4) + (lobby_info_bytes(info) + rest));
            lemma_varint_round_trip(4, lobby_info_bytes(info) + rest);
            lemma_lobby_info_round_trip(info, rest);
        },
        LobbyServerMessageView::MatchmakingDone { lobby_id } => {
            assert(server_bytes(m) + rest =~= varint_bytes(5) + (id_bytes(lobby_id.0) + rest));
            lemma_varint_round_trip(5, id_bytes(lobby_id.0) + rest);
            lemma_id_round_trip(lobby_id.0, rest);
        },
        LobbyServerMessageView::PlayerJoinedLobby { player, side } => {
            let tail = side_bytes(side) + rest;
            assert(server_bytes(m) + rest =~= varint_bytes(6) + (player_bytes(player) + tail));
            lemma_varint_round_trip(6, player_bytes(player) + tail);
            lemma_player_round_trip(player, tail);
            lemma_side_round_trip(side, rest);
        },
        LobbyServerMessageView::PlayerLeftLobby { player } => {
            assert(server_bytes(m) + rest =~= varint_bytes(7) + (player_bytes(player) + rest));
            lemma_varint_round_trip(7, player_bytes(player) + rest);
            lemma_player_round_trip(player, rest);
        },
        LobbyServerMessageView::PlayerSwitchedSide { player, side } => {
            let tail = side_bytes(side) + rest;
            assert(server_bytes(m) + rest =~= varint_bytes(8) + (player_bytes(player) + tail));
            lemma_varint_round_trip(8, player_bytes(player) + tail);
            lemma_player_round_trip(player, tail);
            lemma_side_round_trip(side, rest);
        },
        LobbyServerMessageView::PlayerSelectedChampion { player, champion } => {
            let tail = text_bytes(champion) + rest;
            assert(server_bytes(m) + rest =~= varint_bytes(9) + (player_bytes(player) + tail));
            lemma_varint_round_trip(9, player_bytes(player) + tail);
            lemma_player_round_trip(player, tail);
            lemma_text_round_trip(champion, rest);
        },
        LobbyServerMessageView::PlayerLockedInChampion { player, champion } => {
            let tail = text_bytes(champion) + rest;
            assert(server_bytes(m) + rest =~= varint_bytes(10) + (player_bytes(player) + tail));
            lemma_varint_round_trip(10, player_bytes(player) + tail);
            lemma_player_round_trip(player, tail);
            lemma_text_round_trip(champion, rest);
        },
        LobbyServerMessageView::YouJoinedLobby { lobby_id } => {
            assert(server_bytes(m) + rest =~= varint_bytes(11) + (id_bytes(lobby_id.0) + rest));
            lemma_varint_round_trip(11, id_bytes(lobby_id.0) + rest);
            lemma_id_round_trip(lobby_id.0, rest);
        },
        LobbyServerMessageView::YouLeftLobby => lemma_varint_round_trip(12, rest),
    }
}

/// Reading back a handshake's bytes gives its user name.
pub proof fn law_handshake_round_trip(name: Seq<char>, rest: Seq<u8>)
    requires
        text_fits(name),
    ensures
        parse_text(text_bytes(name) + rest) == Some((name, rest)),
{
    lemma_text_round_trip(name, rest);
}

/// Unframing a frame gives back its payload.
pub proof fn law_frame_round_trip(payload: Seq<u8>)
    requires
        payload.len() <= u32::MAX,
    ensures
        unframe(frame_bytes(payload)) == Some(payload),
{
    let b = frame_bytes(payload);
    lemma_be32_round_trip(payload.len() as u32);
    assert(b.subrange(0, 4) =~= be32(payload.len() as u32));
    assert(b.subrange(4, b.len() as int) =~= payload);
}

/// Decoding the frame of any client request gives that request back.
pub proof fn law_framed_client_round_trip(m: LobbyClientMessageView)
    requires
        client_fits(m),
        client_bytes(m).len() <= u32::MAX,
    ensures
        unframe(frame_bytes(client_bytes(m))) == Some(client_bytes(m)),
        parse_client(client_bytes(m)) == Some((m, Seq::<u8>::empty())),
{
    law_frame_round_trip(client_bytes(m));
    law_client_round_trip(m, Seq::empty());
    assert(client_bytes(m) + Seq::<u8>::empty() =~= client_bytes(m));
}

/// Decoding the frame of any server message gives that message back.
pub proof fn law_framed_server_round_trip(m: LobbyServerMessageView)
    requires
        server_fits(m),
        server_bytes(m).len() <= u32::MAX,
    ensures
        unframe(frame_bytes(server_bytes(m))) == Some(server_bytes(m)),
        parse_server(server_bytes(m)) == Some((m, Seq::<u8>::empty())),
{
    law_frame_round_trip(server_bytes(m));
    law_server_round_trip(m, Seq::empty());
    assert(server_bytes(m) + Seq::<u8>::empty() =~= server_bytes(m));
}

/// Decoding the frame of any handshake gives its user name back.
pub proof fn law_framed_handshake_round_trip(name: Seq<char>)
    requires
        text_fits(name),
        text_bytes(name).len() <= u32::MAX,
    ensures
        unframe(frame_bytes(text_bytes(name))) == Some(text_bytes(name)),
        parse_text(text_bytes(name)) == Some((name, Seq::<u8>::empty())),
{
    law_frame_round_trip(text_bytes(name));
    lemma_text_round_trip(name, Seq::empty());
    assert(text_bytes(name) + Seq::<u8>::empty() =~= text_bytes(name));
}

// ---- writing ----

proof fn lemma_concat_map_push<A>(s: Seq<A>, x: A, f: spec_fn(A) -> Seq<u8>)
    ensures
        concat_map(s.push(x), f) == concat_map(s, f) + f(x),
    decreases s.len(),
{
    if s.len() == 0 {
        let e = s.push(x).drop_first();
        assert(e =~= Seq::<A>::empty());
        assert(concat_map(e, f) =~= Seq::<u8>::empty());
        assert(concat_map(s, f) =~= Seq::<u8>::empty());
        assert(s.push(x)[0] == x);
        assert(concat_map(s.push(x), f) =~= f(x));
    } else {
        lemma_concat_map_push(s.drop_first(), x, f);
        assert(s.push(x).drop_first() =~= s.drop_first().push(x));
        assert(concat_map(s.push(x), f) =~= concat_map(s, f) + f(x));
    }
}

fn put_text(out: &mut Vec<u8>, s: &String)
    ensures
        final(out)@ == old(out)@ + text_bytes(s@),
{
    let b = s.as_str().as_bytes();
    put_varint(out, b.len() as u64);
    put_bytes(out, b);
    assert(out@ =~= old(out)@ + text_bytes(s@));
}

fn put_side(out: &mut Vec<u8>, side: Side)
    ensures
        final(out)@ == old(out)@ + side_bytes(side),
{
    match side {
        Side::Red => put_varint(out, 0),
        Side::Blue => put_varint(out, 1),
    }
}

fn put_player(out: &mut Vec<u8>, p: &Player)
    ensures
        final(out)@ == old(out)@ + player_bytes(p@),
{
    put_id(out, p.id.0);
    put_text(out, &p.username);
    assert(out@ =~= old(out)@ + player_bytes(p@));
}

fn put_players(out: &mut Vec<u8>, ps: &Vec<Player>)
    ensures
        final(out)@ == old(out)@ + players_bytes(players_view(ps@)),
{
    let ghost v = players_view(ps@);
    put_varint(out, ps.len() as u64);
    let ghost start = out@;
    let mut k: usize = 0;
    while k < ps.len()
        invariant
            k <= ps@.len(),
            v == players_view(ps@),
            out@ == start + concat_map(v.subrange(0, k as int), |p: PlayerView| player_bytes(p)),
        decreases ps@.len() - k,
    {
        put_player(out, &ps[k]);
        proof {
            lemma_concat_map_push(v.subrange(0, k as int), v[k as int], |p: PlayerView| player_bytes(p));
            assert(v.subrange(0, k as int).push(v[k as int]) =~= v.subrange(0, k + 1));
        }
        k += 1;
        assert(out@ =~= start + concat_map(v.subrange(0, k as int), |p: PlayerView| player_bytes(p)));
    }
    assert(v.subrange(0, k as int) =~= v);
    assert(out@ =~= old(out)@ + players_bytes(v));
}

fn put_roster(out: &mut Vec<u8>, r: &Vec<(Side, Vec<Player>)>)
    ensures
        final(out)@ == old(out)@ + list_bytes(
            r@.map_values(|e: (Side, Vec<Player>)| (e.0, players_view(e.1@))),
            |e: (Side, Seq<PlayerView>)| side_entry_bytes(e),
        ),
{
    let ghost v = r@.map_values(|e: (Side, Vec<Player>)| (e.0, players_view(e.1@)));
    put_varint(out, r.len() as u64);
    let ghost start = out@;
    let mut k: usize = 0;
    while k < r.len()
        invariant
            k <= r@.len(),
            v == r@.map_values(|e: (Side, Vec<Player>)| (e.0, players_view(e.1@))),
            out@ == start + concat_map(v.subrange(0, k as int), |e: (Side, Seq<PlayerView>)| side_entry_bytes(e)),
        decreases r@.len() - k,
    {
        let e = &r[k];
        put_side(out, e.0);
        put_players(out, &e.1);
        proof {
            lemma_concat_map_push(v.subrange(0, k as int), v[k as int], |e: (Side, Seq<PlayerView>)| side_entry_bytes(e));
            assert(v.subrange(0, k as int).push(v[k as int]) =~= v.subrange(0, k + 1));
        }
        k += 1;
        assert(out@ =~= start + concat_map(v.subrange(0, k as int), |e: (Side, Seq<PlayerView>)| side_entry_bytes(e)));
    }
    assert(v.subrange(0, k as int) =~= v);
    assert(out@ =~= old(out)@ + list_bytes(v, |e: (Side, Seq<PlayerView>)| side_entry_bytes(e)));
}

fn put_listing(out: &mut Vec<u8>, l: &Vec<ShortLobbyInfo>)
    ensures
        final(out)@ == old(out)@ + list_bytes(l@, |x: ShortLobbyInfo| short_info_bytes(x)),
{
    put_varint(out, l.len() as u64);
    let ghost start = out@;
    let mut k: usize = 0;
    while k < l.len()
        invariant
            k <= l@.len(),
            out@ == start + concat_map(l@.subrange(0, k as int), |x: ShortLobbyInfo| short_info_bytes(x)),
        decreases l@.len() - k,
    {
        put_id(out, l[k].id.0);
        put_varint(out, l[k].players as u64);
        proof {
            lemma_concat_map_push(l@.subrange(0, k as int), l@[k as int], |x: ShortLobbyInfo| short_info_bytes(x));
            assert(l@.subrange(0, k as int).push(l@[k as int]) =~= l@.subrange(0, k + 1));
        }
        k += 1;
        assert(out@ =~= start + concat_map(l@.subrange(0, k as int), |x: ShortLobbyInfo| short_info_bytes(x)));
    }
    assert(l@.subrange(0, k as int) =~= l@);
    assert(out@ =~= old(out)@ + list_bytes(l@, |x: ShortLobbyInfo| short_info_bytes(x)));
}

fn put_lobby_info(out: &mut Vec<u8>, i: &LobbyInfo)
    ensures
        final(out)@ == old(out)@ + lobby_info_bytes(i@),
{
    put_id(out, i.id.0);
    put_roster(out, &i.players);
    put_id(out, i.lobby_owner.0);
    assert(out@ =~= old(out)@ + lobby_info_bytes(i@));
}

/// The payload bytes of a client request.
pub fn encode_client_payload(m: &LobbyClientMessage) -> (r: Vec<u8>)
    ensures
        r@ == client_bytes(m@),
{
    let mut out: Vec<u8> = Vec::new();
    match m {
        LobbyClientMessage::StartMatchmaking => put_varint(&mut out, 0),
        LobbyClientMessage::StopMatchmaking => put_varint(&mut out, 1),
        LobbyClientMessage::CreateLobby => put_varint(&mut out, 2),
        LobbyClientMessage::ListLobbies => put_varint(&mut out, 3),
        LobbyClientMessage::JoinLobby { id } => {
            put_varint(&mut out, 4);
            put_id(&mut out, id.0);
        },
        LobbyClientMessage::LeaveLobby => put_varint(&mut out, 5),
        LobbyClientMessage::GetLobbyInfo { id } => {
            put_varint(&mut out, 6);
            put_id(&mut out, id.0);
        },
        LobbyClientMessage::SwitchSide => put_varint(&mut out, 7),
        LobbyClientMessage::SelectChampion { champion } => {
            put_varint(&mut out, 8);
            put_text(&mut out, champion);
        },
        LobbyClientMessage::LockInChampion { champion } => {
            put_varint(&mut out, 9);
            put_text(&mut out, champion);
        },
    }
    assert(out@ =~= client_bytes(m@));
    out
}

/// The payload bytes of a server message.
pub fn encode_server_payload(m: &LobbyServerMessage) -> (r: Vec<u8>)
    ensures
        r@ == server_bytes(m@),
{
    let mut out: Vec<u8> = Vec::new();
    match m {
        LobbyServerMessage::OK => put_varint(&mut out, 0),
        LobbyServerMessage::Negative { msg } => {
            put_varint(&mut out, 1);
            put_text(&mut out, msg);
        },
        LobbyServerMessage::StopMatchmaking => put_varint(&mut out, 2),
        LobbyServerMessage::LobbyList { lobbies } => {
            put_varint(&mut out, 3);
            put_listing(&mut out, lobbies);
        },
        LobbyServerMessage::LobbyInfo { info } => {
            put_varint(&mut out, 4);
            put_lobby_info(&mut out, info);
        },
        LobbyServerMessage::MatchmakingDone { lobby_id } => {
            put_varint(&mut out, 5);
            put_id(&mut out, lobby_id.0);
        },
        LobbyServerMessage::PlayerJoinedLobby { player, side } => {
            put_varint(&mut out, 6);
            put_player(&mut out, player);
            put_side(&mut out, *side);
        },
        LobbyServerMessage::PlayerLeftLobby { player } => {
            put_varint(&mut out, 7);
            put_player(&mut out, player);
        },
        LobbyServerMessage::PlayerSwitchedSide { player, side } => {
            put_varint(&mut out, 8);
            put_player(&mut out, player);
            put_side(&mut out, *side);
        },
        LobbyServerMessage::PlayerSelectedChampion { player, champion } => {
            put_varint(&mut out, 9);
            put_player(&mut out, player);
            put_text(&mut out, champion);
        },
        LobbyServerMessage::PlayerLockedInChampion { player, champion } => {
            put_varint(&mut out, 10);
            put_player(&mut out, player);
            put_text(&mut out, champion);
        },
        LobbyServerMessage::YouJoinedLobby { lobby_id } => {
            put_varint(&mut out, 11);
            put_id(&mut out, lobby_id.0);
        },
        LobbyServerMessage::YouLeftLobby => put_varint(&mut out, 12),
    }
    assert(out@ =~= server_bytes(m@));
    out
}

/// The payload bytes of a handshake.
pub fn encode_handshake_payload(m: &LobbyClientNewConnectionMessage) -> (r: Vec<u8>)
    ensures
        r@ == text_bytes(m@),
{
    let mut out: Vec<u8> = Vec::new();
    put_text(&mut out, &m.username);
    assert(out@ =~= text_bytes(m@));
    out
}

/// Puts the four-byte big-endian length in front of `payload`; a payload
/// too long for that has no frame.
pub fn frame(payload: &[u8]) -> (r: Option<Vec<u8>>)
    ensures
        payload@.len() <= u32::MAX ==> (r matches Some(v) && v@ == frame_bytes(payload@)),
        payload@.len() > u32::MAX ==> r is None,
{
    if payload.len() > 0xffff_ffff {
        return None;
    }
    let n = payload.len() as u32;
    let mut out: Vec<u8> = Vec::new();
    out.push((n >> 24u32) as u8);
    out.push(((n >> 16u32) & 0xff) as u8);
    out.push(((n >> 8u32) & 0xff) as u8);
    out.push((n & 0xff) as u8);
    put_bytes(&mut out, payload);
    assert(out@ =~= frame_bytes(payload@));
    Some(out)
}

/// The payload length that a four-byte frame header announces.
pub fn frame_length(header: &[u8]) -> (n: u32)
    requires
        header@.len() == 4,
    ensures
        n == be32_value(header@),
{
    ((header[0] as u32) << 24u32) | ((header[1] as u32) << 16u32) | ((header[2] as u32) << 8u32)
        | (header[3] as u32)
}

/// A framed client request.
pub fn encode_client_message(m: &LobbyClientMessage) -> (r: Option<Vec<u8>>)
    ensures
        client_bytes(m@).len() <= u32::MAX ==> (r matches Some(v) && v@ == frame_bytes(client_bytes(m@))),
        client_bytes(m@).len() > u32::MAX ==> r is None,
{
    let payload = encode_client_payload(m);
    frame(payload.as_slice())
}

/// A framed server message.
pub fn encode_server_message(m: &LobbyServerMessage) -> (r: Option<Vec<u8>>)
    ensures
        server_bytes(m@).len() <= u32::MAX ==> (r matches Some(v) && v@ == frame_bytes(server_bytes(m@))),
        server_bytes(m@).len() > u32::MAX ==> r is None,
{
    let payload = encode_server_payload(m);
    frame(payload.as_slice())
}

/// A framed handshake.
pub fn encode_handshake(m: &LobbyClientNewConnectionMessage) -> (r: Option<Vec<u8>>)
    ensures
        text_bytes(m@).len() <= u32::MAX ==> (r matches Some(v) && v@ == frame_bytes(text_bytes(m@))),
        text_bytes(m@).len() > u32::MAX ==> r is None,
{
    let payload = encode_handshake_payload(m);
    frame(payload.as_slice())
}

// ---- reading ----

/// Relies on String::from_utf8: it accepts exactly the byte sequences that
/// are valid UTF-8, and the string holds the characters they encode.
#[verifier::external_body]
fn utf8_text(b: Vec<u8>) -> (r: Option<String>)
    ensures
        r is Some <==> valid_utf8(b@),
        r matches Some(s) ==> s@ == decode_utf8(b@),
{
    String::from_utf8(b).ok()
}

fn get_text(b: &[u8]) -> (r: Option<(String, &[u8])>)
    ensures
        match r {
            Some((s, t)) => parse_text(b@) == Some((s@, t@)),
            None => parse_text(b@) is None,
        },
{
    let (n, rest) = match get_varint(b) {
        Some(x) => x,
        None => return None,
    };
    if n > rest.len() as u64 {
        return None;
    }
    let (head, tail) = rest.split_at(n as usize);
    let mut bytes: Vec<u8> = Vec::new();
    put_bytes(&mut bytes, head);
    assert(bytes@ =~= head@);
    match utf8_text(bytes) {
        Some(s) => Some((s, tail)),
        None => None,
    }
}

fn get_side(b: &[u8]) -> (r: Option<(Side, &[u8])>)
    ensures
        match r {
            Some((s, t)) => parse_side(b@) == Some((s, t@)),
            None => parse_side(b@) is None,
        },
{
    match get_varint(b) {
        Some((n, t)) => if n == 0 {
            Some((Side::Red, t))
        } else if n == 1 {
            Some((Side::Blue, t))
        } else {
            None
        },
        None => None,
    }
}

fn get_player(b: &[u8]) -> (r: Option<(Player, &[u8])>)
    ensures
        match r {
            Some((p, t)) => parse_player(b@) == Some((p@, t@)),
            None => parse_player(b@) is None,
        },
{
    let (id, rest) = match get_id(b) {
        Some(x) => x,
        None => return None,
    };
    match get_text(rest) {
        Some((name, t)) => Some((Player { id: PlayerId(id), username: name }, t)),
        None => None,
    }
}

fn get_players(b: &[u8]) -> (r: Option<(Vec<Player>, &[u8])>)
    ensures
        match r {
            Some((v, t)) => parse_players(b@) == Some((players_view(v@), t@)),
            None => parse_players(b@) is None,
        },
{
    let (n, start) = match get_varint(b) {
        Some(x) => x,
        None => return None,
    };
    let ghost r0 = start@;
    let mut cur = start;
    let mut acc: Vec<Player> = Vec::new();
    let mut k: u64 = 0;
    while k < n
        invariant
            k <= n,
            varint_take(b@) == Some((n, r0)),
            parse_n(r0, n as nat, |x: Seq<u8>| parse_player(x)) == match parse_n(
                cur@,
                (n - k) as nat,
                |x: Seq<u8>| parse_player(x),
            ) {
                Some((xs, t)) => Some((players_view(acc@) + xs, t)),
                None => None,
            },
        decreases n - k,
    {
        match get_player(cur) {
            Some((p, t)) => {
                let ghost prev = acc@;
                let ghost pv = p@;
                acc.push(p);
                cur = t;
                proof {
                    assert(players_view(acc@) =~= players_view(prev).push(pv));
                    match parse_n(cur@, (n - k - 1) as nat, |x: Seq<u8>| parse_player(x)) {
                        Some((xs, tt)) => {
                            assert(players_view(prev) + (seq![pv] + xs) =~= players_view(acc@)
                                + xs);
                        },
                        None => {},
                    }
                }
            },
            None => return None,
        }
        k += 1;
    }
    assert(players_view(acc@) + Seq::<PlayerView>::empty() =~= players_view(acc@));
    Some((acc, cur))
}

fn get_side_entry(b: &[u8]) -> (r: Option<((Side, Vec<Player>), &[u8])>)
    ensures
        match r {
            Some((e, t)) => parse_side_entry(b@) == Some(((e.0, players_view(e.1@)), t@)),
            None => parse_side_entry(b@) is None,
        },
{
    let (side, rest) = match get_side(b) {
        Some(x) => x,
        None => return None,
    };
    match get_players(rest) {
        Some((ps, t)) => Some(((side, ps), t)),
        None => None,
    }
}

pub open spec fn roster_view(r: Seq<(Side, Vec<Player>)>) -> Seq<(Side, Seq<PlayerView>)> {
    r.map_values(|e: (Side, Vec<Player>)| (e.0, players_view(e.1@)))
}

fn get_roster(b: &[u8]) -> (r: Option<(Vec<(Side, Vec<Player>)>, &[u8])>)
    ensures
        match r {
            Some((v, t)) => parse_roster(b@) == Some((roster_view(v@), t@)),
            None => parse_roster(b@) is None,
        },
{
    let (n, start) = match get_varint(b) {
        Some(x) => x,
        None => return None,
    };
    let ghost r0 = start@;
    let mut cur = start;
    let mut acc: Vec<(Side, Vec<Player>)> = Vec::new();
    let mut k: u64 = 0;
    while k < n
        invariant
            k <= n,
            varint_take(b@) == Some((n, r0)),
            parse_n(r0, n as nat, |x: Seq<u8>| parse_side_entry(x)) == match parse_n(
                cur@,
                (n - k) as nat,
                |x: Seq<u8>| parse_side_entry(x),
            ) {
                Some((xs, t)) => Some((roster_view(acc@) + xs, t)),
                None => None,
            },
        decreases n - k,
    {
        match get_side_entry(cur) {
            Some((e, t)) => {
                let ghost prev = acc@;
                let ghost ev = (e.0, players_view(e.1@));
                acc.push(e);
                cur = t;
                proof {
                    assert(roster_view(acc@) =~= roster_view(prev).push(ev));
                    match parse_n(cur@, (n - k - 1) as nat, |x: Seq<u8>| parse_side_entry(x)) {
                        Some((xs, tt)) => {
                            assert(roster_view(prev) + (seq![ev] + xs) =~= roster_view(acc@)
                                + xs);
                        },
                        None => {},
                    }
                }
            },
            None => return None,
        }
        k += 1;
    }
    assert(roster_view(acc@) + Seq::<(Side, Seq<PlayerView>)>::empty() =~= roster_view(acc@));
    Some((acc, cur))
}

fn get_short_info(b: &[u8]) -> (r: Option<(ShortLobbyInfo, &[u8])>)
    ensures
        match r {
            Some((l, t)) => parse_short_info(b@) == Some((l, t@)),
            None => parse_short_info(b@) is None,
        },
{
    let (id, rest) = match get_id(b) {
        Some(x) => x,
        None => return None,
    };
    match get_varint(rest) {
        Some((n, t)) => if n <= usize::MAX as u64 {
            Some((ShortLobbyInfo { id: LobbyId(id), players: n as usize }, t))
        } else {
            None
        },
        None => None,
    }
}

fn get_listing(b: &[u8]) -> (r: Option<(Vec<ShortLobbyInfo>, &[u8])>)
    ensures
        match r {
            Some((v, t)) => parse_listing(b@) == Some((v@, t@)),
            None => parse_listing(b@) is None,
        },
{
    let (n, start) = match get_varint(b) {
        Some(x) => x,
        None => return None,
    };
    let ghost r0 = start@;
    let mut cur = start;
    let mut acc: Vec<ShortLobbyInfo> = Vec::new();
    let mut k: u64 = 0;
    while k < n
        invariant
            k <= n,
            varint_take(b@) == Some((n, r0)),
            parse_n(r0, n as nat, |x: Seq<u8>| parse_short_info(x)) == match parse_n(
                cur@,
                (n - k) as nat,
                |x: Seq<u8>| parse_short_info(x),
            ) {
                Some((xs, t)) => Some((acc@ + xs, t)),
                None => None,
            },
        decreases n - k,
    {
        match get_short_info(cur) {
            Some((l, t)) => {
                let ghost prev = acc@;
                acc.push(l);
                cur = t;
                proof {
                    match parse_n(cur@, (n - k - 1) as nat, |x: Seq<u8>| parse_short_info(x)) {
                        Some((xs, tt)) => {
                            assert(prev + (seq![l] + xs) =~= acc@ + xs);
                        },
                        None => {},
                    }
                }
            },
            None => return None,
        }
        k += 1;
    }
    assert(acc@ + Seq::<ShortLobbyInfo>::empty() =~= acc@);
    Some((acc, cur))
}

fn get_lobby_info(b: &[u8]) -> (r: Option<(LobbyInfo, &[u8])>)
    ensures
        match r {
            Some((i, t)) => parse_lobby_info(b@) == Some((i@, t@)),
            None => parse_lobby_info(b@) is None,
        },
{
    let (id, rest) = match get_id(b) {
        Some(x) => x,
        None => return None,
    };
    let (players, rest2) = match get_roster(rest) {
        Some(x) => x,
        None => return None,
    };
    match get_id(rest2) {
        Some((owner, t)) => {
            let info = LobbyInfo { id: LobbyId(id), players, lobby_owner: PlayerId(owner) };
            assert(info@.players == roster_view(info.players@));
            Some((info, t))
        },
        None => None,
    }
}

fn get_client(b: &[u8]) -> (r: Option<(LobbyClientMessage, &[u8])>)
    ensures
        match r {
            Some((m, t)) => parse_client(b@) == Some((m@, t@)),
            None => parse_client(b@) is None,
        },
{
    let (tag, r) = match get_varint(b) {
        Some(x) => x,
        None => return None,
    };
    if tag == 0 {
        Some((LobbyClientMessage::StartMatchmaking, r))
    } else if tag == 1 {
        Some((LobbyClientMessage::StopMatchmaking, r))
    } else if tag == 2 {
        Some((LobbyClientMessage::CreateLobby, r))
    } else if tag == 3 {
        Some((LobbyClientMessage::ListLobbies, r))
    } else if tag == 4 {
        match get_id(r) {
            Some((v, t)) => Some((LobbyClientMessage::JoinLobby { id: LobbyId(v) }, t)),
            None => None,
        }
    } else if tag == 5 {
        Some((LobbyClientMessage::LeaveLobby, r))
    } else if tag == 6 {
        match get_id(r) {
            Some((v, t)) => Some((LobbyClientMessage::GetLobbyInfo { id: LobbyId(v) }, t)),
            None => None,
        }
    } else if tag == 7 {
        Some((LobbyClientMessage::SwitchSide, r))
    } else if tag == 8 {
        match get_text(r) {
            Some((c, t)) => Some((LobbyClientMessage::SelectChampion { champion: c }, t)),
            None => None,
        }
    } else if tag == 9 {
        match get_text(r) {
            Some((c, t)) => Some((LobbyClientMessage::LockInChampion { champion: c }, t)),
            None => None,
        }
    } else {
        None
    }
}

fn get_player_side(b: &[u8]) -> (r: Option<(Player, Side, &[u8])>)
    ensures
        match r {
            Some((p, s, t)) => parse_player_side(b@) == Some((p@, s, t@)),
            None => parse_player_side(b@) is None,
        },
{
    let (p, rest) = match get_player(b) {
        Some(x) => x,
        None => return None,
    };
    match get_side(rest) {
        Some((s, t)) => Some((p, s, t)),
        None => None,
    }
}

fn get_player_text(b: &[u8]) -> (r: Option<(Player, String, &[u8])>)
    ensures
        match r {
            Some((p, c, t)) => parse_player_text(b@) == Some((p@, c@, t@)),
            None => parse_player_text(b@) is None,
        },
{
    let (p, rest) = match get_player(b) {
        Some(x) => x,
        None => return None,
    };
    match get_text(rest) {
        Some((c, t)) => Some((p, c, t)),
        None => None,
    }
}

#[verifier::rlimit(40)]
fn get_server(b: &[u8]) -> (r: Option<(LobbyServerMessage, &[u8])>)
    ensures
        match r {
            Some((m, t)) => parse_server(b@) == Some((m@, t@)),
            None => parse_server(b@) is None,
        },
{
    let (tag, r) = match get_varint(b) {
        Some(x) => x,
        None => return None,
    };
    if tag == 0 {
        Some((LobbyServerMessage::OK, r))
    } else if tag == 1 {
        match get_text(r) {
            Some((m, t)) => Some((LobbyServerMessage::Negative { msg: m }, t)),
            None => None,
        }
    } else if tag == 2 {
        Some((LobbyServerMessage::StopMatchmaking, r))
    } else if tag == 3 {
        match get_listing(r) {
            Some((l, t)) => Some((LobbyServerMessage::LobbyList { lobbies: l }, t)),
            None => None,
        }
    } else if tag == 4 {
        match get_lobby_info(r) {
            Some((i, t)) => Some((LobbyServerMessage::LobbyInfo { info: i }, t)),
            None => None,
        }
    } else if tag == 5 {
        match get_id(r) {
            Some((v, t)) => Some((LobbyServerMessage::MatchmakingDone { lobby_id: LobbyId(v) }, t)),
            None => None,
        }
    } else if tag == 6 {
        match get_player_side(r) {
            Some((p, s, t)) => Some((LobbyServerMessage::PlayerJoinedLobby { player: p, side: s }, t)),
            None => None,
        }
    } else if tag == 7 {
        match get_player(r) {
            Some((p, t)) => Some((LobbyServerMessage::PlayerLeftLobby { player: p }, t)),
            None => None,
        }
    } else if tag == 8 {
        match get_player_side(r) {
            Some((p, s, t)) => Some((LobbyServerMessage::PlayerSwitchedSide { player: p, side: s }, t)),
            None => None,
        }
    } else if tag == 9 {
        match get_player_text(r) {
            Some((p, c, t)) => Some(
                (LobbyServerMessage::PlayerSelectedChampion { player: p, champion: c }, t),
            ),
            None => None,
        }
    } else if tag == 10 {
        match get_player_text(r) {
            Some((p, c, t)) => Some(
                (LobbyServerMessage::PlayerLockedInChampion { player: p, champion: c }, t),
            ),
            None => None,
        }
    } else if tag == 11 {
        match get_id(r) {
            Some((v, t)) => Some((LobbyServerMessage::YouJoinedLobby { lobby_id: LobbyId(v) }, t)),
            None => None,
        }
    } else if tag == 12 {
        Some((LobbyServerMessage::YouLeftLobby, r))
    } else {
        None
    }
}

/// The payload of a frame whose length prefix matches the bytes after it.
pub fn frame_payload(bytes: &[u8]) -> (r: Option<&[u8]>)
    ensures
        match r {
            Some(p) => unframe(bytes@) == Some(p@),
            None => unframe(bytes@) is None,
        },
{
    if bytes.len() < 4 {
        return None;
    }
    let (header, payload) = bytes.split_at(4);
    if frame_length(header) as usize != payload.len() {
        return None;
    }
    Some(payload)
}

/// Reads a framed client request. Bytes after the request inside the
/// payload are ignored.
pub fn decode_client_message(bytes: &[u8]) -> (r: Result<LobbyClientMessage, CodecError>)
    ensures
        match unframe(bytes@) {
            Some(p) => match parse_client(p) {
                Some((mv, _)) => r matches Ok(m) && m@ == mv,
                None => r == Err::<LobbyClientMessage, CodecError>(CodecError::MalformedMessage),
            },
            None => r == Err::<LobbyClientMessage, CodecError>(CodecError::MalformedMessage),
        },
{
    match frame_payload(bytes) {
        Some(p) => match get_client(p) {
            Some((m, _)) => Ok(m),
            None => Err(CodecError::MalformedMessage),
        },
        None => Err(CodecError::MalformedMessage),
    }
}

/// Reads a framed server message. Bytes after the message inside the
/// payload are ignored.
pub fn decode_server_message(bytes: &[u8]) -> (r: Result<LobbyServerMessage, CodecError>)
    ensures
        match unframe(bytes@) {
            Some(p) => match parse_server(p) {
                Some((mv, _)) => r matches Ok(m) && m@ == mv,
                None => r == Err::<LobbyServerMessage, CodecError>(CodecError::MalformedMessage),
            },
            None => r == Err::<LobbyServerMessage, CodecError>(CodecError::MalformedMessage),
        },
{
    match frame_payload(bytes) {
        Some(p) => match get_server(p) {
            Some((m, _)) => Ok(m),
            None => Err(CodecError::MalformedMessage),
        },
        None => Err(CodecError::MalformedMessage),
    }
}

/// Reads a framed handshake.
pub fn decode_handshake(bytes: &[u8]) -> (r: Result<LobbyClientNewConnectionMessage, CodecError>)
    ensures
        match unframe(bytes@) {
            Some(p) => match parse_text(p) {
                Some((name, _)) => r matches Ok(m) && m@ == name,
                None => r == Err::<LobbyClientNewConnectionMessage, CodecError>(
                    CodecError::MalformedMessage,
                ),
            },
            None => r == Err::<LobbyClientNewConnectionMessage, CodecError>(
                CodecError::MalformedMessage,
            ),
        },
{
    match frame_payload(bytes) {
        Some(p) => match get_text(p) {
            Some((name, _)) => Ok(LobbyClientNewConnectionMessage { username: name }),
            None => Err(CodecError::MalformedMessage),
        },
        None => Err(CodecError::MalformedMessage),
    }
}

} // verus!
