//! Messages exchanged between clients and the lobby server.

use vstd::prelude::*;

verus! {

/// A team slot within a lobby. `Red` orders before `Blue`.
#[derive(Clone, Copy, Debug, PartialEq, Eq, Structural, PartialOrd, Ord, Hash)]
pub enum Side {
    Red,
    Blue,
}

/// Position of a side in the total order of sides.
pub open spec fn side_rank(s: Side) -> nat {
    match s {
        Side::Red => 0,
        Side::Blue => 1,
    }
}

/// Identifier of a lobby: the 128-bit value of a UUID.
#[derive(Clone, Copy, Debug, PartialEq, Eq, Structural, Hash)]
pub struct LobbyId(pub u128);

/// Identifier of a connected player: the 128-bit value of a UUID.
#[derive(Clone, Copy, Debug, PartialEq, Eq, Structural, Hash)]
pub struct PlayerId(pub u128);

/// The handshake, sent once as the first message of a connection.
#[derive(Debug, Clone, PartialEq)]
pub struct LobbyClientNewConnectionMessage {
    pub username: String,
}

/// Requests sent by a client.
#[derive(Debug, Clone, PartialEq)]
pub enum LobbyClientMessage {
    StartMatchmaking,
    StopMatchmaking,
    CreateLobby,
    ListLobbies,
    JoinLobby { id: LobbyId },
    LeaveLobby,
    GetLobbyInfo { id: LobbyId },
    SwitchSide,
    SelectChampion { champion: String },
    LockInChampion { champion: String },
}

/// Replies and notifications sent by the server.
#[derive(Debug, Clone, PartialEq)]
pub enum LobbyServerMessage {
    OK,
    Negative { msg: String },
    StopMatchmaking,
    LobbyList { lobbies: Vec<ShortLobbyInfo> },
    LobbyInfo { info: LobbyInfo },
    MatchmakingDone { lobby_id: LobbyId },
    PlayerJoinedLobby { player: Player, side: Side },
    PlayerLeftLobby { player: Player },
    PlayerSwitchedSide { player: Player, side: Side },
    PlayerSelectedChampion { player: Player, champion: String },
    PlayerLockedInChampion { player: Player, champion: String },
    YouJoinedLobby { lobby_id: LobbyId },
    YouLeftLobby,
}

/// One entry of a lobby listing: the lobby and how many players it holds.
#[derive(Debug, Clone, Copy, PartialEq, Eq)]
pub struct ShortLobbyInfo {
    pub id: LobbyId,
    pub players: usize,
}

/// A snapshot of one lobby: each side with its players in join order.
#[derive(Debug, Clone, PartialEq)]
pub struct LobbyInfo {
    pub id: LobbyId,
    pub players: Vec<(Side, Vec<Player>)>,
    pub lobby_owner: PlayerId,
}

/// A player as other clients see it.
#[derive(Debug, Clone, PartialEq)]
pub struct Player {
    pub id: PlayerId,
    pub username: String,
}

/// A player together with the side it plays on.
#[derive(Debug, Clone, PartialEq)]
pub struct PlayerWithSide {
    pub player: Player,
    pub side: Side,
}

/// A player with its name as characters.
pub struct PlayerView {
    pub id: PlayerId,
    pub username: Seq<char>,
}

impl View for Player {
    type V = PlayerView;

    open spec fn view(&self) -> PlayerView {
        PlayerView { id: self.id, username: self.username@ }
    }
}

pub open spec fn players_view(ps: Seq<Player>) -> Seq<PlayerView> {
    ps.map_values(|p: Player| p@)
}

/// A lobby snapshot with each side's players as a sequence.
pub struct LobbyInfoView {
    pub id: LobbyId,
    pub players: Seq<(Side, Seq<PlayerView>)>,
    pub lobby_owner: PlayerId,
}

impl LobbyInfoView {
    /// No side has more than one list.
    pub open spec fn sides_distinct(self) -> bool {
        forall|i: int, j: int|
            0 <= i < self.players.len() && 0 <= j < self.players.len() && i != j
                ==> #[trigger] self.players[i].0 != #[trigger] self.players[j].0
    }
}

impl View for LobbyInfo {
    type V = LobbyInfoView;

    open spec fn view(&self) -> LobbyInfoView {
        LobbyInfoView {
            id: self.id,
            players: self.players@.map_values(
                |e: (Side, Vec<Player>)| (e.0, players_view(e.1@)),
            ),
            lobby_owner: self.lobby_owner,
        }
    }
}

impl View for LobbyClientNewConnectionMessage {
    type V = Seq<char>;

    open spec fn view(&self) -> Seq<char> {
        self.username@
    }
}

/// A client request with its strings as characters.
pub enum LobbyClientMessageView {
    StartMatchmaking,
    StopMatchmaking,
    CreateLobby,
    ListLobbies,
    JoinLobby { id: LobbyId },
    LeaveLobby,
    GetLobbyInfo { id: LobbyId },
    SwitchSide,
    SelectChampion { champion: Seq<char> },
    LockInChampion { champion: Seq<char> },
}

impl View for LobbyClientMessage {
    type V = LobbyClientMessageView;

    open spec fn view(&self) -> LobbyClientMessageView {
        match self {
            LobbyClientMessage::StartMatchmaking => LobbyClientMessageView::StartMatchmaking,
            LobbyClientMessage::StopMatchmaking => LobbyClientMessageView::StopMatchmaking,
            LobbyClientMessage::CreateLobby => LobbyClientMessageView::CreateLobby,
            LobbyClientMessage::ListLobbies => LobbyClientMessageView::ListLobbies,
            LobbyClientMessage::JoinLobby { id } => LobbyClientMessageView::JoinLobby { id: *id },
            LobbyClientMessage::LeaveLobby => LobbyClientMessageView::LeaveLobby,
            LobbyClientMessage::GetLobbyInfo { id } => LobbyClientMessageView::GetLobbyInfo {
                id: *id,
            },
            LobbyClientMessage::SwitchSide => LobbyClientMessageView::SwitchSide,
            LobbyClientMessage::SelectChampion { champion } => LobbyClientMessageView::SelectChampion {
                champion: champion@,
            },
            LobbyClientMessage::LockInChampion { champion } => LobbyClientMessageView::LockInChampion {
                champion: champion@,
            },
        }
    }
}

/// A server message with its strings as characters and its lists as sequences.
pub enum LobbyServerMessageView {
    OK,
    Negative { msg: Seq<char> },
    StopMatchmaking,
    LobbyList { lobbies: Seq<ShortLobbyInfo> },
    LobbyInfo { info: LobbyInfoView },
    MatchmakingDone { lobby_id: LobbyId },
    PlayerJoinedLobby { player: PlayerView, side: Side },
    PlayerLeftLobby { player: PlayerView },
    PlayerSwitchedSide { player: PlayerView, side: Side },
    PlayerSelectedChampion { player: PlayerView, champion: Seq<char> },
    PlayerLockedInChampion { player: PlayerView, champion: Seq<char> },
    YouJoinedLobby { lobby_id: LobbyId },
    YouLeftLobby,
}

impl View for LobbyServerMessage {
    type V = LobbyServerMessageView;

    open spec fn view(&self) -> LobbyServerMessageView {
        match self {
            LobbyServerMessage::OK => LobbyServerMessageView::OK,
            LobbyServerMessage::Negative { msg } => LobbyServerMessageView::Negative { msg: msg@ },
            LobbyServerMessage::StopMatchmaking => LobbyServerMessageView::StopMatchmaking,
            LobbyServerMessage::LobbyList { lobbies } => LobbyServerMessageView::LobbyList {
                lobbies: lobbies@,
            },
            LobbyServerMessage::LobbyInfo { info } => LobbyServerMessageView::LobbyInfo {
                info: info@,
            },
            LobbyServerMessage::MatchmakingDone { lobby_id } => LobbyServerMessageView::MatchmakingDone {
                lobby_id: *lobby_id,
            },
            LobbyServerMessage::PlayerJoinedLobby { player, side } =>
                LobbyServerMessageView::PlayerJoinedLobby { player: player@, side: *side },
            LobbyServerMessage::PlayerLeftLobby { player } => LobbyServerMessageView::PlayerLeftLobby {
                player: player@,
            },
            LobbyServerMessage::PlayerSwitchedSide { player, side } =>
                LobbyServerMessageView::PlayerSwitchedSide { player: player@, side: *side },
            LobbyServerMessage::PlayerSelectedChampion { player, champion } =>
                LobbyServerMessageView::PlayerSelectedChampion {
                player: player@,
                champion: champion@,
            },
            LobbyServerMessage::PlayerLockedInChampion { player, champion } =>
                LobbyServerMessageView::PlayerLockedInChampion {
                player: player@,
                champion: champion@,
            },
            LobbyServerMessage::YouJoinedLobby { lobby_id } => LobbyServerMessageView::YouJoinedLobby {
                lobby_id: *lobby_id,
            },
            LobbyServerMessage::YouLeftLobby => LobbyServerMessageView::YouLeftLobby,
        }
    }
}

} // verus!
