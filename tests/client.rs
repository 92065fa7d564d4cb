use lobby::client::{add_player, event_of, remove_player, request_message, Event, JoinedLobby, LeftLobby, Request};
use lobby::protocol::{LobbyClientMessage, LobbyId, LobbyInfo, LobbyServerMessage, Player, PlayerId, ShortLobbyInfo, Side};

#[test]
fn requests_map_to_messages() {
    assert_eq!(request_message(Request::GetLobbyList), LobbyClientMessage::ListLobbies);
    assert_eq!(request_message(Request::CreateLobby), LobbyClientMessage::CreateLobby);
    assert_eq!(request_message(Request::GetLobbyInfo { id: LobbyId(3) }), LobbyClientMessage::GetLobbyInfo { id: LobbyId(3) });
    assert_eq!(request_message(Request::JoinLobby { id: LobbyId(4) }), LobbyClientMessage::JoinLobby { id: LobbyId(4) });
    assert_eq!(request_message(Request::LeaveLobby), LobbyClientMessage::LeaveLobby);
}

#[test]
fn replies_without_events() {
    assert!(event_of(LobbyServerMessage::OK).is_none());
    assert!(event_of(LobbyServerMessage::Negative { msg: "no".to_string() }).is_none());
}

#[test]
fn replies_with_events() {
    match event_of(LobbyServerMessage::YouJoinedLobby { lobby_id: LobbyId(5) }) {
        Some(Event::JoinedLobby(j)) => assert_eq!(j, JoinedLobby { lobby_id: LobbyId(5) }),
        _ => panic!("expected JoinedLobby"),
    }
    match event_of(LobbyServerMessage::YouLeftLobby) {
        Some(Event::LeftLobby(l)) => assert_eq!(l, LeftLobby),
        _ => panic!("expected LeftLobby"),
    }
    let player = Player { id: PlayerId(2), username: "b".to_string() };
    match event_of(LobbyServerMessage::PlayerJoinedLobby { player: player.clone(), side: Side::Blue }) {
        Some(Event::PlayerJoinedLobby(p)) => {
            assert_eq!(p.player, player);
            assert_eq!(p.side, Side::Blue);
        }
        _ => panic!("expected PlayerJoinedLobby"),
    }
    match event_of(LobbyServerMessage::PlayerLeftLobby { player: player.clone() }) {
        Some(Event::PlayerLeftLobby(p)) => assert_eq!(p.player, player),
        _ => panic!("expected PlayerLeftLobby"),
    }
    let lobbies = vec![ShortLobbyInfo { id: LobbyId(1), players: 3 }];
    match event_of(LobbyServerMessage::LobbyList { lobbies: lobbies.clone() }) {
        Some(Event::UpdateLobbyList(u)) => assert_eq!(u.lobbies, lobbies),
        _ => panic!("expected UpdateLobbyList"),
    }
}

fn p(id: u128, name: &str) -> Player {
    Player { id: PlayerId(id), username: name.to_string() }
}

#[test]
fn add_player_appends_to_its_side() {
    let mut info = LobbyInfo {
        id: LobbyId(1),
        players: vec![(Side::Red, vec![p(1, "a")]), (Side::Blue, vec![])],
        lobby_owner: PlayerId(1),
    };
    add_player(&mut info, p(2, "b"), Side::Blue);
    add_player(&mut info, p(3, "c"), Side::Red);
    assert_eq!(info.players, vec![
        (Side::Red, vec![p(1, "a"), p(3, "c")]),
        (Side::Blue, vec![p(2, "b")]),
    ]);
}

#[test]
fn add_player_creates_a_missing_side() {
    let mut info = LobbyInfo { id: LobbyId(1), players: vec![], lobby_owner: PlayerId(0) };
    add_player(&mut info, p(2, "b"), Side::Blue);
    assert_eq!(info.players, vec![(Side::Blue, vec![p(2, "b")])]);
}

#[test]
fn remove_player_reports_its_side() {
    let mut info = LobbyInfo {
        id: LobbyId(1),
        players: vec![(Side::Red, vec![p(1, "a"), p(3, "c")]), (Side::Blue, vec![p(2, "b")])],
        lobby_owner: PlayerId(1),
    };
    assert_eq!(remove_player(&mut info, PlayerId(2)), Side::Blue);
    assert_eq!(remove_player(&mut info, PlayerId(1)), Side::Red);
    assert_eq!(info.players, vec![(Side::Red, vec![p(3, "c")]), (Side::Blue, vec![])]);
    assert_eq!(remove_player(&mut info, PlayerId(9)), Side::Red);
    assert_eq!(info.players, vec![(Side::Red, vec![p(3, "c")]), (Side::Blue, vec![])]);
}
