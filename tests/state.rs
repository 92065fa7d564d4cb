use lobby::protocol::{LobbyClientMessage, LobbyId, LobbyServerMessage, Player, PlayerId, ShortLobbyInfo, Side};
use lobby::state::{pick_side, Command, Lobby, Outgoing, State};

fn pid(n: u128) -> PlayerId {
    PlayerId(n)
}

fn registered(names: &[(u128, &str)]) -> State {
    let mut s = State::new();
    for (id, name) in names {
        s.new_client(pid(*id), name.to_string());
    }
    s
}

fn is_negative(outs: &[Outgoing], to: PlayerId) -> bool {
    outs.len() == 1 && outs[0].to == to && matches!(outs[0].msg, LobbyServerMessage::Negative { .. })
}

fn lobbies_of(s: &State, p: PlayerId) -> usize {
    s.lobbies.iter().filter(|l| l.red.contains(&p) || l.blue.contains(&p)).count()
}

#[test]
fn new_state_is_empty() {
    let s = State::new();
    assert!(s.players.is_empty());
    assert!(s.lobbies.is_empty());
}

#[test]
fn create_lobby_places_owner_on_red() {
    let mut s = registered(&[(1, "a")]);
    let outs = s.handle_message(pid(1), LobbyClientMessage::CreateLobby, LobbyId(10));
    assert_eq!(outs.len(), 1);
    assert_eq!(outs[0].to, pid(1));
    assert_eq!(outs[0].msg, LobbyServerMessage::YouJoinedLobby { lobby_id: LobbyId(10) });
    assert_eq!(s.lobbies.len(), 1);
    assert_eq!(s.lobbies[0].id, LobbyId(10));
    assert_eq!(s.lobbies[0].red, vec![pid(1)]);
    assert!(s.lobbies[0].blue.is_empty());
    assert_eq!(s.lobbies[0].owner, pid(1));
    assert_eq!(s.players[0].in_lobby, Some(LobbyId(10)));
}

#[test]
fn create_with_taken_id_uses_first_free_number() {
    let mut s = registered(&[(1, "a"), (2, "b"), (3, "c")]);
    s.handle_message(pid(1), LobbyClientMessage::CreateLobby, LobbyId(0));
    s.handle_message(pid(2), LobbyClientMessage::CreateLobby, LobbyId(5));
    let outs = s.handle_message(pid(3), LobbyClientMessage::CreateLobby, LobbyId(5));
    assert_eq!(outs.len(), 1);
    assert_eq!(outs[0].msg, LobbyServerMessage::YouJoinedLobby { lobby_id: LobbyId(1) });
    assert_eq!(s.lobbies.len(), 3);
    assert_eq!(s.lobbies[2].id, LobbyId(1));
    assert_eq!(s.players[2].in_lobby, Some(LobbyId(1)));
}

#[test]
fn double_create_is_rejected() {
    let mut s = registered(&[(1, "a")]);
    s.handle_message(pid(1), LobbyClientMessage::CreateLobby, LobbyId(10));
    let outs = s.handle_message(pid(1), LobbyClientMessage::CreateLobby, LobbyId(11));
    assert!(is_negative(&outs, pid(1)));
    assert_eq!(s.lobbies.len(), 1);
    assert_eq!(s.lobbies[0].id, LobbyId(10));
    assert_eq!(s.players[0].in_lobby, Some(LobbyId(10)));
    assert_eq!(lobbies_of(&s, pid(1)), 1);
}

#[test]
fn create_with_id_in_use_still_creates() {
    let mut s = registered(&[(1, "a"), (2, "b")]);
    s.handle_message(pid(1), LobbyClientMessage::CreateLobby, LobbyId(10));
    let outs = s.handle_message(pid(2), LobbyClientMessage::CreateLobby, LobbyId(10));
    assert_eq!(outs.len(), 1);
    assert_eq!(outs[0].to, pid(2));
    assert_eq!(outs[0].msg, LobbyServerMessage::YouJoinedLobby { lobby_id: LobbyId(0) });
    assert_eq!(s.lobbies.len(), 2);
    assert_eq!(s.lobbies[1].id, LobbyId(0));
    assert_eq!(s.lobbies[1].red, vec![pid(2)]);
    assert_eq!(s.players[1].in_lobby, Some(LobbyId(0)));
}

#[test]
fn join_side_assignment_balances_and_breaks_ties_to_red() {
    let mut s = registered(&[(1, "a"), (2, "b"), (3, "c"), (4, "d")]);
    s.handle_message(pid(1), LobbyClientMessage::CreateLobby, LobbyId(10));
    // red 1, blue 0: blue has fewer
    s.handle_message(pid(2), LobbyClientMessage::JoinLobby { id: LobbyId(10) }, LobbyId(0));
    assert_eq!(s.lobbies[0].blue, vec![pid(2)]);
    // red 1, blue 1: tie goes to red
    let outs = s.handle_message(pid(3), LobbyClientMessage::JoinLobby { id: LobbyId(10) }, LobbyId(0));
    assert_eq!(s.lobbies[0].red, vec![pid(1), pid(3)]);
    assert_eq!(outs[1].msg, LobbyServerMessage::PlayerJoinedLobby {
        player: Player { id: pid(3), username: "c".to_string() },
        side: Side::Red,
    });
    // red 2, blue 1: blue has fewer
    s.handle_message(pid(4), LobbyClientMessage::JoinLobby { id: LobbyId(10) }, LobbyId(0));
    assert_eq!(s.lobbies[0].blue, vec![pid(2), pid(4)]);
}

#[test]
fn pick_side_on_empty_and_equal_sides_is_red() {
    let empty = Lobby { id: LobbyId(1), red: vec![], blue: vec![], owner: pid(1) };
    assert_eq!(pick_side(&empty), Side::Red);
    let even = Lobby { id: LobbyId(1), red: vec![pid(1)], blue: vec![pid(2)], owner: pid(1) };
    assert_eq!(pick_side(&even), Side::Red);
    let red_heavy = Lobby { id: LobbyId(1), red: vec![pid(1), pid(3)], blue: vec![pid(2)], owner: pid(1) };
    assert_eq!(pick_side(&red_heavy), Side::Blue);
    let blue_heavy = Lobby { id: LobbyId(1), red: vec![], blue: vec![pid(2)], owner: pid(1) };
    assert_eq!(pick_side(&blue_heavy), Side::Red);
}

#[test]
fn join_missing_lobby_is_rejected() {
    let mut s = registered(&[(1, "a")]);
    let outs = s.handle_message(pid(1), LobbyClientMessage::JoinLobby { id: LobbyId(99) }, LobbyId(0));
    assert!(is_negative(&outs, pid(1)));
    assert_eq!(s.players[0].in_lobby, None);
}

#[test]
fn join_while_in_lobby_is_rejected() {
    let mut s = registered(&[(1, "a"), (2, "b")]);
    s.handle_message(pid(1), LobbyClientMessage::CreateLobby, LobbyId(10));
    s.handle_message(pid(2), LobbyClientMessage::CreateLobby, LobbyId(20));
    let outs = s.handle_message(pid(2), LobbyClientMessage::JoinLobby { id: LobbyId(10) }, LobbyId(0));
    assert!(is_negative(&outs, pid(2)));
    assert_eq!(s.players[1].in_lobby, Some(LobbyId(20)));
    assert_eq!(s.lobbies[0].red, vec![pid(1)]);
    assert!(s.lobbies[0].blue.is_empty());
}

#[test]
fn join_notifies_every_other_member() {
    let mut s = registered(&[(1, "a"), (2, "b"), (3, "c")]);
    s.handle_message(pid(1), LobbyClientMessage::CreateLobby, LobbyId(10));
    s.handle_message(pid(2), LobbyClientMessage::JoinLobby { id: LobbyId(10) }, LobbyId(0));
    let outs = s.handle_message(pid(3), LobbyClientMessage::JoinLobby { id: LobbyId(10) }, LobbyId(0));
    assert_eq!(outs.len(), 3);
    assert_eq!(outs[0].to, pid(3));
    assert_eq!(outs[0].msg, LobbyServerMessage::YouJoinedLobby { lobby_id: LobbyId(10) });
    let notified: Vec<PlayerId> = outs[1..].iter().map(|o| o.to).collect();
    assert_eq!(notified, vec![pid(1), pid(2)]);
}

#[test]
fn leave_when_not_in_lobby_is_silent() {
    let mut s = registered(&[(1, "a")]);
    let outs = s.handle_message(pid(1), LobbyClientMessage::LeaveLobby, LobbyId(0));
    assert!(outs.is_empty());
    assert_eq!(s.players[0].in_lobby, None);
}

#[test]
fn last_leave_deletes_lobby() {
    let mut s = registered(&[(1, "a")]);
    s.handle_message(pid(1), LobbyClientMessage::CreateLobby, LobbyId(10));
    let outs = s.handle_message(pid(1), LobbyClientMessage::LeaveLobby, LobbyId(0));
    assert_eq!(outs.len(), 1);
    assert_eq!(outs[0].msg, LobbyServerMessage::YouLeftLobby);
    assert!(s.lobbies.is_empty());
    assert_eq!(s.players[0].in_lobby, None);
}

#[test]
fn leave_changes_exactly_one_side_list() {
    let mut s = registered(&[(1, "a"), (2, "b"), (3, "c")]);
    s.handle_message(pid(1), LobbyClientMessage::CreateLobby, LobbyId(10));
    s.handle_message(pid(2), LobbyClientMessage::JoinLobby { id: LobbyId(10) }, LobbyId(0));
    s.handle_message(pid(3), LobbyClientMessage::JoinLobby { id: LobbyId(10) }, LobbyId(0));
    s.handle_message(pid(2), LobbyClientMessage::LeaveLobby, LobbyId(0));
    assert_eq!(s.lobbies[0].red, vec![pid(1), pid(3)]);
    assert!(s.lobbies[0].blue.is_empty());
}

#[test]
fn sole_member_disconnect_deletes_lobby() {
    let mut s = registered(&[(1, "a"), (2, "b")]);
    s.handle_message(pid(1), LobbyClientMessage::CreateLobby, LobbyId(10));
    let outs = s.client_disconnected(pid(1));
    assert_eq!(outs.len(), 1);
    assert_eq!(outs[0].msg, LobbyServerMessage::YouLeftLobby);
    assert!(s.lobbies.is_empty());
    assert_eq!(s.players.len(), 1);
    let outs = s.handle_message(pid(2), LobbyClientMessage::GetLobbyInfo { id: LobbyId(10) }, LobbyId(0));
    assert!(is_negative(&outs, pid(2)));
}

#[test]
fn disconnect_of_unknown_player_is_noop() {
    let mut s = registered(&[(1, "a")]);
    let outs = s.client_disconnected(pid(7));
    assert!(outs.is_empty());
    assert_eq!(s.players.len(), 1);
}

#[test]
fn disconnect_notifies_remaining_members() {
    let mut s = registered(&[(1, "a"), (2, "b")]);
    s.handle_message(pid(1), LobbyClientMessage::CreateLobby, LobbyId(10));
    s.handle_message(pid(2), LobbyClientMessage::JoinLobby { id: LobbyId(10) }, LobbyId(0));
    let outs = s.handle_command(Command::ClientDisconnected(pid(2)), LobbyId(77));
    assert_eq!(outs.len(), 2);
    assert_eq!(outs[1].to, pid(1));
    assert_eq!(outs[1].msg, LobbyServerMessage::PlayerLeftLobby {
        player: Player { id: pid(2), username: "b".to_string() },
    });
    assert_eq!(s.players.len(), 1);
    assert_eq!(s.lobbies[0].red, vec![pid(1)]);
}

#[test]
fn end_to_end_join_and_leave() {
    let mut s = State::new();
    let a = pid(0xa);
    let b = pid(0xb);
    s.handle_command(Command::NewClient { player_id: a, username: "alice".to_string() }, LobbyId(77));
    let outs = s.handle_command(Command::MsgFromClient { id: a, msg: LobbyClientMessage::CreateLobby }, LobbyId(77));
    assert_eq!(outs.len(), 1);
    assert_eq!(outs[0].to, a);
    let l = match outs[0].msg {
        LobbyServerMessage::YouJoinedLobby { lobby_id } => lobby_id,
        _ => panic!("expected YouJoinedLobby"),
    };
    s.handle_command(Command::NewClient { player_id: b, username: "bob".to_string() }, LobbyId(77));
    let outs = s.handle_command(Command::MsgFromClient { id: b, msg: LobbyClientMessage::JoinLobby { id: l } }, LobbyId(77));
    assert_eq!(outs.len(), 2);
    assert_eq!(outs[0].to, b);
    assert_eq!(outs[0].msg, LobbyServerMessage::YouJoinedLobby { lobby_id: l });
    assert_eq!(outs[1].to, a);
    assert_eq!(outs[1].msg, LobbyServerMessage::PlayerJoinedLobby {
        player: Player { id: b, username: "bob".to_string() },
        side: Side::Blue,
    });
    let outs = s.handle_command(Command::MsgFromClient { id: b, msg: LobbyClientMessage::LeaveLobby }, LobbyId(77));
    assert_eq!(outs.len(), 2);
    assert_eq!(outs[0].to, b);
    assert_eq!(outs[0].msg, LobbyServerMessage::YouLeftLobby);
    assert_eq!(outs[1].to, a);
    assert_eq!(outs[1].msg, LobbyServerMessage::PlayerLeftLobby {
        player: Player { id: b, username: "bob".to_string() },
    });
    assert_eq!(s.lobbies.len(), 1);
    assert_eq!(s.lobbies[0].id, l);
    assert_eq!(s.lobbies[0].red, vec![a]);
}

#[test]
fn list_lobbies_counts_players() {
    let mut s = registered(&[(1, "a"), (2, "b"), (3, "c")]);
    s.handle_message(pid(1), LobbyClientMessage::CreateLobby, LobbyId(10));
    s.handle_message(pid(2), LobbyClientMessage::JoinLobby { id: LobbyId(10) }, LobbyId(0));
    s.handle_message(pid(3), LobbyClientMessage::CreateLobby, LobbyId(20));
    let outs = s.handle_message(pid(1), LobbyClientMessage::ListLobbies, LobbyId(0));
    assert_eq!(outs.len(), 1);
    assert_eq!(outs[0].to, pid(1));
    assert_eq!(outs[0].msg, LobbyServerMessage::LobbyList {
        lobbies: vec![
            ShortLobbyInfo { id: LobbyId(10), players: 2 },
            ShortLobbyInfo { id: LobbyId(20), players: 1 },
        ],
    });
}

#[test]
fn list_lobbies_when_none_exist() {
    let mut s = registered(&[(1, "a")]);
    let outs = s.handle_message(pid(1), LobbyClientMessage::ListLobbies, LobbyId(0));
    assert_eq!(outs[0].msg, LobbyServerMessage::LobbyList { lobbies: vec![] });
}

#[test]
fn lobby_info_lists_sides_and_owner() {
    let mut s = registered(&[(1, "a"), (2, "b"), (3, "c")]);
    s.handle_message(pid(1), LobbyClientMessage::CreateLobby, LobbyId(10));
    s.handle_message(pid(2), LobbyClientMessage::JoinLobby { id: LobbyId(10) }, LobbyId(0));
    let outs = s.handle_message(pid(3), LobbyClientMessage::GetLobbyInfo { id: LobbyId(10) }, LobbyId(0));
    assert_eq!(outs.len(), 1);
    assert_eq!(outs[0].to, pid(3));
    match &outs[0].msg {
        LobbyServerMessage::LobbyInfo { info } => {
            assert_eq!(info.id, LobbyId(10));
            assert_eq!(info.lobby_owner, pid(1));
            assert_eq!(info.players, vec![
                (Side::Red, vec![Player { id: pid(1), username: "a".to_string() }]),
                (Side::Blue, vec![Player { id: pid(2), username: "b".to_string() }]),
            ]);
        }
        _ => panic!("expected LobbyInfo"),
    }
}

#[test]
fn unsupported_requests_are_rejected() {
    let mut s = registered(&[(1, "a")]);
    for msg in [
        LobbyClientMessage::StartMatchmaking,
        LobbyClientMessage::StopMatchmaking,
        LobbyClientMessage::SwitchSide,
        LobbyClientMessage::SelectChampion { champion: "x".to_string() },
        LobbyClientMessage::LockInChampion { champion: "x".to_string() },
    ] {
        let outs = s.handle_message(pid(1), msg, LobbyId(0));
        assert!(is_negative(&outs, pid(1)));
    }
    assert!(s.lobbies.is_empty());
}

#[test]
fn message_from_unknown_player_is_ignored() {
    let mut s = registered(&[(1, "a")]);
    let outs = s.handle_message(pid(9), LobbyClientMessage::CreateLobby, LobbyId(10));
    assert!(outs.is_empty());
    assert!(s.lobbies.is_empty());
}

#[test]
fn registering_a_used_id_changes_nothing() {
    let mut s = registered(&[(1, "a")]);
    s.handle_message(pid(1), LobbyClientMessage::CreateLobby, LobbyId(10));
    let outs = s.handle_command(Command::NewClient { player_id: pid(1), username: "z".to_string() }, LobbyId(77));
    assert!(outs.is_empty());
    assert_eq!(s.players.len(), 1);
    assert_eq!(s.players[0].username, "a");
    assert_eq!(s.players[0].in_lobby, Some(LobbyId(10)));
}

#[test]
fn each_player_is_in_at_most_one_lobby() {
    let mut s = registered(&[(1, "a"), (2, "b"), (3, "c")]);
    let steps: Vec<(u128, LobbyClientMessage, u128)> = vec![
        (1, LobbyClientMessage::CreateLobby, 10),
        (2, LobbyClientMessage::CreateLobby, 20),
        (3, LobbyClientMessage::JoinLobby { id: LobbyId(10) }, 0),
        (3, LobbyClientMessage::JoinLobby { id: LobbyId(20) }, 0),
        (3, LobbyClientMessage::CreateLobby, 30),
        (2, LobbyClientMessage::LeaveLobby, 0),
        (2, LobbyClientMessage::JoinLobby { id: LobbyId(10) }, 0),
        (1, LobbyClientMessage::LeaveLobby, 0),
        (3, LobbyClientMessage::LeaveLobby, 0),
        (3, LobbyClientMessage::JoinLobby { id: LobbyId(10) }, 0),
    ];
    for (p, msg, fresh) in steps {
        s.handle_message(pid(p), msg, LobbyId(fresh));
        for q in 1..=3 {
            assert!(lobbies_of(&s, pid(q)) <= 1);
        }
        for l in &s.lobbies {
            assert!(!(l.red.is_empty() && l.blue.is_empty()));
        }
    }
    assert_eq!(s.lobbies.len(), 1);
    assert_eq!(s.lobbies[0].id, LobbyId(10));
}
