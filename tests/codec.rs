use lobby::codec::{
    decode_client_message, decode_handshake, decode_server_message, encode_client_message,
    encode_client_payload, encode_handshake, encode_server_message, encode_server_payload, frame,
    frame_length, frame_payload, CodecError,
};
use lobby::protocol::{
    LobbyClientMessage, LobbyClientNewConnectionMessage, LobbyId, LobbyInfo, LobbyServerMessage,
    Player, PlayerId, ShortLobbyInfo, Side,
};

const ID: u128 = 0x0102_0304_0506_0708_090a_0b0c_0d0e_0f10;

fn player(id: u128, name: &str) -> Player {
    Player { id: PlayerId(id), username: name.to_string() }
}

fn client_round_trip(m: LobbyClientMessage) {
    let bytes = encode_client_message(&m).unwrap();
    assert_eq!(decode_client_message(&bytes), Ok(m));
}

fn server_round_trip(m: LobbyServerMessage) {
    let bytes = encode_server_message(&m).unwrap();
    assert_eq!(decode_server_message(&bytes), Ok(m));
}

#[test]
fn every_client_message_round_trips() {
    client_round_trip(LobbyClientMessage::StartMatchmaking);
    client_round_trip(LobbyClientMessage::StopMatchmaking);
    client_round_trip(LobbyClientMessage::CreateLobby);
    client_round_trip(LobbyClientMessage::ListLobbies);
    client_round_trip(LobbyClientMessage::JoinLobby { id: LobbyId(ID) });
    client_round_trip(LobbyClientMessage::LeaveLobby);
    client_round_trip(LobbyClientMessage::GetLobbyInfo { id: LobbyId(u128::MAX) });
    client_round_trip(LobbyClientMessage::SwitchSide);
    client_round_trip(LobbyClientMessage::SelectChampion { champion: "Ahri".to_string() });
    client_round_trip(LobbyClientMessage::LockInChampion { champion: String::new() });
}

#[test]
fn every_server_message_round_trips() {
    server_round_trip(LobbyServerMessage::OK);
    server_round_trip(LobbyServerMessage::Negative { msg: "Cannot join lobby; lobby does not exist".to_string() });
    server_round_trip(LobbyServerMessage::StopMatchmaking);
    server_round_trip(LobbyServerMessage::LobbyList { lobbies: vec![] });
    server_round_trip(LobbyServerMessage::LobbyList {
        lobbies: vec![
            ShortLobbyInfo { id: LobbyId(1), players: 2 },
            ShortLobbyInfo { id: LobbyId(ID), players: 300 },
        ],
    });
    server_round_trip(LobbyServerMessage::LobbyInfo {
        info: LobbyInfo {
            id: LobbyId(ID),
            players: vec![
                (Side::Red, vec![player(1, "a"), player(3, "c")]),
                (Side::Blue, vec![player(2, "b")]),
            ],
            lobby_owner: PlayerId(1),
        },
    });
    server_round_trip(LobbyServerMessage::MatchmakingDone { lobby_id: LobbyId(7) });
    server_round_trip(LobbyServerMessage::PlayerJoinedLobby { player: player(2, "bob"), side: Side::Blue });
    server_round_trip(LobbyServerMessage::PlayerLeftLobby { player: player(2, "bob") });
    server_round_trip(LobbyServerMessage::PlayerSwitchedSide { player: player(2, "bob"), side: Side::Red });
    server_round_trip(LobbyServerMessage::PlayerSelectedChampion { player: player(4, "d"), champion: "Zed".to_string() });
    server_round_trip(LobbyServerMessage::PlayerLockedInChampion { player: player(4, "d"), champion: "Zed".to_string() });
    server_round_trip(LobbyServerMessage::YouJoinedLobby { lobby_id: LobbyId(ID) });
    server_round_trip(LobbyServerMessage::YouLeftLobby);
}

#[test]
fn handshake_round_trips() {
    let m = LobbyClientNewConnectionMessage { username: "Guest".to_string() };
    let bytes = encode_handshake(&m).unwrap();
    assert_eq!(bytes, vec![0, 0, 0, 6, 5, b'G', b'u', b'e', b's', b't']);
    assert_eq!(decode_handshake(&bytes), Ok(m));
}

#[test]
fn frame_puts_big_endian_length_first() {
    assert_eq!(frame(&[7, 8, 9]), Some(vec![0, 0, 0, 3, 7, 8, 9]));
    assert_eq!(frame(&[]), Some(vec![0, 0, 0, 0]));
    let long = vec![1u8; 0x0102];
    let framed = frame(&long).unwrap();
    assert_eq!(&framed[..4], &[0, 0, 1, 2]);
    assert_eq!(framed.len(), 4 + 0x0102);
}

#[test]
fn frame_length_reads_big_endian() {
    assert_eq!(frame_length(&[0, 0, 0, 5]), 5);
    assert_eq!(frame_length(&[0x12, 0x34, 0x56, 0x78]), 0x1234_5678);
    assert_eq!(frame_length(&[0xff, 0xff, 0xff, 0xff]), u32::MAX);
}

#[test]
fn frame_payload_checks_the_prefix() {
    assert_eq!(frame_payload(&[0, 0, 0, 2, 1, 2]), Some(&[1u8, 2][..]));
    assert_eq!(frame_payload(&[0, 0, 0, 3, 1, 2]), None);
    assert_eq!(frame_payload(&[0, 0, 0, 1, 1, 2]), None);
    assert_eq!(frame_payload(&[0, 0, 0]), None);
}

#[test]
fn payload_bytes_follow_the_compact_encoding() {
    assert_eq!(encode_client_payload(&LobbyClientMessage::ListLobbies), vec![3]);
    let mut join = vec![4, 16];
    join.extend_from_slice(&ID.to_be_bytes());
    assert_eq!(encode_client_payload(&LobbyClientMessage::JoinLobby { id: LobbyId(ID) }), join);
    assert_eq!(
        encode_client_payload(&LobbyClientMessage::SelectChampion { champion: "h\u{e9}".to_string() }),
        vec![8, 3, b'h', 0xc3, 0xa9]
    );
    let list = encode_server_payload(&LobbyServerMessage::LobbyList {
        lobbies: vec![ShortLobbyInfo { id: LobbyId(1), players: 300 }],
    });
    let mut expected = vec![3, 1, 16];
    expected.extend_from_slice(&1u128.to_be_bytes());
    expected.extend_from_slice(&[0xac, 0x02]);
    assert_eq!(list, expected);
    assert_eq!(encode_server_payload(&LobbyServerMessage::YouLeftLobby), vec![12]);
}

#[test]
fn varints_match_postcard() {
    let list = encode_server_payload(&LobbyServerMessage::LobbyList {
        lobbies: vec![ShortLobbyInfo { id: LobbyId(1), players: 1 << 40 }],
    });
    let count = postcard::to_allocvec(&(1u64 << 40)).unwrap();
    assert_eq!(&list[list.len() - count.len()..], &count[..]);
    let name = "x".repeat(200);
    let payload = encode_client_payload(&LobbyClientMessage::SelectChampion { champion: name.clone() });
    assert_eq!(&payload[1..3], &postcard::to_allocvec(&200u64).unwrap()[..]);
    assert_eq!(&payload[..3], &[8, 0xc8, 0x01]);
}

#[test]
fn decode_reads_large_varints() {
    let m = LobbyServerMessage::LobbyList { lobbies: vec![ShortLobbyInfo { id: LobbyId(9), players: usize::MAX }] };
    server_round_trip(m);
}

#[test]
fn wrong_length_prefix_is_malformed() {
    assert_eq!(decode_client_message(&[0, 0, 0, 2, 3]), Err(CodecError::MalformedMessage));
    assert_eq!(decode_client_message(&[0, 0, 0, 0, 3]), Err(CodecError::MalformedMessage));
    assert_eq!(decode_client_message(&[0, 0, 1]), Err(CodecError::MalformedMessage));
    assert_eq!(decode_client_message(&[]), Err(CodecError::MalformedMessage));
}

#[test]
fn unknown_variant_is_malformed() {
    assert_eq!(decode_client_message(&[0, 0, 0, 1, 10]), Err(CodecError::MalformedMessage));
    assert_eq!(decode_server_message(&[0, 0, 0, 1, 13]), Err(CodecError::MalformedMessage));
    assert_eq!(decode_client_message(&[0, 0, 0, 0]), Err(CodecError::MalformedMessage));
}

#[test]
fn bad_fields_are_malformed() {
    // an identifier must be 16 bytes long
    let mut short_id = vec![0, 0, 0, 17, 4, 15];
    short_id.extend_from_slice(&[0; 15]);
    assert_eq!(decode_client_message(&short_id), Err(CodecError::MalformedMessage));
    // truncated identifier
    assert_eq!(decode_client_message(&[0, 0, 0, 4, 4, 16, 1, 2]), Err(CodecError::MalformedMessage));
    // invalid UTF-8
    assert_eq!(decode_client_message(&[0, 0, 0, 3, 8, 1, 0xff]), Err(CodecError::MalformedMessage));
    // string longer than the payload
    assert_eq!(decode_client_message(&[0, 0, 0, 3, 8, 5, b'a']), Err(CodecError::MalformedMessage));
    // side out of range
    let mut bad_side = vec![0, 0, 0, 0, 6, 16];
    bad_side.extend_from_slice(&[0; 16]);
    bad_side.extend_from_slice(&[1, b'a', 2]);
    bad_side[3] = (bad_side.len() - 4) as u8;
    assert_eq!(decode_server_message(&bad_side), Err(CodecError::MalformedMessage));
}

#[test]
fn trailing_payload_bytes_are_ignored() {
    assert_eq!(decode_client_message(&[0, 0, 0, 3, 2, 9, 9]), Ok(LobbyClientMessage::CreateLobby));
}

#[test]
fn utf8_names_survive_decoding() {
    let m = LobbyClientNewConnectionMessage { username: "J\u{f6}rg \u{1f600}".to_string() };
    let bytes = encode_handshake(&m).unwrap();
    assert_eq!(decode_handshake(&bytes).unwrap().username, "J\u{f6}rg \u{1f600}");
}
