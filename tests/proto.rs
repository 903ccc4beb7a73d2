use mancala_server::proto::{Commands, GameState, GameStatus, Headers, Msg, Status};

fn sample(data: &str) -> Msg {
    Msg {
        status: Status::Okay,
        headers: Headers::Write,
        command: Commands::SetNick,
        game_status: GameStatus::NotInGame,
        data: data.to_string(),
        game_state: GameState::new_empty(),
    }
}

#[test]
fn test_serialize_msg() {
    let msg1: Msg = Msg {
        status: Status::Okay,
        headers: Headers::Write,
        command: Commands::SetNick,
        game_status: GameStatus::NotInGame,
        data: "data".to_string(),
        game_state: GameState::new_empty(),
    };
    let mut buf: [u8; 512] = [0; 512];
    msg1.serialize(&mut buf);
    let msg2: Msg = Msg::decode(&buf[..]).unwrap();
    assert_eq!(msg1, msg2);
}

#[test]
fn encoding_is_bincode_layout_of_the_fields() {
    let msg = Msg {
        status: Status::NotOk,
        headers: Headers::Response,
        command: Commands::Reply,
        game_status: GameStatus::InGame,
        data: "héllo".to_string(),
        game_state: GameState { game_id: 7, player_one: 300, player_two: 70000 },
    };
    let fields = (1u32, 2u32, 12u32, 0u32, "héllo".to_string(), 7u32, 300u32, 70000u32);
    assert_eq!(msg.encode(), bincode::serialize(&fields).unwrap());
}

#[test]
fn encoding_exact_bytes() {
    let bytes = sample("ab").encode();
    let expected: Vec<u8> = vec![
        0, 0, 0, 0, 1, 0, 0, 0, 1, 0, 0, 0, 1, 0, 0, 0, 2, 0, 0, 0, 0, 0, 0, 0, b'a', b'b', 0, 0,
        0, 0, 0, 0, 0, 0, 0, 0, 0, 0,
    ];
    assert_eq!(bytes, expected);
}

#[test]
fn frame_is_zero_padded() {
    let mut buf: [u8; 512] = [0xff; 512];
    let msg = sample("xyz");
    msg.serialize(&mut buf);
    let enc = msg.encode();
    assert_eq!(&buf[..enc.len()], &enc[..]);
    assert!(buf[enc.len()..].iter().all(|b| *b == 0));
}

#[test]
fn round_trip_every_enum_combination() {
    let statuses = [Status::Okay, Status::NotOk];
    let headers = [Headers::Read, Headers::Write, Headers::Response];
    let game_statuses = [GameStatus::InGame, GameStatus::NotInGame];
    let commands = [
        Commands::InitSetup,
        Commands::SetNick,
        Commands::ListGames,
        Commands::ListUsers,
        Commands::MakeNewGame,
        Commands::JoinGame,
        Commands::LeaveGame,
        Commands::GetCurrentGamestate,
        Commands::MakeMove,
        Commands::GameIsOver,
        Commands::KillMe,
        Commands::KillClient,
        Commands::Reply,
    ];
    for s in statuses.iter() {
        for h in headers.iter() {
            for g in game_statuses.iter() {
                for c in commands.iter() {
                    let msg = Msg {
                        status: *s,
                        headers: *h,
                        command: *c,
                        game_status: *g,
                        data: "payload".to_string(),
                        game_state: GameState { game_id: 3, player_one: 1, player_two: 2 },
                    };
                    let mut buf: [u8; 512] = [0; 512];
                    msg.serialize(&mut buf);
                    assert_eq!(Msg::decode(&buf[..]), Some(msg));
                }
            }
        }
    }
}

#[test]
fn payload_at_frame_capacity() {
    let full = sample(&"a".repeat(476));
    assert!(full.fits_frame());
    assert_eq!(full.encode().len(), 512);
    let mut buf: [u8; 512] = [0; 512];
    full.serialize(&mut buf);
    assert_eq!(Msg::decode(&buf[..]), Some(full));
    let over = sample(&"a".repeat(477));
    assert!(!over.fits_frame());
}

#[test]
fn empty_payload_round_trips() {
    let msg = sample("");
    let mut buf: [u8; 512] = [0; 512];
    msg.serialize(&mut buf);
    assert_eq!(Msg::decode(&buf[..]), Some(msg));
}

#[test]
fn decode_rejects_bad_input() {
    let good = sample("ok").encode();
    assert_eq!(Msg::decode(&good[..good.len() - 1]), None);
    assert_eq!(Msg::decode(&[]), None);
    let mut bad_tag = good.clone();
    bad_tag[8] = 13;
    assert_eq!(Msg::decode(&bad_tag), None);
    let mut bad_high = good.clone();
    bad_high[1] = 1;
    assert_eq!(Msg::decode(&bad_high), None);
    let mut bad_utf8 = good.clone();
    bad_utf8[24] = 0xff;
    assert_eq!(Msg::decode(&bad_utf8), None);
    let mut long_len = good.clone();
    long_len[16] = 200;
    assert_eq!(Msg::decode(&long_len), None);
}

#[test]
fn decode_ignores_trailing_bytes() {
    let msg = sample("t");
    let mut bytes = msg.encode();
    bytes.extend_from_slice(&[9, 9, 9]);
    assert_eq!(Msg::decode(&bytes), Some(msg));
}

#[test]
fn new_copies_payload() {
    let m = Msg::new(
        Status::NotOk,
        Headers::Read,
        Commands::ListGames,
        GameStatus::InGame,
        "q",
        GameState::new_empty(),
    );
    assert_eq!(m.data, "q");
    assert_eq!(m.command, Commands::ListGames);
}
