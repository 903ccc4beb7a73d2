use mancala_server::connection::{Action, ClientIds, Connection, Phase};
use mancala_server::proto::{Commands, GameState, GameStatus, Headers, Msg, Status};

fn msg(command: Commands, game_status: GameStatus, data: &str) -> Msg {
    Msg::new(Status::Okay, Headers::Write, command, game_status, data, GameState::new_empty())
}

fn frame_with(bytes: &[u8]) -> [u8; 512] {
    let mut buf = [0u8; 512];
    buf[..bytes.len()].copy_from_slice(bytes);
    buf
}

fn disconnect_commands(a: &Action) -> Vec<Commands> {
    match a {
        Action::Disconnect(v) => v.iter().map(|m| m.command).collect(),
        _ => panic!("not a disconnect"),
    }
}

fn authenticated() -> Connection {
    let mut c = Connection::new();
    let a = c.on_read(&frame_with(b"pw"), Some(2), b"pw");
    assert!(matches!(a, Action::SendAck));
    c
}

#[test]
fn correct_secret_is_acknowledged() {
    let c = authenticated();
    assert_eq!(c.phase, Phase::Idle);
    assert!(!c.in_game);
}

#[test]
fn wrong_secret_closes_with_cleanup() {
    let mut c = Connection::new();
    let a = c.on_read(&frame_with(b"px"), Some(2), b"pw");
    assert_eq!(c.phase, Phase::Closed);
    assert_eq!(disconnect_commands(&a), vec![Commands::KillMe]);
    let mut c = Connection::new();
    let a = c.on_read(&frame_with(b""), None, b"pw");
    assert_eq!(c.phase, Phase::Closed);
    assert_eq!(disconnect_commands(&a), vec![Commands::KillMe]);
}

#[test]
fn frame_is_forwarded_and_reply_written() {
    let mut c = authenticated();
    let request = msg(Commands::MakeNewGame, GameStatus::NotInGame, "");
    let mut buf = [0u8; 512];
    request.serialize(&mut buf);
    match c.on_read(&buf, Some(512), b"pw") {
        Action::Forward(m) => assert_eq!(m, request),
        _ => panic!("expected a forward"),
    }
    assert_eq!(c.phase, Phase::AwaitingReply);
    assert!(matches!(c.on_read(&buf, Some(512), b"pw"), Action::Ignore));
    let reply = msg(Commands::Reply, GameStatus::InGame, "");
    let mut expected = [0u8; 512];
    reply.serialize(&mut expected);
    match c.on_reply(&reply) {
        Action::SendFrame(f) => assert_eq!(f.to_vec(), expected.to_vec()),
        _ => panic!("expected a frame"),
    }
    assert_eq!(c.phase, Phase::Idle);
    assert!(c.in_game);
}

#[test]
fn peer_leaving_in_game_sends_leave_then_kill() {
    let mut c = authenticated();
    c.in_game = true;
    let a = c.on_read(&[0u8; 512], Some(0), b"pw");
    assert_eq!(c.phase, Phase::Closed);
    assert_eq!(disconnect_commands(&a), vec![Commands::LeaveGame, Commands::KillMe]);
}

#[test]
fn undecodable_frame_closes_only_this_connection() {
    let mut c = authenticated();
    let a = c.on_read(&[0xffu8; 512], Some(512), b"pw");
    assert_eq!(c.phase, Phase::Closed);
    assert_eq!(disconnect_commands(&a), vec![Commands::KillMe]);
}

#[test]
fn kill_client_reply_closes_after_writing() {
    let mut c = authenticated();
    let mut buf = [0u8; 512];
    msg(Commands::KillMe, GameStatus::NotInGame, "").serialize(&mut buf);
    assert!(matches!(c.on_read(&buf, Some(512), b"pw"), Action::Forward(_)));
    let a = c.on_reply(&msg(Commands::KillClient, GameStatus::NotInGame, ""));
    assert!(matches!(a, Action::SendFrameAndClose(_)));
    assert_eq!(c.phase, Phase::Closed);
}

#[test]
fn oversized_reply_and_write_failure_clean_up() {
    let mut c = authenticated();
    let mut buf = [0u8; 512];
    msg(Commands::ListUsers, GameStatus::NotInGame, "").serialize(&mut buf);
    assert!(matches!(c.on_read(&buf, Some(512), b"pw"), Action::Forward(_)));
    let big = msg(Commands::Reply, GameStatus::NotInGame, &"n".repeat(600));
    let a = c.on_reply(&big);
    assert_eq!(disconnect_commands(&a), vec![Commands::KillMe]);
    let mut c = authenticated();
    let a = c.on_write_failed();
    assert_eq!(disconnect_commands(&a), vec![Commands::KillMe]);
    assert!(matches!(c.on_write_failed(), Action::Ignore));
}

#[test]
fn client_ids_increase_and_run_out() {
    let mut ids = ClientIds::new();
    assert_eq!(ids.allocate(), Some(1));
    assert_eq!(ids.allocate(), Some(2));
    ids.next = u32::MAX;
    assert_eq!(ids.allocate(), None);
    assert_eq!(ids.next, u32::MAX);
}
