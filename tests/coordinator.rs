use mancala_server::connection::{
    after_reply, auth_ack, handle_client_disconnect, handle_client_input_msg,
    is_client_authorized,
};
use mancala_server::coordinator::{data_manager, set_up_new_client_tcp_connection, Coordinator};
use mancala_server::proto::{Commands, GameState, GameStatus, Headers, Msg, Status};

fn request(command: Commands, game_status: GameStatus, data: &str) -> Msg {
    Msg::new(Status::Okay, Headers::Write, command, game_status, data, GameState::new_empty())
}

fn join(game_id: u32) -> Msg {
    Msg::new(
        Status::Okay,
        Headers::Write,
        Commands::JoinGame,
        GameStatus::NotInGame,
        "",
        GameState { game_id, player_one: 0, player_two: 0 },
    )
}

fn nick_of(c: &Coordinator, id: u32) -> Option<String> {
    c.clients().iter().find(|e| e.id == id).map(|e| e.nick.clone())
}

fn game_of(c: &Coordinator, id: u32) -> Option<Option<u32>> {
    c.clients().iter().find(|e| e.id == id).map(|e| e.game)
}

fn with_clients(n: u32) -> Coordinator {
    let mut c = Coordinator::new();
    for id in 1..=n {
        assert!(set_up_new_client_tcp_connection(&mut c, id));
    }
    c
}

#[test]
fn registration_gives_default_nick() {
    let c = with_clients(2);
    assert_eq!(nick_of(&c, 1), Some("user_1".to_string()));
    assert_eq!(nick_of(&c, 2), Some("user_2".to_string()));
    assert_eq!(game_of(&c, 2), Some(None));
}

#[test]
fn default_nick_has_all_digits() {
    let mut c = Coordinator::new();
    assert!(set_up_new_client_tcp_connection(&mut c, 4029));
    assert!(set_up_new_client_tcp_connection(&mut c, 4294967295));
    assert_eq!(nick_of(&c, 4029), Some("user_4029".to_string()));
    assert_eq!(nick_of(&c, 4294967295), Some("user_4294967295".to_string()));
}

#[test]
fn registration_refused_for_known_id_or_held_nick() {
    let mut c = with_clients(1);
    assert!(!set_up_new_client_tcp_connection(&mut c, 1));
    let r = data_manager(&mut c, 1, &request(Commands::SetNick, GameStatus::NotInGame, "user_2"))
        .unwrap();
    assert_eq!(r.status, Status::Okay);
    assert!(!set_up_new_client_tcp_connection(&mut c, 2));
    assert_eq!(c.clients().len(), 1);
}

#[test]
fn unknown_client_is_dropped() {
    let mut c = with_clients(1);
    assert!(data_manager(&mut c, 9, &request(Commands::ListUsers, GameStatus::NotInGame, ""))
        .is_none());
    assert_eq!(c.clients().len(), 1);
}

#[test]
fn set_nick_taken_is_refused_without_change() {
    let mut c = with_clients(2);
    let r = data_manager(&mut c, 1, &request(Commands::SetNick, GameStatus::NotInGame, "Bob"))
        .unwrap();
    assert_eq!(r.status, Status::Okay);
    let r = data_manager(&mut c, 2, &request(Commands::SetNick, GameStatus::NotInGame, "Bob"))
        .unwrap();
    assert_eq!(r.status, Status::NotOk);
    assert_eq!(nick_of(&c, 2), Some("user_2".to_string()));
    let r = data_manager(&mut c, 2, &request(Commands::SetNick, GameStatus::NotInGame, ""))
        .unwrap();
    assert_eq!(r.status, Status::NotOk);
    let mut nicks: Vec<String> = c.clients().iter().map(|e| e.nick.clone()).collect();
    nicks.sort();
    nicks.dedup();
    assert_eq!(nicks.len(), 2);
}

#[test]
fn list_users_and_games() {
    let mut c = with_clients(3);
    let r = data_manager(&mut c, 2, &request(Commands::ListUsers, GameStatus::NotInGame, ""))
        .unwrap();
    assert_eq!(r.data, "user_1,user_2,user_3");
    let r = data_manager(&mut c, 1, &request(Commands::ListGames, GameStatus::NotInGame, ""))
        .unwrap();
    assert_eq!(r.data, "");
    data_manager(&mut c, 1, &request(Commands::MakeNewGame, GameStatus::NotInGame, ""));
    data_manager(&mut c, 2, &request(Commands::MakeNewGame, GameStatus::NotInGame, ""));
    let r = data_manager(&mut c, 3, &request(Commands::ListGames, GameStatus::NotInGame, ""))
        .unwrap();
    assert_eq!(r.data, "1,2");
    let r = data_manager(&mut c, 3, &request(Commands::InitSetup, GameStatus::NotInGame, ""))
        .unwrap();
    assert_eq!(r.data, "user_3");
    assert_eq!(r.headers, Headers::Response);
}

#[test]
fn membership_is_exclusive() {
    let mut c = with_clients(3);
    let r = data_manager(&mut c, 1, &request(Commands::MakeNewGame, GameStatus::NotInGame, ""))
        .unwrap();
    let g = r.game_state.game_id;
    let r = data_manager(&mut c, 1, &request(Commands::MakeNewGame, GameStatus::NotInGame, ""))
        .unwrap();
    assert_eq!(r.status, Status::NotOk);
    assert_eq!(r.game_status, GameStatus::InGame);
    let r = data_manager(&mut c, 2, &join(g)).unwrap();
    assert_eq!(r.status, Status::Okay);
    assert_eq!(r.game_state, GameState { game_id: g, player_one: 1, player_two: 2 });
    let r = data_manager(&mut c, 3, &join(g)).unwrap();
    assert_eq!(r.status, Status::NotOk);
    let r = data_manager(&mut c, 3, &join(99)).unwrap();
    assert_eq!(r.status, Status::NotOk);
    assert_eq!(game_of(&c, 1), Some(Some(g)));
    assert_eq!(game_of(&c, 2), Some(Some(g)));
    assert_eq!(game_of(&c, 3), Some(None));
    assert_eq!(c.games().len(), 1);
}

#[test]
fn leave_and_current_game() {
    let mut c = with_clients(2);
    let g = data_manager(&mut c, 1, &request(Commands::MakeNewGame, GameStatus::NotInGame, ""))
        .unwrap()
        .game_state;
    let r = data_manager(&mut c, 1, &request(Commands::GetCurrentGamestate, GameStatus::InGame, ""))
        .unwrap();
    assert_eq!(r.game_state, g);
    let r = data_manager(&mut c, 1, &request(Commands::MakeMove, GameStatus::InGame, "3"))
        .unwrap();
    assert_eq!(r.status, Status::NotOk);
    let r = data_manager(&mut c, 1, &request(Commands::LeaveGame, GameStatus::InGame, ""))
        .unwrap();
    assert_eq!(r.status, Status::Okay);
    assert_eq!(r.game_status, GameStatus::NotInGame);
    assert_eq!(game_of(&c, 1), Some(None));
    assert_eq!(c.games()[0], GameState { game_id: g.game_id, player_one: 0, player_two: 0 });
    let r = data_manager(&mut c, 2, &join(g.game_id)).unwrap();
    assert_eq!(r.game_state.player_one, 2);
}

#[test]
fn disconnect_removes_every_entry() {
    for in_game in [false, true] {
        let mut c = with_clients(2);
        if in_game {
            data_manager(&mut c, 1, &request(Commands::MakeNewGame, GameStatus::NotInGame, ""));
        }
        let mut last = None;
        for m in handle_client_disconnect(in_game) {
            last = data_manager(&mut c, 1, &m);
        }
        assert_eq!(last.unwrap().command, Commands::KillClient);
        assert_eq!(nick_of(&c, 1), None);
        assert_eq!(game_of(&c, 1), None);
        assert_eq!(c.clients().len(), 1);
        if in_game {
            assert_eq!(c.games()[0].player_one, 0);
        }
        assert!(set_up_new_client_tcp_connection(&mut c, 3));
    }
}

#[test]
fn disconnect_requests_in_order() {
    let msgs = handle_client_disconnect(true);
    assert_eq!(msgs.len(), 2);
    assert_eq!(msgs[0].command, Commands::LeaveGame);
    assert_eq!(msgs[0].game_status, GameStatus::InGame);
    assert_eq!(msgs[1].command, Commands::KillMe);
    assert_eq!(msgs[1].game_status, GameStatus::NotInGame);
    let msgs = handle_client_disconnect(false);
    assert_eq!(msgs.len(), 1);
    assert_eq!(msgs[0].command, Commands::KillMe);
}

#[test]
fn concurrent_new_games_are_all_kept() {
    let n: u32 = 20;
    let mut c = with_clients(n);
    for id in (1..=n).rev() {
        let r = data_manager(&mut c, id, &request(Commands::MakeNewGame, GameStatus::NotInGame, ""))
            .unwrap();
        assert_eq!(r.status, Status::Okay);
    }
    assert_eq!(c.games().len(), n as usize);
    let mut ids: Vec<u32> = c.games().iter().map(|g| g.game_id).collect();
    ids.sort();
    ids.dedup();
    assert_eq!(ids.len(), n as usize);
}

#[test]
fn auth_gate() {
    let secret = b"open sesame";
    assert!(is_client_authorized(b"open sesame", secret));
    assert!(!is_client_authorized(b"open sesamE", secret));
    assert!(!is_client_authorized(b"open", secret));
    assert!(!is_client_authorized(b"", secret));
    assert_eq!(auth_ack(), b"nice".to_vec());
}

#[test]
fn handler_tracks_game_and_kill() {
    let in_game = request(Commands::Reply, GameStatus::InGame, "");
    let out = request(Commands::Reply, GameStatus::NotInGame, "");
    let kill = request(Commands::KillClient, GameStatus::NotInGame, "");
    let a = after_reply(false, &out);
    assert!(!a.in_game && !a.close);
    let a = after_reply(false, &in_game);
    assert!(a.in_game && !a.close);
    let a = after_reply(true, &out);
    assert!(a.in_game);
    let a = after_reply(false, &kill);
    assert!(a.close);
}

#[test]
fn input_frame_decodes_read_prefix() {
    let msg = request(Commands::ListGames, GameStatus::NotInGame, "x");
    let mut buf: [u8; 512] = [0; 512];
    msg.serialize(&mut buf);
    assert_eq!(handle_client_input_msg(&buf, 512), Some(msg));
    assert_eq!(handle_client_input_msg(&buf, 10), None);
}

#[test]
fn end_to_end_scenario() {
    let secret = b"s3cret";
    let mut c = Coordinator::new();
    assert!(set_up_new_client_tcp_connection(&mut c, 1));
    assert!(is_client_authorized(b"s3cret", secret));
    let mut buf: [u8; 512] = [0; 512];
    request(Commands::SetNick, GameStatus::NotInGame, "Alice").serialize(&mut buf);
    let incoming = handle_client_input_msg(&buf, 512).unwrap();
    let r = data_manager(&mut c, 1, &incoming).unwrap();
    assert_eq!(r.status, Status::Okay);
    assert_eq!(r.headers, Headers::Response);
    assert_eq!(r.game_status, GameStatus::NotInGame);
    assert_eq!(nick_of(&c, 1), Some("Alice".to_string()));
    let r = data_manager(&mut c, 1, &request(Commands::MakeNewGame, GameStatus::NotInGame, ""))
        .unwrap();
    assert_eq!(r.status, Status::Okay);
    assert_eq!(r.game_status, GameStatus::InGame);
    let g = r.game_state.game_id;
    assert_eq!(game_of(&c, 1), Some(Some(g)));
    let mut c2 = with_clients(1);
    let before_games = c2.games().len();
    let r = data_manager(&mut c2, 1, &request(Commands::LeaveGame, GameStatus::NotInGame, ""))
        .unwrap();
    assert_eq!(r.status, Status::NotOk);
    assert_eq!(game_of(&c2, 1), Some(None));
    assert_eq!(nick_of(&c2, 1), Some("user_1".to_string()));
    assert_eq!(c2.games().len(), before_games);
}
