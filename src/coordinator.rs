//! The coordinator: the single owner of session and game state. Every request
//! of every connection passes through `data_manager`, one at a time, so no
//! other lock guards the game list.

use vstd::prelude::*;
use vstd::string::*;
use crate::proto::{Commands, GameState, GameStatus, Headers, Msg, MsgView, Status};
use crate::text::{comma_join, default_nick, dec, make_default_nick, push_decimal, push_item};

verus! {

/// One connected client: its id, its nickname, and the game it is in, if any.
pub struct Client {
    pub id: u32,
    pub nick: String,
    pub game: Option<u32>,
}

pub struct ClientView {
    pub id: u32,
    pub nick: Seq<char>,
    pub game: Option<u32>,
}

impl View for Client {
    type V = ClientView;

    open spec fn view(&self) -> ClientView {
        ClientView { id: self.id, nick: self.nick@, game: self.game }
    }
}

/// Session registry and game list. A client's entry holds its nickname and its
/// membership; the set of active nicknames is the set of the entries' nicknames.
pub struct Coordinator {
    clients: Vec<Client>,
    games: Vec<GameState>,
    next_game_id: u32,
}

pub struct CoordinatorView {
    pub clients: Seq<ClientView>,
    pub games: Seq<GameState>,
    pub next_game_id: u32,
}

impl View for Coordinator {
    type V = CoordinatorView;

    closed spec fn view(&self) -> CoordinatorView {
        CoordinatorView {
            clients: self.clients@.map_values(|c: Client| c@),
            games: self.games@,
            next_game_id: self.next_game_id,
        }
    }
}

// ---------------------------------------------------------------------------
// The model

pub open spec fn has_client(s: CoordinatorView, id: u32) -> bool {
    exists|i: int| 0 <= i < s.clients.len() && s.clients[i].id == id
}

pub open spec fn client_index(s: CoordinatorView, id: u32) -> int {
    choose|i: int| 0 <= i < s.clients.len() && s.clients[i].id == id
}

pub open spec fn nick_taken(s: CoordinatorView, nick: Seq<char>) -> bool {
    exists|i: int| 0 <= i < s.clients.len() && s.clients[i].nick == nick
}

pub open spec fn has_game(s: CoordinatorView, g: u32) -> bool {
    exists|k: int| 0 <= k < s.games.len() && s.games[k].game_id == g
}

pub open spec fn game_index(s: CoordinatorView, g: u32) -> int {
    choose|k: int| 0 <= k < s.games.len() && s.games[k].game_id == g
}

/// Client ids and nicknames are unique among the entries, game ids are unique
/// and below the next id to be handed out.
pub open spec fn wf(s: CoordinatorView) -> bool {
    &&& forall|i: int, j: int|
        0 <= i < s.clients.len() && 0 <= j < s.clients.len() && i != j ==> s.clients[i].id
            != s.clients[j].id
    &&& forall|i: int, j: int|
        0 <= i < s.clients.len() && 0 <= j < s.clients.len() && i != j ==> s.clients[i].nick
            != s.clients[j].nick
    &&& forall|k: int, l: int|
        0 <= k < s.games.len() && 0 <= l < s.games.len() && k != l ==> s.games[k].game_id
            != s.games[l].game_id
    &&& forall|k: int| 0 <= k < s.games.len() ==> s.games[k].game_id < s.next_game_id
}

pub open spec fn empty_game() -> GameState {
    GameState { game_id: 0, player_one: 0, player_two: 0 }
}

pub open spec fn reply(
    status: Status,
    command: Commands,
    game_status: GameStatus,
    data: Seq<char>,
    game_state: GameState,
) -> MsgView {
    MsgView { status, headers: Headers::Response, command, game_status, data, game_state }
}

/// `InGame` exactly for a client with a membership.
pub open spec fn membership_status(c: ClientView) -> GameStatus {
    if c.game is Some {
        GameStatus::InGame
    } else {
        GameStatus::NotInGame
    }
}

/// The answer to a request that is refused: nothing changes.
pub open spec fn refusal(c: ClientView) -> MsgView {
    reply(Status::NotOk, Commands::Reply, membership_status(c), Seq::empty(), empty_game())
}

pub open spec fn games_text(games: Seq<GameState>) -> Seq<char> {
    comma_join(games.map_values(|g: GameState| dec(g.game_id as nat)))
}

pub open spec fn nicks_text(clients: Seq<ClientView>) -> Seq<char> {
    comma_join(clients.map_values(|c: ClientView| c.nick))
}

/// A game with the player `id` taken out of its slot.
pub open spec fn without_player(g: GameState, id: u32) -> GameState {
    GameState {
        game_id: g.game_id,
        player_one: if g.player_one == id {
            0
        } else {
            g.player_one
        },
        player_two: if g.player_two == id {
            0
        } else {
            g.player_two
        },
    }
}

/// The game list once client `id`, member of game `g`, has left it.
pub open spec fn games_after_leave(s: CoordinatorView, id: u32, g: Option<u32>) -> Seq<GameState> {
    match g {
        Some(gid) => if has_game(s, gid) {
            s.games.update(game_index(s, gid), without_player(s.games[game_index(s, gid)], id))
        } else {
            s.games
        },
        None => s.games,
    }
}

pub open spec fn set_nick(s: CoordinatorView, i: int, nick: Seq<char>) -> CoordinatorView {
    CoordinatorView {
        clients: s.clients.update(i, ClientView { nick, ..s.clients[i] }),
        ..s
    }
}

/// The game that client `id` would enter by joining game `k` of the list.
pub open spec fn joined(g: GameState, id: u32) -> GameState {
    if g.player_one == 0 {
        GameState { player_one: id, ..g }
    } else {
        GameState { player_two: id, ..g }
    }
}

/// Requests that the lobby handler answers: the client is not in a game.
pub open spec fn lobby_step(s: CoordinatorView, id: u32, m: MsgView) -> (CoordinatorView, MsgView) {
    let i = client_index(s, id);
    let c = s.clients[i];
    match m.command {
        Commands::InitSetup => (
            s,
            reply(Status::Okay, Commands::Reply, membership_status(c), c.nick, empty_game()),
        ),
        Commands::SetNick => if m.data.len() == 0 || nick_taken(s, m.data) {
            (s, refusal(c))
        } else {
            (
                set_nick(s, i, m.data),
                reply(Status::Okay, Commands::Reply, membership_status(c), m.data, empty_game()),
            )
        },
        Commands::ListGames => (
            s,
            reply(
                Status::Okay,
                Commands::Reply,
                membership_status(c),
                games_text(s.games),
                empty_game(),
            ),
        ),
        Commands::ListUsers => (
            s,
            reply(
                Status::Okay,
                Commands::Reply,
                membership_status(c),
                nicks_text(s.clients),
                empty_game(),
            ),
        ),
        Commands::MakeNewGame => if c.game is Some || s.next_game_id == u32::MAX {
            (s, refusal(c))
        } else {
            let g = GameState { game_id: s.next_game_id, player_one: id, player_two: 0 };
            (
                CoordinatorView {
                    clients: s.clients.update(i, ClientView { game: Some(g.game_id), ..c }),
                    games: s.games.push(g),
                    next_game_id: (s.next_game_id + 1) as u32,
                },
                reply(Status::Okay, Commands::Reply, GameStatus::InGame, Seq::empty(), g),
            )
        },
        Commands::JoinGame => {
            let gid = m.game_state.game_id;
            if c.game is Some || !has_game(s, gid) || (s.games[game_index(s, gid)].player_one != 0
                && s.games[game_index(s, gid)].player_two != 0) {
                (s, refusal(c))
            } else {
                let k = game_index(s, gid);
                let g = joined(s.games[k], id);
                (
                    CoordinatorView {
                        clients: s.clients.update(i, ClientView { game: Some(gid), ..c }),
                        games: s.games.update(k, g),
                        next_game_id: s.next_game_id,
                    },
                    reply(Status::Okay, Commands::Reply, GameStatus::InGame, Seq::empty(), g),
                )
            }
        },
        Commands::GetCurrentGamestate => current_game_step(s, id),
        Commands::KillMe => (
            CoordinatorView {
                clients: s.clients.remove(i),
                games: games_after_leave(s, id, c.game),
                next_game_id: s.next_game_id,
            },
            reply(
                Status::Okay,
                Commands::KillClient,
                GameStatus::NotInGame,
                Seq::empty(),
                empty_game(),
            ),
        ),
        _ => (s, refusal(c)),
    }
}

pub open spec fn current_game_step(s: CoordinatorView, id: u32) -> (CoordinatorView, MsgView) {
    let c = s.clients[client_index(s, id)];
    match c.game {
        Some(g) => if has_game(s, g) {
            (
                s,
                reply(
                    Status::Okay,
                    Commands::Reply,
                    GameStatus::InGame,
                    Seq::empty(),
                    s.games[game_index(s, g)],
                ),
            )
        } else {
            (s, refusal(c))
        },
        None => (s, refusal(c)),
    }
}

/// Requests that the in-game handler answers. Moves and the end of a game are
/// for the game rules, which this library does not hold: they are refused.
pub open spec fn in_game_step(s: CoordinatorView, id: u32, m: MsgView) -> (
    CoordinatorView,
    MsgView,
) {
    let i = client_index(s, id);
    let c = s.clients[i];
    match m.command {
        Commands::LeaveGame => if c.game is Some {
            (
                CoordinatorView {
                    clients: s.clients.update(i, ClientView { game: None, ..c }),
                    games: games_after_leave(s, id, c.game),
                    next_game_id: s.next_game_id,
                },
                reply(
                    Status::Okay,
                    Commands::Reply,
                    GameStatus::NotInGame,
                    Seq::empty(),
                    empty_game(),
                ),
            )
        } else {
            (s, refusal(c))
        },
        Commands::GetCurrentGamestate => current_game_step(s, id),
        _ => (s, refusal(c)),
    }
}

/// One request of a registered client: the new state and the answer.
pub open spec fn step(s: CoordinatorView, id: u32, m: MsgView) -> (CoordinatorView, MsgView) {
    if m.game_status == GameStatus::NotInGame {
        lobby_step(s, id, m)
    } else {
        in_game_step(s, id, m)
    }
}

// ---------------------------------------------------------------------------
// The state and its handlers

proof fn lemma_games_after_leave(s: CoordinatorView, id: u32, g: Option<u32>)
    requires
        wf(s),
    ensures
        games_after_leave(s, id, g).len() == s.games.len(),
        forall|k: int|
            0 <= k < s.games.len() ==> #[trigger] games_after_leave(s, id, g)[k].game_id
                == s.games[k].game_id,
{
}

impl Coordinator {
    /// No clients and no games; the first game gets id 1.
    pub fn new() -> (r: Coordinator)
        ensures
            r@.clients.len() == 0,
            r@.games.len() == 0,
            r@.next_game_id == 1,
            wf(r@),
    {
        let r = Coordinator { clients: Vec::new(), games: Vec::new(), next_game_id: 1 };
        assert(r@.clients =~= Seq::<ClientView>::empty());
        r
    }

    /// The entries of the connected clients, in order of registration.
    pub fn clients(&self) -> (r: &Vec<Client>)
        ensures
            r@.map_values(|c: Client| c@) == self@.clients,
    {
        &self.clients
    }

    /// The game list.
    pub fn games(&self) -> (r: &Vec<GameState>)
        ensures
            r@ == self@.games,
    {
        &self.games
    }

    fn find_client(&self, id: u32) -> (r: Option<usize>)
        requires
            wf(self@),
        ensures
            r is Some <==> has_client(self@, id),
            r matches Some(i) ==> i == client_index(self@, id) && i < self@.clients.len(),
    {
        let mut i: usize = 0;
        while i < self.clients.len()
            invariant
                wf(self@),
                i <= self.clients@.len(),
                forall|j: int| 0 <= j < i ==> self@.clients[j].id != id,
            decreases self.clients@.len() - i,
        {
            if self.clients[i].id == id {
                assert(self@.clients[i as int].id == id);
                assert(has_client(self@, id));
                assert(client_index(self@, id) == i);
                return Some(i);
            }
            i = i + 1;
        }
        None
    }

    fn nick_in_use(&self, nick: &String) -> (r: bool)
        ensures
            r == nick_taken(self@, nick@),
    {
        let mut i: usize = 0;
        while i < self.clients.len()
            invariant
                i <= self.clients@.len(),
                forall|j: int| 0 <= j < i ==> self@.clients[j].nick != nick@,
            decreases self.clients@.len() - i,
        {
            if self.clients[i].nick == *nick {
                assert(self@.clients[i as int].nick == nick@);
                return true;
            }
            i = i + 1;
        }
        false
    }

    fn find_game(&self, g: u32) -> (r: Option<usize>)
        requires
            wf(self@),
        ensures
            r is Some <==> has_game(self@, g),
            r matches Some(k) ==> k == game_index(self@, g) && k < self@.games.len(),
    {
        let mut k: usize = 0;
        while k < self.games.len()
            invariant
                wf(self@),
                k <= self.games@.len(),
                forall|j: int| 0 <= j < k ==> self@.games[j].game_id != g,
            decreases self.games@.len() - k,
        {
            if self.games[k].game_id == g {
                assert(self@.games[k as int].game_id == g);
                assert(has_game(self@, g));
                assert(game_index(self@, g) == k);
                return Some(k);
            }
            k = k + 1;
        }
        None
    }

    fn games_list_text(&self) -> (r: String)
        ensures
            r@ == games_text(self@.games),
    {
        let ghost items = self@.games.map_values(|g: GameState| dec(g.game_id as nat));
        let mut out = String::new();
        let mut k: usize = 0;
        while k < self.games.len()
            invariant
                k <= self.games@.len(),
                items == self@.games.map_values(|g: GameState| dec(g.game_id as nat)),
                out@ == comma_join(items.take(k as int)),
            decreases self.games@.len() - k,
        {
            let mut digits = String::new();
            push_decimal(&mut digits, self.games[k].game_id);
            assert(digits@ =~= items[k as int]);
            push_item(&mut out, digits.as_str(), k == 0);
            assert(items.take(k + 1).drop_last() =~= items.take(k as int));
            k = k + 1;
        }
        assert(items.take(k as int) =~= items);
        out
    }

    fn nicks_list_text(&self) -> (r: String)
        ensures
            r@ == nicks_text(self@.clients),
    {
        let ghost items = self@.clients.map_values(|c: ClientView| c.nick);
        let mut out = String::new();
        let mut i: usize = 0;
        while i < self.clients.len()
            invariant
                i <= self.clients@.len(),
                items == self@.clients.map_values(|c: ClientView| c.nick),
                out@ == comma_join(items.take(i as int)),
            decreases self.clients@.len() - i,
        {
            push_item(&mut out, self.clients[i].nick.as_str(), i == 0);
            assert(items.take(i + 1).drop_last() =~= items.take(i as int));
            i = i + 1;
        }
        assert(items.take(i as int) =~= items);
        out
    }
}

fn make_reply(
    status: Status,
    command: Commands,
    game_status: GameStatus,
    data: String,
    game_state: GameState,
) -> (r: Msg)
    ensures
        r@ == reply(status, command, game_status, data@, game_state),
{
    Msg { status, headers: Headers::Response, command, game_status, data, game_state }
}

fn empty_game_state() -> (r: GameState)
    ensures
        r == empty_game(),
{
    GameState { game_id: 0, player_one: 0, player_two: 0 }
}

fn status_of_membership(game: Option<u32>) -> (r: GameStatus)
    ensures
        r == (if game is Some {
            GameStatus::InGame
        } else {
            GameStatus::NotInGame
        }),
{
    if game.is_some() {
        GameStatus::InGame
    } else {
        GameStatus::NotInGame
    }
}

impl Coordinator {
    fn refuse(&self, i: usize) -> (r: Msg)
        requires
            i < self@.clients.len(),
        ensures
            r@ == refusal(self@.clients[i as int]),
    {
        let gs = status_of_membership(self.clients[i].game);
        make_reply(Status::NotOk, Commands::Reply, gs, String::new(), empty_game_state())
    }

    fn current_game(&self, i: usize, id: u32) -> (r: Msg)
        requires
            wf(self@),
            has_client(self@, id),
            i == client_index(self@, id),
        ensures
            r@ == current_game_step(self@, id).1,
    {
        match self.clients[i].game {
            Some(g) => match self.find_game(g) {
                Some(k) => make_reply(
                    Status::Okay,
                    Commands::Reply,
                    GameStatus::InGame,
                    String::new(),
                    self.games[k],
                ),
                None => self.refuse(i),
            },
            None => self.refuse(i),
        }
    }

    /// Takes client `id`, member of `game`, out of its slot in that game.
    fn leave_game_slots(&mut self, id: u32, game: Option<u32>)
        requires
            wf(old(self)@),
        ensures
            final(self)@ == (CoordinatorView { games: games_after_leave(old(self)@, id, game), ..old(self)@ }),
            wf(final(self)@),
    {
        proof {
            lemma_games_after_leave(self@, id, game);
        }
        if let Some(g) = game {
            if let Some(k) = self.find_game(g) {
                let old_game = self.games[k];
                let p1 = if old_game.player_one == id { 0 } else { old_game.player_one };
                let p2 = if old_game.player_two == id { 0 } else { old_game.player_two };
                self.games.set(k, GameState { game_id: old_game.game_id, player_one: p1, player_two: p2 });
            }
        }
        assert(self@.clients =~= old(self)@.clients);
    }

    /// Answers a request of client `id`, registered at entry `i`, that is
    /// not in a game.
    fn handle_out_of_game(&mut self, i: usize, id: u32, msg: &Msg) -> (r: Msg)
        requires
            wf(old(self)@),
            has_client(old(self)@, id),
            i == client_index(old(self)@, id),
        ensures
            final(self)@ == lobby_step(old(self)@, id, msg@).0,
            r@ == lobby_step(old(self)@, id, msg@).1,
            wf(final(self)@),
    {
        let ghost s0 = self@;
        match msg.command {
            Commands::InitSetup => {
                let gs = status_of_membership(self.clients[i].game);
                make_reply(
                    Status::Okay,
                    Commands::Reply,
                    gs,
                    self.clients[i].nick.clone(),
                    empty_game_state(),
                )
            },
            Commands::SetNick => {
                if msg.data.as_str().is_empty() || self.nick_in_use(&msg.data) {
                    return self.refuse(i);
                }
                let gs = status_of_membership(self.clients[i].game);
                let c = Client { id: self.clients[i].id, nick: msg.data.clone(), game: self.clients[i].game };
                self.clients.set(i, c);
                assert(self@.clients =~= s0.clients.update(
                    i as int,
                    ClientView { nick: msg.data@, ..s0.clients[i as int] },
                ));
                make_reply(Status::Okay, Commands::Reply, gs, msg.data.clone(), empty_game_state())
            },
            Commands::ListGames => {
                let gs = status_of_membership(self.clients[i].game);
                make_reply(Status::Okay, Commands::Reply, gs, self.games_list_text(), empty_game_state())
            },
            Commands::ListUsers => {
                let gs = status_of_membership(self.clients[i].game);
                make_reply(Status::Okay, Commands::Reply, gs, self.nicks_list_text(), empty_game_state())
            },
            Commands::MakeNewGame => {
                if self.clients[i].game.is_some() || self.next_game_id == u32::MAX {
                    return self.refuse(i);
                }
                let g = GameState { game_id: self.next_game_id, player_one: id, player_two: 0 };
                let c = Client { id: self.clients[i].id, nick: self.clients[i].nick.clone(), game: Some(g.game_id) };
                self.clients.set(i, c);
                self.games.push(g);
                self.next_game_id = self.next_game_id + 1;
                assert(self@.clients =~= s0.clients.update(
                    i as int,
                    ClientView { game: Some(g.game_id), ..s0.clients[i as int] },
                ));
                make_reply(Status::Okay, Commands::Reply, GameStatus::InGame, String::new(), g)
            },
            Commands::JoinGame => {
                let gid = msg.game_state.game_id;
                if self.clients[i].game.is_some() {
                    return self.refuse(i);
                }
                let k = match self.find_game(gid) {
                    Some(k) => k,
                    None => {
                        return self.refuse(i);
                    },
                };
                let old_game = self.games[k];
                if old_game.player_one != 0 && old_game.player_two != 0 {
                    return self.refuse(i);
                }
                let g = if old_game.player_one == 0 {
                    GameState { game_id: old_game.game_id, player_one: id, player_two: old_game.player_two }
                } else {
                    GameState { game_id: old_game.game_id, player_one: old_game.player_one, player_two: id }
                };
                let c = Client { id: self.clients[i].id, nick: self.clients[i].nick.clone(), game: Some(gid) };
                self.clients.set(i, c);
                self.games.set(k, g);
                assert(self@.clients =~= s0.clients.update(
                    i as int,
                    ClientView { game: Some(gid), ..s0.clients[i as int] },
                ));
                make_reply(Status::Okay, Commands::Reply, GameStatus::InGame, String::new(), g)
            },
            Commands::GetCurrentGamestate => self.current_game(i, id),
            Commands::KillMe => {
                let game = self.clients[i].game;
                self.leave_game_slots(id, game);
                let ghost s1 = self@;
                self.clients.remove(i);
                assert(self@.clients =~= s1.clients.remove(i as int));
                make_reply(
                    Status::Okay,
                    Commands::KillClient,
                    GameStatus::NotInGame,
                    String::new(),
                    empty_game_state(),
                )
            },
            _ => self.refuse(i),
        }
    }

    /// Answers a request of client `id`, registered at entry `i`, sent from
    /// within a game.
    fn handle_in_game(&mut self, i: usize, id: u32, msg: &Msg) -> (r: Msg)
        requires
            wf(old(self)@),
            has_client(old(self)@, id),
            i == client_index(old(self)@, id),
        ensures
            final(self)@ == in_game_step(old(self)@, id, msg@).0,
            r@ == in_game_step(old(self)@, id, msg@).1,
            wf(final(self)@),
    {
        let ghost s0 = self@;
        match msg.command {
            Commands::LeaveGame => {
                let game = self.clients[i].game;
                if game.is_none() {
                    return self.refuse(i);
                }
                self.leave_game_slots(id, game);
                let c = Client { id: self.clients[i].id, nick: self.clients[i].nick.clone(), game: None };
                self.clients.set(i, c);
                assert(self@.clients =~= s0.clients.update(
                    i as int,
                    ClientView { game: None, ..s0.clients[i as int] },
                ));
                make_reply(
                    Status::Okay,
                    Commands::Reply,
                    GameStatus::NotInGame,
                    String::new(),
                    empty_game_state(),
                )
            },
            Commands::GetCurrentGamestate => self.current_game(i, id),
            _ => self.refuse(i),
        }
    }
}

/// One pass of the coordinator over a request of client `id`: the request is
/// answered by the lobby handler when it says the client is not in a game, by
/// the in-game handler otherwise. A request from an id with no entry is a
/// bookkeeping error: it is dropped with `None` and nothing changes.
pub fn data_manager(state: &mut Coordinator, id: u32, msg: &Msg) -> (r: Option<Msg>)
    requires
        wf(old(state)@),
    ensures
        wf(final(state)@),
        r is Some <==> has_client(old(state)@, id),
        r is None ==> final(state)@ == old(state)@,
        r matches Some(m) ==> final(state)@ == step(old(state)@, id, msg@).0 && m@ == step(
            old(state)@,
            id,
            msg@,
        ).1,
{
    let i = match state.find_client(id) {
        Some(i) => i,
        None => {
            return None;
        },
    };
    if msg.game_status == GameStatus::NotInGame {
        Some(state.handle_out_of_game(i, id, msg))
    } else {
        Some(state.handle_in_game(i, id, msg))
    }
}

/// The entry a client gets when it connects.
pub open spec fn new_client(id: u32) -> ClientView {
    ClientView { id, nick: default_nick(id), game: None }
}

/// Registers client `cur_id` with nickname `user_<cur_id>` and no game. It is
/// refused, with nothing changed, where the id already has an entry or the
/// nickname is held.
pub fn set_up_new_client_tcp_connection(state: &mut Coordinator, cur_id: u32) -> (r: bool)
    requires
        wf(old(state)@),
    ensures
        wf(final(state)@),
        r == (!has_client(old(state)@, cur_id) && !nick_taken(old(state)@, default_nick(cur_id))),
        r ==> final(state)@ == (CoordinatorView {
            clients: old(state)@.clients.push(new_client(cur_id)),
            ..old(state)@
        }),
        r ==> has_client(final(state)@, cur_id),
        !r ==> final(state)@ == old(state)@,
{
    if state.find_client(cur_id).is_some() {
        return false;
    }
    let nick = make_default_nick(cur_id);
    if state.nick_in_use(&nick) {
        return false;
    }
    let ghost s0 = state@;
    state.clients.push(Client { id: cur_id, nick, game: None });
    assert(state@.clients =~= s0.clients.push(new_client(cur_id)));
    assert(state@.clients[s0.clients.len() as int].id == cur_id);
    true
}

// ---------------------------------------------------------------------------
// Laws

/// Every request keeps the registry well formed: client ids unique, nicknames
/// unique, game ids unique.
pub proof fn lemma_step_keeps_wf(s: CoordinatorView, id: u32, m: MsgView)
    requires
        wf(s),
        has_client(s, id),
    ensures
        wf(step(s, id, m).0),
{
    let i = client_index(s, id);
    let c = s.clients[i];
    lemma_games_after_leave(s, id, c.game);
    if m.game_status == GameStatus::NotInGame {
        match m.command {
            Commands::KillMe => {
                let s2 = step(s, id, m).0;
                assert forall|a: int, b: int|
                    0 <= a < s2.clients.len() && 0 <= b < s2.clients.len() && a != b implies s2.clients[a].id
                        != s2.clients[b].id && s2.clients[a].nick != s2.clients[b].nick by {
                    let a0 = if a < i { a } else { a + 1 };
                    let b0 = if b < i { b } else { b + 1 };
                    assert(s2.clients[a] == s.clients[a0]);
                    assert(s2.clients[b] == s.clients[b0]);
                }
            },
            _ => {},
        }
    }
}

/// A nickname that is held cannot be taken: `SetNick` with it is refused and
/// nothing changes. One that is free is taken, and stays unique.
pub proof fn lemma_set_nick(s: CoordinatorView, id: u32, m: MsgView)
    requires
        wf(s),
        has_client(s, id),
        m.command == Commands::SetNick,
        m.game_status == GameStatus::NotInGame,
    ensures
        nick_taken(s, m.data) ==> step(s, id, m).0 == s && step(s, id, m).1.status
            == Status::NotOk,
        !nick_taken(s, m.data) && m.data.len() > 0 ==> step(s, id, m).0.clients[client_index(
            s,
            id,
        )].nick == m.data && step(s, id, m).1.status == Status::Okay,
        wf(step(s, id, m).0),
{
    lemma_step_keeps_wf(s, id, m);
}

/// A client id has at most one entry, so it is a member of at most one game.
pub proof fn lemma_membership_exclusive(s: CoordinatorView, id: u32)
    requires
        wf(s),
    ensures
        forall|i: int, j: int|
            0 <= i < s.clients.len() && 0 <= j < s.clients.len() && s.clients[i].id == id
                && s.clients[j].id == id ==> i == j && s.clients[i].game == s.clients[j].game,
{
}

/// `KillMe` removes the client's entry, and with it its nickname and its
/// membership.
pub proof fn lemma_kill_me_removes(s: CoordinatorView, id: u32, m: MsgView)
    requires
        wf(s),
        has_client(s, id),
        m.command == Commands::KillMe,
        m.game_status == GameStatus::NotInGame,
    ensures
        !has_client(step(s, id, m).0, id),
        !nick_taken(step(s, id, m).0, s.clients[client_index(s, id)].nick),
        step(s, id, m).1.command == Commands::KillClient,
{
    let i = client_index(s, id);
    let s2 = step(s, id, m).0;
    assert forall|a: int| 0 <= a < s2.clients.len() implies s2.clients[a].id != id
        && s2.clients[a].nick != s.clients[i].nick by {
        let a0 = if a < i { a } else { a + 1 };
        assert(s2.clients[a] == s.clients[a0]);
    }
}

/// A `MakeNewGame` that is granted adds exactly one game, with an id that no
/// game had.
pub proof fn lemma_make_new_game(s: CoordinatorView, id: u32, m: MsgView)
    requires
        wf(s),
        has_client(s, id),
        m.command == Commands::MakeNewGame,
        m.game_status == GameStatus::NotInGame,
        s.clients[client_index(s, id)].game is None,
        s.next_game_id < u32::MAX,
    ensures
        step(s, id, m).0.games == s.games.push(step(s, id, m).1.game_state),
        !has_game(s, step(s, id, m).1.game_state.game_id),
        step(s, id, m).0.clients[client_index(s, id)].game == Some(
            step(s, id, m).1.game_state.game_id,
        ),
        step(s, id, m).1.status == Status::Okay,
        wf(step(s, id, m).0),
{
    lemma_step_keeps_wf(s, id, m);
}

/// The state once the coordinator has answered `reqs`, pairs of a client id
/// and a request, in the order they arrived; a request from an id without an
/// entry changes nothing.
pub open spec fn run_all(s: CoordinatorView, reqs: Seq<(u32, MsgView)>) -> CoordinatorView
    decreases reqs.len(),
{
    if reqs.len() == 0 {
        s
    } else {
        let s1 = if has_client(s, reqs[0].0) {
            step(s, reqs[0].0, reqs[0].1).0
        } else {
            s
        };
        run_all(s1, reqs.drop_first())
    }
}

/// Where distinct clients, none of them in a game, each ask for a new game and
/// the coordinator answers them one at a time, in whatever order they came,
/// the game list keeps its entries and gains exactly one per request, all game
/// ids distinct.
pub proof fn lemma_new_games(s: CoordinatorView, reqs: Seq<(u32, MsgView)>)
    requires
        wf(s),
        forall|k: int|
            0 <= k < reqs.len() ==> (#[trigger] reqs[k]).1.command == Commands::MakeNewGame
                && reqs[k].1.game_status == GameStatus::NotInGame && has_client(s, reqs[k].0)
                && s.clients[client_index(s, reqs[k].0)].game is None,
        forall|k: int, l: int| 0 <= k < reqs.len() && 0 <= l < reqs.len() && k != l ==> reqs[k].0 != reqs[l].0,
        s.next_game_id + reqs.len() < u32::MAX,
    ensures
        run_all(s, reqs).games.len() == s.games.len() + reqs.len(),
        run_all(s, reqs).games.subrange(0, s.games.len() as int) == s.games,
        wf(run_all(s, reqs)),
    decreases reqs.len(),
{
    if reqs.len() > 0 {
        let id = reqs[0].0;
        let m = reqs[0].1;
        lemma_make_new_game(s, id, m);
        let i = client_index(s, id);
        let s1 = step(s, id, m).0;
        let rest = reqs.drop_first();
        assert forall|k: int| 0 <= k < rest.len() implies (#[trigger] rest[k]).1.command
            == Commands::MakeNewGame && rest[k].1.game_status == GameStatus::NotInGame
            && has_client(s1, rest[k].0) && s1.clients[client_index(s1, rest[k].0)].game is None by {
            assert(rest[k] == reqs[k + 1]);
            let x = rest[k].0;
            assert(x != id);
            let j = client_index(s, x);
            assert(s1.clients[j].id == x);
            assert(has_client(s1, x));
            assert(client_index(s1, x) == j);
        }
        assert forall|k: int, l: int| 0 <= k < rest.len() && 0 <= l < rest.len() && k != l implies rest[k].0 != rest[l].0 by {
            assert(rest[k] == reqs[k + 1]);
            assert(rest[l] == reqs[l + 1]);
        }
        lemma_new_games(s1, rest);
        assert(run_all(s, reqs) == run_all(s1, rest));
        let f = run_all(s1, rest);
        assert(f.games.subrange(0, s.games.len() as int) =~= f.games.subrange(0, s1.games.len() as int).subrange(0, s.games.len() as int));
        assert(s1.games.subrange(0, s.games.len() as int) =~= s.games);
    }
}

} // verus!
