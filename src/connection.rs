//! Decisions of the per-connection handler. The handler authenticates the
//! peer, then alternates: one frame in, one request to the coordinator, one
//! reply frame out. The reading, writing and waiting are done by the caller.

use vstd::prelude::*;
use vstd::slice::slice_subrange;
use crate::coordinator::{
    has_client, lemma_kill_me_removes, lemma_step_keeps_wf, step, wf,
    CoordinatorView,
};
use crate::proto::{
    encodes, fits_in_frame, frame_of, Commands, GameState, GameStatus, Headers, Msg, MsgView,
    Status, FRAME_SIZE,
};

verus! {

/// The request by which a departing client leaves its game.
pub open spec fn leave_game_request() -> MsgView {
    MsgView {
        status: Status::Okay,
        headers: Headers::Write,
        command: Commands::LeaveGame,
        game_status: GameStatus::InGame,
        data: Seq::empty(),
        game_state: GameState { game_id: 0, player_one: 0, player_two: 0 },
    }
}

/// The request by which a departing client has its entries removed.
pub open spec fn disconnect_request() -> MsgView {
    MsgView {
        status: Status::Okay,
        headers: Headers::Write,
        command: Commands::KillMe,
        game_status: GameStatus::NotInGame,
        data: Seq::empty(),
        game_state: GameState { game_id: 0, player_one: 0, player_two: 0 },
    }
}

/// The requests sent on behalf of a departing client, in order.
pub open spec fn disconnect_requests(in_game: bool) -> Seq<MsgView> {
    if in_game {
        seq![leave_game_request(), disconnect_request()]
    } else {
        seq![disconnect_request()]
    }
}

pub fn leave_game() -> (r: Msg)
    ensures
        r@ == leave_game_request(),
{
    Msg {
        status: Status::Okay,
        headers: Headers::Write,
        command: Commands::LeaveGame,
        game_status: GameStatus::InGame,
        data: String::new(),
        game_state: GameState::new_empty(),
    }
}

pub fn client_initiate_disconnect() -> (r: Msg)
    ensures
        r@ == disconnect_request(),
{
    Msg {
        status: Status::Okay,
        headers: Headers::Write,
        command: Commands::KillMe,
        game_status: GameStatus::NotInGame,
        data: String::new(),
        game_state: GameState::new_empty(),
    }
}

/// The requests that the handler sends, each awaiting its reply, when its
/// connection ends: a `LeaveGame` first if the client is in a game, then
/// always a `KillMe`.
pub fn handle_client_disconnect(in_game: bool) -> (r: Vec<Msg>)
    ensures
        r@.map_values(|m: Msg| m@) == disconnect_requests(in_game),
{
    let mut boot_msgs: Vec<Msg> = Vec::new();
    if in_game {
        boot_msgs.push(leave_game());
    }
    boot_msgs.push(client_initiate_disconnect());
    assert(boot_msgs@.map_values(|m: Msg| m@) =~= disconnect_requests(in_game));
    boot_msgs
}

/// Whether the first frame a peer sent is the shared secret, byte for byte.
pub fn is_client_authorized(received: &[u8], secret: &[u8]) -> (r: bool)
    ensures
        r == (received@ == secret@),
{
    if received.len() != secret.len() {
        return false;
    }
    let mut i: usize = 0;
    while i < received.len()
        invariant
            received@.len() == secret@.len(),
            i <= received@.len(),
            forall|j: int| 0 <= j < i ==> received@[j] == secret@[j],
        decreases received@.len() - i,
    {
        if received[i] != secret[i] {
            return false;
        }
        i = i + 1;
    }
    assert(received@ =~= secret@);
    true
}

/// The acknowledgement written to a peer that sent the secret: `nice`.
pub open spec fn ack_bytes() -> Seq<u8> {
    seq![110u8, 105u8, 99u8, 101u8]
}

pub fn auth_ack() -> (r: Vec<u8>)
    ensures
        r@ == ack_bytes(),
{
    let mut v: Vec<u8> = Vec::new();
    v.push(110);
    v.push(105);
    v.push(99);
    v.push(101);
    assert(v@ =~= ack_bytes());
    v
}

/// The message carried by the first `size` bytes of a frame that was read,
/// or `None` where they hold none.
pub fn handle_client_input_msg(buffer: &[u8; 512], size: usize) -> (r: Option<Msg>)
    requires
        size <= FRAME_SIZE,
    ensures
        r matches Some(m) ==> encodes(m@, buffer@.subrange(0, size as int)),
        r is None <==> forall|m: MsgView| !#[trigger] encodes(m, buffer@.subrange(0, size as int)),
{
    let read = slice_subrange(buffer.as_slice(), 0, size);
    Msg::decode(read)
}

/// What the handler does after the coordinator answered.
pub struct AfterReply {
    /// Whether the client is now in a game, as far as the handler knows.
    pub in_game: bool,
    /// Whether the connection is to be closed once the reply is written.
    pub close: bool,
}

/// The handler's flag turns on with the first reply that says `InGame` and
/// does not turn off; a `KillClient` reply ends the connection.
pub fn after_reply(in_game: bool, reply: &Msg) -> (r: AfterReply)
    ensures
        r.in_game == (in_game || reply.game_status == GameStatus::InGame),
        r.close == (reply.command == Commands::KillClient),
{
    AfterReply {
        in_game: in_game || reply.game_status == GameStatus::InGame,
        close: reply.command == Commands::KillClient,
    }
}

/// Where a connection stands.
#[derive(PartialEq, Eq, Structural, Debug, Clone, Copy)]
pub enum Phase {
    /// Waiting for the secret.
    Authenticating,
    /// Waiting for the next frame of the client.
    Idle,
    /// A request is with the coordinator; its reply is awaited.
    AwaitingReply,
    /// The connection is over.
    Closed,
}

/// What the caller does next for a connection.
pub enum Action {
    /// Write the acknowledgement, `auth_ack`.
    SendAck,
    /// Send this request to the coordinator; hand its reply to `on_reply`.
    Forward(Msg),
    /// Write this frame.
    SendFrame([u8; 512]),
    /// Write this frame, then shut the connection down.
    SendFrameAndClose([u8; 512]),
    /// Send these requests to the coordinator one at a time, each awaiting
    /// its reply, then shut the connection down.
    Disconnect(Vec<Msg>),
    /// Nothing: the event does not belong to the current phase.
    Ignore,
}

/// The per-connection handler's state: its phase, and whether the client is
/// in a game as far as the replies told.
pub struct Connection {
    pub phase: Phase,
    pub in_game: bool,
}

/// The action is the cleanup of a client whose in-game flag is `in_game`.
pub open spec fn is_disconnect(a: Action, in_game: bool) -> bool {
    a matches Action::Disconnect(v) && v@.map_values(|m: Msg| m@) == disconnect_requests(in_game)
}

/// The action forwards the message whose encoding begins `b`.
pub open spec fn forwards(a: Action, b: Seq<u8>) -> bool {
    a matches Action::Forward(m) && encodes(m@, b)
}

/// The action writes the frame of `m`, then closes the connection where `close`.
pub open spec fn sends_frame(a: Action, m: MsgView, close: bool) -> bool {
    if close {
        a matches Action::SendFrameAndClose(f) && f@ == frame_of(m)
    } else {
        a matches Action::SendFrame(f) && f@ == frame_of(m)
    }
}

impl Connection {
    pub fn new() -> (r: Connection)
        ensures
            r.phase == Phase::Authenticating,
            !r.in_game,
    {
        Connection { phase: Phase::Authenticating, in_game: false }
    }

    fn close_and_clean_up(&mut self) -> (r: Action)
        ensures
            final(self).phase == Phase::Closed,
            final(self).in_game == old(self).in_game,
            is_disconnect(r, old(self).in_game),
    {
        self.phase = Phase::Closed;
        Action::Disconnect(handle_client_disconnect(self.in_game))
    }

    /// A read on the socket ended: `Some(n)` where `n` bytes came into
    /// `buffer`, `None` where the read failed. While authenticating, the bytes
    /// must be the secret; afterwards each read must carry one message, and
    /// zero bytes mean that the peer left. Any failure ends the connection
    /// with the cleanup requests.
    pub fn on_read(&mut self, buffer: &[u8; 512], size: Option<usize>, secret: &[u8]) -> (r:
        Action)
        requires
            size matches Some(n) ==> n <= FRAME_SIZE,
        ensures
            old(self).phase == Phase::Authenticating ==> {
                let ok = size matches Some(n) && buffer@.subrange(0, n as int) == secret@;
                &&& final(self).in_game == old(self).in_game
                &&& ok ==> final(self).phase == Phase::Idle && r is SendAck
                &&& !ok ==> final(self).phase == Phase::Closed && is_disconnect(r, old(self).in_game)
            },
            old(self).phase == Phase::Idle ==> {
                let got = size matches Some(n) && n > 0 && exists|m: MsgView|
                    #[trigger] encodes(m, buffer@.subrange(0, n as int));
                &&& final(self).in_game == old(self).in_game
                &&& got ==> final(self).phase == Phase::AwaitingReply && forwards(
                    r,
                    buffer@.subrange(0, size->Some_0 as int),
                )
                &&& !got ==> final(self).phase == Phase::Closed && is_disconnect(r, old(self).in_game)
            },
            old(self).phase == Phase::AwaitingReply || old(self).phase == Phase::Closed ==> r is Ignore
                && *final(self) == *old(self),
    {
        match self.phase {
            Phase::Authenticating => {
                let ok = match size {
                    Some(n) => is_client_authorized(slice_subrange(buffer.as_slice(), 0, n), secret),
                    None => false,
                };
                if ok {
                    self.phase = Phase::Idle;
                    Action::SendAck
                } else {
                    self.close_and_clean_up()
                }
            },
            Phase::Idle => {
                let n = match size {
                    Some(n) => n,
                    None => {
                        return self.close_and_clean_up();
                    },
                };
                if n == 0 {
                    return self.close_and_clean_up();
                }
                match handle_client_input_msg(buffer, n) {
                    Some(m) => {
                        self.phase = Phase::AwaitingReply;
                        Action::Forward(m)
                    },
                    None => self.close_and_clean_up(),
                }
            },
            _ => Action::Ignore,
        }
    }

    /// The coordinator answered the request in flight. The reply goes out as
    /// one frame; a `KillClient` reply ends the connection after it. A reply
    /// too long for a frame ends the connection with the cleanup requests.
    pub fn on_reply(&mut self, reply: &Msg) -> (r: Action)
        ensures
            old(self).phase == Phase::AwaitingReply ==> {
                let in_game = old(self).in_game || reply.game_status == GameStatus::InGame;
                &&& final(self).in_game == in_game
                &&& !fits_in_frame(reply@) ==> final(self).phase == Phase::Closed && is_disconnect(
                    r,
                    in_game,
                )
                &&& fits_in_frame(reply@) && reply.command == Commands::KillClient ==> final(self).phase == Phase::Closed && sends_frame(r, reply@, true)
                &&& fits_in_frame(reply@) && reply.command != Commands::KillClient ==> final(self).phase == Phase::Idle && sends_frame(r, reply@, false)
            },
            old(self).phase != Phase::AwaitingReply ==> r is Ignore && *final(self) == *old(self),
    {
        if self.phase != Phase::AwaitingReply {
            return Action::Ignore;
        }
        let next = after_reply(self.in_game, reply);
        self.in_game = next.in_game;
        if !reply.fits_frame() {
            return self.close_and_clean_up();
        }
        let mut frame: [u8; 512] = [0; 512];
        reply.serialize(&mut frame);
        if next.close {
            self.phase = Phase::Closed;
            Action::SendFrameAndClose(frame)
        } else {
            self.phase = Phase::Idle;
            Action::SendFrame(frame)
        }
    }

    /// Writing to the socket failed: unless the connection is already over,
    /// it ends with the cleanup requests.
    pub fn on_write_failed(&mut self) -> (r: Action)
        ensures
            old(self).phase != Phase::Closed ==> final(self).phase == Phase::Closed
                && final(self).in_game == old(self).in_game && is_disconnect(r, old(self).in_game),
            old(self).phase == Phase::Closed ==> r is Ignore && *final(self) == *old(self),
    {
        if self.phase == Phase::Closed {
            return Action::Ignore;
        }
        self.close_and_clean_up()
    }
}

/// Hands out client ids: increasing, never one twice.
pub struct ClientIds {
    pub next: u32,
}

impl ClientIds {
    /// The first id is 1.
    pub fn new() -> (r: ClientIds)
        ensures
            r.next == 1,
    {
        ClientIds { next: 1 }
    }

    /// The next id, or `None` once every id below `u32::MAX` is used.
    pub fn allocate(&mut self) -> (r: Option<u32>)
        ensures
            old(self).next < u32::MAX ==> r == Some(old(self).next) && final(self).next == old(self).next + 1,
            old(self).next == u32::MAX ==> r is None && final(self).next == old(self).next,
    {
        if self.next == u32::MAX {
            return None;
        }
        let id = self.next;
        self.next = self.next + 1;
        Some(id)
    }
}

/// The coordinator's state once it has answered `reqs` from client `id`, in
/// order; a request from an id without an entry changes nothing.
pub open spec fn run_requests(s: CoordinatorView, id: u32, reqs: Seq<MsgView>) -> CoordinatorView
    decreases reqs.len(),
{
    if reqs.len() == 0 {
        s
    } else {
        let s1 = if has_client(s, id) {
            step(s, id, reqs[0]).0
        } else {
            s
        };
        run_requests(s1, id, reqs.drop_first())
    }
}

/// Once the requests sent for a departing client are answered, whether it
/// was in a game or not, it has no entry left, and so no reply channel, no
/// nickname and no membership; the registry stays well formed.
pub proof fn lemma_cleanup_removes_client(s: CoordinatorView, id: u32, in_game: bool)
    requires
        wf(s),
    ensures
        !has_client(run_requests(s, id, disconnect_requests(in_game)), id),
        wf(run_requests(s, id, disconnect_requests(in_game))),
{
    reveal_with_fuel(run_requests, 3);
    let reqs = disconnect_requests(in_game);
    let s1 = if in_game && has_client(s, id) {
        step(s, id, leave_game_request()).0
    } else {
        s
    };
    if in_game && has_client(s, id) {
        lemma_step_keeps_wf(s, id, leave_game_request());
    }
    if has_client(s1, id) {
        lemma_kill_me_removes(s1, id, disconnect_request());
        lemma_step_keeps_wf(s1, id, disconnect_request());
    }
    if in_game {
        assert(reqs.drop_first() =~= seq![disconnect_request()]);
        assert(reqs.drop_first().drop_first() =~= Seq::<MsgView>::empty());
    } else {
        assert(reqs.drop_first() =~= Seq::<MsgView>::empty());
    }
}

} // verus!
