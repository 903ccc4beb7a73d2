//! Wire protocol: one `Msg` per fixed 512-byte frame, zero padded.
//!
//! Layout of an encoded message, in field order: four enum ordinals as
//! little-endian `u32`, the payload as a little-endian `u64` byte length
//! followed by its UTF-8 bytes, then the three `u32` fields of the game
//! snapshot.

use vstd::prelude::*;
use vstd::utf8::*;
use vstd::string::*;

verus! {

/// Capacity of one frame on the wire, in bytes.
pub const FRAME_SIZE: usize = 512;

/// Bytes taken by everything in an encoded message but the payload's bytes.
pub const FIXED_ENCODED_LEN: usize = 36;

#[derive(PartialEq, Eq, Structural, Debug, Clone, Copy)]
pub enum Headers {
    Read,
    Write,
    Response,
}

#[derive(PartialEq, Eq, Structural, Debug, Clone, Copy)]
pub enum Status {
    Okay,
    NotOk,
}

#[derive(PartialEq, Eq, Structural, Debug, Clone, Copy)]
pub enum GameStatus {
    InGame,
    NotInGame,
}

#[derive(PartialEq, Eq, Structural, Debug, Clone, Copy)]
pub enum Commands {
    InitSetup,
    SetNick,
    ListGames,
    ListUsers,
    MakeNewGame,
    JoinGame,
    LeaveGame,
    GetCurrentGamestate,
    MakeMove,
    GameIsOver,
    KillMe,
    KillClient,
    Reply,
}

/// Snapshot of one game as carried in a message. A player slot holds the
/// client id of its occupant, or 0 while it is free (client ids start at 1).
#[derive(PartialEq, Eq, Structural, Debug, Clone, Copy)]
pub struct GameState {
    pub game_id: u32,
    pub player_one: u32,
    pub player_two: u32,
}

impl GameState {
    pub fn new_empty() -> (r: GameState)
        ensures
            r == (GameState { game_id: 0, player_one: 0, player_two: 0 }),
    {
        GameState { game_id: 0, player_one: 0, player_two: 0 }
    }
}

#[derive(Debug)]
pub struct Msg {
    pub status: Status,
    pub headers: Headers,
    pub command: Commands,
    pub game_status: GameStatus,
    pub data: String,
    pub game_state: GameState,
}

/// The mathematical value of a `Msg`: its payload as a sequence of chars.
pub struct MsgView {
    pub status: Status,
    pub headers: Headers,
    pub command: Commands,
    pub game_status: GameStatus,
    pub data: Seq<char>,
    pub game_state: GameState,
}

impl View for Msg {
    type V = MsgView;

    open spec fn view(&self) -> MsgView {
        MsgView {
            status: self.status,
            headers: self.headers,
            command: self.command,
            game_status: self.game_status,
            data: self.data@,
            game_state: self.game_state,
        }
    }
}

impl PartialEq for Msg {
    fn eq(&self, o: &Msg) -> (r: bool) {
        self.status == o.status && self.headers == o.headers && self.command == o.command
            && self.game_status == o.game_status && self.data == o.data && self.game_state
            == o.game_state
    }
}

impl vstd::std_specs::cmp::PartialEqSpecImpl for Msg {
    open spec fn obeys_eq_spec() -> bool {
        true
    }

    open spec fn eq_spec(&self, o: &Msg) -> bool {
        self@ == o@
    }
}

impl Msg {
    /// Builds a message; the payload is copied.
    pub fn new(
        status: Status,
        headers: Headers,
        command: Commands,
        game_status: GameStatus,
        data: &str,
        game_state: GameState,
    ) -> (r: Msg)
        ensures
            r@ == (MsgView { status, headers, command, game_status, data: data@, game_state }),
    {
        Msg { status, headers, command, game_status, data: String::from_str(data), game_state }
    }
}

// ---------------------------------------------------------------------------
// Byte layout

pub open spec fn status_tag(s: Status) -> u8 {
    match s {
        Status::Okay => 0,
        Status::NotOk => 1,
    }
}

pub open spec fn headers_tag(h: Headers) -> u8 {
    match h {
        Headers::Read => 0,
        Headers::Write => 1,
        Headers::Response => 2,
    }
}

pub open spec fn game_status_tag(g: GameStatus) -> u8 {
    match g {
        GameStatus::InGame => 0,
        GameStatus::NotInGame => 1,
    }
}

pub open spec fn command_tag(c: Commands) -> u8 {
    match c {
        Commands::InitSetup => 0,
        Commands::SetNick => 1,
        Commands::ListGames => 2,
        Commands::ListUsers => 3,
        Commands::MakeNewGame => 4,
        Commands::JoinGame => 5,
        Commands::LeaveGame => 6,
        Commands::GetCurrentGamestate => 7,
        Commands::MakeMove => 8,
        Commands::GameIsOver => 9,
        Commands::KillMe => 10,
        Commands::KillClient => 11,
        Commands::Reply => 12,
    }
}

/// An enum ordinal below 256, as a little-endian `u32`.
pub open spec fn tag_bytes(t: u8) -> Seq<u8> {
    seq![t, 0u8, 0u8, 0u8]
}

pub open spec fn u32_bytes(v: u32) -> Seq<u8> {
    seq![
        (v & 0xff) as u8,
        ((v >> 8u32) & 0xff) as u8,
        ((v >> 16u32) & 0xff) as u8,
        ((v >> 24u32) & 0xff) as u8,
    ]
}

pub open spec fn u64_bytes(v: u64) -> Seq<u8> {
    seq![
        (v & 0xff) as u8,
        ((v >> 8u64) & 0xff) as u8,
        ((v >> 16u64) & 0xff) as u8,
        ((v >> 24u64) & 0xff) as u8,
        ((v >> 32u64) & 0xff) as u8,
        ((v >> 40u64) & 0xff) as u8,
        ((v >> 48u64) & 0xff) as u8,
        ((v >> 56u64) & 0xff) as u8,
    ]
}

/// The value of the first eight bytes of `b`, read as a little-endian `u64`.
pub open spec fn u64_of_bytes(b: Seq<u8>) -> u64
    recommends
        b.len() >= 8,
{
    (b[0] as u64) | ((b[1] as u64) << 8u64) | ((b[2] as u64) << 16u64) | ((b[3] as u64)
        << 24u64) | ((b[4] as u64) << 32u64) | ((b[5] as u64) << 40u64) | ((b[6] as u64)
        << 48u64) | ((b[7] as u64) << 56u64)
}

/// A string field: its UTF-8 byte length as a little-endian `u64`, then the bytes.
pub open spec fn str_bytes(s: Seq<char>) -> Seq<u8> {
    u64_bytes(encode_utf8(s).len() as u64) + encode_utf8(s)
}

pub open spec fn game_state_bytes(g: GameState) -> Seq<u8> {
    u32_bytes(g.game_id) + u32_bytes(g.player_one) + u32_bytes(g.player_two)
}

/// The encoding of a message.
pub open spec fn encode_msg(m: MsgView) -> Seq<u8> {
    tag_bytes(status_tag(m.status)) + tag_bytes(headers_tag(m.headers)) + tag_bytes(
        command_tag(m.command),
    ) + tag_bytes(game_status_tag(m.game_status)) + str_bytes(m.data) + game_state_bytes(
        m.game_state,
    )
}

/// Number of bytes of the payload of `m` once encoded.
pub open spec fn payload_len(m: MsgView) -> int {
    encode_utf8(m.data).len() as int
}

/// `b` begins with the encoding of `m`.
pub open spec fn encodes(m: MsgView, b: Seq<u8>) -> bool {
    &&& encode_msg(m).len() <= b.len()
    &&& b.subrange(0, encode_msg(m).len() as int) == encode_msg(m)
}

/// A message whose encoding fits in one frame.
pub open spec fn fits_in_frame(m: MsgView) -> bool {
    encode_msg(m).len() <= FRAME_SIZE
}

/// The frame that carries `m`: its encoding, then zeros up to the frame size.
pub open spec fn frame_of(m: MsgView) -> Seq<u8> {
    encode_msg(m) + Seq::new((FRAME_SIZE - encode_msg(m).len()) as nat, |i: int| 0u8)
}

/// The value of the four bytes of `b` at `pos`, read as a little-endian `u32`.
pub open spec fn u32_of_bytes(b: Seq<u8>, pos: int) -> u32
    recommends
        0 <= pos && pos + 4 <= b.len(),
{
    (b[pos] as u32) | ((b[pos + 1] as u32) << 8u32) | ((b[pos + 2] as u32) << 16u32) | ((b[pos
        + 3] as u32) << 24u32)
}

// ---------------------------------------------------------------------------
// Facts on the integer layouts

proof fn lemma_u32_bytes_inverse(v: u32)
    ensures
        u32_of_bytes(u32_bytes(v), 0) == v,
{
    let b0 = (v & 0xff) as u8;
    let b1 = ((v >> 8u32) & 0xff) as u8;
    let b2 = ((v >> 16u32) & 0xff) as u8;
    let b3 = ((v >> 24u32) & 0xff) as u8;
    assert(b0 == (v & 0xff) as u8 && b1 == ((v >> 8u32) & 0xff) as u8 && b2 == ((v >> 16u32)
        & 0xff) as u8 && b3 == ((v >> 24u32) & 0xff) as u8 ==> ((b0 as u32) | ((b1 as u32)
        << 8u32) | ((b2 as u32) << 16u32) | ((b3 as u32) << 24u32)) == v) by (bit_vector);
}

proof fn lemma_bytes_u32_inverse(b: Seq<u8>, pos: int)
    requires
        0 <= pos,
        pos + 4 <= b.len(),
    ensures
        u32_bytes(u32_of_bytes(b, pos)) =~= b.subrange(pos, pos + 4),
{
    let b0 = b[pos];
    let b1 = b[pos + 1];
    let b2 = b[pos + 2];
    let b3 = b[pos + 3];
    let v = u32_of_bytes(b, pos);
    assert(v == ((b0 as u32) | ((b1 as u32) << 8u32) | ((b2 as u32) << 16u32) | ((b3 as u32)
        << 24u32)) ==> (v & 0xff) as u8 == b0 && ((v >> 8u32) & 0xff) as u8 == b1 && ((v
        >> 16u32) & 0xff) as u8 == b2 && ((v >> 24u32) & 0xff) as u8 == b3) by (bit_vector);
}

proof fn lemma_u64_bytes_inverse(v: u64)
    ensures
        u64_of_bytes(u64_bytes(v)) == v,
{
    let b0 = (v & 0xff) as u8;
    let b1 = ((v >> 8u64) & 0xff) as u8;
    let b2 = ((v >> 16u64) & 0xff) as u8;
    let b3 = ((v >> 24u64) & 0xff) as u8;
    let b4 = ((v >> 32u64) & 0xff) as u8;
    let b5 = ((v >> 40u64) & 0xff) as u8;
    let b6 = ((v >> 48u64) & 0xff) as u8;
    let b7 = ((v >> 56u64) & 0xff) as u8;
    assert(b0 == (v & 0xff) as u8 && b1 == ((v >> 8u64) & 0xff) as u8 && b2 == ((v >> 16u64)
        & 0xff) as u8 && b3 == ((v >> 24u64) & 0xff) as u8 && b4 == ((v >> 32u64) & 0xff) as u8
        && b5 == ((v >> 40u64) & 0xff) as u8 && b6 == ((v >> 48u64) & 0xff) as u8 && b7 == ((v
        >> 56u64) & 0xff) as u8 ==> ((b0 as u64) | ((b1 as u64) << 8u64) | ((b2 as u64)
        << 16u64) | ((b3 as u64) << 24u64) | ((b4 as u64) << 32u64) | ((b5 as u64) << 40u64) | ((
    b6 as u64) << 48u64) | ((b7 as u64) << 56u64)) == v) by (bit_vector);
}

proof fn lemma_bytes_u64_inverse(b: Seq<u8>)
    requires
        b.len() >= 8,
    ensures
        u64_bytes(u64_of_bytes(b)) =~= b.subrange(0, 8),
{
    let b0 = b[0];
    let b1 = b[1];
    let b2 = b[2];
    let b3 = b[3];
    let b4 = b[4];
    let b5 = b[5];
    let b6 = b[6];
    let b7 = b[7];
    let v = u64_of_bytes(b);
    assert(v == ((b0 as u64) | ((b1 as u64) << 8u64) | ((b2 as u64) << 16u64) | ((b3 as u64)
        << 24u64) | ((b4 as u64) << 32u64) | ((b5 as u64) << 40u64) | ((b6 as u64) << 48u64) | ((
    b7 as u64) << 56u64)) ==> (v & 0xff) as u8 == b0 && ((v >> 8u64) & 0xff) as u8 == b1 && ((v
        >> 16u64) & 0xff) as u8 == b2 && ((v >> 24u64) & 0xff) as u8 == b3 && ((v >> 32u64)
        & 0xff) as u8 == b4 && ((v >> 40u64) & 0xff) as u8 == b5 && ((v >> 48u64) & 0xff) as u8
        == b6 && ((v >> 56u64) & 0xff) as u8 == b7) by (bit_vector);
}

// ---------------------------------------------------------------------------
// Calls into bincode for the payload field

/// Relies on `bincode::serialize` of a `str` with the crate's default options
/// (fixed-width little-endian integers, no size limit): the byte length as a
/// `u64`, then the string's UTF-8 bytes. Writing into a `Vec` cannot fail.
#[verifier::external_body]
fn encode_str(s: &str) -> (r: Vec<u8>)
    ensures
        r@ == u64_bytes(s.spec_bytes().len() as u64) + s.spec_bytes(),
{
    bincode::serialize(s).unwrap()
}

/// Relies on `bincode::deserialize::<String>` with the crate's default options:
/// it reads a `u64` byte length, then that many bytes, and succeeds exactly when
/// they are there and are valid UTF-8; trailing bytes are left alone.
#[verifier::external_body]
fn decode_str_at(b: &[u8], pos: usize) -> (r: Option<String>)
    requires
        pos <= b@.len(),
    ensures
        r is Some <==> str_field_at(b@, pos as int),
        r is Some ==> r->Some_0@ == decode_utf8(str_field_body(b@, pos as int)),
{
    bincode::deserialize::<String>(&b[pos..]).ok()
}

/// The byte length that a string field at `pos` announces.
pub open spec fn str_field_len(b: Seq<u8>, pos: int) -> int {
    u64_of_bytes(b.subrange(pos, b.len() as int)) as int
}

/// The bytes of a string field at `pos`, after its length.
pub open spec fn str_field_body(b: Seq<u8>, pos: int) -> Seq<u8> {
    b.subrange(pos + 8, pos + 8 + str_field_len(b, pos))
}

/// A well-formed string field starts at `pos`.
pub open spec fn str_field_at(b: Seq<u8>, pos: int) -> bool {
    &&& pos + 8 <= b.len()
    &&& pos + 8 + str_field_len(b, pos) <= b.len()
    &&& valid_utf8(str_field_body(b, pos))
}

// ---------------------------------------------------------------------------
// Encoding

fn push_tag(out: &mut Vec<u8>, t: u8)
    ensures
        final(out)@ == old(out)@ + tag_bytes(t),
{
    out.push(t);
    out.push(0);
    out.push(0);
    out.push(0);
}

fn push_u32(out: &mut Vec<u8>, v: u32)
    ensures
        final(out)@ == old(out)@ + u32_bytes(v),
{
    out.push((v & 0xff) as u8);
    out.push(((v >> 8u32) & 0xff) as u8);
    out.push(((v >> 16u32) & 0xff) as u8);
    out.push(((v >> 24u32) & 0xff) as u8);
    assert(final(out)@ =~= old(out)@ + u32_bytes(v));
}

fn status_to_tag(s: Status) -> (r: u8)
    ensures
        r == status_tag(s),
{
    match s {
        Status::Okay => 0,
        Status::NotOk => 1,
    }
}

fn headers_to_tag(h: Headers) -> (r: u8)
    ensures
        r == headers_tag(h),
{
    match h {
        Headers::Read => 0,
        Headers::Write => 1,
        Headers::Response => 2,
    }
}

fn game_status_to_tag(g: GameStatus) -> (r: u8)
    ensures
        r == game_status_tag(g),
{
    match g {
        GameStatus::InGame => 0,
        GameStatus::NotInGame => 1,
    }
}

fn command_to_tag(c: Commands) -> (r: u8)
    ensures
        r == command_tag(c),
{
    match c {
        Commands::InitSetup => 0,
        Commands::SetNick => 1,
        Commands::ListGames => 2,
        Commands::ListUsers => 3,
        Commands::MakeNewGame => 4,
        Commands::JoinGame => 5,
        Commands::LeaveGame => 6,
        Commands::GetCurrentGamestate => 7,
        Commands::MakeMove => 8,
        Commands::GameIsOver => 9,
        Commands::KillMe => 10,
        Commands::KillClient => 11,
        Commands::Reply => 12,
    }
}

impl Msg {
    /// The encoding of this message, of any length.
    pub fn encode(&self) -> (r: Vec<u8>)
        ensures
            r@ == encode_msg(self@),
    {
        let mut out: Vec<u8> = Vec::new();
        push_tag(&mut out, status_to_tag(self.status));
        push_tag(&mut out, headers_to_tag(self.headers));
        push_tag(&mut out, command_to_tag(self.command));
        push_tag(&mut out, game_status_to_tag(self.game_status));
        let mut payload = encode_str(self.data.as_str());
        out.append(&mut payload);
        push_u32(&mut out, self.game_state.game_id);
        push_u32(&mut out, self.game_state.player_one);
        push_u32(&mut out, self.game_state.player_two);
        assert(out@ =~= encode_msg(self@));
        out
    }
}

// ---------------------------------------------------------------------------
// Decoding

/// What each field's bytes hold where an encoding of `m` begins `b`.
proof fn lemma_encoding_parts(m: MsgView, b: Seq<u8>)
    requires
        encodes(m, b),
        b.len() <= u64::MAX,
    ensures
        b.subrange(0, 4) == tag_bytes(status_tag(m.status)),
        b.subrange(4, 8) == tag_bytes(headers_tag(m.headers)),
        b.subrange(8, 12) == tag_bytes(command_tag(m.command)),
        b.subrange(12, 16) == tag_bytes(game_status_tag(m.game_status)),
        str_field_at(b, 16),
        str_field_len(b, 16) == encode_utf8(m.data).len(),
        str_field_body(b, 16) == encode_utf8(m.data),
        b.subrange(24 + payload_len(m), 28 + payload_len(m)) == u32_bytes(
            m.game_state.game_id,
        ),
        b.subrange(28 + payload_len(m), 32 + payload_len(m)) == u32_bytes(
            m.game_state.player_one,
        ),
        b.subrange(32 + payload_len(m), 36 + payload_len(m)) == u32_bytes(
            m.game_state.player_two,
        ),
{
    let d = encode_utf8(m.data);
    let n = d.len() as int;
    let hdr = tag_bytes(status_tag(m.status)) + tag_bytes(headers_tag(m.headers)) + tag_bytes(
        command_tag(m.command),
    ) + tag_bytes(game_status_tag(m.game_status));
    let len_bytes = u64_bytes(n as u64);
    let g = game_state_bytes(m.game_state);
    let e = encode_msg(m);
    assert(e == hdr + (len_bytes + d) + g);
    assert(e.len() == 36 + n);
    lemma_prefix_sub(b, e, 0, 16);
    assert(e.subrange(0, 16) =~= hdr);
    assert(b.subrange(0, 4) =~= hdr.subrange(0, 4));
    assert(b.subrange(4, 8) =~= hdr.subrange(4, 8));
    assert(b.subrange(8, 12) =~= hdr.subrange(8, 12));
    assert(b.subrange(12, 16) =~= hdr.subrange(12, 16));
    lemma_prefix_sub(b, e, 16, 24);
    assert(e.subrange(16, 24) =~= len_bytes);
    lemma_prefix_sub(b, e, 24, 24 + n);
    assert(e.subrange(24, 24 + n) =~= d);
    lemma_prefix_sub(b, e, 24 + n, 36 + n);
    assert(e.subrange(24 + n, 36 + n) =~= g);
    lemma_u64_bytes_inverse(n as u64);
    let tail = b.subrange(16, b.len() as int);
    assert(u64_of_bytes(tail) == u64_of_bytes(len_bytes)) by {
        assert(b.subrange(16, 24)[0] == tail[0]);
        assert(b.subrange(16, 24)[1] == tail[1]);
        assert(b.subrange(16, 24)[2] == tail[2]);
        assert(b.subrange(16, 24)[3] == tail[3]);
        assert(b.subrange(16, 24)[4] == tail[4]);
        assert(b.subrange(16, 24)[5] == tail[5]);
        assert(b.subrange(16, 24)[6] == tail[6]);
        assert(b.subrange(16, 24)[7] == tail[7]);
    }
    assert(str_field_len(b, 16) == n);
    assert(str_field_body(b, 16) == d);
    encode_utf8_valid_utf8(m.data);
    assert(b.subrange(24 + n, 28 + n) =~= g.subrange(0, 4));
    assert(b.subrange(28 + n, 32 + n) =~= g.subrange(4, 8));
    assert(b.subrange(32 + n, 36 + n) =~= g.subrange(8, 12));
}

proof fn lemma_prefix_sub(b: Seq<u8>, e: Seq<u8>, lo: int, hi: int)
    requires
        e.len() <= b.len(),
        b.subrange(0, e.len() as int) == e,
        0 <= lo <= hi <= e.len(),
    ensures
        b.subrange(lo, hi) == e.subrange(lo, hi),
{
    assert(b.subrange(lo, hi) =~= e.subrange(lo, hi)) by {
        assert forall|i: int| 0 <= i < hi - lo implies b.subrange(lo, hi)[i] == e.subrange(
            lo,
            hi,
        )[i] by {
            assert(b.subrange(0, e.len() as int)[lo + i] == e[lo + i]);
        }
    }
}

fn read_u32(b: &[u8], pos: usize) -> (r: Option<u32>)
    ensures
        r is Some <==> pos + 4 <= b@.len(),
        r matches Some(v) ==> u32_bytes(v) == b@.subrange(pos as int, pos + 4),
{
    if pos > b.len() || b.len() - pos < 4 {
        return None;
    }
    let v = (b[pos] as u32) | ((b[pos + 1] as u32) << 8u32) | ((b[pos + 2] as u32) << 16u32) | ((
    b[pos + 3] as u32) << 24u32);
    proof {
        lemma_bytes_u32_inverse(b@, pos as int);
    }
    Some(v)
}

/// The ordinal of an enum at `pos`: a byte below 256 followed by three zeros.
fn read_tag(b: &[u8], pos: usize) -> (r: Option<u8>)
    ensures
        forall|t: u8|
            (pos + 4 <= b@.len() && b@.subrange(pos as int, pos + 4) == #[trigger] tag_bytes(t))
                <==> r == Some(t),
{
    if pos > b.len() || b.len() - pos < 4 {
        return None;
    }
    if b[pos + 1] != 0 || b[pos + 2] != 0 || b[pos + 3] != 0 {
        assert forall|t: u8| !(b@.subrange(pos as int, pos + 4) == #[trigger] tag_bytes(t)) by {
            if b@.subrange(pos as int, pos + 4) == tag_bytes(t) {
                assert(b@.subrange(pos as int, pos + 4)[1] == tag_bytes(t)[1]);
                assert(b@.subrange(pos as int, pos + 4)[2] == tag_bytes(t)[2]);
                assert(b@.subrange(pos as int, pos + 4)[3] == tag_bytes(t)[3]);
            }
        }
        return None;
    }
    let t = b[pos];
    assert(b@.subrange(pos as int, pos + 4) =~= tag_bytes(t));
    assert forall|u: u8| b@.subrange(pos as int, pos + 4) == #[trigger] tag_bytes(u) implies u
        == t by {
        assert(tag_bytes(u)[0] == u);
    }
    Some(t)
}

fn status_from_tag(t: u8) -> (r: Option<Status>)
    ensures
        forall|s: Status| (status_tag(s) == t) <==> r == Some(s),
{
    match t {
        0 => Some(Status::Okay),
        1 => Some(Status::NotOk),
        _ => None,
    }
}

fn headers_from_tag(t: u8) -> (r: Option<Headers>)
    ensures
        forall|h: Headers| (headers_tag(h) == t) <==> r == Some(h),
{
    match t {
        0 => Some(Headers::Read),
        1 => Some(Headers::Write),
        2 => Some(Headers::Response),
        _ => None,
    }
}

fn game_status_from_tag(t: u8) -> (r: Option<GameStatus>)
    ensures
        forall|g: GameStatus| (game_status_tag(g) == t) <==> r == Some(g),
{
    match t {
        0 => Some(GameStatus::InGame),
        1 => Some(GameStatus::NotInGame),
        _ => None,
    }
}

fn command_from_tag(t: u8) -> (r: Option<Commands>)
    ensures
        forall|c: Commands| (command_tag(c) == t) <==> r == Some(c),
{
    match t {
        0 => Some(Commands::InitSetup),
        1 => Some(Commands::SetNick),
        2 => Some(Commands::ListGames),
        3 => Some(Commands::ListUsers),
        4 => Some(Commands::MakeNewGame),
        5 => Some(Commands::JoinGame),
        6 => Some(Commands::LeaveGame),
        7 => Some(Commands::GetCurrentGamestate),
        8 => Some(Commands::MakeMove),
        9 => Some(Commands::GameIsOver),
        10 => Some(Commands::KillMe),
        11 => Some(Commands::KillClient),
        12 => Some(Commands::Reply),
        _ => None,
    }
}

/// Where each field of `m` stands in `b` as its bytes, the encoding of `m` begins `b`.
proof fn lemma_parts_encode(m: MsgView, b: Seq<u8>)
    requires
        b.subrange(0, 4) == tag_bytes(status_tag(m.status)),
        b.subrange(4, 8) == tag_bytes(headers_tag(m.headers)),
        b.subrange(8, 12) == tag_bytes(command_tag(m.command)),
        b.subrange(12, 16) == tag_bytes(game_status_tag(m.game_status)),
        str_field_at(b, 16),
        str_field_body(b, 16) == encode_utf8(m.data),
        36 + payload_len(m) <= b.len(),
        b.subrange(24 + payload_len(m), 28 + payload_len(m)) == u32_bytes(m.game_state.game_id),
        b.subrange(28 + payload_len(m), 32 + payload_len(m)) == u32_bytes(
            m.game_state.player_one,
        ),
        b.subrange(32 + payload_len(m), 36 + payload_len(m)) == u32_bytes(
            m.game_state.player_two,
        ),
    ensures
        encodes(m, b),
{
    let n = payload_len(m);
    let tail = b.subrange(16, b.len() as int);
    lemma_bytes_u64_inverse(tail);
    assert(tail.subrange(0, 8) =~= b.subrange(16, 24));
    assert(u64_of_bytes(tail) as int == n);
    assert(b.subrange(0, 36 + n) =~= b.subrange(0, 4) + b.subrange(4, 8) + b.subrange(8, 12)
        + b.subrange(12, 16) + (b.subrange(16, 24) + b.subrange(24, 24 + n)) + (b.subrange(
        24 + n,
        28 + n,
    ) + b.subrange(28 + n, 32 + n) + b.subrange(32 + n, 36 + n)));
    assert(encode_msg(m) =~= b.subrange(0, 36 + n));
}

/// Where no message's encoding begins `b`.
proof fn lemma_no_encoding(b: Seq<u8>)
    requires
        b.len() <= u64::MAX,
        forall|m: MsgView|
            !{
                &&& b.subrange(0, 4) == tag_bytes(status_tag(m.status))
                &&& b.subrange(4, 8) == tag_bytes(headers_tag(m.headers))
                &&& b.subrange(8, 12) == tag_bytes(command_tag(m.command))
                &&& b.subrange(12, 16) == tag_bytes(game_status_tag(m.game_status))
                &&& str_field_at(b, 16)
                &&& 36 + str_field_len(b, 16) <= b.len()
            },
    ensures
        forall|m: MsgView| !#[trigger] encodes(m, b),
{
    assert forall|m: MsgView| !#[trigger] encodes(m, b) by {
        if encodes(m, b) {
            lemma_encoding_parts(m, b);
        }
    }
}

impl Msg {
    /// Reads the message whose encoding begins `b`. Trailing bytes, such as a
    /// frame's zero padding, are ignored. `None` exactly when no message's
    /// encoding begins `b`.
    pub fn decode(b: &[u8]) -> (r: Option<Msg>)
        ensures
            r matches Some(m) ==> encodes(m@, b@),
            r is None <==> forall|m: MsgView| !#[trigger] encodes(m, b@),
    {
        let ghost bs = b@;
        let blen = b.len();
        assert(bs.len() <= u64::MAX);
        if blen < FIXED_ENCODED_LEN {
            proof {
                lemma_no_encoding(bs);
            }
            return None;
        }
        let t0 = read_tag(b, 0);
        let t1 = read_tag(b, 4);
        let t2 = read_tag(b, 8);
        let t3 = read_tag(b, 12);
        if t0.is_none() || t1.is_none() || t2.is_none() || t3.is_none() {
            proof {
                lemma_no_encoding(bs);
            }
            return None;
        }
        let t0 = t0.unwrap();
        let t1 = t1.unwrap();
        let t2 = t2.unwrap();
        let t3 = t3.unwrap();
        let status = status_from_tag(t0);
        let headers = headers_from_tag(t1);
        let command = command_from_tag(t2);
        let game_status = game_status_from_tag(t3);
        if status.is_none() || headers.is_none() || command.is_none() || game_status.is_none() {
            proof {
                assert forall|m: MsgView| !#[trigger] encodes(m, bs) by {
                    if encodes(m, bs) {
                        lemma_encoding_parts(m, bs);
                        lemma_tag_bytes_injective(t0, status_tag(m.status));
                        lemma_tag_bytes_injective(t1, headers_tag(m.headers));
                        lemma_tag_bytes_injective(t2, command_tag(m.command));
                        lemma_tag_bytes_injective(t3, game_status_tag(m.game_status));
                    }
                }
            }
            return None;
        }
        let status = status.unwrap();
        let headers = headers.unwrap();
        let command = command.unwrap();
        let game_status = game_status.unwrap();
        let data = match decode_str_at(b, 16) {
            Some(s) => s,
            None => {
                proof {
                    lemma_no_encoding(bs);
                }
                return None;
            },
        };
        proof {
            decode_utf8_encode_utf8(str_field_body(bs, 16));
        }
        let n = data.as_str().len();
        assert(n as int == str_field_len(bs, 16));
        let p = 24 + n;
        if blen - p < 12 {
            proof {
                lemma_no_encoding(bs);
            }
            return None;
        }
        let game_id = read_u32(b, p).unwrap();
        let player_one = read_u32(b, p + 4).unwrap();
        let player_two = read_u32(b, p + 8).unwrap();
        let game_state = GameState { game_id, player_one, player_two };
        let m = Msg { status, headers, command, game_status, data, game_state };
        proof {
            lemma_parts_encode(m@, bs);
        }
        Some(m)
    }
}

impl Msg {
    /// Whether the encoding of this message fits in one frame.
    pub fn fits_frame(&self) -> (r: bool)
        ensures
            r == fits_in_frame(self@),
    {
        assert(encode_msg(self@).len() == FIXED_ENCODED_LEN + payload_len(self@));
        self.data.as_str().as_bytes().len() <= FRAME_SIZE - FIXED_ENCODED_LEN
    }

    /// Writes the frame that carries this message into `buf`: its encoding,
    /// then zeros.
    pub fn serialize(&self, buf: &mut [u8; 512])
        requires
            fits_in_frame(self@),
        ensures
            final(buf)@ == frame_of(self@),
    {
        let enc = self.encode();
        let ghost f = frame_of(self@);
        let mut i: usize = 0;
        while i < FRAME_SIZE
            invariant
                enc@ == encode_msg(self@),
                enc@.len() <= FRAME_SIZE,
                f == frame_of(self@),
                i <= FRAME_SIZE,
                buf@.len() == FRAME_SIZE,
                forall|j: int| 0 <= j < i ==> buf@[j] == f[j],
            decreases FRAME_SIZE - i,
        {
            if i < enc.len() {
                buf[i] = enc[i];
            } else {
                buf[i] = 0;
            }
            i = i + 1;
        }
        assert(buf@ =~= f);
    }
}

/// A frame carries its message back: the encoding of `m` begins the frame of
/// `m`, and no other message's encoding does.
pub proof fn lemma_frame_round_trip(m: MsgView, other: MsgView)
    requires
        fits_in_frame(m),
        encodes(other, frame_of(m)),
    ensures
        encodes(m, frame_of(m)),
        other == m,
{
    let rest = Seq::new((FRAME_SIZE - encode_msg(m).len()) as nat, |i: int| 0u8);
    lemma_round_trip(m, other, rest);
}

proof fn lemma_tag_bytes_injective(s: u8, t: u8)
    requires
        tag_bytes(s) == tag_bytes(t),
    ensures
        s == t,
{
    assert(tag_bytes(s)[0] == tag_bytes(t)[0]);
}

proof fn lemma_tags_injective(a: MsgView, b: MsgView)
    requires
        status_tag(a.status) == status_tag(b.status),
        headers_tag(a.headers) == headers_tag(b.headers),
        command_tag(a.command) == command_tag(b.command),
        game_status_tag(a.game_status) == game_status_tag(b.game_status),
    ensures
        a.status == b.status,
        a.headers == b.headers,
        a.command == b.command,
        a.game_status == b.game_status,
{
}

/// Decoding inverts encoding: where the encoding of `m` begins a byte
/// sequence, `m` is the only message whose encoding begins it.
pub proof fn lemma_round_trip(m: MsgView, other: MsgView, rest: Seq<u8>)
    requires
        encode_msg(m).len() + rest.len() <= u64::MAX,
        encodes(other, encode_msg(m) + rest),
    ensures
        encodes(m, encode_msg(m) + rest),
        other == m,
{
    let b = encode_msg(m) + rest;
    assert(b.subrange(0, encode_msg(m).len() as int) =~= encode_msg(m));
    lemma_encoding_parts(m, b);
    lemma_encoding_parts(other, b);
    lemma_tag_bytes_injective(status_tag(m.status), status_tag(other.status));
    lemma_tag_bytes_injective(headers_tag(m.headers), headers_tag(other.headers));
    lemma_tag_bytes_injective(command_tag(m.command), command_tag(other.command));
    lemma_tag_bytes_injective(game_status_tag(m.game_status), game_status_tag(other.game_status));
    lemma_tags_injective(m, other);
    encode_utf8_decode_utf8(m.data);
    encode_utf8_decode_utf8(other.data);
    lemma_u32_bytes_inverse(m.game_state.game_id);
    lemma_u32_bytes_inverse(other.game_state.game_id);
    lemma_u32_bytes_inverse(m.game_state.player_one);
    lemma_u32_bytes_inverse(other.game_state.player_one);
    lemma_u32_bytes_inverse(m.game_state.player_two);
    lemma_u32_bytes_inverse(other.game_state.player_two);
}

} // verus!
