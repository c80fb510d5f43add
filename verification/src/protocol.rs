//! The wire protocol.
//!
//! Deliberately small. A full snapshot is around 120 bytes, so there is no
//! delta compression and no interest management: every tick the server sends
//! the whole world. At 30Hz that is roughly 4 KB/s per client, which is not
//! worth optimising and is far easier to debug.

use vstd::prelude::*;
use crate::ghosts::GhostMode;
use crate::grid::{IVec2, TILE_UNITS};
use crate::movement::{Dir, GridPos, OFFSET_LIMIT};
use crate::pellets::PelletKind;
use crate::sim::RunnerState;
use crate::single::{parts_of_single, single_bits};
use crate::wire::{
    put_blob, put_flag, put_four, put_signed, put_text, put_u8, put_unsigned, take_blob, take_flag,
    take_four, take_i32, take_text, take_u16, take_u32, take_u64, take_u8,
};
#[allow(unused_imports)]
use crate::single::{
    bits_of, law_parts_survive_single_precision, lemma_parts_in_range, parts_in,
};
#[allow(unused_imports)]
use crate::wire::{
    blob, flag, folded, four_bytes, law_blobs_round_trip, law_flags_round_trip,
    law_four_bytes_round_trip, law_numbers_round_trip, law_signed_numbers_round_trip,
    law_text_round_trips, read_blob, read_flag, read_four, read_i32, read_text, read_u16, read_u32,
    read_u64, read_u8, text, varint,
};
#[allow(unused_imports)]
use vstd::utf8::encode_utf8;

verus! {

/// Inputs. Unreliable: a dropped input is superseded by the next one 33ms later.
pub const CH_INPUT: u8 = 0;

/// Snapshots. Unreliable for the same reason.
pub const CH_SNAPSHOT: u8 = 1;

/// Handshake and match end. Reliable and ordered: these must not be lost.
pub const CH_EVENT: u8 = 2;

/// Guards against a client connecting to a server built from other code.
pub const PROTOCOL_VERSION: u16 = 1;

#[derive(Debug, Clone, PartialEq)]
pub enum ClientMsg {
    /// Sent once on connect. The server binds this connection to a roster slot
    /// only if the token matches what the backend issued.
    Hello { version: u16, player_id: String, session_token: String },
    Input { seq: u32, dir: Dir },
}

#[derive(Debug, Clone, PartialEq)]
pub enum ServerMsg {
    /// Accepted. Carries everything needed to build the world locally.
    Welcome {
        slot: u8,
        seed: u64,
        /// The pellet field packed two bits per corridor tile.
        pellets: Vec<u8>,
        nicks: [String; 2],
    },
    Rejected { reason: String },
    Snapshot(Snapshot),
    MatchOver { scores: [u32; 2], winner: Option<u8> },
}

#[derive(Debug, Clone, Copy, PartialEq, Eq, Structural)]
pub struct PacSnap {
    pub pos: GridPos,
    pub state: RunnerState,
    pub lives: u8,
    pub score: u32,
    pub energized: bool,
    pub stunned: bool,
}

#[derive(Debug, Clone, Copy, PartialEq, Eq, Structural)]
pub struct GhostSnap {
    pub pos: GridPos,
    pub mode: GhostMode,
}

#[derive(Debug, Clone, Copy, PartialEq, Eq, Structural)]
pub enum PelletDelta {
    Eaten(IVec2),
    Spawned(IVec2, PelletKind),
}

#[derive(Debug, Clone, PartialEq)]
pub struct Snapshot {
    pub tick: u32,
    pub elapsed_ms: u32,
    /// The most recent input sequence this client's slot had applied. Anything
    /// after it is still pending and gets replayed during reconciliation.
    pub last_processed_seq: u32,
    pub pacmen: [PacSnap; 2],
    pub ghosts: Vec<GhostSnap>,
    pub pellet_deltas: Vec<PelletDelta>,
}

#[derive(Debug, Clone, Copy, PartialEq, Eq)]
pub struct ProtocolError(&'static str);

impl ProtocolError {
    /// What went wrong.
    pub closed spec fn reason(&self) -> Seq<char> {
        self.0@
    }

    /// The error as a line of text.
    pub fn message(&self) -> (line: String)
        ensures
            line@ == "protocol error: "@ + self.reason(),
    {
        let mut line = "protocol error: ".to_owned();
        line.append(self.0);
        line
    }
}

/// A value that travels: how it is written, and how it is read back from the
/// front of a byte string.
pub trait Wire: View + Sized {
    /// Whether every length in the value fits its number on the wire.
    spec fn fits(v: Self::V) -> bool;

    /// Whether the value comes through the wire as it was. Only what lies outside
    /// its tile does not: an offset travels in single precision.
    spec fn exact(v: Self::V) -> bool;

    spec fn wire(v: Self::V) -> Seq<u8>;

    /// The value at the front of the bytes and the bytes after it.
    spec fn read(b: Seq<u8>) -> Option<(Self::V, Seq<u8>)>;

    /// What was written is read back, whatever follows it.
    proof fn round_trips(v: Self::V, rest: Seq<u8>)
        requires
            Self::fits(v),
            Self::exact(v),
        ensures
            Self::read(Self::wire(v) + rest) == Some((v, rest)),
    ;

    fn put(&self, out: &mut Vec<u8>)
        ensures
            final(out)@ == old(out)@ + Self::wire(self@),
            Self::fits(self@),
    ;

    fn take<'a>(bytes: &'a [u8]) -> (r: Option<(Self, &'a [u8])>)
        ensures
            match r {
                Some((v, rest)) => Self::read(bytes@) == Some((v@, rest@)),
                None => Self::read(bytes@) is None,
            },
    ;
}

/// Appending in two steps is appending once.
proof fn lemma_append(a: Seq<u8>, b: Seq<u8>, c: Seq<u8>)
    ensures
        a + b + c == a + (b + c),
{
    assert(a + b + c =~= a + (b + c));
}

/// Writing three parts one after the other, and reading them back.
proof fn lemma_three_parts(o: Seq<u8>, a: Seq<u8>, b: Seq<u8>, c: Seq<u8>, rest: Seq<u8>)
    ensures
        o + a + b + c == o + (a + (b + c)),
        (a + (b + c)) + rest == a + (b + (c + rest)),
{
    assert(o + a + b + c =~= o + (a + (b + c)));
    assert((a + (b + c)) + rest =~= a + (b + (c + rest)));
}

/// Writing four parts one after the other, and reading them back.
proof fn lemma_four_parts(o: Seq<u8>, a: Seq<u8>, b: Seq<u8>, c: Seq<u8>, d: Seq<u8>, rest: Seq<u8>)
    ensures
        o + a + b + c + d == o + (a + (b + (c + d))),
        (a + (b + (c + d))) + rest == a + (b + (c + (d + rest))),
{
    assert(o + a + b + c + d =~= o + (a + (b + (c + d))));
    assert((a + (b + (c + d))) + rest =~= a + (b + (c + (d + rest))));
}

/// Writing six parts one after the other, and reading them back.
proof fn lemma_six_parts(
    o: Seq<u8>,
    a: Seq<u8>,
    b: Seq<u8>,
    c: Seq<u8>,
    d: Seq<u8>,
    e: Seq<u8>,
    f: Seq<u8>,
    rest: Seq<u8>,
)
    ensures
        o + a + b + c + d + e + f == o + (a + (b + (c + (d + (e + f))))),
        (a + (b + (c + (d + (e + f))))) + rest == a + (b + (c + (d + (e + (f + rest))))),
{
    assert(o + a + b + c + d + e + f =~= o + (a + (b + (c + (d + (e + f))))));
    assert((a + (b + (c + (d + (e + f))))) + rest =~= a + (b + (c + (d + (e + (f + rest))))));
}

/// Writing seven parts one after the other, and reading them back.
proof fn lemma_seven_parts(
    o: Seq<u8>,
    a: Seq<u8>,
    b: Seq<u8>,
    c: Seq<u8>,
    d: Seq<u8>,
    e: Seq<u8>,
    f: Seq<u8>,
    g: Seq<u8>,
    rest: Seq<u8>,
)
    ensures
        o + a + b + c + d + e + f + g == o + (a + (b + (c + (d + (e + (f + g)))))),
        (a + (b + (c + (d + (e + (f + g)))))) + rest == a + (b + (c + (d + (e + (f + (g
            + rest)))))),
{
    assert(o + a + b + c + d + e + f + g =~= o + (a + (b + (c + (d + (e + (f + g)))))));
    assert((a + (b + (c + (d + (e + (f + g)))))) + rest =~= a + (b + (c + (d + (e + (f + (g
        + rest)))))));
}

impl View for Dir {
    type V = Dir;

    open spec fn view(&self) -> Dir {
        *self
    }
}

pub open spec fn dir_code(d: Dir) -> nat {
    match d {
        Dir::Up => 0,
        Dir::Down => 1,
        Dir::Left => 2,
        Dir::Right => 3,
    }
}

impl Wire for Dir {
    open spec fn fits(v: Dir) -> bool {
        true
    }

    open spec fn exact(v: Dir) -> bool {
        true
    }

    open spec fn wire(v: Dir) -> Seq<u8> {
        varint(dir_code(v))
    }

    open spec fn read(b: Seq<u8>) -> Option<(Dir, Seq<u8>)> {
        match read_u32(b) {
            Some((n, rest)) => if n == 0 {
                Some((Dir::Up, rest))
            } else if n == 1 {
                Some((Dir::Down, rest))
            } else if n == 2 {
                Some((Dir::Left, rest))
            } else if n == 3 {
                Some((Dir::Right, rest))
            } else {
                None
            },
            None => None,
        }
    }

    proof fn round_trips(v: Dir, rest: Seq<u8>) {
        law_numbers_round_trip(dir_code(v) as u64, rest);
    }

    fn put(&self, out: &mut Vec<u8>) {
        let code: u64 = match self {
            Dir::Up => 0,
            Dir::Down => 1,
            Dir::Left => 2,
            Dir::Right => 3,
        };
        put_unsigned(out, code);
    }

    fn take<'a>(bytes: &'a [u8]) -> (r: Option<(Dir, &'a [u8])>) {
        let (n, rest) = take_u32(bytes)?;
        match n {
            0 => Some((Dir::Up, rest)),
            1 => Some((Dir::Down, rest)),
            2 => Some((Dir::Left, rest)),
            3 => Some((Dir::Right, rest)),
            _ => None,
        }
    }
}

impl View for IVec2 {
    type V = IVec2;

    open spec fn view(&self) -> IVec2 {
        *self
    }
}

impl Wire for IVec2 {
    open spec fn fits(v: IVec2) -> bool {
        true
    }

    open spec fn exact(v: IVec2) -> bool {
        true
    }

    open spec fn wire(v: IVec2) -> Seq<u8> {
        varint(folded(v.x as int)) + varint(folded(v.y as int))
    }

    open spec fn read(b: Seq<u8>) -> Option<(IVec2, Seq<u8>)> {
        match read_i32(b) {
            Some((x, b1)) => match read_i32(b1) {
                Some((y, rest)) => Some((IVec2 { x: x as i32, y: y as i32 }, rest)),
                None => None,
            },
            None => None,
        }
    }

    proof fn round_trips(v: IVec2, rest: Seq<u8>) {
        let (x, y) = (varint(folded(v.x as int)), varint(folded(v.y as int)));
        law_signed_numbers_round_trip(v.x as i64, y + rest);
        law_signed_numbers_round_trip(v.y as i64, rest);
        lemma_append(x, y, rest);
    }

    fn put(&self, out: &mut Vec<u8>) {
        put_signed(out, self.x as i64);
        put_signed(out, self.y as i64);
        proof {
            lemma_append(old(out)@, varint(folded(self.x as int)), varint(folded(self.y as int)));
        }
    }

    fn take<'a>(bytes: &'a [u8]) -> (r: Option<(IVec2, &'a [u8])>) {
        let (x, bytes1) = take_i32(bytes)?;
        let (y, rest) = take_i32(bytes1)?;
        Some((IVec2 { x, y }, rest))
    }
}

impl View for GridPos {
    type V = GridPos;

    open spec fn view(&self) -> GridPos {
        *self
    }
}

impl Wire for GridPos {
    open spec fn fits(v: GridPos) -> bool {
        true
    }

    open spec fn exact(v: GridPos) -> bool {
        v.in_tile()
    }

    open spec fn wire(v: GridPos) -> Seq<u8> {
        IVec2::wire(v.tile) + (four_bytes(bits_of(v.offset as int, TILE_UNITS as int)) + Dir::wire(
            v.dir,
        ))
    }

    open spec fn read(b: Seq<u8>) -> Option<(GridPos, Seq<u8>)> {
        match IVec2::read(b) {
            Some((tile, b1)) => match read_four(b1) {
                Some((bits, b2)) => match Dir::read(b2) {
                    Some((dir, rest)) => Some(
                        (GridPos { tile, offset: offset_in(bits) as i64, dir }, rest),
                    ),
                    None => None,
                },
                None => None,
            },
            None => None,
        }
    }

    proof fn round_trips(v: GridPos, rest: Seq<u8>) {
        let bits = bits_of(v.offset as int, TILE_UNITS as int);
        let (a, b, c) = (IVec2::wire(v.tile), four_bytes(bits), Dir::wire(v.dir));
        law_parts_survive_single_precision(
            v.offset as int,
            TILE_UNITS as int,
            OFFSET_LIMIT as int,
        );
        IVec2::round_trips(v.tile, b + c + rest);
        law_four_bytes_round_trip(bits, c + rest);
        Dir::round_trips(v.dir, rest);
        lemma_append(a, b + c, rest);
        lemma_append(b, c, rest);
    }

    fn put(&self, out: &mut Vec<u8>) {
        let ghost (a, b, c) = (
            IVec2::wire(self.tile),
            four_bytes(bits_of(self.offset as int, TILE_UNITS as int)),
            Dir::wire(self.dir),
        );
        self.tile.put(out);
        put_four(out, single_bits(self.offset, TILE_UNITS as u32));
        self.dir.put(out);
        assert(out@ =~= old(out)@ + (a + (b + c)));
    }

    fn take<'a>(bytes: &'a [u8]) -> (r: Option<(GridPos, &'a [u8])>) {
        let (tile, bytes1) = IVec2::take(bytes)?;
        let (bits, bytes2) = take_four(bytes1)?;
        let (dir, rest) = Dir::take(bytes2)?;
        let offset: i64 = parts_of_single(bits, TILE_UNITS as u32, OFFSET_LIMIT);
        Some((GridPos { tile, offset, dir }, rest))
    }
}

/// The progress into a tile behind the bits of a single precision number, to the
/// nearest unit. What lies further out than an offset can is taken to lie as far as
/// it can.
pub open spec fn offset_in(bits: int) -> int {
    parts_in(bits, TILE_UNITS as int, OFFSET_LIMIT as int)
}

/// Every position that comes over the wire is one the arithmetic can work on.
pub proof fn lemma_read_positions_are_in_range(b: Seq<u8>)
    ensures
        GridPos::read(b) matches Some((pos, _)) ==> pos.wf(),
{
    if let Some((tile, b1)) = IVec2::read(b) {
        if let Some((bits, b2)) = read_four(b1) {
            lemma_parts_in_range(bits, TILE_UNITS as int, OFFSET_LIMIT as int);
        }
    }
}

impl View for RunnerState {
    type V = RunnerState;

    open spec fn view(&self) -> RunnerState {
        *self
    }
}

pub open spec fn state_code(v: RunnerState) -> nat {
    match v {
        RunnerState::Alive => 0,
        RunnerState::Dying => 1,
        RunnerState::Out => 2,
    }
}

impl Wire for RunnerState {
    open spec fn fits(v: RunnerState) -> bool {
        true
    }

    open spec fn exact(v: RunnerState) -> bool {
        true
    }

    open spec fn wire(v: RunnerState) -> Seq<u8> {
        varint(state_code(v))
    }

    open spec fn read(b: Seq<u8>) -> Option<(RunnerState, Seq<u8>)> {
        match read_u32(b) {
            Some((n, rest)) => if n == 0 {
                Some((RunnerState::Alive, rest))
            } else if n == 1 {
                Some((RunnerState::Dying, rest))
            } else if n == 2 {
                Some((RunnerState::Out, rest))
            } else {
                None
            },
            None => None,
        }
    }

    proof fn round_trips(v: RunnerState, rest: Seq<u8>) {
        law_numbers_round_trip(state_code(v) as u64, rest);
    }

    fn put(&self, out: &mut Vec<u8>) {
        let code: u64 = match self {
            RunnerState::Alive => 0,
            RunnerState::Dying => 1,
            RunnerState::Out => 2,
        };
        put_unsigned(out, code);
    }

    fn take<'a>(bytes: &'a [u8]) -> (r: Option<(RunnerState, &'a [u8])>) {
        let (n, rest) = take_u32(bytes)?;
        match n {
            0 => Some((RunnerState::Alive, rest)),
            1 => Some((RunnerState::Dying, rest)),
            2 => Some((RunnerState::Out, rest)),
            _ => None,
        }
    }
}

impl View for GhostMode {
    type V = GhostMode;

    open spec fn view(&self) -> GhostMode {
        *self
    }
}

pub open spec fn mode_code(v: GhostMode) -> nat {
    match v {
        GhostMode::Scatter => 0,
        GhostMode::Chase => 1,
        GhostMode::Frightened => 2,
        GhostMode::Eaten => 3,
    }
}

impl Wire for GhostMode {
    open spec fn fits(v: GhostMode) -> bool {
        true
    }

    open spec fn exact(v: GhostMode) -> bool {
        true
    }

    open spec fn wire(v: GhostMode) -> Seq<u8> {
        varint(mode_code(v))
    }

    open spec fn read(b: Seq<u8>) -> Option<(GhostMode, Seq<u8>)> {
        match read_u32(b) {
            Some((n, rest)) => if n == 0 {
                Some((GhostMode::Scatter, rest))
            } else if n == 1 {
                Some((GhostMode::Chase, rest))
            } else if n == 2 {
                Some((GhostMode::Frightened, rest))
            } else if n == 3 {
                Some((GhostMode::Eaten, rest))
            } else {
                None
            },
            None => None,
        }
    }

    proof fn round_trips(v: GhostMode, rest: Seq<u8>) {
        law_numbers_round_trip(mode_code(v) as u64, rest);
    }

    fn put(&self, out: &mut Vec<u8>) {
        let code: u64 = match self {
            GhostMode::Scatter => 0,
            GhostMode::Chase => 1,
            GhostMode::Frightened => 2,
            GhostMode::Eaten => 3,
        };
        put_unsigned(out, code);
    }

    fn take<'a>(bytes: &'a [u8]) -> (r: Option<(GhostMode, &'a [u8])>) {
        let (n, rest) = take_u32(bytes)?;
        match n {
            0 => Some((GhostMode::Scatter, rest)),
            1 => Some((GhostMode::Chase, rest)),
            2 => Some((GhostMode::Frightened, rest)),
            3 => Some((GhostMode::Eaten, rest)),
            _ => None,
        }
    }
}

impl View for PelletKind {
    type V = PelletKind;

    open spec fn view(&self) -> PelletKind {
        *self
    }
}

pub open spec fn kind_code(v: PelletKind) -> nat {
    match v {
        PelletKind::Normal => 0,
        PelletKind::Power => 1,
    }
}

impl Wire for PelletKind {
    open spec fn fits(v: PelletKind) -> bool {
        true
    }

    open spec fn exact(v: PelletKind) -> bool {
        true
    }

    open spec fn wire(v: PelletKind) -> Seq<u8> {
        varint(kind_code(v))
    }

    open spec fn read(b: Seq<u8>) -> Option<(PelletKind, Seq<u8>)> {
        match read_u32(b) {
            Some((n, rest)) => if n == 0 {
                Some((PelletKind::Normal, rest))
            } else if n == 1 {
                Some((PelletKind::Power, rest))
            } else {
                None
            },
            None => None,
        }
    }

    proof fn round_trips(v: PelletKind, rest: Seq<u8>) {
        law_numbers_round_trip(kind_code(v) as u64, rest);
    }

    fn put(&self, out: &mut Vec<u8>) {
        let code: u64 = match self {
            PelletKind::Normal => 0,
            PelletKind::Power => 1,
        };
        put_unsigned(out, code);
    }

    fn take<'a>(bytes: &'a [u8]) -> (r: Option<(PelletKind, &'a [u8])>) {
        let (n, rest) = take_u32(bytes)?;
        match n {
            0 => Some((PelletKind::Normal, rest)),
            1 => Some((PelletKind::Power, rest)),
            _ => None,
        }
    }
}

impl View for PacSnap {
    type V = PacSnap;

    open spec fn view(&self) -> PacSnap {
        *self
    }
}

impl Wire for PacSnap {
    open spec fn fits(v: PacSnap) -> bool {
        true
    }

    open spec fn exact(v: PacSnap) -> bool {
        v.pos.in_tile()
    }

    open spec fn wire(v: PacSnap) -> Seq<u8> {
        GridPos::wire(v.pos) + (RunnerState::wire(v.state) + (seq![v.lives] + (varint(
            v.score as nat,
        ) + (flag(v.energized) + flag(v.stunned)))))
    }

    open spec fn read(b: Seq<u8>) -> Option<(PacSnap, Seq<u8>)> {
        match GridPos::read(b) {
            Some((pos, b1)) => match RunnerState::read(b1) {
                Some((state, b2)) => match read_u8(b2) {
                    Some((lives, b3)) => match read_u32(b3) {
                        Some((score, b4)) => match read_flag(b4) {
                            Some((energized, b5)) => match read_flag(b5) {
                                Some((stunned, rest)) => Some(
                                    (
                                        PacSnap {
                                            pos,
                                            state,
                                            lives,
                                            score: score as u32,
                                            energized,
                                            stunned,
                                        },
                                        rest,
                                    ),
                                ),
                                None => None,
                            },
                            None => None,
                        },
                        None => None,
                    },
                    None => None,
                },
                None => None,
            },
            None => None,
        }
    }

    proof fn round_trips(v: PacSnap, rest: Seq<u8>) {
        let (a, b, c, d, e, f) = (
            GridPos::wire(v.pos),
            RunnerState::wire(v.state),
            seq![v.lives],
            varint(v.score as nat),
            flag(v.energized),
            flag(v.stunned),
        );
        let r5 = f + rest;
        let r4 = e + r5;
        let r3 = d + r4;
        let r2 = c + r3;
        let r1 = b + r2;
        GridPos::round_trips(v.pos, r1);
        RunnerState::round_trips(v.state, r2);
        law_flags_round_trip(v.energized, v.lives, r3);
        law_numbers_round_trip(v.score as u64, r4);
        law_flags_round_trip(v.energized, v.lives, r5);
        law_flags_round_trip(v.stunned, v.lives, rest);
        lemma_six_parts(Seq::empty(), a, b, c, d, e, f, rest);
    }

    fn put(&self, out: &mut Vec<u8>) {
        self.pos.put(out);
        self.state.put(out);
        put_u8(out, self.lives);
        put_unsigned(out, self.score as u64);
        put_flag(out, self.energized);
        put_flag(out, self.stunned);
        proof {
            lemma_six_parts(
                old(out)@,
                GridPos::wire(self.pos),
                RunnerState::wire(self.state),
                seq![self.lives],
                varint(self.score as nat),
                flag(self.energized),
                flag(self.stunned),
                Seq::empty(),
            );
        }
    }

    fn take<'a>(bytes: &'a [u8]) -> (r: Option<(PacSnap, &'a [u8])>) {
        let (pos, bytes1) = GridPos::take(bytes)?;
        let (state, bytes2) = RunnerState::take(bytes1)?;
        let (lives, bytes3) = take_u8(bytes2)?;
        let (score, bytes4) = take_u32(bytes3)?;
        let (energized, bytes5) = take_flag(bytes4)?;
        let (stunned, rest) = take_flag(bytes5)?;
        Some((PacSnap { pos, state, lives, score, energized, stunned }, rest))
    }
}

impl View for GhostSnap {
    type V = GhostSnap;

    open spec fn view(&self) -> GhostSnap {
        *self
    }
}

impl Wire for GhostSnap {
    open spec fn fits(v: GhostSnap) -> bool {
        true
    }

    open spec fn exact(v: GhostSnap) -> bool {
        v.pos.in_tile()
    }

    open spec fn wire(v: GhostSnap) -> Seq<u8> {
        GridPos::wire(v.pos) + GhostMode::wire(v.mode)
    }

    open spec fn read(b: Seq<u8>) -> Option<(GhostSnap, Seq<u8>)> {
        match GridPos::read(b) {
            Some((pos, b1)) => match GhostMode::read(b1) {
                Some((mode, rest)) => Some((GhostSnap { pos, mode }, rest)),
                None => None,
            },
            None => None,
        }
    }

    proof fn round_trips(v: GhostSnap, rest: Seq<u8>) {
        let (a, b) = (GridPos::wire(v.pos), GhostMode::wire(v.mode));
        GridPos::round_trips(v.pos, b + rest);
        GhostMode::round_trips(v.mode, rest);
        lemma_append(a, b, rest);
    }

    fn put(&self, out: &mut Vec<u8>) {
        self.pos.put(out);
        self.mode.put(out);
        assert(out@ =~= old(out)@ + Self::wire(*self));
    }

    fn take<'a>(bytes: &'a [u8]) -> (r: Option<(GhostSnap, &'a [u8])>) {
        let (pos, bytes1) = GridPos::take(bytes)?;
        let (mode, rest) = GhostMode::take(bytes1)?;
        Some((GhostSnap { pos, mode }, rest))
    }
}

impl View for PelletDelta {
    type V = PelletDelta;

    open spec fn view(&self) -> PelletDelta {
        *self
    }
}

impl Wire for PelletDelta {
    open spec fn fits(v: PelletDelta) -> bool {
        true
    }

    open spec fn exact(v: PelletDelta) -> bool {
        true
    }

    open spec fn wire(v: PelletDelta) -> Seq<u8> {
        match v {
            PelletDelta::Eaten(tile) => varint(0) + IVec2::wire(tile),
            PelletDelta::Spawned(tile, kind) => varint(1) + (IVec2::wire(tile)
                + PelletKind::wire(kind)),
        }
    }

    open spec fn read(b: Seq<u8>) -> Option<(PelletDelta, Seq<u8>)> {
        match read_u32(b) {
            Some((n, b1)) => if n == 0 {
                match IVec2::read(b1) {
                    Some((tile, rest)) => Some((PelletDelta::Eaten(tile), rest)),
                    None => None,
                }
            } else if n == 1 {
                match IVec2::read(b1) {
                    Some((tile, b2)) => match PelletKind::read(b2) {
                        Some((kind, rest)) => Some((PelletDelta::Spawned(tile, kind), rest)),
                        None => None,
                    },
                    None => None,
                }
            } else {
                None
            },
            None => None,
        }
    }

    proof fn round_trips(v: PelletDelta, rest: Seq<u8>) {
        match v {
            PelletDelta::Eaten(tile) => {
                law_numbers_round_trip(0, IVec2::wire(tile) + rest);
                IVec2::round_trips(tile, rest);
                lemma_append(varint(0), IVec2::wire(tile), rest);
            },
            PelletDelta::Spawned(tile, kind) => {
                let (a, b) = (IVec2::wire(tile), PelletKind::wire(kind));
                law_numbers_round_trip(1, a + (b + rest));
                IVec2::round_trips(tile, b + rest);
                PelletKind::round_trips(kind, rest);
                lemma_three_parts(Seq::empty(), varint(1), a, b, rest);
            },
        }
    }

    fn put(&self, out: &mut Vec<u8>) {
        match self {
            PelletDelta::Eaten(tile) => {
                put_unsigned(out, 0);
                tile.put(out);
            },
            PelletDelta::Spawned(tile, kind) => {
                put_unsigned(out, 1);
                tile.put(out);
                kind.put(out);
            },
        }
        assert(out@ =~= old(out)@ + Self::wire(*self));
    }

    fn take<'a>(bytes: &'a [u8]) -> (r: Option<(PelletDelta, &'a [u8])>) {
        let (n, bytes1) = take_u32(bytes)?;
        match n {
            0 => {
                let (tile, rest) = IVec2::take(bytes1)?;
                Some((PelletDelta::Eaten(tile), rest))
            },
            1 => {
                let (tile, bytes2) = IVec2::take(bytes1)?;
                let (kind, rest) = PelletKind::take(bytes2)?;
                Some((PelletDelta::Spawned(tile, kind), rest))
            },
            _ => None,
        }
    }
}

/// The items of a list, one after the other.
pub open spec fn items<T: Wire>(list: Seq<T::V>) -> Seq<u8>
    decreases list.len(),
{
    if list.len() == 0 {
        Seq::empty()
    } else {
        T::wire(list[0]) + items::<T>(list.drop_first())
    }
}

/// Reads `n` items.
pub open spec fn read_items<T: Wire>(b: Seq<u8>, n: nat) -> Option<(Seq<T::V>, Seq<u8>)>
    decreases n,
{
    if n == 0 {
        Some((Seq::empty(), b))
    } else {
        match T::read(b) {
            Some((item, b1)) => match read_items::<T>(b1, (n - 1) as nat) {
                Some((list, rest)) => Some((seq![item] + list, rest)),
                None => None,
            },
            None => None,
        }
    }
}

/// A list: its length, then its items.
#[verifier::opaque]
pub open spec fn list_of<T: Wire>(list: Seq<T::V>) -> Seq<u8> {
    varint(list.len()) + items::<T>(list)
}

#[verifier::opaque]
pub open spec fn read_list<T: Wire>(b: Seq<u8>) -> Option<(Seq<T::V>, Seq<u8>)> {
    match read_u64(b) {
        Some((n, b1)) => read_items::<T>(b1, n),
        None => None,
    }
}

/// The contents of a vector.
pub open spec fn views<T: Wire>(list: Seq<T>) -> Seq<T::V> {
    list.map_values(|item: T| item@)
}

pub open spec fn all_fit<T: Wire>(list: Seq<T::V>) -> bool {
    &&& list.len() <= u64::MAX
    &&& forall|i: int| 0 <= i < list.len() ==> #[trigger] T::fits(list[i])
}

/// Whether every item of a list comes through as it was.
pub open spec fn all_exact<T: Wire>(list: Seq<T::V>) -> bool {
    forall|i: int| 0 <= i < list.len() ==> #[trigger] T::exact(list[i])
}

proof fn lemma_items<T: Wire>(list: Seq<T::V>, rest: Seq<u8>)
    requires
        forall|i: int| 0 <= i < list.len() ==> #[trigger] T::fits(list[i]),
        all_exact::<T>(list),
    ensures
        read_items::<T>(items::<T>(list) + rest, list.len()) == Some((list, rest)),
    decreases list.len(),
{
    if list.len() > 0 {
        let tail = list.drop_first();
        assert forall|i: int| 0 <= i < tail.len() implies #[trigger] T::fits(tail[i]) by {
            assert(tail[i] == list[i + 1]);
        }
        assert forall|i: int| 0 <= i < tail.len() implies #[trigger] T::exact(tail[i]) by {
            assert(tail[i] == list[i + 1]);
        }
        lemma_items::<T>(tail, rest);
        T::round_trips(list[0], items::<T>(tail) + rest);
        lemma_append(T::wire(list[0]), items::<T>(tail), rest);
        assert(seq![list[0]] + tail =~= list);
    } else {
        assert(items::<T>(list) + rest =~= rest);
        assert(list =~= Seq::empty());
    }
}

/// What was written as a list is read back as that list.
pub proof fn law_lists_round_trip<T: Wire>(list: Seq<T::V>, rest: Seq<u8>)
    requires
        all_fit::<T>(list),
        all_exact::<T>(list),
    ensures
        read_list::<T>(list_of::<T>(list) + rest) == Some((list, rest)),
{
    reveal(list_of);
    reveal(read_list);
    law_numbers_round_trip(list.len() as u64, items::<T>(list) + rest);
    lemma_items::<T>(list, rest);
    lemma_append(varint(list.len()), items::<T>(list), rest);
}

pub fn put_list<T: Wire>(list: &Vec<T>, out: &mut Vec<u8>)
    ensures
        final(out)@ == old(out)@ + list_of::<T>(views(list@)),
        all_fit::<T>(views(list@)),
{
    proof {
        reveal(list_of);
    }
    put_unsigned(out, list.len() as u64);
    let ghost all = views(list@);
    proof {
        assert(all.skip(0) =~= all);
        lemma_append(old(out)@, varint(all.len()), items::<T>(all));
    }
    for i in 0..list.len()
        invariant
            all == views(list@),
            old(out)@ + list_of::<T>(all) == out@ + items::<T>(all.skip(i as int)),
            forall|k: int| 0 <= k < i ==> #[trigger] T::fits(all[k]),
        decreases list.len() - i,
    {
        let ghost tail = all.skip(i as int);
        assert(tail.drop_first() =~= all.skip(i as int + 1));
        assert(tail[0] == list@[i as int]@);
        let ghost before = out@;
        list[i].put(out);
        proof {
            lemma_append(before, T::wire(tail[0]), items::<T>(tail.drop_first()));
        }
    }
    assert(all.skip(list@.len() as int) =~= Seq::empty());
    assert(out@ + Seq::<u8>::empty() =~= out@);
}

pub fn take_list<'a, T: Wire>(bytes: &'a [u8]) -> (r: Option<(Vec<T>, &'a [u8])>)
    ensures
        match r {
            Some((v, rest)) => read_list::<T>(bytes@) == Some((views(v@), rest@)),
            None => read_list::<T>(bytes@) is None,
        },
{
    proof {
        reveal(read_list);
    }
    let (n, bytes1) = take_u64(bytes)?;
    let mut list: Vec<T> = Vec::new();
    let mut at: &'a [u8] = bytes1;
    let mut left: u64 = n;
    assert(views(list@) =~= Seq::empty());
    while left > 0
        invariant
            read_list::<T>(bytes@) == (match read_items::<T>(at@, left as nat) {
                Some((tail, rest)) => Some((views(list@) + tail, rest)),
                None => None,
            }),
        decreases left,
    {
        let ghost sofar = views(list@);
        let (item, next) = T::take(at)?;
        let ghost read = item@;
        list.push(item);
        at = next;
        left = left - 1;
        proof {
            assert(views(list@) =~= sofar.push(read));
            if let Some((tail, rest)) = read_items::<T>(at@, left as nat) {
                assert(sofar + (seq![read] + tail) =~= views(list@) + tail);
            }
        }
    }
    assert(views(list@) + Seq::<T::V>::empty() =~= views(list@));
    Some((list, at))
}

/// The contents of a snapshot.
#[verifier::ext_equal]
pub struct SnapshotView {
    pub tick: u32,
    pub elapsed_ms: u32,
    pub last_processed_seq: u32,
    pub pacmen: (PacSnap, PacSnap),
    pub ghosts: Seq<GhostSnap>,
    pub pellet_deltas: Seq<PelletDelta>,
}

impl View for Snapshot {
    type V = SnapshotView;

    open spec fn view(&self) -> SnapshotView {
        SnapshotView {
            tick: self.tick,
            elapsed_ms: self.elapsed_ms,
            last_processed_seq: self.last_processed_seq,
            pacmen: (self.pacmen@[0], self.pacmen@[1]),
            ghosts: self.ghosts@,
            pellet_deltas: self.pellet_deltas@,
        }
    }
}

impl Wire for Snapshot {
    open spec fn fits(v: SnapshotView) -> bool {
        v.ghosts.len() <= u64::MAX && v.pellet_deltas.len() <= u64::MAX
    }

    open spec fn exact(v: SnapshotView) -> bool {
        v.pacmen.0.pos.in_tile() && v.pacmen.1.pos.in_tile() && forall|i: int|
            0 <= i < v.ghosts.len() ==> (#[trigger] v.ghosts[i]).pos.in_tile()
    }

    open spec fn wire(v: SnapshotView) -> Seq<u8> {
        varint(v.tick as nat) + (varint(v.elapsed_ms as nat) + (varint(v.last_processed_seq as nat)
            + (PacSnap::wire(v.pacmen.0) + (PacSnap::wire(v.pacmen.1) + (list_of::<GhostSnap>(
            v.ghosts,
        ) + list_of::<PelletDelta>(v.pellet_deltas))))))
    }

    open spec fn read(b: Seq<u8>) -> Option<(SnapshotView, Seq<u8>)> {
        match read_u32(b) {
            Some((tick, b1)) => match read_u32(b1) {
                Some((elapsed_ms, b2)) => match read_u32(b2) {
                    Some((seq, b3)) => match PacSnap::read(b3) {
                        Some((p0, b4)) => match PacSnap::read(b4) {
                            Some((p1, b5)) => match read_list::<GhostSnap>(b5) {
                                Some((ghosts, b6)) => match read_list::<PelletDelta>(b6) {
                                    Some((pellet_deltas, rest)) => Some(
                                        (
                                            SnapshotView {
                                                tick: tick as u32,
                                                elapsed_ms: elapsed_ms as u32,
                                                last_processed_seq: seq as u32,
                                                pacmen: (p0, p1),
                                                ghosts,
                                                pellet_deltas,
                                            },
                                            rest,
                                        ),
                                    ),
                                    None => None,
                                },
                                None => None,
                            },
                            None => None,
                        },
                        None => None,
                    },
                    None => None,
                },
                None => None,
            },
            None => None,
        }
    }

    proof fn round_trips(v: SnapshotView, rest: Seq<u8>) {
        let (a, b, c) = (
            varint(v.tick as nat),
            varint(v.elapsed_ms as nat),
            varint(v.last_processed_seq as nat),
        );
        let (d, e) = (PacSnap::wire(v.pacmen.0), PacSnap::wire(v.pacmen.1));
        let (f, g) = (list_of::<GhostSnap>(v.ghosts), list_of::<PelletDelta>(v.pellet_deltas));
        let r6 = g + rest;
        let r5 = f + r6;
        let r4 = e + r5;
        let r3 = d + r4;
        let r2 = c + r3;
        let r1 = b + r2;
        law_numbers_round_trip(v.tick as u64, r1);
        law_numbers_round_trip(v.elapsed_ms as u64, r2);
        law_numbers_round_trip(v.last_processed_seq as u64, r3);
        PacSnap::round_trips(v.pacmen.0, r4);
        PacSnap::round_trips(v.pacmen.1, r5);
        assert forall|i: int| 0 <= i < v.ghosts.len() implies #[trigger] GhostSnap::exact(
            v.ghosts[i],
        ) by {
            assert(v.ghosts[i].pos.in_tile());
        }
        law_lists_round_trip::<GhostSnap>(v.ghosts, r6);
        law_lists_round_trip::<PelletDelta>(v.pellet_deltas, rest);
        lemma_seven_parts(Seq::empty(), a, b, c, d, e, f, g, rest);
    }

    fn put(&self, out: &mut Vec<u8>) {
        put_unsigned(out, self.tick as u64);
        put_unsigned(out, self.elapsed_ms as u64);
        put_unsigned(out, self.last_processed_seq as u64);
        self.pacmen[0].put(out);
        self.pacmen[1].put(out);
        put_list(&self.ghosts, out);
        put_list(&self.pellet_deltas, out);
        assert(views(self.ghosts@) =~= self.ghosts@);
        assert(views(self.pellet_deltas@) =~= self.pellet_deltas@);
        proof {
            lemma_seven_parts(
                old(out)@,
                varint(self.tick as nat),
                varint(self.elapsed_ms as nat),
                varint(self.last_processed_seq as nat),
                PacSnap::wire(self.pacmen@[0]),
                PacSnap::wire(self.pacmen@[1]),
                list_of::<GhostSnap>(self.ghosts@),
                list_of::<PelletDelta>(self.pellet_deltas@),
                Seq::empty(),
            );
        }
    }

    fn take<'a>(bytes: &'a [u8]) -> (r: Option<(Snapshot, &'a [u8])>) {
        let (tick, bytes1) = take_u32(bytes)?;
        let (elapsed_ms, bytes2) = take_u32(bytes1)?;
        let (last_processed_seq, bytes3) = take_u32(bytes2)?;
        let (p0, bytes4) = PacSnap::take(bytes3)?;
        let (p1, bytes5) = PacSnap::take(bytes4)?;
        let (ghosts, bytes6) = take_list::<GhostSnap>(bytes5)?;
        let (pellet_deltas, rest) = take_list::<PelletDelta>(bytes6)?;
        assert(views(ghosts@) =~= ghosts@);
        assert(views(pellet_deltas@) =~= pellet_deltas@);
        Some(
            (
                Snapshot {
                    tick,
                    elapsed_ms,
                    last_processed_seq,
                    pacmen: [p0, p1],
                    ghosts,
                    pellet_deltas,
                },
                rest,
            ),
        )
    }
}

/// The contents of a client message.
#[verifier::ext_equal]
pub enum ClientMsgView {
    Hello { version: u16, player_id: Seq<char>, session_token: Seq<char> },
    Input { seq: u32, dir: Dir },
}

impl View for ClientMsg {
    type V = ClientMsgView;

    open spec fn view(&self) -> ClientMsgView {
        match self {
            ClientMsg::Hello { version, player_id, session_token } => ClientMsgView::Hello {
                version: *version,
                player_id: player_id@,
                session_token: session_token@,
            },
            ClientMsg::Input { seq, dir } => ClientMsgView::Input { seq: *seq, dir: *dir },
        }
    }
}

/// Whether the length of a text fits its number on the wire.
pub open spec fn text_fits(s: Seq<char>) -> bool {
    encode_utf8(s).len() <= u64::MAX
}

impl Wire for ClientMsg {
    open spec fn fits(v: ClientMsgView) -> bool {
        match v {
            ClientMsgView::Hello { version, player_id, session_token } => text_fits(player_id)
                && text_fits(session_token),
            ClientMsgView::Input { .. } => true,
        }
    }

    open spec fn exact(v: ClientMsgView) -> bool {
        true
    }

    open spec fn wire(v: ClientMsgView) -> Seq<u8> {
        match v {
            ClientMsgView::Hello { version, player_id, session_token } => varint(0) + (varint(
                version as nat,
            ) + (text(player_id) + text(session_token))),
            ClientMsgView::Input { seq, dir } => varint(1) + (varint(seq as nat) + Dir::wire(dir)),
        }
    }

    open spec fn read(b: Seq<u8>) -> Option<(ClientMsgView, Seq<u8>)> {
        match read_u32(b) {
            Some((n, b1)) => if n == 0 {
                match read_u16(b1) {
                    Some((version, b2)) => match read_text(b2) {
                        Some((player_id, b3)) => match read_text(b3) {
                            Some((session_token, rest)) => Some(
                                (
                                    ClientMsgView::Hello {
                                        version: version as u16,
                                        player_id,
                                        session_token,
                                    },
                                    rest,
                                ),
                            ),
                            None => None,
                        },
                        None => None,
                    },
                    None => None,
                }
            } else if n == 1 {
                match read_u32(b1) {
                    Some((seq, b2)) => match Dir::read(b2) {
                        Some((dir, rest)) => Some(
                            (ClientMsgView::Input { seq: seq as u32, dir }, rest),
                        ),
                        None => None,
                    },
                    None => None,
                }
            } else {
                None
            },
            None => None,
        }
    }

    proof fn round_trips(v: ClientMsgView, rest: Seq<u8>) {
        match v {
            ClientMsgView::Hello { version, player_id, session_token } => {
                let (a, b, c) = (varint(version as nat), text(player_id), text(session_token));
                law_numbers_round_trip(0, a + (b + (c + rest)));
                law_numbers_round_trip(version as u64, b + (c + rest));
                law_text_round_trips(player_id, c + rest);
                law_text_round_trips(session_token, rest);
                lemma_four_parts(Seq::empty(), varint(0), a, b, c, rest);
            },
            ClientMsgView::Input { seq, dir } => {
                let (a, b) = (varint(seq as nat), Dir::wire(dir));
                law_numbers_round_trip(1, a + (b + rest));
                law_numbers_round_trip(seq as u64, b + rest);
                Dir::round_trips(dir, rest);
                lemma_three_parts(Seq::empty(), varint(1), a, b, rest);
            },
        }
    }

    fn put(&self, out: &mut Vec<u8>) {
        match self {
            ClientMsg::Hello { version, player_id, session_token } => {
                put_unsigned(out, 0);
                put_unsigned(out, *version as u64);
                put_text(out, player_id.as_str());
                put_text(out, session_token.as_str());
                proof {
                    lemma_four_parts(
                        old(out)@,
                        varint(0),
                        varint(*version as nat),
                        text(player_id@),
                        text(session_token@),
                        Seq::empty(),
                    );
                }
            },
            ClientMsg::Input { seq, dir } => {
                put_unsigned(out, 1);
                put_unsigned(out, *seq as u64);
                dir.put(out);
                proof {
                    lemma_three_parts(
                        old(out)@,
                        varint(1),
                        varint(*seq as nat),
                        Dir::wire(*dir),
                        Seq::empty(),
                    );
                }
            },
        }
    }

    fn take<'a>(bytes: &'a [u8]) -> (r: Option<(ClientMsg, &'a [u8])>) {
        let (n, bytes1) = take_u32(bytes)?;
        match n {
            0 => {
                let (version, bytes2) = take_u16(bytes1)?;
                let (player_id, bytes3) = take_text(bytes2)?;
                let (session_token, rest) = take_text(bytes3)?;
                Some((ClientMsg::Hello { version, player_id, session_token }, rest))
            },
            1 => {
                let (seq, bytes2) = take_u32(bytes1)?;
                let (dir, rest) = Dir::take(bytes2)?;
                Some((ClientMsg::Input { seq, dir }, rest))
            },
            _ => None,
        }
    }
}

/// The contents of a server message.
#[verifier::ext_equal]
pub enum ServerMsgView {
    Welcome { slot: u8, seed: u64, pellets: Seq<u8>, nicks: (Seq<char>, Seq<char>) },
    Rejected { reason: Seq<char> },
    Snapshot(SnapshotView),
    MatchOver { scores: (u32, u32), winner: Option<u8> },
}

impl View for ServerMsg {
    type V = ServerMsgView;

    open spec fn view(&self) -> ServerMsgView {
        match self {
            ServerMsg::Welcome { slot, seed, pellets, nicks } => ServerMsgView::Welcome {
                slot: *slot,
                seed: *seed,
                pellets: pellets@,
                nicks: (nicks@[0]@, nicks@[1]@),
            },
            ServerMsg::Rejected { reason } => ServerMsgView::Rejected { reason: reason@ },
            ServerMsg::Snapshot(snapshot) => ServerMsgView::Snapshot(snapshot@),
            ServerMsg::MatchOver { scores, winner } => ServerMsgView::MatchOver {
                scores: (scores@[0], scores@[1]),
                winner: *winner,
            },
        }
    }
}

/// An optional slot: a byte that says whether there is one, then the slot.
pub open spec fn maybe_slot(v: Option<u8>) -> Seq<u8> {
    match v {
        Some(slot) => seq![1u8] + seq![slot],
        None => seq![0u8],
    }
}

pub open spec fn read_maybe_slot(b: Seq<u8>) -> Option<(Option<u8>, Seq<u8>)> {
    match read_u8(b) {
        Some((tag, b1)) => if tag == 0 {
            Some((None, b1))
        } else if tag == 1 {
            match read_u8(b1) {
                Some((slot, rest)) => Some((Some(slot), rest)),
                None => None,
            }
        } else {
            None
        },
        None => None,
    }
}

impl Wire for ServerMsg {
    open spec fn fits(v: ServerMsgView) -> bool {
        match v {
            ServerMsgView::Welcome { slot, seed, pellets, nicks } => pellets.len() <= u64::MAX
                && text_fits(nicks.0) && text_fits(nicks.1),
            ServerMsgView::Rejected { reason } => text_fits(reason),
            ServerMsgView::Snapshot(snapshot) => Snapshot::fits(snapshot),
            ServerMsgView::MatchOver { .. } => true,
        }
    }

    open spec fn exact(v: ServerMsgView) -> bool {
        match v {
            ServerMsgView::Snapshot(snapshot) => Snapshot::exact(snapshot),
            _ => true,
        }
    }

    open spec fn wire(v: ServerMsgView) -> Seq<u8> {
        match v {
            ServerMsgView::Welcome { slot, seed, pellets, nicks } => varint(0) + (seq![slot] + (
            varint(seed as nat) + (blob(pellets) + (text(nicks.0) + text(nicks.1))))),
            ServerMsgView::Rejected { reason } => varint(1) + text(reason),
            ServerMsgView::Snapshot(snapshot) => varint(2) + Snapshot::wire(snapshot),
            ServerMsgView::MatchOver { scores, winner } => varint(3) + (varint(scores.0 as nat) + (
            varint(scores.1 as nat) + maybe_slot(winner))),
        }
    }

    open spec fn read(b: Seq<u8>) -> Option<(ServerMsgView, Seq<u8>)> {
        match read_u32(b) {
            Some((n, b1)) => if n == 0 {
                match read_u8(b1) {
                    Some((slot, b2)) => match read_u64(b2) {
                        Some((seed, b3)) => match read_blob(b3) {
                            Some((pellets, b4)) => match read_text(b4) {
                                Some((nick0, b5)) => match read_text(b5) {
                                    Some((nick1, rest)) => Some(
                                        (
                                            ServerMsgView::Welcome {
                                                slot,
                                                seed: seed as u64,
                                                pellets,
                                                nicks: (nick0, nick1),
                                            },
                                            rest,
                                        ),
                                    ),
                                    None => None,
                                },
                                None => None,
                            },
                            None => None,
                        },
                        None => None,
                    },
                    None => None,
                }
            } else if n == 1 {
                match read_text(b1) {
                    Some((reason, rest)) => Some((ServerMsgView::Rejected { reason }, rest)),
                    None => None,
                }
            } else if n == 2 {
                match Snapshot::read(b1) {
                    Some((snapshot, rest)) => Some((ServerMsgView::Snapshot(snapshot), rest)),
                    None => None,
                }
            } else if n == 3 {
                match read_u32(b1) {
                    Some((s0, b2)) => match read_u32(b2) {
                        Some((s1, b3)) => match read_maybe_slot(b3) {
                            Some((winner, rest)) => Some(
                                (
                                    ServerMsgView::MatchOver {
                                        scores: (s0 as u32, s1 as u32),
                                        winner,
                                    },
                                    rest,
                                ),
                            ),
                            None => None,
                        },
                        None => None,
                    },
                    None => None,
                }
            } else {
                None
            },
            None => None,
        }
    }

    proof fn round_trips(v: ServerMsgView, rest: Seq<u8>) {
        match v {
            ServerMsgView::Welcome { slot, seed, pellets, nicks } => {
                let (a, b, c) = (seq![slot], varint(seed as nat), blob(pellets));
                let (d, e) = (text(nicks.0), text(nicks.1));
                let r4 = e + rest;
                let r3 = d + r4;
                let r2 = c + r3;
                let r1 = b + r2;
                law_numbers_round_trip(0, a + r1);
                law_flags_round_trip(true, slot, r1);
                law_numbers_round_trip(seed, r2);
                law_blobs_round_trip(pellets, r3);
                law_text_round_trips(nicks.0, r4);
                law_text_round_trips(nicks.1, rest);
                lemma_six_parts(Seq::empty(), varint(0), a, b, c, d, e, rest);
            },
            ServerMsgView::Rejected { reason } => {
                law_numbers_round_trip(1, text(reason) + rest);
                law_text_round_trips(reason, rest);
                lemma_append(varint(1), text(reason), rest);
            },
            ServerMsgView::Snapshot(snapshot) => {
                law_numbers_round_trip(2, Snapshot::wire(snapshot) + rest);
                Snapshot::round_trips(snapshot, rest);
                lemma_append(varint(2), Snapshot::wire(snapshot), rest);
            },
            ServerMsgView::MatchOver { scores, winner } => {
                let (a, b, c) = (
                    varint(scores.0 as nat),
                    varint(scores.1 as nat),
                    maybe_slot(winner),
                );
                law_numbers_round_trip(3, a + (b + (c + rest)));
                law_numbers_round_trip(scores.0 as u64, b + (c + rest));
                law_numbers_round_trip(scores.1 as u64, c + rest);
                match winner {
                    Some(slot) => {
                        law_flags_round_trip(true, 1u8, seq![slot] + rest);
                        law_flags_round_trip(true, slot, rest);
                        lemma_append(seq![1u8], seq![slot], rest);
                    },
                    None => {
                        law_flags_round_trip(true, 0u8, rest);
                    },
                }
                lemma_four_parts(Seq::empty(), varint(3), a, b, c, rest);
            },
        }
    }

    fn put(&self, out: &mut Vec<u8>) {
        match self {
            ServerMsg::Welcome { slot, seed, pellets, nicks } => {
                put_unsigned(out, 0);
                put_u8(out, *slot);
                put_unsigned(out, *seed);
                put_blob(out, pellets.as_slice());
                put_text(out, nicks[0].as_str());
                put_text(out, nicks[1].as_str());
                proof {
                    lemma_six_parts(
                        old(out)@,
                        varint(0),
                        seq![*slot],
                        varint(*seed as nat),
                        blob(pellets@),
                        text(nicks@[0]@),
                        text(nicks@[1]@),
                        Seq::empty(),
                    );
                }
            },
            ServerMsg::Rejected { reason } => {
                put_unsigned(out, 1);
                put_text(out, reason.as_str());
                proof {
                    lemma_append(old(out)@, varint(1), text(reason@));
                }
            },
            ServerMsg::Snapshot(snapshot) => {
                put_unsigned(out, 2);
                snapshot.put(out);
                proof {
                    lemma_append(old(out)@, varint(2), Snapshot::wire(snapshot@));
                }
            },
            ServerMsg::MatchOver { scores, winner } => {
                put_unsigned(out, 3);
                put_unsigned(out, scores[0] as u64);
                put_unsigned(out, scores[1] as u64);
                let ghost before = out@;
                match winner {
                    Some(slot) => {
                        put_u8(out, 1);
                        put_u8(out, *slot);
                        proof {
                            lemma_append(before, seq![1u8], seq![*slot]);
                        }
                    },
                    None => {
                        put_u8(out, 0);
                    },
                }
                proof {
                    lemma_four_parts(
                        old(out)@,
                        varint(3),
                        varint(scores@[0] as nat),
                        varint(scores@[1] as nat),
                        maybe_slot(*winner),
                        Seq::empty(),
                    );
                }
            },
        }
    }

    fn take<'a>(bytes: &'a [u8]) -> (r: Option<(ServerMsg, &'a [u8])>) {
        let (n, bytes1) = take_u32(bytes)?;
        match n {
            0 => {
                let (slot, bytes2) = take_u8(bytes1)?;
                let (seed, bytes3) = take_u64(bytes2)?;
                let (pellets, bytes4) = take_blob(bytes3)?;
                let (nick0, bytes5) = take_text(bytes4)?;
                let (nick1, rest) = take_text(bytes5)?;
                Some((ServerMsg::Welcome { slot, seed, pellets, nicks: [nick0, nick1] }, rest))
            },
            1 => {
                let (reason, rest) = take_text(bytes1)?;
                Some((ServerMsg::Rejected { reason }, rest))
            },
            2 => {
                let (snapshot, rest) = Snapshot::take(bytes1)?;
                Some((ServerMsg::Snapshot(snapshot), rest))
            },
            3 => {
                let (s0, bytes2) = take_u32(bytes1)?;
                let (s1, bytes3) = take_u32(bytes2)?;
                let (tag, bytes4) = take_u8(bytes3)?;
                match tag {
                    0 => Some((ServerMsg::MatchOver { scores: [s0, s1], winner: None }, bytes4)),
                    1 => {
                        let (slot, rest) = take_u8(bytes4)?;
                        Some((ServerMsg::MatchOver { scores: [s0, s1], winner: Some(slot) }, rest))
                    },
                    _ => None,
                }
            },
            _ => None,
        }
    }
}

/// Writes a value.
pub fn encode<T: Wire>(value: &T) -> (r: Result<Vec<u8>, ProtocolError>)
    ensures
        r is Ok,
        r->Ok_0@ == T::wire(value@),
        T::fits(value@),
{
    let mut out: Vec<u8> = Vec::new();
    value.put(&mut out);
    assert(out@ =~= T::wire(value@));
    Ok(out)
}

/// Reads a value. Bytes after it are ignored; bytes that are no such value are
/// refused.
pub fn decode<T: Wire>(bytes: &[u8]) -> (r: Result<T, ProtocolError>)
    ensures
        match r {
            Ok(v) => T::read(bytes@) matches Some((w, _)) && w == v@,
            Err(e) => T::read(bytes@) is None && e.reason() == "decode failed"@,
        },
{
    match T::take(bytes) {
        Some((value, _)) => Ok(value),
        None => Err(ProtocolError("decode failed")),
    }
}

/// Decoding what was encoded gives the value back, with nothing left over.
pub proof fn law_messages_round_trip<T: Wire>(v: T::V)
    requires
        T::fits(v),
        T::exact(v),
    ensures
        T::read(T::wire(v)) == Some((v, Seq::<u8>::empty())),
{
    T::round_trips(v, Seq::empty());
    assert(T::wire(v) + Seq::<u8>::empty() =~= T::wire(v));
}

/// No message and no snapshot reads out of nothing: an empty message is refused.
pub proof fn law_an_empty_message_is_refused()
    ensures
        ClientMsg::read(Seq::empty()) is None,
        ServerMsg::read(Seq::empty()) is None,
        Snapshot::read(Seq::empty()) is None,
{
    reveal(read_u32);
}

/// Every name has its number on the wire.
pub proof fn law_every_name_has_its_number()
    ensures
        Dir::wire(Dir::Up) == seq![0u8],
        Dir::wire(Dir::Down) == seq![1u8],
        Dir::wire(Dir::Left) == seq![2u8],
        Dir::wire(Dir::Right) == seq![3u8],
        RunnerState::wire(RunnerState::Alive) == seq![0u8],
        RunnerState::wire(RunnerState::Dying) == seq![1u8],
        RunnerState::wire(RunnerState::Out) == seq![2u8],
        GhostMode::wire(GhostMode::Scatter) == seq![0u8],
        GhostMode::wire(GhostMode::Chase) == seq![1u8],
        GhostMode::wire(GhostMode::Frightened) == seq![2u8],
        GhostMode::wire(GhostMode::Eaten) == seq![3u8],
        PelletKind::wire(PelletKind::Normal) == seq![0u8],
        PelletKind::wire(PelletKind::Power) == seq![1u8],
{
}

/// Every message begins with its number and carries its fields in order.
pub proof fn law_messages_carry_their_fields_in_order(
    version: u16,
    player_id: Seq<char>,
    token: Seq<char>,
    seq: u32,
    dir: Dir,
    reason: Seq<char>,
    snapshot: SnapshotView,
    scores: (u32, u32),
    winner: Option<u8>,
)
    ensures
        ClientMsg::wire(
            ClientMsgView::Hello { version, player_id, session_token: token },
        ) == seq![0u8] + varint(version as nat) + text(player_id) + text(token),
        ClientMsg::wire(ClientMsgView::Input { seq, dir }) == seq![1u8] + varint(seq as nat)
            + Dir::wire(dir),
        ServerMsg::wire(ServerMsgView::Rejected { reason }) == seq![1u8] + text(reason),
        ServerMsg::wire(ServerMsgView::Snapshot(snapshot)) == seq![2u8] + Snapshot::wire(snapshot),
        ServerMsg::wire(ServerMsgView::MatchOver { scores, winner }) == seq![3u8] + varint(
            scores.0 as nat,
        ) + varint(scores.1 as nat) + (match winner {
            Some(w) => seq![1u8, w],
            None => seq![0u8],
        }),
{
    assert(ClientMsg::wire(ClientMsgView::Hello { version, player_id, session_token: token })
        =~= seq![0u8] + varint(version as nat) + text(player_id) + text(token));
    assert(ClientMsg::wire(ClientMsgView::Input { seq, dir }) =~= seq![1u8] + varint(seq as nat)
        + Dir::wire(dir));
    assert(maybe_slot(winner) =~= (match winner {
        Some(w) => seq![1u8, w],
        None => seq![0u8],
    }));
    assert(ServerMsg::wire(ServerMsgView::MatchOver { scores, winner }) =~= seq![3u8] + varint(
        scores.0 as nat,
    ) + varint(scores.1 as nat) + maybe_slot(winner));
}

/// What a snapshot says of a runner travels as place, state, lives, points, and the
/// flags for energy and stun, one byte each.
pub proof fn law_a_runner_travels_field_by_field(v: PacSnap)
    ensures
        PacSnap::wire(v) == GridPos::wire(v.pos) + RunnerState::wire(v.state) + seq![v.lives]
            + varint(v.score as nat) + seq![
            if v.energized {
                1u8
            } else {
                0u8
            },
            if v.stunned {
                1u8
            } else {
                0u8
            },
        ],
{
    assert(PacSnap::wire(v) =~= GridPos::wire(v.pos) + RunnerState::wire(v.state) + seq![v.lives]
        + varint(v.score as nat) + seq![
        if v.energized {
            1u8
        } else {
            0u8
        },
        if v.stunned {
            1u8
        } else {
            0u8
        },
    ]);
}

/// Places, ghosts and changes to the field travel field by field, in order. A
/// coordinate is folded, so that those near zero are short; an offset travels as the
/// four bytes of a single precision number of tiles.
pub proof fn law_the_board_travels_field_by_field(
    pos: GridPos,
    mode: GhostMode,
    tile: IVec2,
    kind: PelletKind,
)
    ensures
        IVec2::wire(tile) == varint(folded(tile.x as int)) + varint(folded(tile.y as int)),
        tile.x >= 0 ==> folded(tile.x as int) == 2 * tile.x,
        tile.x < 0 ==> folded(tile.x as int) == -2 * tile.x - 1,
        GridPos::wire(pos) == IVec2::wire(pos.tile) + (four_bytes(
            bits_of(pos.offset as int, 12_000_000),
        ) + Dir::wire(pos.dir)),
        GhostSnap::wire(GhostSnap { pos, mode }) == GridPos::wire(pos) + GhostMode::wire(mode),
        PelletDelta::wire(PelletDelta::Eaten(tile)) == seq![0u8] + IVec2::wire(tile),
        PelletDelta::wire(PelletDelta::Spawned(tile, kind)) == seq![1u8] + (IVec2::wire(tile)
            + PelletKind::wire(kind)),
{
}

/// A snapshot travels as its tick, its clock, the last input it answers, both runners
/// in the order of the slots, the ghosts and the changes; a welcome as the slot, the
/// seed, the field and both names in that order.
pub proof fn law_snapshots_and_welcomes_travel_in_order(
    snap: SnapshotView,
    slot: u8,
    seed: u64,
    pellets: Seq<u8>,
    nicks: (Seq<char>, Seq<char>),
)
    ensures
        Snapshot::wire(snap) == varint(snap.tick as nat) + (varint(snap.elapsed_ms as nat) + (
        varint(snap.last_processed_seq as nat) + (PacSnap::wire(snap.pacmen.0) + (PacSnap::wire(
            snap.pacmen.1,
        ) + (list_of::<GhostSnap>(snap.ghosts) + list_of::<PelletDelta>(snap.pellet_deltas)))))),
        ServerMsg::wire(ServerMsgView::Welcome { slot, seed, pellets, nicks }) == seq![0u8] + (seq![
            slot,
        ] + (varint(seed as nat) + (blob(pellets) + (text(nicks.0) + text(nicks.1))))),
{
}

} // verus!
