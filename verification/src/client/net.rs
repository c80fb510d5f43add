//! Talking to the game server.
//!
//! One message goes up: the direction the player wants. Everything else comes
//! down. The client owns no authority at all, which is why there is no code
//! here that could ever report a score.

use vstd::prelude::*;
use crate::client::predict::{Interp, Local};
use crate::client::screen::Screen;
use crate::ghosts::GhostMode;
use crate::grid::WorldPoint;
use crate::maze::{spawn_p0, spawn_p1};
use crate::movement::{Dir, GridPos};
use crate::pellets::PelletField;
use crate::protocol::{
    decode, encode, ClientMsg, GhostSnap, PacSnap, PelletDelta, ServerMsg, Snapshot,
    PROTOCOL_VERSION,
};
use crate::sim::RunnerState;
#[allow(unused_imports)]
use crate::client::predict::{
    after_a_while, drawable, fed_sample, is_forced, is_reconciled, stepped, SNAPSHOT_INTERVAL,
};
#[allow(unused_imports)]
use crate::movement::world_of;
#[allow(unused_imports)]
use crate::grid::IVec2;
#[allow(unused_imports)]
use crate::maze::on_board;
#[allow(unused_imports)]
use crate::pellets::{lemma_with, restored, FieldView, PelletKind};
#[allow(unused_imports)]
use crate::protocol::{
    law_messages_round_trip, lemma_read_positions_are_in_range, read_items, read_list,
    ClientMsgView, ServerMsgView, SnapshotView, Wire,
};
#[allow(unused_imports)]
use crate::wire::{read_u32, read_u64};

verus! {

#[derive(Debug, Clone, Copy, PartialEq, Eq)]
pub struct MatchResult {
    pub scores: [u32; 2],
    pub winner: Option<u8>,
}

/// Everything the client knows about the match in progress.
#[derive(Debug)]
pub struct Match {
    pub slot: u8,
    pub local: Local,
    /// The rival, interpolated. There is no prediction for them: guessing at
    /// somebody else's input buys nothing and looks worse when it is wrong.
    pub remote: Interp,
    pub remote_pos: GridPos,
    pub ghosts: Vec<(Interp, GhostMode, GridPos)>,
    pub pellets: PelletField,
    pub scores: [u32; 2],
    pub lives: [u8; 2],
    pub states: [RunnerState; 2],
    pub energized: [bool; 2],
    pub stunned: [bool; 2],
    pub nicks: [String; 2],
    pub elapsed_ms: u32,
    /// Set once the server says the match is over.
    pub result: Option<MatchResult>,
}

/// Where the runner of a slot enters the maze.
pub open spec fn spawn_of(slot: int) -> GridPos {
    if slot == 0 {
        GridPos { tile: spawn_p0(), offset: 0, dir: Dir::Right }
    } else {
        GridPos { tile: spawn_p1(), offset: 0, dir: Dir::Left }
    }
}

/// Where the other runner enters it, as long as nothing is known of its heading.
pub open spec fn rival_spawn_of(slot: int) -> GridPos {
    GridPos {
        tile: if slot == 0 {
            spawn_p1()
        } else {
            spawn_p0()
        },
        offset: 0,
        dir: Dir::Left,
    }
}

/// An interpolation whose clock runs between the two samples.
pub open spec fn running(i: Interp) -> bool {
    i.wf() && 0 <= i.elapsed <= SNAPSHOT_INTERVAL
}

impl Match {
    pub open spec fn wf(&self) -> bool {
        &&& self.local.wf()
        &&& running(self.remote)
        &&& forall|i: int| 0 <= i < self.ghosts@.len() ==> running((#[trigger] self.ghosts@[i]).0)
        &&& self.pellets.wf()
    }

    /// The match as it begins.
    pub open spec fn is_fresh(
        &self,
        slot: u8,
        pellets: FieldView,
        nicks: (Seq<char>, Seq<char>),
    ) -> bool {
        &&& self.slot == slot
        &&& self.local.pos == spawn_of(slot as int)
        &&& self.local.pending@.len() == 0
        &&& self.local.next_seq == 1
        &&& self.local.last_correction == 0
        &&& self.remote == Interp::new(world_of(rival_spawn_of(slot as int)))
        &&& self.remote_pos == rival_spawn_of(slot as int)
        &&& self.ghosts@.len() == 0
        &&& self.pellets@ == pellets
        &&& self.scores@ == seq![0u32, 0u32]
        &&& self.lives@ == seq![3u8, 3u8]
        &&& self.states@ == seq![RunnerState::Alive, RunnerState::Alive]
        &&& self.energized@ == seq![false, false]
        &&& self.stunned@ == seq![false, false]
        &&& (self.nicks@[0]@, self.nicks@[1]@) == nicks
        &&& self.elapsed_ms == 0
        &&& self.result is None
    }

    /// A match that has just begun.
    pub fn new(slot: u8, pellets: PelletField, nicks: [String; 2]) -> (game: Match)
        requires
            pellets.wf(),
        ensures
            game.wf(),
            game.is_fresh(slot, pellets@, (nicks@[0]@, nicks@[1]@)),
    {
        let (local, remote) = if slot == 0 {
            (GridPos::new(spawn_p0(), Dir::Right), spawn_p1())
        } else {
            (GridPos::new(spawn_p1(), Dir::Left), spawn_p0())
        };
        let remote_pos = GridPos::new(remote, Dir::Left);
        Match {
            slot,
            local: Local::new(local),
            remote: Interp::new(remote_pos.world()),
            remote_pos,
            ghosts: Vec::new(),
            pellets,
            scores: [0, 0],
            lives: [3, 3],
            states: [RunnerState::Alive, RunnerState::Alive],
            energized: [false, false],
            stunned: [false, false],
            nicks,
            elapsed_ms: 0,
            result: None,
        }
    }

    /// The slot across the board.
    pub fn rival_slot(&self) -> (slot: usize)
        requires
            self.slot < 2,
        ensures
            slot == 1 - self.slot,
    {
        1 - self.slot as usize
    }
}

/// What a snapshot says about a slot.
pub open spec fn pac_of(s: SnapshotView, slot: int) -> PacSnap {
    if slot == 0 {
        s.pacmen.0
    } else {
        s.pacmen.1
    }
}

/// A snapshot whose positions the client can work on. Every one that came over the
/// wire is.
pub open spec fn legible(s: SnapshotView) -> bool {
    &&& s.pacmen.0.pos.wf()
    &&& s.pacmen.1.pos.wf()
    &&& forall|i: int| 0 <= i < s.ghosts.len() ==> (#[trigger] s.ghosts[i]).pos.wf()
}

/// The ghosts after a snapshot. One that is new starts where it was first seen;
/// one that the snapshot does not name stays as it is.
pub open spec fn haunted(
    ghosts: Seq<(Interp, GhostMode, GridPos)>,
    seen: Seq<GhostSnap>,
) -> Seq<(Interp, GhostMode, GridPos)> {
    Seq::new(
        if ghosts.len() >= seen.len() {
            ghosts.len()
        } else {
            seen.len()
        },
        |i: int|
            if i < seen.len() {
                let w = world_of(seen[i].pos);
                let before = if i < ghosts.len() {
                    ghosts[i].0
                } else {
                    Interp::new(w)
                };
                (fed_sample(before, w), seen[i].mode, seen[i].pos)
            } else {
                ghosts[i]
            },
    )
}

/// The pellets after one change.
pub open spec fn changed(field: FieldView, delta: PelletDelta) -> FieldView {
    match delta {
        PelletDelta::Eaten(tile) => field.with(tile, None),
        PelletDelta::Spawned(tile, kind) => field.with(tile, Some(kind)),
    }
}

/// The pellets after a row of changes.
pub open spec fn patched(field: FieldView, deltas: Seq<PelletDelta>) -> FieldView
    decreases deltas.len(),
{
    if deltas.len() == 0 {
        field
    } else {
        changed(patched(field, deltas.drop_last()), deltas.last())
    }
}

/// What a snapshot makes of a match. Anything the client could not have
/// predicted, such as dying or being stunned, means the prediction is worthless:
/// then the server's word is taken.
pub open spec fn is_shown(before: Match, s: SnapshotView, after: Match) -> bool {
    let mine = pac_of(s, before.slot as int);
    let theirs = pac_of(s, 1 - before.slot);
    &&& after.slot == before.slot
    &&& after.nicks == before.nicks
    &&& after.result == before.result
    &&& after.elapsed_ms == s.elapsed_ms
    &&& after.scores@ == seq![s.pacmen.0.score, s.pacmen.1.score]
    &&& after.lives@ == seq![s.pacmen.0.lives, s.pacmen.1.lives]
    &&& after.states@ == seq![s.pacmen.0.state, s.pacmen.1.state]
    &&& after.energized@ == seq![s.pacmen.0.energized, s.pacmen.1.energized]
    &&& after.stunned@ == seq![s.pacmen.0.stunned, s.pacmen.1.stunned]
    &&& if mine.state != RunnerState::Alive || mine.stunned {
        is_forced(before.local, mine.pos, after.local)
    } else {
        is_reconciled(before.local, s.last_processed_seq, mine.pos, after.local)
    }
    &&& after.remote_pos == theirs.pos
    &&& after.remote == fed_sample(before.remote, world_of(theirs.pos))
    &&& after.ghosts@ == haunted(before.ghosts@, s.ghosts)
    &&& after.pellets@ == patched(before.pellets@, s.pellet_deltas)
}

fn feed(interp: &mut Interp, next: WorldPoint)
    requires
        running(*old(interp)),
        drawable(next),
    ensures
        *final(interp) == fed_sample(*old(interp), next),
        running(*final(interp)),
{
    interp.push(next);
}

/// The ghosts of a snapshot, one after the other.
fn show_ghosts(ghosts: &mut Vec<(Interp, GhostMode, GridPos)>, seen: &Vec<GhostSnap>)
    requires
        forall|i: int| 0 <= i < old(ghosts)@.len() ==> running((#[trigger] old(ghosts)@[i]).0),
        forall|i: int| 0 <= i < seen@.len() ==> (#[trigger] seen@[i]).pos.wf(),
    ensures
        final(ghosts)@ == haunted(old(ghosts)@, seen@),
        forall|i: int| 0 <= i < final(ghosts)@.len() ==> running((#[trigger] final(ghosts)@[i]).0),
{
    let ghost before = ghosts@;
    for i in 0..seen.len()
        invariant
            before == old(ghosts)@,
            forall|j: int| 0 <= j < ghosts@.len() ==> running((#[trigger] ghosts@[j]).0),
            forall|j: int| 0 <= j < seen@.len() ==> (#[trigger] seen@[j]).pos.wf(),
            ghosts@ == haunted(before, seen@.take(i as int)),
    {
        let g = seen[i];
        assert(seen@[i as int].pos.wf());
        let w = g.pos.world();
        if i < ghosts.len() {
            let mut interp = ghosts[i].0;
            assert(running(ghosts@[i as int].0));
            assert(interp == before[i as int].0);
            feed(&mut interp, w);
            ghosts[i] = (interp, g.mode, g.pos);
        } else {
            let mut interp = Interp::new(w);
            feed(&mut interp, w);
            ghosts.push((interp, g.mode, g.pos));
        }
        assert(ghosts@ =~= haunted(before, seen@.take(i as int + 1)));
    }
    assert(seen@.take(seen@.len() as int) =~= seen@);
}

fn patch(pellets: &mut PelletField, deltas: &Vec<PelletDelta>)
    requires
        old(pellets).wf(),
    ensures
        final(pellets).wf(),
        final(pellets)@ == patched(old(pellets)@, deltas@),
{
    for i in 0..deltas.len()
        invariant
            pellets.wf(),
            pellets@ == patched(old(pellets)@, deltas@.take(i as int)),
    {
        assert(deltas@.take(i as int + 1).drop_last() =~= deltas@.take(i as int));
        match deltas[i] {
            PelletDelta::Eaten(tile) => {
                let eaten = pellets.take(tile);
            },
            PelletDelta::Spawned(tile, kind) => pellets.put(tile, kind),
        }
    }
    assert(deltas@.take(deltas@.len() as int) =~= deltas@);
}

/// Shows the world as the server describes it.
pub fn apply_snapshot(game: &mut Match, snap: &Snapshot)
    requires
        old(game).wf(),
        old(game).slot < 2,
        legible(snap@),
    ensures
        final(game).wf(),
        is_shown(*old(game), snap@, *final(game)),
{
    let a = snap.pacmen[0];
    let b = snap.pacmen[1];
    let (mine, theirs) = if game.slot == 0 {
        (a, b)
    } else {
        (b, a)
    };
    game.elapsed_ms = snap.elapsed_ms;
    game.scores = [a.score, b.score];
    game.lives = [a.lives, b.lives];
    game.states = [a.state, b.state];
    game.energized = [a.energized, b.energized];
    game.stunned = [a.stunned, b.stunned];
    if mine.state != RunnerState::Alive || mine.stunned {
        game.local.force(mine.pos);
    } else {
        game.local.reconcile(snap.last_processed_seq, mine.pos);
    }
    game.remote_pos = theirs.pos;
    feed(&mut game.remote, theirs.pos.world());
    show_ghosts(&mut game.ghosts, &snap.ghosts);
    patch(&mut game.pellets, &snap.pellet_deltas);
}

/// Where the client was told to connect, plus the token proving who it is.
#[derive(Debug, Clone, PartialEq, Eq)]
pub struct Assignment {
    pub connection: String,
    pub session_token: String,
    pub player_id: String,
}

/// The direction the player is currently asking for.
#[derive(Debug, Clone, Copy, PartialEq, Eq, Structural)]
pub struct Desired(pub Option<Dir>);

impl Default for Desired {
    fn default() -> (d: Desired)
        ensures
            d == Desired(None),
    {
        Desired(None)
    }
}

/// The keys that steer, in the order in which they are looked at.
#[derive(Debug, Clone, Copy, PartialEq, Eq, Structural)]
pub struct Steering {
    pub arrow_up: bool,
    pub w: bool,
    pub arrow_down: bool,
    pub s: bool,
    pub arrow_left: bool,
    pub a: bool,
    pub arrow_right: bool,
    pub d: bool,
}

/// The direction asked for after some keys went down. Of several the last in the
/// list wins; without any the old direction stands.
pub open spec fn asked_for(desired: Option<Dir>, keys: Steering) -> Option<Dir> {
    if keys.arrow_right || keys.d {
        Some(Dir::Right)
    } else if keys.arrow_left || keys.a {
        Some(Dir::Left)
    } else if keys.arrow_down || keys.s {
        Some(Dir::Down)
    } else if keys.arrow_up || keys.w {
        Some(Dir::Up)
    } else {
        desired
    }
}

impl Desired {
    /// Last key pressed wins, so a quick double tap does what it looks like.
    pub fn read_keyboard(&mut self, keys: Steering)
        ensures
            *final(self) == Desired(asked_for(old(self).0, keys)),
    {
        if keys.arrow_up || keys.w {
            self.0 = Some(Dir::Up);
        }
        if keys.arrow_down || keys.s {
            self.0 = Some(Dir::Down);
        }
        if keys.arrow_left || keys.a {
            self.0 = Some(Dir::Left);
        }
        if keys.arrow_right || keys.d {
            self.0 = Some(Dir::Right);
        }
    }
}

/// Whether the one-time `Hello` has been sent for the current connection.
///
/// Without this the client re-sends `Hello` every frame until the `Welcome`
/// lands, and the server mints a fresh `Welcome` for each one.
#[derive(Debug, Clone, Copy, PartialEq, Eq, Structural)]
pub struct Handshake {
    pub hello_sent: bool,
}

impl Default for Handshake {
    fn default() -> (h: Handshake)
        ensures
            h == (Handshake { hello_sent: false }),
    {
        Handshake { hello_sent: false }
    }
}

/// What the client knows of its connection and of the match behind it.
#[derive(Debug)]
pub struct Link {
    pub game: Option<Match>,
    pub assignment: Option<Assignment>,
    pub desired: Desired,
    pub handshake: Handshake,
}

/// What a message on the event channel leads to.
#[derive(Debug, Clone, Copy, PartialEq, Eq, Structural)]
pub struct EventStep {
    /// The screen to go to.
    pub screen: Option<Screen>,
    /// Whether the rest waits for the next frame.
    pub stop: bool,
}

/// The message that says hello.
pub open spec fn hello_of(a: Assignment) -> ClientMsgView {
    ClientMsgView::Hello {
        version: PROTOCOL_VERSION,
        player_id: a.player_id@,
        session_token: a.session_token@,
    }
}

/// Whether a match carries this result and is otherwise as it was.
pub open spec fn is_decided(
    before: Match,
    scores: (u32, u32),
    winner: Option<u8>,
    after: Match,
) -> bool {
    &&& after.result matches Some(r) && (r.scores@[0], r.scores@[1]) == scores && r.winner == winner
    &&& after == (Match { result: after.result, ..before })
}

/// The snapshot in a packet, if there is one.
pub open spec fn snapshot_in(packet: Seq<u8>) -> Option<SnapshotView> {
    match ServerMsg::read(packet) {
        Some((ServerMsgView::Snapshot(s), _)) => Some(s),
        _ => None,
    }
}

/// The newest snapshot in a row of packets. Of two with the same tick the first
/// counts.
pub open spec fn newest_of(packets: Seq<Vec<u8>>) -> Option<SnapshotView>
    decreases packets.len(),
{
    if packets.len() == 0 {
        None
    } else {
        let before = newest_of(packets.drop_last());
        match (before, snapshot_in(packets.last()@)) {
            (None, s) => s,
            (Some(b), Some(s)) => if s.tick > b.tick {
                Some(s)
            } else {
                before
            },
            (Some(_), None) => before,
        }
    }
}

/// Whether the player has a say right now. A stunned or dead runner does not
/// move, and predicting otherwise would guarantee a correction on the next
/// snapshot.
pub open spec fn may_steer(game: Match) -> bool {
    &&& game.result is None
    &&& !game.stunned@[game.slot as int]
    &&& game.states@[game.slot as int] == RunnerState::Alive
}

impl Default for Link {
    /// Not connected to anything.
    fn default() -> (link: Link)
        ensures
            link.is_idle(),
    {
        Link {
            game: None,
            assignment: None,
            desired: Desired::default(),
            handshake: Handshake::default(),
        }
    }
}

impl Link {
    pub open spec fn wf(&self) -> bool {
        self.game matches Some(game) ==> game.wf()
    }

    /// Nothing is left of any connection.
    pub open spec fn is_idle(&self) -> bool {
        &&& self.game is None
        &&& self.assignment is None
        &&& self.desired == Desired(None)
        &&& !self.handshake.hello_sent
    }

    /// Whether this is the moment to say hello.
    pub open spec fn greets(&self, connected: bool) -> bool {
        self.assignment is Some && connected && !self.handshake.hello_sent
    }

    /// A new transport is a new handshake: exactly one hello is allowed for it.
    pub fn connect(&mut self, assignment: Assignment)
        ensures
            *final(self) == (Link {
                assignment: Some(assignment),
                handshake: Handshake { hello_sent: false },
                ..*old(self)
            }),
    {
        self.assignment = Some(assignment);
        self.handshake = Handshake::default();
    }

    /// Drops the connection and everything that came over it. A leftover
    /// assignment would make the reply handler think it is already connecting, so
    /// the next queue would never dial the new server; a leftover direction would
    /// start the next match walking on its own.
    pub fn disconnect(&mut self)
        ensures
            final(self).is_idle(),
    {
        self.game = None;
        self.assignment = None;
        self.desired = Desired::default();
        self.handshake = Handshake::default();
    }

    /// Says hello exactly once per connection: what to send, if anything. Sending
    /// it every frame until the welcome arrives makes the server mint a welcome
    /// per hello.
    pub fn say_hello(&mut self, connected: bool) -> (packet: Option<Vec<u8>>)
        ensures
            final(self).game == old(self).game,
            final(self).assignment == old(self).assignment,
            final(self).desired == old(self).desired,
            packet is Some <==> old(self).greets(connected),
            packet matches Some(bytes) ==> bytes@ == ClientMsg::wire(
                hello_of(old(self).assignment->0),
            ),
            final(self).handshake.hello_sent == (old(self).handshake.hello_sent || packet is Some),
    {
        match &self.assignment {
            Some(a) => {
                if !connected || self.handshake.hello_sent {
                    return None;
                }
                let hello = ClientMsg::Hello {
                    version: PROTOCOL_VERSION,
                    player_id: a.player_id.clone(),
                    session_token: a.session_token.clone(),
                };
                let packet = encode(&hello);
                self.handshake.hello_sent = true;
                match packet {
                    Ok(bytes) => Some(bytes),
                    Err(_) => None,
                }
            },
            None => None,
        }
    }

    /// One message on the event channel. A duplicate welcome (from a resent
    /// hello, say) must not reset the match or respawn the board on top of the
    /// live one.
    pub fn receive_event(&mut self, bytes: &[u8]) -> (step: EventStep)
        requires
            old(self).wf(),
        ensures
            final(self).wf(),
            final(self).assignment == old(self).assignment,
            final(self).desired == old(self).desired,
            final(self).handshake == old(self).handshake,
            match ServerMsg::read(bytes@) {
                Some((ServerMsgView::Welcome { slot, seed, pellets, nicks }, _)) => {
                    if old(self).game is None {
                        &&& final(self).game matches Some(game) && game.is_fresh(
                            slot,
                            restored(pellets),
                            nicks,
                        )
                        &&& step == EventStep { screen: Some(Screen::Playing), stop: true }
                    } else {
                        &&& final(self).game == old(self).game
                        &&& step == EventStep { screen: None, stop: false }
                    }
                },
                Some((ServerMsgView::Rejected { reason }, _)) => {
                    &&& final(self).game == old(self).game
                    &&& step == EventStep { screen: Some(Screen::Menu), stop: true }
                },
                Some((ServerMsgView::MatchOver { scores, winner }, _)) => {
                    &&& match (old(self).game, final(self).game) {
                        (Some(before), Some(after)) => is_decided(before, scores, winner, after),
                        (None, after) => after is None,
                        _ => false,
                    }
                    &&& step == EventStep { screen: Some(Screen::Result), stop: false }
                },
                _ => {
                    &&& final(self).game == old(self).game
                    &&& step == EventStep { screen: None, stop: false }
                },
            },
    {
        match decode::<ServerMsg>(bytes) {
            Ok(ServerMsg::Welcome { slot, seed, pellets, nicks }) => {
                if self.game.is_some() {
                    return EventStep { screen: None, stop: false };
                }
                let field = PelletField::from_snapshot_bits(pellets.as_slice());
                self.game = Some(Match::new(slot, field, nicks));
                EventStep { screen: Some(Screen::Playing), stop: true }
            },
            Ok(ServerMsg::Rejected { reason }) => EventStep {
                screen: Some(Screen::Menu),
                stop: true,
            },
            Ok(ServerMsg::MatchOver { scores, winner }) => {
                if let Some(game) = &mut self.game {
                    game.result = Some(MatchResult { scores, winner });
                }
                EventStep { screen: Some(Screen::Result), stop: false }
            },
            _ => EventStep { screen: None, stop: false },
        }
    }

    /// Everything that came over the snapshot channel since the last frame. Only
    /// the newest snapshot matters: unreliable delivery can reorder, and applying
    /// a stale world after a fresh one would visibly rewind everything. What
    /// arrives before the welcome is dropped. A snapshot knows two slots, so a
    /// player seated in any other cannot be shown one.
    pub fn receive_snapshots(&mut self, packets: &Vec<Vec<u8>>)
        requires
            old(self).wf(),
            old(self).game is Some && newest_of(packets@) is Some ==> old(self).game->0.slot < 2,
        ensures
            final(self).wf(),
            final(self).assignment == old(self).assignment,
            final(self).desired == old(self).desired,
            final(self).handshake == old(self).handshake,
            match (old(self).game, newest_of(packets@)) {
                (Some(before), Some(s)) => final(self).game matches Some(after) && is_shown(
                    before,
                    s,
                    after,
                ),
                _ => final(self).game == old(self).game,
            },
    {
        let newest = newest_snapshot(packets);
        if let Some(game) = &mut self.game {
            if let Some(snap) = newest {
                apply_snapshot(game, &snap);
            }
        }
    }

    /// One input per simulation tick, predicted locally and sent unreliably: what
    /// to send, if anything.
    pub fn send_input(&mut self) -> (packet: Option<Vec<u8>>)
        requires
            old(self).wf(),
            old(self).game matches Some(game) ==> game.local.next_seq < u32::MAX,
            old(self).desired.0 is Some && old(self).game is Some && old(
                self,
            ).game->0.result is None ==> old(self).game->0.slot < 2,
        ensures
            final(self).wf(),
            final(self).assignment == old(self).assignment,
            final(self).desired == old(self).desired,
            final(self).handshake == old(self).handshake,
            match (old(self).game, old(self).desired.0) {
                (Some(before), Some(dir)) => if may_steer(before) {
                    &&& packet matches Some(bytes) && bytes@ == ClientMsg::wire(
                        ClientMsgView::Input { seq: before.local.next_seq, dir },
                    )
                    &&& final(self).game matches Some(after) && {
                        &&& after == (Match { local: after.local, ..before })
                        &&& after.local.pos == stepped(before.local.pos, dir)
                        &&& after.local.pending@ == before.local.pending@.push(
                            (before.local.next_seq, dir),
                        )
                        &&& after.local.next_seq == before.local.next_seq + 1
                        &&& after.local.last_correction == before.local.last_correction
                    }
                } else {
                    packet is None && final(self).game == old(self).game
                },
                _ => packet is None && final(self).game == old(self).game,
            },
    {
        let dir = match self.desired.0 {
            Some(dir) => dir,
            None => {
                return None;
            },
        };
        match &mut self.game {
            Some(game) => {
                if game.result.is_some() {
                    return None;
                }
                let slot: usize = game.slot as usize;
                if game.stunned[slot] || game.states[slot] != RunnerState::Alive {
                    return None;
                }
                let seq: u32 = game.local.push_and_apply(dir);
                match encode(&ClientMsg::Input { seq, dir }) {
                    Ok(bytes) => Some(bytes),
                    Err(_) => None,
                }
            },
            None => None,
        }
    }

    /// Advances every interpolator. Runs on render frames, not simulation ticks,
    /// which is the point: motion stays smooth above 30Hz.
    pub fn advance_interpolation(&mut self, dt: i64)
        requires
            old(self).wf(),
            0 <= dt <= i64::MAX - SNAPSHOT_INTERVAL,
        ensures
            final(self).wf(),
            final(self).assignment == old(self).assignment,
            final(self).desired == old(self).desired,
            final(self).handshake == old(self).handshake,
            match (old(self).game, final(self).game) {
                (Some(before), Some(after)) => {
                    &&& after == (Match { remote: after.remote, ghosts: after.ghosts, ..before })
                    &&& after.remote == after_a_while(before.remote, dt as int)
                    &&& after.ghosts@ == drifted(before.ghosts@, dt as int)
                },
                (None, None) => true,
                _ => false,
            },
    {
        if let Some(game) = &mut self.game {
            game.remote.advance(dt);
            drift(&mut game.ghosts, dt);
        }
    }
}

/// Ghosts some time later.
pub open spec fn drifted(ghosts: Seq<(Interp, GhostMode, GridPos)>, dt: int) -> Seq<
    (Interp, GhostMode, GridPos),
> {
    Seq::new(ghosts.len(), |i: int| (after_a_while(ghosts[i].0, dt), ghosts[i].1, ghosts[i].2))
}

fn drift(ghosts: &mut Vec<(Interp, GhostMode, GridPos)>, dt: i64)
    requires
        forall|i: int| 0 <= i < old(ghosts)@.len() ==> running((#[trigger] old(ghosts)@[i]).0),
        0 <= dt <= i64::MAX - SNAPSHOT_INTERVAL,
    ensures
        final(ghosts)@ == drifted(old(ghosts)@, dt as int),
        forall|i: int| 0 <= i < final(ghosts)@.len() ==> running((#[trigger] final(ghosts)@[i]).0),
{
    let ghost before = ghosts@;
    let n: usize = ghosts.len();
    for i in 0..n
        invariant
            before == old(ghosts)@,
            n == before.len(),
            n == ghosts@.len(),
            0 <= dt <= i64::MAX - SNAPSHOT_INTERVAL,
            forall|j: int| 0 <= j < n ==> running((#[trigger] ghosts@[j]).0),
            forall|j: int| 0 <= j < i ==> #[trigger] ghosts@[j] == drifted(before, dt as int)[j],
            forall|j: int| i <= j < n ==> #[trigger] ghosts@[j] == before[j],
    {
        let (mut interp, mode, pos) = ghosts[i];
        assert(running(ghosts@[i as int].0));
        interp.advance(dt);
        ghosts[i] = (interp, mode, pos);
    }
    assert(ghosts@ =~= drifted(before, dt as int));
}

/// The newest snapshot in a row of packets.
fn newest_snapshot(packets: &Vec<Vec<u8>>) -> (newest: Option<Snapshot>)
    ensures
        match newest {
            Some(snap) => newest_of(packets@) == Some(snap@) && legible(snap@),
            None => newest_of(packets@) is None,
        },
{
    let mut newest: Option<Snapshot> = None;
    for i in 0..packets.len()
        invariant
            match newest {
                Some(snap) => newest_of(packets@.take(i as int)) == Some(snap@) && legible(snap@),
                None => newest_of(packets@.take(i as int)) is None,
            },
    {
        assert(packets@.take(i as int + 1).drop_last() =~= packets@.take(i as int));
        if let Ok(ServerMsg::Snapshot(snap)) = decode::<ServerMsg>(packets[i].as_slice()) {
            proof {
                lemma_a_snapshot_is_legible(packets@[i as int]@);
            }
            let keep = match &newest {
                Some(n) => snap.tick > n.tick,
                None => true,
            };
            if keep {
                newest = Some(snap);
            }
        }
    }
    assert(packets@.take(packets@.len() as int) =~= packets@);
    newest
}

proof fn lemma_read_ghosts(b: Seq<u8>, n: nat)
    ensures
        read_items::<GhostSnap>(b, n) matches Some((list, _)) ==> forall|i: int|
            0 <= i < list.len() ==> (#[trigger] list[i]).pos.wf(),
    decreases n,
{
    if n > 0 {
        if let Some((item, b1)) = GhostSnap::read(b) {
            lemma_read_positions_are_in_range(b);
            lemma_read_ghosts(b1, (n - 1) as nat);
        }
    }
}

/// Whatever comes over the wire as a snapshot can be shown.
pub proof fn lemma_a_snapshot_is_legible(packet: Seq<u8>)
    ensures
        snapshot_in(packet) matches Some(s) ==> legible(s),
{
    if let Some((n, b1)) = read_u32(packet) {
        if let Some((tick, b2)) = read_u32(b1) {
            if let Some((elapsed_ms, b3)) = read_u32(b2) {
                if let Some((seq, b4)) = read_u32(b3) {
                    lemma_read_positions_are_in_range(b4);
                    if let Some((p0, b5)) = PacSnap::read(b4) {
                        lemma_read_positions_are_in_range(b5);
                        if let Some((p1, b6)) = PacSnap::read(b5) {
                            reveal(read_list);
                            if let Some((count, b7)) = read_u64(b6) {
                                lemma_read_ghosts(b7, count);
                            }
                        }
                    }
                }
            }
        }
    }
}

/// A frame never rewinds the world it received: what is shown is one of the
/// snapshots that arrived, and none of the others is newer.
pub proof fn law_the_newest_snapshot_is_shown(packets: Seq<Vec<u8>>, i: int)
    requires
        0 <= i < packets.len(),
        snapshot_in(packets[i]@) is Some,
    ensures
        newest_of(packets) is Some,
        newest_of(packets)->0.tick >= snapshot_in(packets[i]@)->0.tick,
        exists|j: int|
            0 <= j < packets.len() && #[trigger] snapshot_in(packets[j]@) == newest_of(packets),
    decreases packets.len(),
{
    let rest = packets.drop_last();
    lemma_newest_arrived(packets);
    if i < packets.len() - 1 {
        assert(rest[i] == packets[i]);
        law_the_newest_snapshot_is_shown(rest, i);
    }
}

proof fn lemma_newest_arrived(packets: Seq<Vec<u8>>)
    ensures
        newest_of(packets) is Some ==> exists|j: int|
            0 <= j < packets.len() && #[trigger] snapshot_in(packets[j]@) == newest_of(packets),
    decreases packets.len(),
{
    if packets.len() > 0 {
        let rest = packets.drop_last();
        lemma_newest_arrived(rest);
        if newest_of(packets) == newest_of(rest) {
            if newest_of(rest) is Some {
                let j = choose|j: int|
                    0 <= j < rest.len() && #[trigger] snapshot_in(rest[j]@) == newest_of(rest);
                assert(packets[j] == rest[j]);
            }
        } else {
            assert(snapshot_in(packets[packets.len() - 1]@) == newest_of(packets));
        }
    }
}

/// Hello is said once per connection: not again after it was said, and again once
/// there is a new connection.
pub proof fn law_hello_is_said_once_per_connection(
    link: Link,
    assignment: Assignment,
    connected: bool,
)
    ensures
        !(Link { handshake: Handshake { hello_sent: true }, ..link }).greets(connected),
        (Link {
            assignment: Some(assignment),
            handshake: Handshake { hello_sent: false },
            ..link
        }).greets(connected) <==> connected,
{
}

/// Pellet changes apply in order: eating what was just put down leaves nothing,
/// and putting one down is what is seen there.
pub proof fn law_the_last_change_to_a_tile_counts(
    field: FieldView,
    deltas: Seq<PelletDelta>,
    tile: IVec2,
    kind: PelletKind,
)
    requires
        field.wf(),
        on_board(tile.x as int, tile.y as int),
    ensures
        patched(field, deltas.push(PelletDelta::Eaten(tile))).at(tile) is None,
        patched(field, deltas.push(PelletDelta::Spawned(tile, kind))).at(tile) == Some(kind),
{
    lemma_patched_wf(field, deltas);
    assert(deltas.push(PelletDelta::Eaten(tile)).drop_last() =~= deltas);
    assert(deltas.push(PelletDelta::Spawned(tile, kind)).drop_last() =~= deltas);
    lemma_with(patched(field, deltas), tile, None, tile);
    lemma_with(patched(field, deltas), tile, Some(kind), tile);
}

proof fn lemma_patched_wf(field: FieldView, deltas: Seq<PelletDelta>)
    requires
        field.wf(),
    ensures
        patched(field, deltas).wf(),
    decreases deltas.len(),
{
    if deltas.len() > 0 {
        lemma_patched_wf(field, deltas.drop_last());
    }
}

/// The messages the client sends are read back by the server as they were meant.
pub proof fn law_the_client_is_understood(a: Assignment, seq: u32, dir: Dir)
    requires
        ClientMsg::fits(hello_of(a)),
    ensures
        ClientMsg::read(ClientMsg::wire(hello_of(a))) == Some((hello_of(a), Seq::<u8>::empty())),
        ClientMsg::read(ClientMsg::wire(ClientMsgView::Input { seq, dir })) == Some(
            (ClientMsgView::Input { seq, dir }, Seq::<u8>::empty()),
        ),
{
    law_messages_round_trip::<ClientMsg>(hello_of(a));
    law_messages_round_trip::<ClientMsg>(ClientMsgView::Input { seq, dir });
}

/// A match begins with this player in their own corner and the rival in the other,
/// three lives each, no points, nobody energized or stunned, no ghosts seen yet, and
/// the pellets and the names of the welcome.
pub proof fn law_a_match_begins_in_the_corners(
    game: Match,
    slot: u8,
    pellets: FieldView,
    nicks: (Seq<char>, Seq<char>),
)
    requires
        game.is_fresh(slot, pellets, nicks),
        slot < 2,
    ensures
        ({
            let (mine, theirs) = (game.local.pos, game.remote_pos);
            &&& game.slot == slot
            &&& mine.offset == 0 && mine.tile.y == 23 && theirs.offset == 0 && theirs.tile.y == 23
            &&& slot == 0 ==> mine.tile.x == 6 && mine.dir == Dir::Right && theirs.tile.x == 21
            &&& slot == 1 ==> mine.tile.x == 21 && mine.dir == Dir::Left && theirs.tile.x == 6
            &&& game.remote.prev == world_of(theirs) && game.remote.cur == world_of(theirs)
            &&& game.local.pending@.len() == 0 && game.local.next_seq == 1
            &&& forall|i: int|
                0 <= i < 2 ==> (#[trigger] game.lives@[i]) == 3 && game.scores@[i] == 0
                    && game.states@[i] == RunnerState::Alive && !game.energized@[i]
                    && !game.stunned@[i]
            &&& game.ghosts@.len() == 0 && game.pellets@ == pellets
            &&& game.nicks@[0]@ == nicks.0 && game.nicks@[1]@ == nicks.1
            &&& game.elapsed_ms == 0 && game.result is None
        }),
{
}

/// A snapshot is shown as it is: of both slots the points, lives, state and both
/// flags, in order; the clock; every ghost it names with its mode and place. The
/// player's own runner follows the server's word at once when it is not alive or is
/// stunned, dropping every prediction, and is reconciled otherwise.
pub proof fn law_a_snapshot_is_shown_as_it_is(before: Match, s: SnapshotView, after: Match)
    requires
        before.slot < 2,
        is_shown(before, s, after),
    ensures
        ({
            let (a, b) = (s.pacmen.0, s.pacmen.1);
            let (mine, theirs) = if before.slot == 0 {
                (a, b)
            } else {
                (b, a)
            };
            &&& after.scores@[0] == a.score && after.scores@[1] == b.score
            &&& after.lives@[0] == a.lives && after.lives@[1] == b.lives
            &&& after.states@[0] == a.state && after.states@[1] == b.state
            &&& after.energized@[0] == a.energized && after.energized@[1] == b.energized
            &&& after.stunned@[0] == a.stunned && after.stunned@[1] == b.stunned
            &&& after.elapsed_ms == s.elapsed_ms
            &&& !(mine.state is Alive) || mine.stunned ==> after.local.pos == mine.pos
                && after.local.pending@.len() == 0 && after.local.last_correction == 0
            &&& mine.state is Alive && !mine.stunned ==> is_reconciled(
                before.local,
                s.last_processed_seq,
                mine.pos,
                after.local,
            )
            &&& after.local.next_seq == before.local.next_seq
            &&& after.remote_pos == theirs.pos && after.remote.cur == world_of(theirs.pos)
            &&& after.remote == fed_sample(before.remote, world_of(theirs.pos))
            &&& after.slot == before.slot && after.nicks == before.nicks && after.result
                == before.result
        }),
        forall|i: int|
            0 <= i < s.ghosts.len() ==> (#[trigger] after.ghosts@[i]).1 == s.ghosts[i].mode
                && after.ghosts@[i].2 == s.ghosts[i].pos && after.ghosts@[i].0.cur == world_of(
                s.ghosts[i].pos,
            ),
        forall|i: int|
            s.ghosts.len() <= i < before.ghosts@.len() ==> #[trigger] after.ghosts@[i]
                == before.ghosts@[i],
        after.ghosts@.len() == (if before.ghosts@.len() >= s.ghosts.len() {
            before.ghosts@.len()
        } else {
            s.ghosts.len()
        }),
{
}

/// A change to a tile changes that tile and no other.
pub proof fn law_a_change_stays_on_its_tile(
    field: FieldView,
    tile: IVec2,
    kind: PelletKind,
    other: IVec2,
)
    requires
        field.wf(),
        other != tile,
    ensures
        changed(field, PelletDelta::Eaten(tile)).at(tile) is None,
        changed(field, PelletDelta::Eaten(tile)).at(other) == field.at(other),
        on_board(tile.x as int, tile.y as int) ==> changed(
            field,
            PelletDelta::Spawned(tile, kind),
        ).at(tile) == Some(kind),
        changed(field, PelletDelta::Spawned(tile, kind)).at(other) == field.at(other),
{
    lemma_with(field, tile, None, tile);
    lemma_with(field, tile, None, other);
    lemma_with(field, tile, Some(kind), tile);
    lemma_with(field, tile, Some(kind), other);
}

/// Arrows and letters steer alike, each its own way; of several keys at once the
/// last of up, down, left and right counts, and without any the old wish stands.
pub proof fn law_the_keys_steer(desired: Option<Dir>, keys: Steering)
    ensures
        ({
            let wish = asked_for(desired, keys);
            let up = keys.arrow_up || keys.w;
            let down = keys.arrow_down || keys.s;
            let left = keys.arrow_left || keys.a;
            let right = keys.arrow_right || keys.d;
            &&& right ==> wish == Some(Dir::Right)
            &&& left && !right ==> wish == Some(Dir::Left)
            &&& down && !left && !right ==> wish == Some(Dir::Down)
            &&& up && !down && !left && !right ==> wish == Some(Dir::Up)
            &&& !up && !down && !left && !right ==> wish == desired
        }),
{
}

/// A player has a say exactly while their own runner is alive and not stunned and
/// the match is not decided.
pub proof fn law_the_living_steer(game: Match)
    requires
        game.slot < 2,
    ensures
        may_steer(game) <==> game.result is None && !game.stunned@[game.slot as int]
            && game.states@[game.slot as int] is Alive,
{
}

/// A result that is heard is kept, with both scores in order and the winner, and
/// changes nothing else of the match.
pub proof fn law_a_result_is_kept(
    before: Match,
    scores: (u32, u32),
    winner: Option<u8>,
    after: Match,
)
    requires
        is_decided(before, scores, winner, after),
    ensures
        after.result is Some,
        after.result->0.scores@[0] == scores.0,
        after.result->0.scores@[1] == scores.1,
        after.result->0.winner == winner,
        after.scores == before.scores && after.lives == before.lives && after.slot == before.slot,
        after.local == before.local && after.pellets == before.pellets,
{
}

/// Hello says which protocol is spoken, who is there, and presents their token. It is
/// said exactly when there is an assignment and a connection and it was not said
/// before. Nothing of a connection outlives it.
pub proof fn law_hello_presents_the_token(link: Link, a: Assignment, connected: bool)
    ensures
        hello_of(a) == (ClientMsgView::Hello {
            version: PROTOCOL_VERSION,
            player_id: a.player_id@,
            session_token: a.session_token@,
        }),
        link.greets(connected) <==> connected && link.assignment is Some
            && !link.handshake.hello_sent,
        link.is_idle() ==> link.game is None && link.assignment is None && link.desired.0 is None
            && !link.handshake.hello_sent,
{
}

/// Of two snapshots of the same tick the first that arrived counts, a packet that is
/// no snapshot changes nothing, and a newer one counts.
pub proof fn law_only_a_newer_snapshot_counts(packets: Seq<Vec<u8>>, packet: Vec<u8>)
    ensures
        snapshot_in(packet@) is None ==> newest_of(packets.push(packet)) == newest_of(packets),
        newest_of(packets) is None ==> newest_of(packets.push(packet)) == snapshot_in(packet@),
        newest_of(packets) is Some && snapshot_in(packet@) is Some ==> newest_of(
            packets.push(packet),
        ) == (if snapshot_in(packet@)->0.tick > newest_of(packets)->0.tick {
            snapshot_in(packet@)
        } else {
            newest_of(packets)
        }),
{
    assert(packets.push(packet).drop_last() =~= packets);
    assert(packets.push(packet).last() == packet);
}

/// A ghost seen before is drawn on from where it was drawn, and one seen for the first
/// time where it was seen. Changes to the field apply one after the other.
pub proof fn law_ghosts_are_drawn_on_from_where_they_were(
    before: Match,
    s: SnapshotView,
    after: Match,
    i: int,
    field: FieldView,
    deltas: Seq<PelletDelta>,
    delta: PelletDelta,
)
    requires
        is_shown(before, s, after),
        0 <= i < s.ghosts.len(),
    ensures
        i < before.ghosts@.len() ==> after.ghosts@[i].0 == fed_sample(
            before.ghosts@[i].0,
            world_of(s.ghosts[i].pos),
        ),
        i >= before.ghosts@.len() ==> after.ghosts@[i].0 == fed_sample(
            Interp::new(world_of(s.ghosts[i].pos)),
            world_of(s.ghosts[i].pos),
        ),
        after.pellets@ == patched(before.pellets@, s.pellet_deltas),
        patched(field, Seq::empty()) == field,
        patched(field, deltas.push(delta)) == changed(patched(field, deltas), delta),
{
    assert(deltas.push(delta).drop_last() =~= deltas);
}

/// As time goes by every ghost is drawn further on, and none changes its mode or place.
pub proof fn law_every_ghost_drifts(ghosts: Seq<(Interp, GhostMode, GridPos)>, dt: int, i: int)
    requires
        0 <= i < ghosts.len(),
    ensures
        drifted(ghosts, dt).len() == ghosts.len(),
        drifted(ghosts, dt)[i].0 == after_a_while(ghosts[i].0, dt),
        drifted(ghosts, dt)[i].1 == ghosts[i].1 && drifted(ghosts, dt)[i].2 == ghosts[i].2,
{
}

} // verus!
