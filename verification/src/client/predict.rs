//! Client side prediction, reconciliation and interpolation.
//!
//! Only the local runner is predicted. Ghosts, pellets and the rival arrive as
//! authoritative state and are interpolated between snapshots. That asymmetry
//! is the whole reason this file is short: the client never has to reproduce
//! ghost AI or the pellet drip, so there is no shared generator to keep in step
//! and no way for the two sides to diverge except through the one thing the
//! player actually controls.
//!
//! Because grid movement is exact, replaying an input produces identical results
//! on both ends. In the normal case reconciliation moves nothing.

use vstd::prelude::*;
use std::collections::VecDeque;
use crate::difficulty::PACMAN_SPEED;
use crate::grid::{WorldPoint, TICK_DT};
use crate::movement::{Dir, GridPos, Mover};
#[allow(unused_imports)]
use crate::ghosts::square;
#[allow(unused_imports)]
use crate::movement::{advanced, law_travel_stays_in_the_maze, world_of};

verus! {

/// The local player's predicted state.
#[derive(Debug, Clone)]
pub struct Local {
    pub pos: GridPos,
    /// Inputs sent but not yet confirmed by the server, oldest first.
    pub pending: VecDeque<(u32, Dir)>,
    pub next_seq: u32,
    /// How far the last correction moved us, in distance units. Useful to watch
    /// when something feels wrong: a healthy connection sits at zero.
    pub last_correction: u64,
}

/// One input's worth of movement.
pub open spec fn stepped(pos: GridPos, dir: Dir) -> GridPos {
    advanced(pos, Some(dir), Mover::Pacman, PACMAN_SPEED * TICK_DT).0
}

/// Where a list of inputs leads from a position.
pub open spec fn replayed(pos: GridPos, inputs: Seq<(u32, Dir)>) -> GridPos
    decreases inputs.len(),
{
    if inputs.len() == 0 {
        pos
    } else {
        stepped(replayed(pos, inputs.drop_last()), inputs.last().1)
    }
}

/// The inputs that are left once the server has confirmed everything up to
/// `acked`.
pub open spec fn unconfirmed(inputs: Seq<(u32, Dir)>, acked: u32) -> Seq<(u32, Dir)>
    decreases inputs.len(),
{
    if inputs.len() > 0 && inputs[0].0 <= acked {
        unconfirmed(inputs.drop_first(), acked)
    } else {
        inputs
    }
}

/// Straight line distance between two points, squared.
pub open spec fn gap_squared(a: WorldPoint, b: WorldPoint) -> int {
    square(a.x - b.x) + square(a.y - b.y)
}

/// Whether `r` is the whole part of the root of `n`.
pub open spec fn is_root(r: int, n: int) -> bool {
    r >= 0 && square(r) <= n < square(r + 1)
}

/// What reconciling makes of a prediction: the authoritative state with whatever
/// the server has not seen yet replayed on top, and on record how far that moved
/// us.
pub open spec fn is_reconciled(
    before: Local,
    acked: u32,
    authoritative: GridPos,
    after: Local,
) -> bool {
    &&& after.pending@ == unconfirmed(before.pending@, acked)
    &&& after.pos == replayed(authoritative, after.pending@)
    &&& after.next_seq == before.next_seq
    &&& is_root(
        after.last_correction as int,
        gap_squared(world_of(before.pos), world_of(after.pos)),
    )
}

/// What accepting the server's word makes of a prediction.
pub open spec fn is_forced(before: Local, authoritative: GridPos, after: Local) -> bool {
    &&& after.pos == authoritative
    &&& after.pending@ == Seq::<(u32, Dir)>::empty()
    &&& after.last_correction == 0
    &&& after.next_seq == before.next_seq
}

/// The whole part of a square root.
fn root(n: u128) -> (r: u64)
    requires
        n < 0x400_0000_0000_0000_0000_0000_0000_0000,
    ensures
        is_root(r as int, n as int),
{
    let mut low: u128 = 0;
    let mut high: u128 = 0x2000_0000_0000_0000;
    assert(square(high as int) == 0x400_0000_0000_0000_0000_0000_0000_0000) by (nonlinear_arith)
        requires
            high == 0x2000_0000_0000_0000,
    ;
    while high - low > 1
        invariant
            low < high <= 0x2000_0000_0000_0000,
            square(low as int) <= n < square(high as int),
        decreases high - low,
    {
        let mid: u128 = low + (high - low) / 2;
        assert(0 <= mid * mid <= 0x400_0000_0000_0000_0000_0000_0000_0000) by (nonlinear_arith)
            requires
                mid <= 0x2000_0000_0000_0000,
        ;
        if mid * mid <= n {
            low = mid;
        } else {
            high = mid;
        }
    }
    low as u64
}

/// The distance between two points, squared.
fn spread(a: WorldPoint, b: WorldPoint) -> (d: u128)
    requires
        -100_000_000_000_000_000 <= a.x <= 100_000_000_000_000_000,
        -100_000_000_000_000_000 <= a.y <= 100_000_000_000_000_000,
        -100_000_000_000_000_000 <= b.x <= 100_000_000_000_000_000,
        -100_000_000_000_000_000 <= b.y <= 100_000_000_000_000_000,
    ensures
        d == gap_squared(a, b),
        d < 0x400_0000_0000_0000_0000_0000_0000_0000,
{
    let dx: u128 = if a.x >= b.x {
        (a.x - b.x) as u128
    } else {
        (b.x - a.x) as u128
    };
    let dy: u128 = if a.y >= b.y {
        (a.y - b.y) as u128
    } else {
        (b.y - a.y) as u128
    };
    assert(0 <= dx * dx <= 40_000_000_000_000_000_000_000_000_000_000_000) by (nonlinear_arith)
        requires
            dx <= 200_000_000_000_000_000,
    ;
    assert(0 <= dy * dy <= 40_000_000_000_000_000_000_000_000_000_000_000) by (nonlinear_arith)
        requires
            dy <= 200_000_000_000_000_000,
    ;
    assert(square(b.x - a.x) == square(a.x - b.x)) by (nonlinear_arith);
    assert(square(b.y - a.y) == square(a.y - b.y)) by (nonlinear_arith);
    dx * dx + dy * dy
}

impl Local {
    /// Pending inputs carry growing sequence numbers, all of them handed out
    /// already.
    pub open spec fn wf(&self) -> bool {
        &&& self.pos.wf()
        &&& forall|i: int, j: int|
            0 <= i < j < self.pending@.len() ==> (#[trigger] self.pending@[i]).0 < (
            #[trigger] self.pending@[j]).0
        &&& forall|i: int|
            0 <= i < self.pending@.len() ==> (#[trigger] self.pending@[i]).0 < self.next_seq
    }

    pub fn new(pos: GridPos) -> (local: Local)
        ensures
            local.pos == pos,
            local.pending@ == Seq::<(u32, Dir)>::empty(),
            local.next_seq == 1,
            local.last_correction == 0,
            pos.wf() ==> local.wf(),
    {
        Local { pos, pending: VecDeque::new(), next_seq: 1, last_correction: 0 }
    }

    /// Applies an input locally and records it for replay. Returns the sequence
    /// number to put on the wire.
    pub fn push_and_apply(&mut self, dir: Dir) -> (seq: u32)
        requires
            old(self).wf(),
            old(self).next_seq < u32::MAX,
        ensures
            seq == old(self).next_seq,
            final(self).next_seq == old(self).next_seq + 1,
            final(self).pending@ == old(self).pending@.push((seq, dir)),
            final(self).pos == stepped(old(self).pos, dir),
            final(self).last_correction == old(self).last_correction,
            final(self).wf(),
    {
        let seq: u32 = self.next_seq;
        self.next_seq = self.next_seq + 1;
        self.pending.push_back((seq, dir));
        let crossed: u32 = self.pos.advance(Some(dir), Mover::Pacman, PACMAN_SPEED, TICK_DT);
        seq
    }

    /// Snaps to the authoritative state and replays whatever the server has not
    /// seen yet.
    pub fn reconcile(&mut self, last_processed_seq: u32, authoritative: GridPos)
        requires
            old(self).wf(),
            authoritative.wf(),
        ensures
            is_reconciled(*old(self), last_processed_seq, authoritative, *final(self)),
            final(self).wf(),
    {
        let before = self.pos.world();
        while self.pending.len() > 0 && self.pending[0].0 <= last_processed_seq
            invariant
                self.wf(),
                self.next_seq == old(self).next_seq,
                unconfirmed(self.pending@, last_processed_seq) == unconfirmed(
                    old(self).pending@,
                    last_processed_seq,
                ),
            decreases self.pending@.len(),
        {
            let ghost sofar = self.pending@;
            let dropped = self.pending.pop_front();
            assert(self.pending@ =~= sofar.drop_first());
            assert forall|i: int, j: int| 0 <= i < j < self.pending@.len() implies (
            #[trigger] self.pending@[i]).0 < (#[trigger] self.pending@[j]).0 by {
                assert(self.pending@[i] == sofar[i + 1]);
                assert(self.pending@[j] == sofar[j + 1]);
            }
            assert forall|i: int| 0 <= i < self.pending@.len() implies (
            #[trigger] self.pending@[i]).0 < self.next_seq by {
                assert(self.pending@[i] == sofar[i + 1]);
            }
        }
        self.pos = authoritative;
        let n: usize = self.pending.len();
        for i in 0..n
            invariant
                n == self.pending@.len(),
                self.wf(),
                self.next_seq == old(self).next_seq,
                self.pending@ == unconfirmed(old(self).pending@, last_processed_seq),
                self.pos == replayed(authoritative, self.pending@.take(i as int)),
        {
            let dir = self.pending[i].1;
            assert(self.pending@.take(i as int + 1).drop_last() =~= self.pending@.take(i as int));
            let crossed: u32 = self.pos.advance(Some(dir), Mover::Pacman, PACMAN_SPEED, TICK_DT);
        }
        assert(self.pending@.take(n as int) =~= self.pending@);
        self.last_correction = root(spread(before, self.pos.world()));
    }

    /// Drops the prediction entirely and accepts the server's word. Used when
    /// the server did something the client could not have known about, such as
    /// a death or a stun.
    pub fn force(&mut self, authoritative: GridPos)
        ensures
            is_forced(*old(self), authoritative, *final(self)),
            authoritative.wf() ==> final(self).wf(),
    {
        self.pending.clear();
        self.pos = authoritative;
        self.last_correction = 0;
    }
}

/// A remote entity's render position, moving between the last two snapshots.
///
/// Snapshots land every 33ms; drawing the newest one directly would step the
/// world at 30Hz on a 60Hz-plus display. Interpolating between the previous and
/// current sample costs one frame of latency on things the player does not
/// control, which nobody can feel, and removes the stutter, which everybody can.
#[derive(Debug, Clone, Copy, PartialEq, Eq, Structural)]
pub struct Interp {
    pub prev: WorldPoint,
    pub cur: WorldPoint,
    pub elapsed: i64,
}

/// One snapshot interval. Interpolation is spread across exactly this long.
pub const SNAPSHOT_INTERVAL: i64 = 400;

/// A jump larger than this is a tunnel wrap or a respawn, not movement, so it
/// is snapped instead of smeared across the screen: three tiles.
pub const TELEPORT_DISTANCE: i64 = 36_000_000;

/// The part of an interval that has passed, in time units.
pub open spec fn progress(elapsed: int) -> int {
    if elapsed <= 0 {
        0
    } else if elapsed >= SNAPSHOT_INTERVAL {
        SNAPSHOT_INTERVAL as int
    } else {
        elapsed
    }
}

/// The coordinate `t` time units on the way from one to another, rounded down.
pub open spec fn between(from: int, to: int, t: int) -> int {
    (from * (SNAPSHOT_INTERVAL - t) + to * t) / (SNAPSHOT_INTERVAL as int)
}

/// Where an entity is drawn.
pub open spec fn drawn_at(i: Interp) -> WorldPoint {
    let t = progress(i.elapsed as int);
    WorldPoint {
        x: between(i.prev.x as int, i.cur.x as int, t) as i64,
        y: between(i.prev.y as int, i.cur.y as int, t) as i64,
    }
}

/// A sample that can be drawn between: within a hundred billion tiles.
pub open spec fn drawable(p: WorldPoint) -> bool {
    &&& -100_000_000_000_000_000 <= p.x <= 100_000_000_000_000_000
    &&& -100_000_000_000_000_000 <= p.y <= 100_000_000_000_000_000
}

fn blend(from: i64, to: i64, t: i64) -> (c: i64)
    requires
        0 <= t <= SNAPSHOT_INTERVAL,
        -100_000_000_000_000_000 <= from <= 100_000_000_000_000_000,
        -100_000_000_000_000_000 <= to <= 100_000_000_000_000_000,
    ensures
        c == between(from as int, to as int, t as int),
        from <= to ==> from <= c <= to,
        to <= from ==> to <= c <= from,
{
    proof {
        lemma_between(from as int, to as int, t as int);
    }
    assert(-100_000_000_000_000_000 * 400 <= from * (SNAPSHOT_INTERVAL - t)
        <= 100_000_000_000_000_000 * 400) by (nonlinear_arith)
        requires
            0 <= t <= 400,
            SNAPSHOT_INTERVAL == 400,
            -100_000_000_000_000_000 <= from <= 100_000_000_000_000_000,
    ;
    assert(-100_000_000_000_000_000 * 400 <= to * t <= 100_000_000_000_000_000 * 400)
        by (nonlinear_arith)
        requires
            0 <= t <= 400,
            -100_000_000_000_000_000 <= to <= 100_000_000_000_000_000,
    ;
    let n: i128 = (from as i128) * ((SNAPSHOT_INTERVAL - t) as i128) + (to as i128) * (t as i128);
    let q: i128 = if n >= 0 {
        n / 400
    } else {
        -((399 - n) / 400)
    };
    q as i64
}

proof fn lemma_between(from: int, to: int, t: int)
    requires
        0 <= t <= SNAPSHOT_INTERVAL,
    ensures
        from <= to ==> from <= between(from, to, t) <= to,
        to <= from ==> to <= between(from, to, t) <= from,
        between(from, to, 0) == from,
        between(from, to, SNAPSHOT_INTERVAL as int) == to,
        between(from, from, t) == from,
{
    assert(from * (SNAPSHOT_INTERVAL - t) + to * t == SNAPSHOT_INTERVAL * from + (to - from) * t)
        by (nonlinear_arith)
        requires
            SNAPSHOT_INTERVAL == 400,
    ;
    if from <= to {
        assert(0 <= (to - from) * t <= SNAPSHOT_INTERVAL * (to - from)) by (nonlinear_arith)
            requires
                0 <= t <= SNAPSHOT_INTERVAL,
                from <= to,
        ;
    } else {
        assert(SNAPSHOT_INTERVAL * (to - from) <= (to - from) * t <= 0) by (nonlinear_arith)
            requires
                0 <= t <= SNAPSHOT_INTERVAL,
                to <= from,
        ;
    }
    assert(from * (SNAPSHOT_INTERVAL - t) + from * t == SNAPSHOT_INTERVAL * from)
        by (nonlinear_arith)
        requires
            SNAPSHOT_INTERVAL == 400,
    ;
    assert(from * (SNAPSHOT_INTERVAL - 0) + to * 0 == SNAPSHOT_INTERVAL * from);
    assert(from * (SNAPSHOT_INTERVAL - SNAPSHOT_INTERVAL) + to * SNAPSHOT_INTERVAL
        == SNAPSHOT_INTERVAL * to) by (nonlinear_arith)
        requires
            SNAPSHOT_INTERVAL == 400,
    ;
}

/// An interpolation after a new sample: from where it is drawn to the sample, or
/// straight at the sample when that is a jump.
pub open spec fn fed_sample(i: Interp, next: WorldPoint) -> Interp {
    let from = drawn_at(i);
    if gap_squared(next, from) > square(TELEPORT_DISTANCE as int) {
        Interp { prev: next, cur: next, elapsed: SNAPSHOT_INTERVAL }
    } else {
        Interp { prev: from, cur: next, elapsed: 0 }
    }
}

/// An interpolation some time later. Its clock stops at the newer sample.
pub open spec fn after_a_while(i: Interp, dt: int) -> Interp {
    Interp {
        elapsed: if i.elapsed + dt <= SNAPSHOT_INTERVAL {
            (i.elapsed + dt) as i64
        } else {
            SNAPSHOT_INTERVAL
        },
        ..i
    }
}

impl Interp {
    /// Both samples can be drawn between.
    pub open spec fn wf(&self) -> bool {
        drawable(self.prev) && drawable(self.cur)
    }

    #[verifier::allow_in_spec]
    pub fn new(at: WorldPoint) -> Interp
        returns
            (Interp { prev: at, cur: at, elapsed: SNAPSHOT_INTERVAL }),
    {
        Interp { prev: at, cur: at, elapsed: SNAPSHOT_INTERVAL }
    }

    /// Feeds a new authoritative sample.
    pub fn push(&mut self, next: WorldPoint)
        requires
            old(self).wf(),
            drawable(next),
        ensures
            *final(self) == fed_sample(*old(self), next),
            final(self).wf(),
    {
        let from = self.render();
        let jump: u128 = spread(next, from);
        assert(square(TELEPORT_DISTANCE as int) == 1_296_000_000_000_000) by (nonlinear_arith)
            requires
                TELEPORT_DISTANCE == 36_000_000,
        ;
        if jump > 1_296_000_000_000_000 {
            self.prev = next;
            self.cur = next;
            self.elapsed = SNAPSHOT_INTERVAL;
            return;
        }
        self.prev = from;
        self.cur = next;
        self.elapsed = 0;
    }

    pub fn advance(&mut self, dt: i64)
        requires
            i64::MIN <= old(self).elapsed + dt <= i64::MAX,
        ensures
            *final(self) == after_a_while(*old(self), dt as int),
    {
        let elapsed: i64 = self.elapsed + dt;
        self.elapsed = if elapsed <= SNAPSHOT_INTERVAL {
            elapsed
        } else {
            SNAPSHOT_INTERVAL
        };
    }

    pub fn render(&self) -> (at: WorldPoint)
        requires
            self.wf(),
        ensures
            at == drawn_at(*self),
            drawable(at),
    {
        let t: i64 = if self.elapsed <= 0 {
            0
        } else if self.elapsed >= SNAPSHOT_INTERVAL {
            SNAPSHOT_INTERVAL
        } else {
            self.elapsed
        };
        WorldPoint::new(
            blend(self.prev.x, self.cur.x, t),
            blend(self.prev.y, self.cur.y, t),
        )
    }
}

/// Replaying a list of inputs is replaying its first part and then the rest.
proof fn lemma_replay_in_two_parts(pos: GridPos, first: Seq<(u32, Dir)>, rest: Seq<(u32, Dir)>)
    ensures
        replayed(pos, first + rest) == replayed(replayed(pos, first), rest),
    decreases rest.len(),
{
    if rest.len() == 0 {
        assert(first + rest =~= first);
    } else {
        lemma_replay_in_two_parts(pos, first, rest.drop_last());
        assert((first + rest).drop_last() =~= first + rest.drop_last());
    }
}

proof fn lemma_unconfirmed(first: Seq<(u32, Dir)>, rest: Seq<(u32, Dir)>, acked: u32)
    requires
        forall|i: int| 0 <= i < first.len() ==> (#[trigger] first[i]).0 <= acked,
        rest.len() > 0 ==> rest[0].0 > acked,
    ensures
        unconfirmed(first + rest, acked) == rest,
    decreases first.len(),
{
    if first.len() == 0 {
        assert(first + rest =~= rest);
    } else {
        let tail = first.drop_first();
        assert forall|i: int| 0 <= i < tail.len() implies (#[trigger] tail[i]).0 <= acked by {
            assert(tail[i] == first[i + 1]);
        }
        lemma_unconfirmed(tail, rest, acked);
        assert((first + rest).drop_first() =~= tail + rest);
    }
}

/// Reconciliation moves nothing as long as the server did what the client
/// predicted. The client is where its inputs led it from `base`; the server has
/// applied the first of them and says where that led. The client keeps the rest,
/// replays it and lands exactly where it already was.
pub proof fn law_a_correct_prediction_is_not_corrected(
    base: GridPos,
    applied: Seq<(u32, Dir)>,
    in_flight: Seq<(u32, Dir)>,
    acked: u32,
)
    requires
        forall|i: int| 0 <= i < applied.len() ==> (#[trigger] applied[i]).0 <= acked,
        in_flight.len() > 0 ==> in_flight[0].0 > acked,
    ensures
        unconfirmed(applied + in_flight, acked) == in_flight,
        replayed(replayed(base, applied), in_flight) == replayed(base, applied + in_flight),
{
    lemma_unconfirmed(applied, in_flight, acked);
    lemma_replay_in_two_parts(base, applied, in_flight);
}

/// The correction on record is zero exactly when the player did not move.
pub proof fn law_no_correction_means_no_move(a: WorldPoint, b: WorldPoint, correction: int)
    requires
        is_root(correction, gap_squared(a, b)),
    ensures
        correction == 0 <==> a == b,
{
    assert(correction > 0 ==> square(correction) > 0) by (nonlinear_arith);
    assert(correction == 0 ==> square(correction + 1) == 1) by (nonlinear_arith);
    assert(square(a.x - b.x) >= 0 && (square(a.x - b.x) == 0 <==> a.x == b.x)) by (nonlinear_arith);
    assert(square(a.y - b.y) >= 0 && (square(a.y - b.y) == 0 <==> a.y == b.y)) by (nonlinear_arith);
}

/// An acknowledgement drops what it covers and nothing newer, and hearing it
/// again changes nothing.
pub proof fn law_acknowledging_twice_is_harmless(inputs: Seq<(u32, Dir)>, acked: u32)
    ensures
        unconfirmed(unconfirmed(inputs, acked), acked) == unconfirmed(inputs, acked),
        inputs.len() > 0 && inputs[0].0 > acked ==> unconfirmed(inputs, acked) == inputs,
    decreases inputs.len(),
{
    if inputs.len() > 0 && inputs[0].0 <= acked {
        law_acknowledging_twice_is_harmless(inputs.drop_first(), acked);
    }
}

/// Predicting an input is replaying it at the end of the list, so the client
/// stays where its inputs lead.
pub proof fn law_prediction_is_replay(base: GridPos, inputs: Seq<(u32, Dir)>, seq: u32, dir: Dir)
    ensures
        stepped(replayed(base, inputs), dir) == replayed(base, inputs.push((seq, dir))),
{
    assert(inputs.push((seq, dir)).drop_last() =~= inputs);
}

/// Replaying keeps a runner where it may stand.
pub proof fn law_replay_stays_in_the_maze(pos: GridPos, inputs: Seq<(u32, Dir)>)
    requires
        pos.sound(Mover::Pacman),
    ensures
        replayed(pos, inputs).sound(Mover::Pacman),
    decreases inputs.len(),
{
    if inputs.len() > 0 {
        law_replay_stays_in_the_maze(pos, inputs.drop_last());
        law_travel_stays_in_the_maze(
            replayed(pos, inputs.drop_last()),
            Some(inputs.last().1),
            Mover::Pacman,
            PACMAN_SPEED * TICK_DT,
        );
    }
}

/// What is drawn never overshoots: it lies between the two samples, starts at the
/// older one and settles exactly on the newer one.
pub proof fn law_interpolation_never_overshoots(i: Interp)
    requires
        i.wf(),
    ensures
        i.prev.x <= i.cur.x ==> i.prev.x <= drawn_at(i).x <= i.cur.x,
        i.cur.x <= i.prev.x ==> i.cur.x <= drawn_at(i).x <= i.prev.x,
        i.prev.y <= i.cur.y ==> i.prev.y <= drawn_at(i).y <= i.cur.y,
        i.cur.y <= i.prev.y ==> i.cur.y <= drawn_at(i).y <= i.prev.y,
        i.elapsed <= 0 ==> drawn_at(i) == i.prev,
        i.elapsed >= SNAPSHOT_INTERVAL ==> drawn_at(i) == i.cur,
{
    lemma_between(i.prev.x as int, i.cur.x as int, progress(i.elapsed as int));
    lemma_between(i.prev.y as int, i.cur.y as int, progress(i.elapsed as int));
}

/// A new sample never makes the drawing jump, unless it is a jump itself: then
/// the drawing is at the sample at once.
pub proof fn law_a_new_sample_does_not_jump(i: Interp, next: WorldPoint)
    requires
        i.wf(),
        drawable(next),
    ensures
        gap_squared(next, drawn_at(i)) <= square(TELEPORT_DISTANCE as int) ==> drawn_at(
            fed_sample(i, next),
        ) == drawn_at(i),
        gap_squared(next, drawn_at(i)) > square(TELEPORT_DISTANCE as int) ==> drawn_at(
            fed_sample(i, next),
        ) == next,
{
    law_interpolation_never_overshoots(i);
    let e = fed_sample(i, next);
    lemma_between(e.prev.x as int, e.cur.x as int, 0);
    lemma_between(e.prev.y as int, e.cur.y as int, 0);
    lemma_between(e.prev.x as int, e.cur.x as int, SNAPSHOT_INTERVAL as int);
    lemma_between(e.prev.y as int, e.cur.y as int, SNAPSHOT_INTERVAL as int);
}

/// An input moves the runner for a thirtieth of a second at eight tiles a second,
/// turning as it asks where it can.
pub proof fn law_an_input_moves_for_one_tick(pos: GridPos, dir: Dir)
    ensures
        stepped(pos, dir) == advanced(pos, Some(dir), Mover::Pacman, 3_200_000).0,
{
}

/// An acknowledgement drops exactly the inputs it covers: what is left is the end of
/// the list, from the first input with a greater number on.
pub proof fn law_exactly_the_confirmed_are_dropped(inputs: Seq<(u32, Dir)>, acked: u32, i: int)
    requires
        forall|a: int, b: int|
            0 <= a < b < inputs.len() ==> (#[trigger] inputs[a]).0 < (#[trigger] inputs[b]).0,
        0 <= i < inputs.len(),
    ensures
        ({
            let left = unconfirmed(inputs, acked);
            let dropped = inputs.len() - left.len();
            &&& dropped >= 0
            &&& left == inputs.skip(dropped)
            &&& i >= dropped <==> inputs[i].0 > acked
        }),
    decreases inputs.len(),
{
    let left = unconfirmed(inputs, acked);
    if inputs[0].0 <= acked {
        let rest = inputs.drop_first();
        assert forall|a: int, b: int| 0 <= a < b < rest.len() implies (#[trigger] rest[a]).0 < (
        #[trigger] rest[b]).0 by {
            assert(rest[a] == inputs[a + 1] && rest[b] == inputs[b + 1]);
        }
        if rest.len() > 0 {
            law_exactly_the_confirmed_are_dropped(
                rest,
                acked,
                if i > 0 {
                    i - 1
                } else {
                    0
                },
            );
            assert(i > 0 ==> rest[i - 1] == inputs[i]);
        }
        let n = rest.len() - left.len();
        assert(rest.skip(n) =~= inputs.skip(n + 1));
    } else {
        assert(inputs.skip(0) =~= inputs);
        if i > 0 {
            assert(inputs[0].0 < inputs[i].0);
        }
    }
}

/// Inputs are replayed oldest first.
pub proof fn law_replay_goes_oldest_first(pos: GridPos, inputs: Seq<(u32, Dir)>)
    ensures
        inputs.len() == 0 ==> replayed(pos, inputs) == pos,
        inputs.len() > 0 ==> replayed(pos, inputs) == replayed(
            stepped(pos, inputs[0].1),
            inputs.drop_first(),
        ),
{
    if inputs.len() > 0 {
        let one = seq![inputs[0]];
        assert(one + inputs.drop_first() =~= inputs);
        lemma_replay_in_two_parts(pos, one, inputs.drop_first());
        assert(one.drop_last() =~= Seq::<(u32, Dir)>::empty());
        assert(replayed(pos, one.drop_last()) == pos);
    }
}

/// Reconciling starts over from the server's word and plays on top of it exactly the
/// inputs the server has not confirmed. When nothing is left the player is where the
/// server says; when the server did what was predicted the player does not move. On
/// record is how far the player moved, in whole units.
pub proof fn law_reconciling_starts_from_the_servers_word(
    before: Local,
    acked: u32,
    authoritative: GridPos,
    after: Local,
)
    requires
        before.wf(),
        is_reconciled(before, acked, authoritative, after),
    ensures
        forall|i: int|
            0 <= i < before.pending@.len() ==> (after.pending@.contains(
                #[trigger] before.pending@[i],
            ) <==> before.pending@[i].0 > acked),
        after.pos == replayed(authoritative, after.pending@),
        after.pending@.len() == 0 ==> after.pos == authoritative,
        after.pending@.len() == 1 ==> after.pos == stepped(authoritative, after.pending@[0].1),
        before.pos == replayed(authoritative, after.pending@) ==> after.pos == before.pos
            && after.last_correction == 0,
        after.next_seq == before.next_seq,
        ({
            let (a, b) = (world_of(before.pos), world_of(after.pos));
            let (dx, dy, c) = (a.x - b.x, a.y - b.y, after.last_correction as int);
            c * c <= dx * dx + dy * dy < (c + 1) * (c + 1)
        }),
{
    let (inputs, left) = (before.pending@, after.pending@);
    assert forall|i: int| 0 <= i < inputs.len() implies (left.contains(#[trigger] inputs[i])
        <==> inputs[i].0 > acked) by {
        law_exactly_the_confirmed_are_dropped(inputs, acked, i);
        let n = inputs.len() - left.len();
        if inputs[i].0 > acked {
            assert(left[i - n] == inputs[i]);
        }
        if left.contains(inputs[i]) {
            let j = choose|j: int| 0 <= j < left.len() && left[j] == inputs[i];
            assert(left[j] == inputs[j + n]);
            law_exactly_the_confirmed_are_dropped(inputs, acked, j + n);
        }
    }
    law_replay_goes_oldest_first(authoritative, left);
    if left.len() == 1 {
        law_replay_goes_oldest_first(stepped(authoritative, left[0].1), left.drop_first());
    }
    law_no_correction_means_no_move(
        world_of(before.pos),
        world_of(after.pos),
        after.last_correction as int,
    );
}

/// What is drawn runs evenly from the older sample to the newer one over a thirtieth
/// of a second, to the unit below.
pub proof fn law_drawing_runs_evenly(i: Interp)
    requires
        i.wf(),
        0 <= i.elapsed <= 400,
    ensures
        400 * drawn_at(i).x <= i.prev.x * (400 - i.elapsed) + i.cur.x * i.elapsed < 400 * drawn_at(
            i,
        ).x + 400,
        400 * drawn_at(i).y <= i.prev.y * (400 - i.elapsed) + i.cur.y * i.elapsed < 400 * drawn_at(
            i,
        ).y + 400,
{
    lemma_between(i.prev.x as int, i.cur.x as int, i.elapsed as int);
    lemma_between(i.prev.y as int, i.cur.y as int, i.elapsed as int);
}

/// A sample up to three tiles from what is drawn is moved towards from there; a
/// farther one is jumped to. The clock of a drawing runs with time and stops at the
/// newer sample.
pub proof fn law_far_samples_are_jumped_to(i: Interp, next: WorldPoint, dt: int)
    requires
        i.wf(),
        drawable(next),
        0 <= dt,
        0 <= i.elapsed <= 400,
    ensures
        ({
            let (from, e) = (drawn_at(i), fed_sample(i, next));
            let (dx, dy) = (next.x - from.x, next.y - from.y);
            &&& e.cur == next
            &&& if dx * dx + dy * dy > 36_000_000 * 36_000_000 {
                e.prev == next && e.elapsed == 400
            } else {
                e.prev == from && e.elapsed == 0
            }
        }),
        after_a_while(i, dt).prev == i.prev && after_a_while(i, dt).cur == i.cur,
        after_a_while(i, dt).elapsed == (if i.elapsed + dt <= 400 {
            i.elapsed + dt
        } else {
            400
        }),
{
}

} // verus!
