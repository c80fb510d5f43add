//! The authoritative match simulation.
//!
//! One `tick` is one 30Hz step. The server owns an instance of this and is the
//! only thing allowed to decide what happened; the client owns one too, but
//! only ever feeds its own runner through it to predict local movement.

use vstd::prelude::*;
use crate::difficulty::{Difficulty, PACMAN_SPEED};
use crate::ghosts::{GhostMode, MazeGhost, PacTarget};
use crate::grid::{IVec2, WorldPoint, TICK_DT};
use crate::maze::{spawn_p0, spawn_p1};
use crate::movement::{Dir, GridPos, Mover};
use crate::pellets::{PelletField, PelletKind, Rng};
use crate::score::{
    ghost_points, steal_amount, COLLIDE_RADIUS, DEATH_FREEZE_TIME, LIVES, PELLET, POWER_PELLET,
    SCATTER_AFTER_DEATH_TIME, STEAL_IMMUNITY_TIME, STUN_TIME,
};
#[allow(unused_imports)]
use crate::difficulty::{difficulty_at, law_the_curve_is_bounded};
#[allow(unused_imports)]
use crate::ghosts::{
    clocked, frightened, law_a_new_ghost_stands_in_the_house, law_a_step_never_ends_in_a_wall,
    law_ghosts_stay_in_the_maze, multiplier_of, new_ghost, square, target_of, unfrightened, walked,
    MAX_LEGS,
};
#[allow(unused_imports)]
use crate::grid::gap;
#[allow(unused_imports)]
use crate::maze::{lemma_landmarks, on_board};
#[allow(unused_imports)]
use crate::movement::{advanced, law_travel_stays_in_the_maze, occupied, world_of};
#[allow(unused_imports)]
use crate::pellets::{all_measurable, first_state, full_field, FieldView};
#[allow(unused_imports)]
use crate::score::{chain_points, nominal_steal};

verus! {

#[derive(Debug, Clone, Copy, PartialEq, Eq, Structural)]
pub enum RunnerState {
    Alive,
    /// Frozen after losing a life, waiting to respawn.
    Dying,
    /// Out of lives. Off the board for the rest of the match.
    Out,
}

#[derive(Debug, Clone, Copy, PartialEq, Eq, Structural)]
pub enum MatchPhase {
    /// Built, waiting for the server to start it.
    Waiting,
    Running,
    /// `winner` is `None` on a draw.
    Finished { winner: Option<u8> },
}

#[derive(Debug, Clone, Copy, PartialEq, Eq, Structural)]
pub struct Runner {
    pub slot: u8,
    pub pos: GridPos,
    pub desired: Option<Dir>,
    pub state: RunnerState,
    pub lives: u8,
    pub score: u32,
    /// Absolute simulation times, not durations.
    pub energized_until: i64,
    pub stunned_until: i64,
    pub immune_until: i64,
    pub respawn_at: i64,
    /// Ghosts eaten during the current energization.
    pub ghost_combo: usize,
}

/// Where a slot starts and respawns, and the way it faces there.
pub open spec fn home_of(slot: u8) -> GridPos {
    if slot == 0 {
        GridPos { tile: spawn_p0(), offset: 0, dir: Dir::Right }
    } else {
        GridPos { tile: spawn_p1(), offset: 0, dir: Dir::Left }
    }
}

/// A runner as it enters the match.
pub open spec fn new_runner(slot: u8) -> Runner {
    Runner {
        slot,
        pos: home_of(slot),
        desired: None,
        state: RunnerState::Alive,
        lives: LIVES,
        score: 0,
        energized_until: 0,
        stunned_until: 0,
        immune_until: 0,
        respawn_at: 0,
        ghost_combo: 0,
    }
}

impl Runner {
    fn new(slot: u8) -> (r: Runner)
        ensures
            r == new_runner(slot),
    {
        Runner {
            slot,
            pos: Runner::home(slot),
            desired: None,
            state: RunnerState::Alive,
            lives: LIVES,
            score: 0,
            energized_until: 0,
            stunned_until: 0,
            immune_until: 0,
            respawn_at: 0,
            ghost_combo: 0,
        }
    }

    fn home(slot: u8) -> (pos: GridPos)
        ensures
            pos == home_of(slot),
    {
        if slot == 0 {
            GridPos::new(spawn_p0(), Dir::Right)
        } else {
            GridPos::new(spawn_p1(), Dir::Left)
        }
    }

    #[verifier::allow_in_spec]
    pub fn is_energized(&self, now: i64) -> bool
        returns
            self.state is Alive && now < self.energized_until,
    {
        self.state == RunnerState::Alive && now < self.energized_until
    }

    #[verifier::allow_in_spec]
    pub fn is_stunned(&self, now: i64) -> bool
        returns
            now < self.stunned_until,
    {
        now < self.stunned_until
    }

    #[verifier::allow_in_spec]
    pub fn is_immune(&self, now: i64) -> bool
        returns
            now < self.immune_until,
    {
        now < self.immune_until
    }

    /// On the board and able to be hit, eat, or be eaten.
    #[verifier::allow_in_spec]
    pub fn is_active(&self) -> bool
        returns
            self.state is Alive,
    {
        self.state == RunnerState::Alive
    }
}

/// Everything that happened during one tick. The server turns this into network
/// deltas; the client uses it for sound and effects.
#[derive(Debug, Clone)]
pub struct TickEvents {
    /// tile, kind, who ate it
    pub pellets_eaten: Vec<(IVec2, PelletKind, u8)>,
    pub pellets_spawned: Vec<(IVec2, PelletKind)>,
    /// ghost index, who ate it, points awarded
    pub ghosts_eaten: Vec<(usize, u8, u32)>,
    /// who died
    pub deaths: Vec<u8>,
    /// thief, victim, points taken
    pub steals: Vec<(u8, u8, u32)>,
    /// who ran out of lives this tick
    pub eliminated: Vec<u8>,
}

/// The contents of a `TickEvents`.
#[verifier::ext_equal]
pub struct EventsView {
    pub pellets_eaten: Seq<(IVec2, PelletKind, u8)>,
    pub pellets_spawned: Seq<(IVec2, PelletKind)>,
    pub ghosts_eaten: Seq<(usize, u8, u32)>,
    pub deaths: Seq<u8>,
    pub steals: Seq<(u8, u8, u32)>,
    pub eliminated: Seq<u8>,
}

impl View for TickEvents {
    type V = EventsView;

    open spec fn view(&self) -> EventsView {
        EventsView {
            pellets_eaten: self.pellets_eaten@,
            pellets_spawned: self.pellets_spawned@,
            ghosts_eaten: self.ghosts_eaten@,
            deaths: self.deaths@,
            steals: self.steals@,
            eliminated: self.eliminated@,
        }
    }
}

/// A tick on which nothing happened.
pub open spec fn no_events() -> EventsView {
    EventsView {
        pellets_eaten: Seq::empty(),
        pellets_spawned: Seq::empty(),
        ghosts_eaten: Seq::empty(),
        deaths: Seq::empty(),
        steals: Seq::empty(),
        eliminated: Seq::empty(),
    }
}

impl TickEvents {
    fn none() -> (events: TickEvents)
        ensures
            events@ == no_events(),
    {
        TickEvents {
            pellets_eaten: Vec::new(),
            pellets_spawned: Vec::new(),
            ghosts_eaten: Vec::new(),
            deaths: Vec::new(),
            steals: Vec::new(),
            eliminated: Vec::new(),
        }
    }
}

#[derive(Debug)]
pub struct Sim {
    pub elapsed: i64,
    pub tick_count: u32,
    pub runners: [Runner; 2],
    pub ghosts: Vec<MazeGhost>,
    pub pellets: PelletField,
    pub phase: MatchPhase,
    pub rng: Rng,
    pub next_power_at: i64,
}

/// A match, mathematically.
#[verifier::ext_equal]
pub struct SimView {
    pub elapsed: i64,
    pub tick_count: int,
    pub runners: Seq<Runner>,
    pub ghosts: Seq<MazeGhost>,
    pub pellets: FieldView,
    pub phase: MatchPhase,
    pub rng: u64,
    pub next_power_at: i64,
}

impl View for Sim {
    type V = SimView;

    open spec fn view(&self) -> SimView {
        SimView {
            elapsed: self.elapsed,
            tick_count: self.tick_count as int,
            runners: self.runners@,
            ghosts: self.ghosts@,
            pellets: self.pellets@,
            phase: self.phase,
            rng: self.rng.state,
            next_power_at: self.next_power_at,
        }
    }
}

/// The last time at which a match can still be stepped, in time units. It is
/// twenty million years away.
pub const CLOCK_END: i64 = 9_000_000_000_000_000_000;

/// A match and what has happened so far in the current tick.
#[verifier::ext_equal]
pub struct Turn {
    pub sim: SimView,
    pub events: EventsView,
}

impl SimView {
    /// Two runners, each in its slot, and everything on the board standing where
    /// it may stand.
    pub open spec fn wf(self) -> bool {
        &&& self.runners.len() == 2
        &&& self.runners[0].slot == 0
        &&& self.runners[1].slot == 1
        &&& self.runners[0].pos.sound(Mover::Pacman)
        &&& self.runners[1].pos.sound(Mover::Pacman)
        &&& forall|i: int| 0 <= i < self.ghosts.len() ==> (#[trigger] self.ghosts[i]).sound()
        &&& self.pellets.wf()
    }

    /// The points on the board.
    pub open spec fn total(self) -> int {
        self.runners[0].score + self.runners[1].score
    }

    /// How many ghosts there are once the curve has had its say.
    pub open spec fn ghosts_due(self) -> int {
        let due = difficulty_at(self.elapsed + TICK_DT).ghost_count as int;
        if self.ghosts.len() >= due {
            self.ghosts.len() as int
        } else {
            due
        }
    }

    /// One more tick fits the counters: the clock, the scores, the combos, the
    /// ghosts' timers and the drip.
    pub open spec fn has_room(self) -> bool {
        &&& self.tick_count < u32::MAX
        &&& self.elapsed <= CLOCK_END
        &&& self.total() + 2 * (POWER_PELLET + 1600 * self.ghosts_due()) <= u32::MAX
        &&& self.runners[0].ghost_combo + self.ghosts_due() <= usize::MAX
        &&& self.runners[1].ghost_combo + self.ghosts_due() <= usize::MAX
        &&& forall|i: int|
            0 <= i < self.ghosts.len() ==> (#[trigger] self.ghosts[i]).mode_timer >= i64::MIN
                + TICK_DT
        &&& self.pellets.carry <= i64::MAX - 3 * TICK_DT
    }

    pub open spec fn with_runner(self, slot: int, r: Runner) -> SimView {
        SimView { runners: self.runners.update(slot, r), ..self }
    }
}

/// A match as it is built.
pub open spec fn opening(seed: u64) -> SimView {
    SimView {
        elapsed: 0,
        tick_count: 0,
        runners: seq![new_runner(0), new_runner(1)],
        ghosts: Seq::new(4, |i: int| new_ghost(i)),
        pellets: full_field(),
        phase: MatchPhase::Waiting,
        rng: first_state(seed),
        next_power_at: difficulty_at(0).power_pellet_interval,
    }
}

/// The ghosts, topped up to `due`.
pub open spec fn topped_up(ghosts: Seq<MazeGhost>, due: nat) -> Seq<MazeGhost> {
    if ghosts.len() >= due {
        ghosts
    } else {
        ghosts + Seq::new((due - ghosts.len()) as nat, |i: int| new_ghost(ghosts.len() + i))
    }
}

/// The clock strikes, and the difficulty curve brings its ghosts.
#[verifier::opaque]
pub open spec fn clock_struck(s: SimView) -> SimView {
    let elapsed = (s.elapsed + TICK_DT) as i64;
    SimView {
        elapsed,
        tick_count: s.tick_count + 1,
        ghosts: topped_up(s.ghosts, difficulty_at(elapsed as int).ghost_count as nat),
        ..s
    }
}

/// A runner whose freeze is over is back at its own corner.
pub open spec fn respawned(r: Runner, now: i64) -> Runner {
    if r.state is Dying && now >= r.respawn_at {
        Runner {
            pos: home_of(r.slot),
            desired: None,
            state: RunnerState::Alive,
            ghost_combo: 0,
            ..r
        }
    } else {
        r
    }
}

/// A runner that can move has moved.
pub open spec fn moved(r: Runner, now: i64) -> Runner {
    if r.is_active() && !r.is_stunned(now) {
        Runner {
            pos: advanced(r.pos, r.desired, Mover::Pacman, PACMAN_SPEED * TICK_DT).0,
            ..r
        }
    } else {
        r
    }
}

/// Respawns, then movement.
#[verifier::opaque]
pub open spec fn runners_moved(s: SimView) -> SimView {
    SimView {
        runners: s.runners.map_values(|r: Runner| moved(respawned(r, s.elapsed), s.elapsed)),
        ..s
    }
}

/// What lies where a runner is, if it is there to pick it up.
pub open spec fn meal_of(s: SimView, slot: int) -> Option<PelletKind> {
    if s.runners[slot].is_active() {
        s.pellets.at(occupied(s.runners[slot].pos))
    } else {
        None
    }
}

/// A runner with a pellet inside.
pub open spec fn fed(r: Runner, kind: PelletKind, now: i64) -> Runner {
    match kind {
        PelletKind::Normal => Runner { score: (r.score + PELLET) as u32, ..r },
        PelletKind::Power => Runner {
            score: (r.score + POWER_PELLET) as u32,
            energized_until: (now + difficulty_at(now as int).energized_duration) as i64,
            ghost_combo: 0,
            ..r
        },
    }
}

/// One runner picks up what lies where it is.
pub open spec fn ate(t: Turn, slot: int) -> Turn {
    let r = t.sim.runners[slot];
    let tile = occupied(r.pos);
    match meal_of(t.sim, slot) {
        Some(kind) => Turn {
            sim: SimView {
                pellets: t.sim.pellets.with(tile, None),
                ..t.sim.with_runner(slot, fed(r, kind, t.sim.elapsed))
            },
            events: EventsView {
                pellets_eaten: t.events.pellets_eaten.push((tile, kind, r.slot)),
                ..t.events
            },
        },
        None => t,
    }
}

/// Both runners pick up, slot 0 first, and a power pellet frightens every ghost.
#[verifier::opaque]
pub open spec fn pellets_eaten(t: Turn) -> Turn {
    let first = ate(t, 0);
    let both = ate(first, 1);
    if meal_of(t.sim, 0) == Some(PelletKind::Power) || meal_of(first.sim, 1) == Some(
        PelletKind::Power,
    ) {
        Turn {
            sim: SimView {
                ghosts: both.sim.ghosts.map_values(|g: MazeGhost| frightened(g)),
                ..both.sim
            },
            ..both
        }
    } else {
        both
    }
}

/// What the ghosts know about the runners.
pub open spec fn targets_of(s: SimView) -> Seq<PacTarget> {
    s.runners.map_values(
        |r: Runner| PacTarget { tile: r.pos.tile, dir: r.pos.dir, alive: r.is_active() },
    )
}

/// The tile of the first ghost.
pub open spec fn red_tile_of(s: SimView) -> IVec2 {
    if s.ghosts.len() > 0 {
        s.ghosts[0].pos.tile
    } else {
        IVec2 { x: 0, y: 0 }
    }
}

pub open spec fn anyone_energized(s: SimView) -> bool {
    s.runners[0].is_energized(s.elapsed) || s.runners[1].is_energized(s.elapsed)
}

/// A ghost after its move: its fright may be over, its clock runs, and it walks
/// towards its target at the speed of its mode.
pub open spec fn ghost_moved(s: SimView, g: MazeGhost) -> MazeGhost {
    let calm = if anyone_energized(s) {
        g
    } else {
        unfrightened(g)
    };
    let ready = clocked(calm, TICK_DT as int);
    let speed = difficulty_at(s.elapsed as int).spec_ghost_speed() * multiplier_of(ready.mode) / 10;
    walked(
        ready,
        target_of(ready, targets_of(s), red_tile_of(s)),
        speed * TICK_DT,
        MAX_LEGS as nat,
    )
}

#[verifier::opaque]
pub open spec fn ghosts_moved(s: SimView) -> SimView {
    SimView { ghosts: s.ghosts.map_values(|g: MazeGhost| ghost_moved(s, g)), ..s }
}

/// Width of the board in distance units.
pub const BOARD_WIDTH: i64 = 336_000_000;

/// Whether two points touch. The distance respects the tunnel wrap, so two
/// things either side of the seam are correctly seen as adjacent.
pub open spec fn in_touch(a: WorldPoint, b: WorldPoint) -> bool {
    let raw = gap(a.x as int, b.x as int);
    let dx = if raw <= BOARD_WIDTH - raw {
        raw
    } else {
        BOARD_WIDTH - raw
    };
    square(dx) + square(a.y - b.y) < square(COLLIDE_RADIUS as int)
}

/// A runner eats the ghost at `index`.
pub open spec fn ghost_eaten(t: Turn, slot: int, index: int) -> Turn {
    let r = t.sim.runners[slot];
    let points = chain_points(r.ghost_combo as int);
    Turn {
        sim: SimView {
            ghosts: t.sim.ghosts.update(
                index,
                MazeGhost { mode: GhostMode::Eaten, ..t.sim.ghosts[index] },
            ),
            ..t.sim.with_runner(
                slot,
                Runner {
                    ghost_combo: (r.ghost_combo + 1) as usize,
                    score: (r.score + points) as u32,
                    ..r
                },
            )
        },
        events: EventsView {
            ghosts_eaten: t.events.ghosts_eaten.push((index as usize, slot as u8, points)),
            ..t.events
        },
    }
}

/// The ghosts from `from` on that a runner touches, in order: it eats those it
/// may and is caught by the first dangerous one.
pub open spec fn contacts(t: Turn, slot: int, from: nat) -> (Turn, bool)
    decreases t.sim.ghosts.len() - from,
{
    if from >= t.sim.ghosts.len() {
        (t, false)
    } else {
        let r = t.sim.runners[slot];
        let g = t.sim.ghosts[from as int];
        if !in_touch(world_of(r.pos), world_of(g.pos)) {
            contacts(t, slot, from + 1)
        } else if r.is_energized(t.sim.elapsed) && g.is_edible() {
            contacts(ghost_eaten(t, slot, from as int), slot, from + 1)
        } else if g.is_dangerous() {
            (t, true)
        } else {
            contacts(t, slot, from + 1)
        }
    }
}

/// One runner against the ghosts, if it is on the board.
pub open spec fn met(t: Turn, slot: int) -> (Turn, bool) {
    if t.sim.runners[slot].is_active() {
        contacts(t, slot, 0)
    } else {
        (t, false)
    }
}

/// A ghost after a death. Ghosts that are already eyes keep going home; the rest
/// back off to their corners.
pub open spec fn backed_off(g: MazeGhost) -> MazeGhost {
    if g.mode is Eaten {
        g
    } else {
        MazeGhost { mode: GhostMode::Scatter, mode_timer: SCATTER_AFTER_DEATH_TIME, ..g }
    }
}

/// A runner that has just lost a life.
pub open spec fn dead(r: Runner, now: i64) -> Runner {
    let lives = if r.lives > 0 {
        (r.lives - 1) as u8
    } else {
        0
    };
    let hit = Runner { lives, energized_until: 0, ghost_combo: 0, ..r };
    if lives == 0 {
        Runner { state: RunnerState::Out, ..hit }
    } else {
        Runner {
            state: RunnerState::Dying,
            respawn_at: (now + DEATH_FREEZE_TIME) as i64,
            ..hit
        }
    }
}

/// A death, which gives the board some air.
pub open spec fn killed(t: Turn, slot: int) -> Turn {
    let r = t.sim.runners[slot];
    if !r.is_active() {
        t
    } else {
        let d = dead(r, t.sim.elapsed);
        Turn {
            sim: SimView {
                ghosts: t.sim.ghosts.map_values(|g: MazeGhost| backed_off(g)),
                ..t.sim.with_runner(slot, d)
            },
            events: EventsView {
                deaths: t.events.deaths.push(slot as u8),
                eliminated: if d.state is Out {
                    t.events.eliminated.push(slot as u8)
                } else {
                    t.events.eliminated
                },
                ..t.events
            },
        }
    }
}

/// Runners against ghosts: both meet them before anyone dies.
#[verifier::opaque]
pub open spec fn ghosts_met(t: Turn) -> Turn {
    let (first, hit0) = met(t, 0);
    let (both, hit1) = met(first, 1);
    let after0 = if hit0 {
        killed(both, 0)
    } else {
        both
    };
    if hit1 {
        killed(after0, 1)
    } else {
        after0
    }
}

/// Who robs whom right now. Two energized runners bounce off each other, and an
/// immune one cannot be robbed.
pub open spec fn thief_of(s: SimView) -> Option<int> {
    let (a, b) = (s.runners[0], s.runners[1]);
    let a_hunting = a.is_energized(s.elapsed);
    let b_hunting = b.is_energized(s.elapsed);
    if !a.is_active() || !b.is_active() || !in_touch(world_of(a.pos), world_of(b.pos)) {
        None
    } else if a_hunting && !b_hunting && !b.is_immune(s.elapsed) {
        Some(0)
    } else if b_hunting && !a_hunting && !a.is_immune(s.elapsed) {
        Some(1)
    } else {
        None
    }
}

/// What a victim with this score loses: never more than it has.
pub open spec fn loot(score: u32) -> int {
    if nominal_steal(score as int) <= score {
        nominal_steal(score as int)
    } else {
        score as int
    }
}

/// Runner against runner.
#[verifier::opaque]
pub open spec fn robbed(t: Turn) -> Turn {
    match thief_of(t.sim) {
        Some(thief) => {
            let victim = 1 - thief;
            let (r, v) = (t.sim.runners[thief], t.sim.runners[victim]);
            let taken = loot(v.score);
            let now = t.sim.elapsed;
            Turn {
                sim: t.sim.with_runner(
                    victim,
                    Runner {
                        score: (v.score - taken) as u32,
                        stunned_until: (now + STUN_TIME) as i64,
                        immune_until: (now + STEAL_IMMUNITY_TIME) as i64,
                        ..v
                    },
                ).with_runner(thief, Runner { score: (r.score + taken) as u32, ..r }),
                events: EventsView {
                    steals: t.events.steals.push((thief as u8, victim as u8, taken as u32)),
                    ..t.events
                },
            }
        },
        None => t,
    }
}

/// The tiles of the runners on the board.
pub open spec fn live_tiles(s: SimView) -> Seq<IVec2> {
    let first = if s.runners[0].is_active() {
        seq![s.runners[0].pos.tile]
    } else {
        Seq::empty()
    };
    if s.runners[1].is_active() {
        first.push(s.runners[1].pos.tile)
    } else {
        first
    }
}

/// Board upkeep: the drip, and a power pellet when one is due.
#[verifier::opaque]
pub open spec fn replenished(t: Turn) -> Turn {
    let s = t.sim;
    let live = live_tiles(s);
    let (field, state, spawned) = s.pellets.dripped(s.rng, live, TICK_DT as int);
    let dripped = Turn {
        sim: SimView { pellets: field, rng: state, ..s },
        events: EventsView {
            pellets_spawned: t.events.pellets_spawned + spawned,
            ..t.events
        },
    };
    if s.elapsed >= s.next_power_at {
        let (powered, last, landed) = field.powered(state, live);
        Turn {
            sim: SimView {
                pellets: powered,
                rng: last,
                next_power_at: (s.elapsed + difficulty_at(
                    s.elapsed as int,
                ).power_pellet_interval) as i64,
                ..dripped.sim
            },
            events: EventsView {
                pellets_spawned: match landed {
                    Some(tile) => dripped.events.pellets_spawned.push((tile, PelletKind::Power)),
                    None => dripped.events.pellets_spawned,
                },
                ..dripped.events
            },
        }
    } else {
        dripped
    }
}

/// Whoever has more points; nobody on a draw.
pub open spec fn winner_of(s: SimView) -> Option<u8> {
    if s.runners[0].score > s.runners[1].score {
        Some(0)
    } else if s.runners[0].score < s.runners[1].score {
        Some(1)
    } else {
        None
    }
}

/// A running match is over once both runners are out.
#[verifier::opaque]
pub open spec fn judged(s: SimView) -> SimView {
    if s.phase is Running && s.runners[0].state is Out && s.runners[1].state is Out {
        SimView { phase: MatchPhase::Finished { winner: winner_of(s) }, ..s }
    } else {
        s
    }
}

/// One whole tick. The order is load bearing: it decides who wins a tie when a
/// runner and a ghost reach the same tile on the same tick, and it makes sure a
/// pellet that just dripped cannot be eaten before it is visible.
pub open spec fn ticked(s: SimView) -> Turn {
    if !(s.phase is Running) {
        Turn { sim: s, events: no_events() }
    } else {
        let out = Turn { sim: runners_moved(clock_struck(s)), events: no_events() };
        let eaten = pellets_eaten(out);
        let hunted = Turn { sim: ghosts_moved(eaten.sim), ..eaten };
        let settled = replenished(robbed(ghosts_met(hunted)));
        Turn { sim: judged(settled.sim), ..settled }
    }
}

/// A match after a slot is given up: its remaining lives are forfeit.
pub open spec fn abandoned(s: SimView, slot: u8) -> SimView {
    let after = if slot < 2 && !(s.runners[slot as int].state is Out) {
        s.with_runner(
            slot as int,
            Runner { lives: 0, state: RunnerState::Out, ..s.runners[slot as int] },
        )
    } else {
        s
    };
    judged(after)
}

/// A match with a turn queued for a slot.
pub open spec fn steered(s: SimView, slot: u8, dir: Dir) -> SimView {
    if slot < 2 {
        s.with_runner(slot as int, Runner { desired: Some(dir), ..s.runners[slot as int] })
    } else {
        s
    }
}

/// A match that has been started.
pub open spec fn started(s: SimView) -> SimView {
    if s.phase is Waiting {
        SimView { phase: MatchPhase::Running, ..s }
    } else {
        s
    }
}

/// Whether two points touch.
fn touching(a: WorldPoint, b: WorldPoint) -> (touch: bool)
    requires
        -400_000_000 <= a.x <= 400_000_000,
        -400_000_000 <= a.y <= 400_000_000,
        -400_000_000 <= b.x <= 400_000_000,
        -400_000_000 <= b.y <= 400_000_000,
    ensures
        touch == in_touch(a, b),
{
    let raw: i64 = if a.x >= b.x {
        a.x - b.x
    } else {
        b.x - a.x
    };
    let dx: i64 = if raw <= BOARD_WIDTH - raw {
        raw
    } else {
        BOARD_WIDTH - raw
    };
    let dy: i64 = a.y - b.y;
    assert(0 <= dx * dx <= 640_000_000_000_000_000) by (nonlinear_arith)
        requires
            -800_000_000 <= dx <= 800_000_000,
    ;
    assert(0 <= dy * dy <= 640_000_000_000_000_000) by (nonlinear_arith)
        requires
            -800_000_000 <= dy <= 800_000_000,
    ;
    dx * dx + dy * dy < COLLIDE_RADIUS * COLLIDE_RADIUS
}

/// A legitimate position lies on the board or less than a tile beside it.
proof fn lemma_world_is_near_the_board(pos: GridPos, mover: Mover)
    requires
        pos.sound(mover),
    ensures
        -400_000_000 <= world_of(pos).x <= 400_000_000,
        -400_000_000 <= world_of(pos).y <= 400_000_000,
        pos.wf(),
{
}

impl Sim {
    /// The invariant of a match.
    pub open spec fn wf(&self) -> bool {
        self.pellets.wf() && self@.wf()
    }

    pub fn new(seed: u64) -> (sim: Sim)
        ensures
            sim.wf(),
            sim@ == opening(seed),
    {
        let start = Difficulty::at(0);
        let mut ghosts: Vec<MazeGhost> = Vec::new();
        for i in 0..start.ghost_count
            invariant
                ghosts@ == Seq::new(i as nat, |k: int| new_ghost(k)),
        {
            ghosts.push(MazeGhost::new(i));
        }
        let sim = Sim {
            elapsed: 0,
            tick_count: 0,
            runners: [Runner::new(0), Runner::new(1)],
            ghosts,
            pellets: PelletField::new_full(),
            phase: MatchPhase::Waiting,
            rng: Rng::seeded(seed),
            next_power_at: start.power_pellet_interval,
        };
        proof {
            lemma_landmarks();
            assert(sim@.runners =~= opening(seed).runners);
            sim.pellets.lemma_wf();
        }
        sim
    }

    pub fn start(&mut self)
        ensures
            final(self)@ == started(old(self)@),
            old(self).wf() ==> final(self).wf(),
    {
        if self.phase == MatchPhase::Waiting {
            self.phase = MatchPhase::Running;
        }
    }

    #[verifier::allow_in_spec]
    pub fn is_running(&self) -> bool
        returns
            self.phase is Running,
    {
        self.phase == MatchPhase::Running
    }

    pub fn difficulty(&self) -> (d: Difficulty)
        ensures
            d == difficulty_at(self.elapsed as int),
    {
        Difficulty::at(self.elapsed)
    }

    /// Queues a turn for a slot. Applied on the next tick.
    pub fn set_input(&mut self, slot: u8, dir: Dir)
        ensures
            final(self)@ == steered(old(self)@, slot, dir),
            old(self).wf() ==> final(self).wf(),
    {
        if slot < 2 {
            let mut p = self.runners[slot as usize];
            p.desired = Some(dir);
            self.runners[slot as usize] = p;
        }
    }

    /// Removes a player from the match: they never connected, or they left.
    /// Their remaining lives are forfeit.
    pub fn abandon(&mut self, slot: u8)
        ensures
            final(self)@ == abandoned(old(self)@, slot),
            old(self).wf() ==> final(self).wf(),
    {
        proof {
            reveal(judged);
        }
        if slot < 2 {
            let mut p = self.runners[slot as usize];
            if p.state != RunnerState::Out {
                p.lives = 0;
                p.state = RunnerState::Out;
                self.runners[slot as usize] = p;
            }
        }
        self.update_phase();
    }

    pub fn winner(&self) -> (slot: Option<u8>)
        ensures
            slot == winner_of(self@),
    {
        if self.runners[0].score > self.runners[1].score {
            Some(0)
        } else if self.runners[0].score < self.runners[1].score {
            Some(1)
        } else {
            None
        }
    }

    fn update_phase(&mut self)
        ensures
            final(self)@ == judged(old(self)@),
            old(self).wf() ==> final(self).wf(),
    {
        proof {
            reveal(judged);
        }
        if self.phase != MatchPhase::Running {
            return;
        }
        if self.runners[0].state == RunnerState::Out && self.runners[1].state == RunnerState::Out {
            self.phase = MatchPhase::Finished { winner: self.winner() };
        }
    }

    /// Moves the clock on and lets the difficulty curve bring its ghosts.
    fn strike_clock(&mut self) -> (diff: Difficulty)
        requires
            old(self).wf(),
            old(self).elapsed <= CLOCK_END,
            old(self).tick_count < u32::MAX,
        ensures
            final(self)@ == clock_struck(old(self)@),
            final(self).wf(),
            diff == difficulty_at(final(self).elapsed as int),
    {
        proof {
            reveal(clock_struck);
        }
        self.elapsed = self.elapsed + TICK_DT;
        self.tick_count = self.tick_count + 1;
        let diff = Difficulty::at(self.elapsed);
        proof {
            law_the_curve_is_bounded(self.elapsed as int);
        }
        let ghost before = *self;
        while self.ghosts.len() < diff.ghost_count
            invariant
                diff.ghost_count <= 7,
                self.wf(),
                *self == (Sim { ghosts: self.ghosts, ..before }),
                before.ghosts@.len() <= self.ghosts@.len(),
                self.ghosts@.len() > before.ghosts@.len() ==> self.ghosts@.len()
                    <= diff.ghost_count,
                self.ghosts@ == before.ghosts@ + Seq::new(
                    (self.ghosts@.len() - before.ghosts@.len()) as nat,
                    |i: int| new_ghost(before.ghosts@.len() + i),
                ),
            decreases diff.ghost_count - self.ghosts.len(),
        {
            proof {
                law_a_new_ghost_stands_in_the_house(self.ghosts@.len() as int);
            }
            let ghost sofar = self@.ghosts;
            self.ghosts.push(MazeGhost::new(self.ghosts.len()));
            assert(self@.ghosts == sofar.push(new_ghost(sofar.len() as int)));
        }
        assert(self.ghosts@ =~= topped_up(before.ghosts@, diff.ghost_count as nat));
        diff
    }

    /// Brings one runner back if its freeze is over, and moves it if it can move.
    fn move_runner(&mut self, slot: usize)
        requires
            slot < 2,
            old(self).wf(),
        ensures
            final(self)@ == old(self)@.with_runner(
                slot as int,
                moved(
                    respawned(old(self).runners@[slot as int], old(self).elapsed),
                    old(self).elapsed,
                ),
            ),
            final(self).wf(),
    {
        let now: i64 = self.elapsed;
        let mut p = self.runners[slot];
        proof {
            lemma_landmarks();
        }
        if p.state == RunnerState::Dying && now >= p.respawn_at {
            p.pos = Runner::home(p.slot);
            p.desired = None;
            p.state = RunnerState::Alive;
            p.ghost_combo = 0;
        }
        if p.is_active() && !p.is_stunned(now) {
            proof {
                law_travel_stays_in_the_maze(
                    p.pos,
                    p.desired,
                    Mover::Pacman,
                    PACMAN_SPEED * TICK_DT,
                );
            }
            let desired = p.desired;
            let crossed: u32 = p.pos.advance(desired, Mover::Pacman, PACMAN_SPEED, TICK_DT);
        }
        self.runners[slot] = p;
    }

    fn move_runners(&mut self)
        requires
            old(self).wf(),
        ensures
            final(self)@ == runners_moved(old(self)@),
            final(self).wf(),
    {
        proof {
            reveal(runners_moved);
        }
        self.move_runner(0);
        self.move_runner(1);
        assert(self@.runners =~= runners_moved(old(self)@).runners);
    }

    /// One runner picks up what lies where it is. Says whether it was a power
    /// pellet.
    fn eat_pellet(&mut self, slot: usize, events: &mut TickEvents, diff: &Difficulty) -> (power:
        bool)
        requires
            slot < 2,
            old(self).wf(),
            old(self).elapsed <= CLOCK_END + TICK_DT,
            *diff == difficulty_at(old(self).elapsed as int),
            old(self).runners@[slot as int].score + POWER_PELLET <= u32::MAX,
        ensures
            (Turn { sim: final(self)@, events: final(events)@ }) == ate(
                Turn { sim: old(self)@, events: old(events)@ },
                slot as int,
            ),
            power == (meal_of(old(self)@, slot as int) == Some(PelletKind::Power)),
            final(self).wf(),
    {
        let now: i64 = self.elapsed;
        let mut p = self.runners[slot];
        if !p.is_active() {
            return false;
        }
        proof {
            lemma_world_is_near_the_board(p.pos, Mover::Pacman);
            law_the_curve_is_bounded(now as int);
        }
        let tile = p.pos.occupied_tile();
        let kind = match self.pellets.take(tile) {
            Some(kind) => kind,
            None => {
                assert(self@.pellets =~= old(self)@.pellets) by {
                    lemma_taking_nothing(old(self)@.pellets, tile);
                }
                return false;
            },
        };
        match kind {
            PelletKind::Normal => {
                p.score = p.score + PELLET;
            },
            PelletKind::Power => {
                p.score = p.score + POWER_PELLET;
                p.energized_until = now + diff.energized_duration;
                p.ghost_combo = 0;
            },
        }
        self.runners[slot] = p;
        events.pellets_eaten.push((tile, kind, p.slot));
        kind == PelletKind::Power
    }

    fn eat_pellets(&mut self, events: &mut TickEvents, diff: &Difficulty)
        requires
            old(self).wf(),
            old(self).elapsed <= CLOCK_END + TICK_DT,
            *diff == difficulty_at(old(self).elapsed as int),
            old(self)@.total() + 2 * POWER_PELLET <= u32::MAX,
        ensures
            (Turn { sim: final(self)@, events: final(events)@ }) == pellets_eaten(
                Turn { sim: old(self)@, events: old(events)@ },
            ),
            final(self).wf(),
    {
        proof {
            reveal(pellets_eaten);
        }
        let first = self.eat_pellet(0, events, diff);
        let second = self.eat_pellet(1, events, diff);
        if first || second {
            let ghost before = *self;
            let n: usize = self.ghosts.len();
            for i in 0..n
                invariant
                    self.wf(),
                    *self == (Sim { ghosts: self.ghosts, ..before }),
                    self.ghosts@.len() == n,
                    before.ghosts@.len() == n,
                    before.wf(),
                    forall|k: int|
                        0 <= k < i ==> #[trigger] self.ghosts@[k] == frightened(before.ghosts@[k]),
                    forall|k: int|
                        i <= k < self.ghosts@.len() ==> #[trigger] self.ghosts@[k]
                            == before.ghosts@[k],
            {
                let mut g = self.ghosts[i];
                proof {
                    assert(self@.ghosts[i as int].sound());
                    lemma_world_is_near_the_board(g.pos, Mover::MazeGhost);
                    law_ghosts_stay_in_the_maze(g, 0);
                }
                g.frighten();
                self.ghosts[i] = g;
            }
            assert(self.ghosts@ =~= before.ghosts@.map_values(|g: MazeGhost| frightened(g)));
        }
    }
}

/// A hunting ghost's aim stays representable while everyone is on the board.
proof fn lemma_ghosts_can_aim(s: SimView, g: MazeGhost)
    requires
        s.wf(),
        g.sound(),
    ensures
        g.can_aim(targets_of(s), red_tile_of(s)),
{
    assert(red_tile_of(s).x <= 28 && red_tile_of(s).y <= 31) by {
        if s.ghosts.len() > 0 {
            assert(s.ghosts[0].sound());
        }
    }
    assert(red_tile_of(s).x >= 0 && red_tile_of(s).y >= 0) by {
        if s.ghosts.len() > 0 {
            assert(s.ghosts[0].sound());
        }
    }
}

impl Sim {
    /// One ghost's move: its fright may be over, its clock runs, and it walks
    /// towards its target at the speed of its mode.
    fn move_ghost(
        &self,
        ghost_before: MazeGhost,
        anyone: bool,
        targets: &[PacTarget],
        red_tile: IVec2,
        diff: &Difficulty,
    ) -> (g: MazeGhost)
        requires
            self@.wf(),
            ghost_before.sound(),
            ghost_before.mode_timer >= i64::MIN + TICK_DT,
            anyone == anyone_energized(self@),
            targets@ == targets_of(self@),
            red_tile == red_tile_of(self@),
            *diff == difficulty_at(self.elapsed as int),
        ensures
            g == ghost_moved(self@, ghost_before),
            g.sound(),
    {
        let mut g = ghost_before;
        if !anyone {
            g.unfrighten();
        }
        proof {
            lemma_world_is_near_the_board(g.pos, Mover::MazeGhost);
            law_ghosts_stay_in_the_maze(g, TICK_DT as int);
        }
        g.tick_mode(TICK_DT);
        proof {
            lemma_ghosts_can_aim(self@, g);
            lemma_world_is_near_the_board(g.pos, Mover::MazeGhost);
            crate::difficulty::law_ghost_speed_is_exact(self.elapsed as int);
        }
        let target = g.target(targets, red_tile);
        let tenths: i64 = g.speed_multiplier();
        let base: i64 = diff.ghost_speed();
        assert(0 <= base * tenths <= 25 * base) by (nonlinear_arith)
            requires
                base >= 0,
                0 <= tenths <= 25,
        ;
        let speed: i64 = base * tenths / 10;
        proof {
            law_a_step_never_ends_in_a_wall(g, target, speed * TICK_DT, MAX_LEGS as nat);
        }
        g.step(target, speed, TICK_DT);
        g
    }

    fn move_ghosts(&mut self, diff: &Difficulty)
        requires
            old(self).wf(),
            forall|k: int|
                0 <= k < old(self)@.ghosts.len() ==> (#[trigger] old(self)@.ghosts[k]).mode_timer
                    >= i64::MIN + TICK_DT,
            *diff == difficulty_at(old(self).elapsed as int),
        ensures
            final(self)@ == ghosts_moved(old(self)@),
            final(self).wf(),
    {
        proof {
            reveal(ghosts_moved);
        }
        let now: i64 = self.elapsed;
        let anyone = self.runners[0].is_energized(now) || self.runners[1].is_energized(now);
        let a = self.runners[0];
        let b = self.runners[1];
        let targets = [
            PacTarget { tile: a.pos.tile, dir: a.pos.dir, alive: a.is_active() },
            PacTarget { tile: b.pos.tile, dir: b.pos.dir, alive: b.is_active() },
        ];
        assert(targets@ =~= targets_of(self@));
        let red_tile = if self.ghosts.len() > 0 {
            self.ghosts[0].pos.tile
        } else {
            IVec2::new(0, 0)
        };
        let n: usize = self.ghosts.len();
        let ghost before = self@;
        let mut moved: Vec<MazeGhost> = Vec::new();
        for i in 0..n
            invariant
                self@ == before,
                self.wf(),
                n == before.ghosts.len(),
                forall|k: int|
                    0 <= k < before.ghosts.len() ==> (#[trigger] before.ghosts[k]).mode_timer
                        >= i64::MIN + TICK_DT,
                anyone == anyone_energized(before),
                targets@ == targets_of(before),
                red_tile == red_tile_of(before),
                *diff == difficulty_at(self.elapsed as int),
                moved@.len() == i,
                forall|k: int|
                    0 <= k < i ==> #[trigger] moved@[k] == ghost_moved(before, before.ghosts[k])
                        && moved@[k].sound(),
        {
            assert(before.ghosts[i as int].sound());
            let g = self.move_ghost(self.ghosts[i], anyone, &targets, red_tile, diff);
            moved.push(g);
        }
        self.ghosts = moved;
        assert(self@.ghosts =~= ghosts_moved(before).ghosts);
    }

    /// One runner against the ghosts. Says whether it was caught.
    fn meet_ghosts(&mut self, slot: usize, events: &mut TickEvents) -> (caught: bool)
        requires
            slot < 2,
            old(self).wf(),
            old(self).runners@[slot as int].score + 1600 * old(self).ghosts@.len() <= u32::MAX,
            old(self).runners@[slot as int].ghost_combo + old(self).ghosts@.len() <= usize::MAX,
        ensures
            (Turn { sim: final(self)@, events: final(events)@ }, caught) == met(
                Turn { sim: old(self)@, events: old(events)@ },
                slot as int,
            ),
            final(self).wf(),
    {
        let now: i64 = self.elapsed;
        if !self.runners[slot].is_active() {
            return false;
        }
        proof {
            lemma_world_is_near_the_board(self.runners@[slot as int].pos, Mover::Pacman);
        }
        let runner_pos = self.runners[slot].pos.world();
        let energized = self.runners[slot].is_energized(now);
        let ghost whole = met(Turn { sim: self@, events: events@ }, slot as int);
        let n: usize = self.ghosts.len();
        for i in 0..n
            invariant
                slot < 2,
                n == self.ghosts@.len(),
                self.wf(),
                now == self.elapsed,
                runner_pos == world_of(self.runners@[slot as int].pos),
                -400_000_000 <= runner_pos.x <= 400_000_000,
                -400_000_000 <= runner_pos.y <= 400_000_000,
                energized == self.runners@[slot as int].is_energized(now),
                self.runners@[slot as int].score + 1600 * (n - i) <= u32::MAX,
                self.runners@[slot as int].ghost_combo + (n - i) <= usize::MAX,
                whole == met(Turn { sim: old(self)@, events: old(events)@ }, slot as int),
                whole == contacts(Turn { sim: self@, events: events@ }, slot as int, i as nat),
        {
            let mut g = self.ghosts[i];
            proof {
                assert(self@.ghosts[i as int].sound());
                lemma_world_is_near_the_board(g.pos, Mover::MazeGhost);
            }
            if touching(runner_pos, g.pos.world()) {
                if energized && g.is_edible() {
                    let ghost before = Turn { sim: self@, events: events@ };
                    let mut p = self.runners[slot];
                    let points: u32 = ghost_points(p.ghost_combo);
                    p.ghost_combo = p.ghost_combo + 1;
                    p.score = p.score + points;
                    self.runners[slot] = p;
                    g.eat();
                    self.ghosts[i] = g;
                    events.ghosts_eaten.push((i, slot as u8, points));
                    assert((Turn { sim: self@, events: events@ }) =~= ghost_eaten(
                        before,
                        slot as int,
                        i as int,
                    ));
                } else if g.is_dangerous() {
                    return true;
                }
            }
        }
        false
    }

    fn resolve_ghost_contacts(&mut self, events: &mut TickEvents)
        requires
            old(self).wf(),
            old(self).elapsed <= CLOCK_END + TICK_DT,
            old(self)@.total() + 3200 * old(self).ghosts@.len() <= u32::MAX,
            old(self).runners@[0].ghost_combo + old(self).ghosts@.len() <= usize::MAX,
            old(self).runners@[1].ghost_combo + old(self).ghosts@.len() <= usize::MAX,
        ensures
            (Turn { sim: final(self)@, events: final(events)@ }) == ghosts_met(
                Turn { sim: old(self)@, events: old(events)@ },
            ),
            final(self).wf(),
    {
        proof {
            reveal(ghosts_met);
        }
        proof {
            lemma_met(Turn { sim: self@, events: events@ }, 0);
        }
        let caught0 = self.meet_ghosts(0, events);
        proof {
            lemma_met(Turn { sim: self@, events: events@ }, 1);
        }
        let caught1 = self.meet_ghosts(1, events);
        if caught0 {
            self.kill(0, events);
        }
        if caught1 {
            self.kill(1, events);
        }
    }

    fn kill(&mut self, slot: usize, events: &mut TickEvents)
        requires
            slot < 2,
            old(self).wf(),
            old(self).elapsed <= CLOCK_END + TICK_DT,
        ensures
            (Turn { sim: final(self)@, events: final(events)@ }) == killed(
                Turn { sim: old(self)@, events: old(events)@ },
                slot as int,
            ),
            final(self).wf(),
            final(self).elapsed == old(self).elapsed,
    {
        let now: i64 = self.elapsed;
        let mut p = self.runners[slot];
        if !p.is_active() {
            return;
        }
        if p.lives > 0 {
            p.lives = p.lives - 1;
        }
        p.energized_until = 0;
        p.ghost_combo = 0;
        events.deaths.push(slot as u8);

        if p.lives == 0 {
            p.state = RunnerState::Out;
            events.eliminated.push(slot as u8);
        } else {
            p.state = RunnerState::Dying;
            p.respawn_at = now + DEATH_FREEZE_TIME;
        }
        self.runners[slot] = p;

        // Give the board some air after a death. Ghosts that are already eyes
        // keep going home; the rest back off to their corners.
        let n: usize = self.ghosts.len();
        let ghost before = *self;
        for i in 0..n
            invariant
                n == self.ghosts@.len(),
                n == before.ghosts@.len(),
                self.wf(),
                *self == (Sim { ghosts: self.ghosts, ..before }),
                forall|k: int|
                    0 <= k < i ==> #[trigger] self.ghosts@[k] == backed_off(before.ghosts@[k]),
                forall|k: int|
                    i <= k < n ==> #[trigger] self.ghosts@[k] == before.ghosts@[k],
        {
            assert(self@.ghosts[i as int].sound());
            let mut g = self.ghosts[i];
            if g.mode != GhostMode::Eaten {
                g.mode = GhostMode::Scatter;
                g.mode_timer = SCATTER_AFTER_DEATH_TIME;
                self.ghosts[i] = g;
            }
        }
        assert(self@.ghosts =~= before@.ghosts.map_values(|g: MazeGhost| backed_off(g)));
    }

    fn resolve_pvp(&mut self, events: &mut TickEvents)
        requires
            old(self).wf(),
            old(self).elapsed <= CLOCK_END + TICK_DT,
            old(self)@.total() <= u32::MAX,
        ensures
            (Turn { sim: final(self)@, events: final(events)@ }) == robbed(
                Turn { sim: old(self)@, events: old(events)@ },
            ),
            final(self).wf(),
    {
        proof {
            reveal(robbed);
        }
        let now: i64 = self.elapsed;
        let a = self.runners[0];
        let b = self.runners[1];
        if !a.is_active() || !b.is_active() {
            return;
        }
        proof {
            lemma_world_is_near_the_board(a.pos, Mover::Pacman);
            lemma_world_is_near_the_board(b.pos, Mover::Pacman);
        }
        if !touching(a.pos.world(), b.pos.world()) {
            return;
        }
        let a_hunting = a.is_energized(now);
        let b_hunting = b.is_energized(now);

        // Two energized runners bounce off each other. Neither is prey.
        let thief: usize = if a_hunting && !b_hunting {
            0
        } else if b_hunting && !a_hunting {
            1
        } else {
            return;
        };
        let victim: usize = 1 - thief;
        let mut v = self.runners[victim];
        let mut t = self.runners[thief];
        if v.is_immune(now) {
            return;
        }
        let nominal: u32 = steal_amount(v.score);
        let taken: u32 = if nominal <= v.score {
            nominal
        } else {
            v.score
        };
        v.score = v.score - taken;
        v.stunned_until = now + STUN_TIME;
        v.immune_until = now + STEAL_IMMUNITY_TIME;
        t.score = t.score + taken;
        self.runners[victim] = v;
        self.runners[thief] = t;
        events.steals.push((thief as u8, victim as u8, taken));
    }

    fn replenish(&mut self, events: &mut TickEvents, diff: &Difficulty)
        requires
            old(self).wf(),
            old(self).elapsed <= CLOCK_END + TICK_DT,
            old(self)@.pellets.carry <= i64::MAX - 3 * TICK_DT,
            *diff == difficulty_at(old(self).elapsed as int),
        ensures
            (Turn { sim: final(self)@, events: final(events)@ }) == replenished(
                Turn { sim: old(self)@, events: old(events)@ },
            ),
            final(self).wf(),
    {
        proof {
            reveal(replenished);
            self.pellets.lemma_wf();
        }
        let mut live: Vec<IVec2> = Vec::new();
        if self.runners[0].is_active() {
            live.push(self.runners[0].pos.tile);
        }
        if self.runners[1].is_active() {
            live.push(self.runners[1].pos.tile);
        }
        assert(live@ =~= live_tiles(self@));
        assert(all_measurable(live@));
        let mut spawned = self.pellets.drip(&mut self.rng, live.as_slice(), TICK_DT);
        events.pellets_spawned.append(&mut spawned);
        proof {
            self.pellets.lemma_wf();
        }
        if self.elapsed >= self.next_power_at {
            self.next_power_at = self.elapsed + diff.power_pellet_interval;
            if let Some(tile) = self.pellets.spawn_power(&mut self.rng, live.as_slice()) {
                events.pellets_spawned.push((tile, PelletKind::Power));
            }
            proof {
                self.pellets.lemma_wf();
            }
        }
    }

    /// Whether one more tick fits the counters.
    pub fn can_tick(&self) -> (fits: bool)
        requires
            self.wf(),
        ensures
            fits == self@.has_room(),
    {
        if self.tick_count == u32::MAX || self.elapsed > CLOCK_END {
            return false;
        }
        let due: usize = Difficulty::at(self.elapsed + TICK_DT).ghost_count;
        let n: usize = if self.ghosts.len() >= due {
            self.ghosts.len()
        } else {
            due
        };
        let total: u64 = self.runners[0].score as u64 + self.runners[1].score as u64;
        if n > 1_342_200 || total + 2 * (POWER_PELLET as u64 + 1600 * n as u64) > u32::MAX as u64 {
            return false;
        }
        if self.runners[0].ghost_combo > usize::MAX - n || self.runners[1].ghost_combo > usize::MAX
            - n {
            return false;
        }
        for i in 0..self.ghosts.len()
            invariant
                forall|k: int|
                    0 <= k < i ==> (#[trigger] self@.ghosts[k]).mode_timer >= i64::MIN + TICK_DT,
        {
            if self.ghosts[i].mode_timer < i64::MIN + TICK_DT {
                assert(self@.ghosts[i as int].mode_timer < i64::MIN + TICK_DT);
                return false;
            }
        }
        self.pellets.can_drip(TICK_DT)
    }

    /// One fixed 30Hz step.
    pub fn tick(&mut self) -> (events: TickEvents)
        requires
            old(self).wf(),
            old(self).phase is Running ==> old(self)@.has_room(),
        ensures
            (Turn { sim: final(self)@, events: events@ }) == ticked(old(self)@),
            final(self).wf(),
    {
        let mut events = TickEvents::none();
        if self.phase != MatchPhase::Running {
            return events;
        }
        proof {
            lemma_room_through_the_tick(self@);
        }
        // 1. clock and difficulty
        let diff = self.strike_clock();

        // 2. respawns, then runner movement
        self.move_runners();

        // 3. pellet pickups
        self.eat_pellets(&mut events, &diff);

        // 4. ghosts
        self.move_ghosts(&diff);

        // 5. runners against ghosts
        self.resolve_ghost_contacts(&mut events);

        // 6. runner against runner
        self.resolve_pvp(&mut events);

        // 7. board upkeep
        self.replenish(&mut events, &diff);

        // 8. is it over
        self.update_phase();
        events
    }
}

/// What is left of the counters at a stage of the tick.
pub open spec fn fits(s: SimView, now: int, points: int, carry: int) -> bool {
    &&& s.elapsed == now
    &&& s.runners.len() == 2
    &&& s.total() + points <= u32::MAX
    &&& s.runners[0].ghost_combo + s.ghosts.len() <= usize::MAX
    &&& s.runners[1].ghost_combo + s.ghosts.len() <= usize::MAX
    &&& s.pellets.carry == carry
}

/// What eating leaves alone, and how much it pays.
pub proof fn lemma_ate(t: Turn, slot: int)
    requires
        t.sim.wf(),
        0 <= slot < 2,
        t.sim.total() + POWER_PELLET <= u32::MAX,
    ensures
        ({
            let (s, e) = (t.sim, ate(t, slot).sim);
            &&& e.total() <= s.total() + POWER_PELLET
            &&& e.total() >= s.total()
            &&& e.ghosts == s.ghosts
            &&& e.elapsed == s.elapsed
            &&& e.pellets.carry == s.pellets.carry
            &&& e.runners.len() == 2
            &&& e.runners[0].ghost_combo <= s.runners[0].ghost_combo
            &&& e.runners[1].ghost_combo <= s.runners[1].ghost_combo
        }),
{
}

/// What meeting the ghosts leaves alone, and how much it can pay.
pub proof fn lemma_contacts(t: Turn, slot: int, from: nat)
    requires
        t.sim.wf(),
        0 <= slot < 2,
        from <= t.sim.ghosts.len(),
        t.sim.runners[slot].score + 1600 * (t.sim.ghosts.len() - from) <= u32::MAX,
        t.sim.runners[slot].ghost_combo + (t.sim.ghosts.len() - from) <= usize::MAX,
    ensures
        ({
            let (s, e) = (t.sim, contacts(t, slot, from).0.sim);
            &&& e.runners.len() == 2
            &&& e.runners[1 - slot] == s.runners[1 - slot]
            &&& s.runners[slot].score <= e.runners[slot].score <= s.runners[slot].score + 1600 * (
            s.ghosts.len() - from)
            &&& e.runners[slot].state == s.runners[slot].state
            &&& e.ghosts.len() == s.ghosts.len()
            &&& e.elapsed == s.elapsed
            &&& e.pellets == s.pellets
        }),
    decreases t.sim.ghosts.len() - from,
{
    if from < t.sim.ghosts.len() {
        let r = t.sim.runners[slot];
        let g = t.sim.ghosts[from as int];
        if in_touch(world_of(r.pos), world_of(g.pos)) && r.is_energized(t.sim.elapsed)
            && g.is_edible() {
            let e = ghost_eaten(t, slot, from as int);
            assert(e.sim.wf()) by {
                assert(g.sound());
                assert forall|i: int| 0 <= i < e.sim.ghosts.len() implies (
                #[trigger] e.sim.ghosts[i]).sound() by {
                    assert(t.sim.ghosts[i].sound());
                }
            }
            lemma_contacts(e, slot, from + 1);
        } else {
            lemma_contacts(t, slot, from + 1);
        }
    }
}

pub proof fn lemma_met(t: Turn, slot: int)
    requires
        t.sim.wf(),
        0 <= slot < 2,
        t.sim.runners[slot].score + 1600 * t.sim.ghosts.len() <= u32::MAX,
        t.sim.runners[slot].ghost_combo + t.sim.ghosts.len() <= usize::MAX,
    ensures
        ({
            let (s, e) = (t.sim, met(t, slot).0.sim);
            &&& e.runners.len() == 2
            &&& e.runners[1 - slot] == s.runners[1 - slot]
            &&& s.runners[slot].score <= e.runners[slot].score <= s.runners[slot].score + 1600
                * s.ghosts.len()
            &&& e.runners[slot].state == s.runners[slot].state
            &&& e.ghosts.len() == s.ghosts.len()
            &&& e.elapsed == s.elapsed
            &&& e.pellets == s.pellets
        }),
{
    if t.sim.runners[slot].is_active() {
        lemma_contacts(t, slot, 0);
    }
}

pub proof fn lemma_room_after_moving(s: SimView)
    requires
        s.wf(),
        s.has_room(),
    ensures
        ({
            let e = runners_moved(clock_struck(s));
            &&& e.wf()
            &&& fits(
                e,
                s.elapsed + TICK_DT,
                2 * POWER_PELLET + 3200 * e.ghosts.len(),
                s.pellets.carry,
            )
            &&& forall|i: int|
                0 <= i < e.ghosts.len() ==> (#[trigger] e.ghosts[i]).mode_timer >= i64::MIN
                    + TICK_DT
        }),
{
    reveal(clock_struck);
    reveal(runners_moved);
    let c = clock_struck(s);
    let e = runners_moved(c);
    lemma_landmarks();
    law_the_curve_is_bounded(c.elapsed as int);
    assert forall|i: int| 0 <= i < e.ghosts.len() implies (#[trigger] e.ghosts[i]).sound()
        && e.ghosts[i].mode_timer >= i64::MIN + TICK_DT by {
        if i < s.ghosts.len() {
            assert(e.ghosts[i] == s.ghosts[i]);
            assert(s.ghosts[i].sound());
        } else {
            assert(e.ghosts[i] == new_ghost(i));
            law_a_new_ghost_stands_in_the_house(i);
        }
    }
    assert forall|i: int| 0 <= i < 2 implies (#[trigger] e.runners[i]).pos.sound(Mover::Pacman) by {
        let r = respawned(s.runners[i], c.elapsed);
        assert(e.runners[i] == moved(r, c.elapsed));
        law_travel_stays_in_the_maze(r.pos, r.desired, Mover::Pacman, PACMAN_SPEED * TICK_DT);
    }
}

pub proof fn lemma_room_after_eating(t: Turn)
    requires
        t.sim.wf(),
        t.sim.total() + 2 * POWER_PELLET <= u32::MAX,
        t.sim.runners[0].ghost_combo + t.sim.ghosts.len() <= usize::MAX,
        t.sim.runners[1].ghost_combo + t.sim.ghosts.len() <= usize::MAX,
        forall|i: int|
            0 <= i < t.sim.ghosts.len() ==> (#[trigger] t.sim.ghosts[i]).mode_timer >= i64::MIN
                + TICK_DT,
    ensures
        ({
            let (s, e) = (t.sim, pellets_eaten(t).sim);
            &&& e.wf()
            &&& e.ghosts.len() == s.ghosts.len()
            &&& e.total() <= s.total() + 2 * POWER_PELLET
            &&& fits(e, s.elapsed as int, 0, s.pellets.carry)
            &&& forall|i: int|
                0 <= i < e.ghosts.len() ==> (#[trigger] e.ghosts[i]).mode_timer >= i64::MIN
                    + TICK_DT
        }),
{
    reveal(pellets_eaten);
    lemma_ate(t, 0);
    lemma_ate(ate(t, 0), 1);
    let e = pellets_eaten(t).sim;
    assert forall|i: int| 0 <= i < e.ghosts.len() implies (#[trigger] e.ghosts[i]).sound()
        && e.ghosts[i].mode_timer >= i64::MIN + TICK_DT by {
        assert(t.sim.ghosts[i].sound());
        law_ghosts_stay_in_the_maze(t.sim.ghosts[i], 0);
    }
}

pub proof fn lemma_room_after_meeting(t: Turn)
    requires
        t.sim.wf(),
        t.sim.total() + 3200 * t.sim.ghosts.len() <= u32::MAX,
        t.sim.runners[0].ghost_combo + t.sim.ghosts.len() <= usize::MAX,
        t.sim.runners[1].ghost_combo + t.sim.ghosts.len() <= usize::MAX,
    ensures
        ({
            let (s, e) = (t.sim, ghosts_met(t).sim);
            &&& e.elapsed == s.elapsed
            &&& e.pellets == s.pellets
            &&& e.total() <= u32::MAX
            &&& e.runners.len() == 2
        }),
{
    reveal(ghosts_met);
    lemma_met(t, 0);
    lemma_met_wf(t, 0);
    lemma_met(met(t, 0).0, 1);
}

/// The counters last through the whole tick.
pub proof fn lemma_room_through_the_tick(s: SimView)
    requires
        s.wf(),
        s.has_room(),
    ensures
        ({
            let out = Turn { sim: runners_moved(clock_struck(s)), events: no_events() };
            let eaten = pellets_eaten(out);
            let hunted = Turn { sim: ghosts_moved(eaten.sim), ..eaten };
            let after = ghosts_met(hunted);
            &&& clock_struck(s).elapsed == s.elapsed + TICK_DT
            &&& fits(
                out.sim,
                s.elapsed + TICK_DT,
                2 * POWER_PELLET + 3200 * out.sim.ghosts.len(),
                s.pellets.carry,
            )
            &&& fits(eaten.sim, s.elapsed + TICK_DT, 0, s.pellets.carry)
            &&& forall|i: int|
                0 <= i < eaten.sim.ghosts.len() ==> (#[trigger] eaten.sim.ghosts[i]).mode_timer
                    >= i64::MIN + TICK_DT
            &&& fits(
                hunted.sim,
                s.elapsed + TICK_DT,
                3200 * hunted.sim.ghosts.len() as int,
                s.pellets.carry,
            )
            &&& after.sim.total() <= u32::MAX
            &&& after.sim.elapsed == s.elapsed + TICK_DT
            &&& robbed(after).sim.elapsed == s.elapsed + TICK_DT
            &&& robbed(after).sim.pellets.carry == s.pellets.carry
        }),
{
    let out = Turn { sim: runners_moved(clock_struck(s)), events: no_events() };
    let eaten = pellets_eaten(out);
    let hunted = Turn { sim: ghosts_moved(eaten.sim), ..eaten };
    lemma_room_after_moving(s);
    lemma_room_after_eating(out);
    assert(hunted.sim.wf() && fits(
        hunted.sim,
        s.elapsed + TICK_DT,
        3200 * hunted.sim.ghosts.len() as int,
        s.pellets.carry,
    )) by {
        reveal(ghosts_moved);
        assert forall|i: int| 0 <= i < hunted.sim.ghosts.len() implies (
        #[trigger] hunted.sim.ghosts[i]).sound() by {
            assert(eaten.sim.ghosts[i].sound());
            lemma_ghost_moved_is_sound(eaten.sim, eaten.sim.ghosts[i]);
        }
    }
    lemma_room_after_meeting(hunted);
    assert(clock_struck(s).elapsed == s.elapsed + TICK_DT) by {
        reveal(clock_struck);
    }
    assert(robbed(ghosts_met(hunted)).sim.elapsed == s.elapsed + TICK_DT) by {
        reveal(robbed);
    }
    assert(robbed(ghosts_met(hunted)).sim.pellets.carry == s.pellets.carry) by {
        reveal(robbed);
    }
}

pub proof fn lemma_ghost_moved_is_sound(s: SimView, g: MazeGhost)
    requires
        g.sound(),
    ensures
        ghost_moved(s, g).sound(),
{
    let calm = if anyone_energized(s) {
        g
    } else {
        unfrightened(g)
    };
    let ready = clocked(calm, TICK_DT as int);
    law_ghosts_stay_in_the_maze(g, 0);
    law_ghosts_stay_in_the_maze(calm, TICK_DT as int);
    let speed = difficulty_at(s.elapsed as int).spec_ghost_speed() * multiplier_of(ready.mode) / 10;
    law_a_step_never_ends_in_a_wall(
        ready,
        target_of(ready, targets_of(s), red_tile_of(s)),
        speed * TICK_DT,
        MAX_LEGS as nat,
    );
}

pub proof fn lemma_contacts_wf(t: Turn, slot: int, from: nat)
    requires
        t.sim.wf(),
        0 <= slot < 2,
    ensures
        contacts(t, slot, from).0.sim.wf(),
    decreases t.sim.ghosts.len() - from,
{
    if from < t.sim.ghosts.len() {
        let e = ghost_eaten(t, slot, from as int);
        assert(e.sim.wf()) by {
            assert forall|i: int| 0 <= i < e.sim.ghosts.len() implies (
            #[trigger] e.sim.ghosts[i]).sound() by {
                assert(t.sim.ghosts[i].sound());
            }
        }
        lemma_contacts_wf(e, slot, from + 1);
        lemma_contacts_wf(t, slot, from + 1);
    }
}

pub proof fn lemma_met_wf(t: Turn, slot: int)
    requires
        t.sim.wf(),
        0 <= slot < 2,
    ensures
        met(t, slot).0.sim.wf(),
{
    lemma_contacts_wf(t, slot, 0);
}

proof fn lemma_taking_nothing(f: FieldView, tile: IVec2)
    requires
        f.wf(),
        f.at(tile) is None,
    ensures
        f.with(tile, None) == f,
{
    if on_board(tile.x as int, tile.y as int) {
        crate::maze::lemma_cell_index(tile);
        assert(f.with(tile, None) =~= f);
    }
}

} // verus!
