//! Ghost behaviour.
//!
//! Each ghost picks a target tile every time it lands on a tile boundary, then
//! walks the neighbour that gets it closest. Different targets are the whole
//! personality system: the movement code underneath is identical for all of
//! them.
//!
//! With two Pac-Man on the board a ghost hunts whichever live one is nearest.
//! When only one is left, every ghost converges on the survivor, which is what
//! stops an empty maze from being a reward for outlasting your rival.

use vstd::prelude::*;
use crate::difficulty::{GHOST_EATEN_MULT, GHOST_FRIGHTENED_MULT};
use crate::grid::{chebyshev, IVec2, TILE_UNITS};
use crate::maze::{ghost_door, ghost_house, scatter_corner, MAZE};
use crate::movement::{Dir, GridPos};
use crate::score::SCATTER_AFTER_DEATH_TIME;
#[allow(unused_imports)]
use crate::grid::tile_distance;
#[allow(unused_imports)]
use crate::maze::{lemma_landmarks, on_board, scatter_corner_of};
#[allow(unused_imports)]
use crate::movement::{law_reverse_stays_in_the_maze, neighbour, reversed, Mover};

verus! {

/// How long a ghost patrols its corner before hunting again: seven seconds.
pub const SCATTER_TIME: i64 = 84_000;

/// How long it hunts before patrolling again: twenty seconds.
pub const CHASE_TIME: i64 = 240_000;

/// How many tiles a ghost can cross in one step. Bounded so a pathological
/// layout can never hang the tick.
pub const MAX_LEGS: u32 = 64;

#[derive(Debug, Clone, Copy, PartialEq, Eq, Structural)]
pub enum GhostMode {
    Scatter,
    Chase,
    Frightened,
    /// Eyes returning to the house after being eaten.
    Eaten,
}

#[derive(Debug, Clone, Copy, PartialEq, Eq, Structural)]
pub enum Personality {
    /// Goes straight for the tile you are on.
    Red,
    /// Aims four tiles ahead of you, to cut you off.
    Pink,
    /// Aims at the reflection of Red about a point ahead of you, which makes it
    /// pincer when Red is close and wander when Red is far.
    Cyan,
    /// Hunts from a distance, but loses its nerve and goes home when close.
    Orange,
}

impl Personality {
    /// Ghost slot to personality. Slots 4 to 6 arrive with the difficulty curve
    /// and reuse the aggressive three.
    pub open spec fn of_slot(slot: int) -> Personality {
        let k = slot % 4;
        if k == 0 {
            Personality::Red
        } else if k == 1 {
            Personality::Pink
        } else if k == 2 {
            Personality::Cyan
        } else {
            Personality::Orange
        }
    }

    pub fn for_slot(slot: usize) -> (p: Personality)
        ensures
            p == Personality::of_slot(slot as int),
    {
        match slot % 4 {
            0 => Personality::Red,
            1 => Personality::Pink,
            2 => Personality::Cyan,
            _ => Personality::Orange,
        }
    }
}

/// What a ghost knows about a Pac-Man when choosing a target.
#[derive(Debug, Clone, Copy, PartialEq, Eq, Structural)]
pub struct PacTarget {
    pub tile: IVec2,
    pub dir: Dir,
    pub alive: bool,
}

#[derive(Debug, Clone, Copy, PartialEq, Eq, Structural)]
pub struct MazeGhost {
    pub pos: GridPos,
    pub mode: GhostMode,
    pub personality: Personality,
    pub scatter_corner: IVec2,
    /// Time left in the current scatter or chase phase, in time units.
    pub mode_timer: i64,
    /// Set while the ghost is still waiting inside the house.
    pub penned: bool,
}

/// The live Pac-Man nearest to a tile; of several equally near ones, the first.
pub open spec fn nearest(from: IVec2, pacmen: Seq<PacTarget>) -> Option<PacTarget>
    decreases pacmen.len(),
{
    if pacmen.len() == 0 {
        None
    } else {
        let before = nearest(from, pacmen.drop_last());
        let last = pacmen.last();
        if !last.alive {
            before
        } else {
            match before {
                Some(best) => if tile_distance(from, last.tile) < tile_distance(from, best.tile) {
                    Some(last)
                } else {
                    before
                },
                None => Some(last),
            }
        }
    }
}

/// Whether two coordinates fit a tile.
pub open spec fn representable(x: int, y: int) -> bool {
    i32::MIN <= x <= i32::MAX && i32::MIN <= y <= i32::MAX
}

/// The coordinates a personality aims at when hunting `prey`.
pub open spec fn aim(who: MazeGhost, prey: PacTarget, red_tile: IVec2) -> (int, int) {
    let d = prey.dir.spec_delta();
    match who.personality {
        Personality::Red => (prey.tile.x as int, prey.tile.y as int),
        Personality::Pink => (prey.tile.x + 4 * d.x, prey.tile.y + 4 * d.y),
        Personality::Cyan => (
            2 * (prey.tile.x + 2 * d.x) - red_tile.x,
            2 * (prey.tile.y + 2 * d.y) - red_tile.y,
        ),
        Personality::Orange => if tile_distance(who.pos.tile, prey.tile) > 8 {
            (prey.tile.x as int, prey.tile.y as int)
        } else {
            (who.scatter_corner.x as int, who.scatter_corner.y as int)
        },
    }
}

/// Where a ghost wants to be: eyes go home, a penned ghost to the door, a
/// scattering one to its corner, and any other one after its prey, if there is
/// any.
pub open spec fn target_of(who: MazeGhost, pacmen: Seq<PacTarget>, red_tile: IVec2) -> IVec2 {
    if who.mode is Eaten {
        ghost_house()
    } else if who.penned {
        ghost_door()
    } else if who.mode is Scatter {
        who.scatter_corner
    } else {
        match nearest(who.pos.tile, pacmen) {
            Some(prey) => {
                let (x, y) = aim(who, prey, red_tile);
                IVec2 { x: x as i32, y: y as i32 }
            },
            None => who.scatter_corner,
        }
    }
}

pub open spec fn square(d: int) -> int {
    d * d
}

/// Straight line distance between two tiles, squared.
pub open spec fn distance_squared(a: IVec2, b: IVec2) -> int {
    square(a.x - b.x) + square(a.y - b.y)
}

/// How far from the target a step leads, squared.
pub open spec fn cost(pos: GridPos, target: IVec2, d: Dir) -> int {
    distance_squared(neighbour(pos.tile, d), target)
}

/// Whether a way leads on: not back, and onto a tile ghosts may enter.
pub open spec fn leads_on(pos: GridPos, d: Dir) -> bool {
    d != pos.dir.spec_opposite() && Mover::MazeGhost.admits(neighbour(pos.tile, d))
}

/// Whether one step serves the target strictly better than another. Frightened
/// ghosts flee: same rule, opposite preference.
pub open spec fn better(pos: GridPos, target: IVec2, flee: bool, d: Dir, than: Dir) -> bool {
    if flee {
        cost(pos, target, d) > cost(pos, target, than)
    } else {
        cost(pos, target, d) < cost(pos, target, than)
    }
}

/// The best way on among the first `n` directions; of several equally good ones,
/// the first.
pub open spec fn best_way(pos: GridPos, target: IVec2, flee: bool, n: nat) -> Option<Dir>
    decreases n,
{
    if n == 0 {
        None
    } else {
        let before = best_way(pos, target, flee, (n - 1) as nat);
        let d = Dir::all_dirs()[n - 1];
        if !leads_on(pos, d) {
            before
        } else {
            match before {
                Some(best) => if better(pos, target, flee, d, best) {
                    Some(d)
                } else {
                    before
                },
                None => Some(d),
            }
        }
    }
}

/// The direction a ghost takes on a tile boundary: the best way on; back only in
/// a dead end; none when walled in.
pub open spec fn chosen_dir(who: MazeGhost, target: IVec2) -> Option<Dir> {
    let back = who.pos.dir.spec_opposite();
    match best_way(who.pos, target, who.mode is Frightened, 4) {
        Some(d) => Some(d),
        None => if Mover::MazeGhost.admits(neighbour(who.pos.tile, back)) {
            Some(back)
        } else {
            None
        },
    }
}

/// A ghost on a tile boundary, headed the way it chose.
pub open spec fn headed(who: MazeGhost, target: IVec2) -> MazeGhost {
    match chosen_dir(who, target) {
        Some(d) => MazeGhost { pos: GridPos { dir: d, ..who.pos }, ..who },
        None => who,
    }
}

/// A ghost that lands on a tile. Passing the door frees it; eyes that reach the
/// house become a ghost again, penned.
pub open spec fn landed(who: MazeGhost, tile: IVec2) -> MazeGhost {
    let pos = GridPos { tile, offset: 0, ..who.pos };
    let freed = MazeGhost { pos, penned: who.penned && tile != ghost_door(), ..who };
    if who.mode is Eaten && tile == ghost_house() {
        MazeGhost { mode: GhostMode::Scatter, mode_timer: SCATTER_TIME, penned: true, ..freed }
    } else {
        freed
    }
}

/// Where `distance` towards a target takes a ghost, within `legs` tiles.
pub open spec fn walked(who: MazeGhost, target: IVec2, distance: int, legs: nat) -> MazeGhost
    decreases legs,
{
    if legs == 0 || distance <= 0 {
        who
    } else {
        let g = if who.pos.offset == 0 {
            headed(who, target)
        } else {
            who
        };
        let ahead = neighbour(g.pos.tile, g.pos.dir);
        let to_boundary = TILE_UNITS - g.pos.offset;
        if !Mover::MazeGhost.admits(ahead) {
            MazeGhost { pos: GridPos { offset: 0, ..g.pos }, ..g }
        } else if distance < to_boundary {
            MazeGhost {
                pos: GridPos { offset: (g.pos.offset + distance) as i64, ..g.pos },
                ..g
            }
        } else {
            walked(landed(g, ahead), target, distance - to_boundary, (legs - 1) as nat)
        }
    }
}

/// The scatter and chase clock, `dt` time units on. Frightened ghosts and eyes
/// are driven by the simulation instead.
pub open spec fn clocked(who: MazeGhost, dt: int) -> MazeGhost {
    if who.mode is Frightened || who.mode is Eaten {
        who
    } else if who.mode_timer - dt > 0 {
        MazeGhost { mode_timer: (who.mode_timer - dt) as i64, ..who }
    } else if who.mode is Scatter {
        MazeGhost {
            mode: GhostMode::Chase,
            mode_timer: CHASE_TIME,
            pos: reversed(who.pos),
            ..who
        }
    } else {
        MazeGhost {
            mode: GhostMode::Scatter,
            mode_timer: SCATTER_TIME,
            pos: reversed(who.pos),
            ..who
        }
    }
}

/// A ghost after someone ate a power pellet. Eyes on their way home are not
/// scared of anything, and a frightened ghost does not turn round again.
pub open spec fn frightened(who: MazeGhost) -> MazeGhost {
    if who.mode is Eaten || who.mode is Frightened {
        who
    } else {
        MazeGhost { mode: GhostMode::Frightened, pos: reversed(who.pos), ..who }
    }
}

/// A ghost once nobody is energized any more.
pub open spec fn unfrightened(who: MazeGhost) -> MazeGhost {
    if who.mode is Frightened {
        MazeGhost { mode: GhostMode::Chase, mode_timer: CHASE_TIME, ..who }
    } else {
        who
    }
}

/// Speed in tenths of an ordinary ghost's.
pub open spec fn multiplier_of(mode: GhostMode) -> i64 {
    match mode {
        GhostMode::Frightened => GHOST_FRIGHTENED_MULT,
        GhostMode::Eaten => GHOST_EATEN_MULT,
        _ => 10,
    }
}

/// A ghost as it starts out in the house.
pub open spec fn new_ghost(slot: int) -> MazeGhost {
    MazeGhost {
        pos: GridPos { tile: ghost_house(), offset: 0, dir: Dir::Up },
        mode: GhostMode::Scatter,
        personality: Personality::of_slot(slot),
        scatter_corner: scatter_corner_of(slot),
        mode_timer: SCATTER_TIME,
        penned: true,
    }
}

fn squared(d: i64) -> (s: i128)
    requires
        -4_294_967_296 <= d <= 4_294_967_296,
    ensures
        s == square(d as int),
        0 <= s <= 18_446_744_073_709_551_616,
{
    assert(0 <= d * d <= 18_446_744_073_709_551_616) by (nonlinear_arith)
        requires
            -4_294_967_296 <= d <= 4_294_967_296,
    ;
    (d as i128) * (d as i128)
}

impl MazeGhost {
    /// Stands where a ghost may stand.
    pub open spec fn sound(self) -> bool {
        self.pos.sound(Mover::MazeGhost)
    }

    /// Whether every coordinate that hunting may compute is representable.
    pub open spec fn can_aim(self, pacmen: Seq<PacTarget>, red_tile: IVec2) -> bool {
        forall|i: int|
            0 <= i < pacmen.len() && (#[trigger] pacmen[i]).alive ==> {
                let (x, y) = aim(self, pacmen[i], red_tile);
                &&& tile_distance(self.pos.tile, pacmen[i].tile) <= i32::MAX
                &&& representable(x, y)
            }
    }

    pub fn new(slot: usize) -> (who: MazeGhost)
        ensures
            who == new_ghost(slot as int),
    {
        MazeGhost {
            pos: GridPos::new(ghost_house(), Dir::Up),
            mode: GhostMode::Scatter,
            personality: Personality::for_slot(slot),
            scatter_corner: scatter_corner(slot),
            mode_timer: SCATTER_TIME,
            penned: true,
        }
    }

    /// Speed in tenths of an ordinary ghost's.
    pub fn speed_multiplier(&self) -> (tenths: i64)
        ensures
            tenths == multiplier_of(self.mode),
    {
        match self.mode {
            GhostMode::Frightened => GHOST_FRIGHTENED_MULT,
            GhostMode::Eaten => GHOST_EATEN_MULT,
            _ => 10,
        }
    }

    /// Where this ghost wants to be right now.
    pub fn target(&self, pacmen: &[PacTarget], red_tile: IVec2) -> (tile: IVec2)
        requires
            self.can_aim(pacmen@, red_tile),
        ensures
            tile == target_of(*self, pacmen@, red_tile),
    {
        if self.mode == GhostMode::Eaten {
            return ghost_house();
        }
        if self.penned {
            return ghost_door();
        }
        if self.mode == GhostMode::Scatter {
            return self.scatter_corner;
        }
        let prey = match self.nearest_live(pacmen) {
            Some(prey) => prey,
            None => return self.scatter_corner,
        };
        proof {
            let i = lemma_nearest(self.pos.tile, pacmen@);
            assert(pacmen@[i].alive);
        }
        let d = prey.dir.delta();
        match self.personality {
            Personality::Red => prey.tile,
            Personality::Pink => IVec2::new(
                (prey.tile.x as i64 + 4 * d.x as i64) as i32,
                (prey.tile.y as i64 + 4 * d.y as i64) as i32,
            ),
            Personality::Cyan => {
                let pivot_x: i64 = prey.tile.x as i64 + 2 * d.x as i64;
                let pivot_y: i64 = prey.tile.y as i64 + 2 * d.y as i64;
                IVec2::new(
                    (2 * pivot_x - red_tile.x as i64) as i32,
                    (2 * pivot_y - red_tile.y as i64) as i32,
                )
            },
            Personality::Orange => if chebyshev(self.pos.tile, prey.tile) > 8 {
                prey.tile
            } else {
                self.scatter_corner
            },
        }
    }

    fn nearest_live(&self, pacmen: &[PacTarget]) -> (prey: Option<PacTarget>)
        requires
            forall|i: int|
                0 <= i < pacmen@.len() && (#[trigger] pacmen@[i]).alive ==> tile_distance(
                    self.pos.tile,
                    pacmen@[i].tile,
                ) <= i32::MAX,
        ensures
            prey == nearest(self.pos.tile, pacmen@),
    {
        let mut prey: Option<PacTarget> = None;
        for i in 0..pacmen.len()
            invariant
                forall|i: int|
                    0 <= i < pacmen@.len() && (#[trigger] pacmen@[i]).alive ==> tile_distance(
                        self.pos.tile,
                        pacmen@[i].tile,
                    ) <= i32::MAX,
                prey == nearest(self.pos.tile, pacmen@.take(i as int)),
                prey matches Some(p) ==> tile_distance(self.pos.tile, p.tile) <= i32::MAX,
        {
            let p = pacmen[i];
            assert(pacmen@.take(i as int + 1).drop_last() =~= pacmen@.take(i as int));
            assert(pacmen@.take(i as int + 1).last() == p);
            if p.alive {
                let closer = match prey {
                    Some(best) => chebyshev(self.pos.tile, p.tile) < chebyshev(
                        self.pos.tile,
                        best.tile,
                    ),
                    None => true,
                };
                if closer {
                    prey = Some(p);
                }
            }
        }
        assert(pacmen@.take(pacmen@.len() as int) =~= pacmen@);
        prey
    }

    /// Advances toward `target`, re-choosing a direction at every tile boundary.
    pub fn step(&mut self, target: IVec2, speed: i64, dt: i64)
        requires
            old(self).pos.wf(),
            i64::MIN <= speed * dt <= i64::MAX,
            old(self).pos.offset + speed * dt <= i64::MAX + TILE_UNITS,
        ensures
            *final(self) == walked(*old(self), target, speed * dt, MAX_LEGS as nat),
            final(self).pos.wf(),
    {
        let mut remaining: i64 = speed * dt;
        let ghost whole = walked(*self, target, remaining as int, MAX_LEGS as nat);
        let mut legs: u32 = MAX_LEGS;
        while legs > 0 && remaining > 0
            invariant
                self.pos.wf(),
                legs <= MAX_LEGS,
                self.pos.offset + remaining <= i64::MAX + TILE_UNITS,
                whole == walked(*old(self), target, speed * dt, MAX_LEGS as nat),
                whole == walked(*self, target, remaining as int, legs as nat),
            decreases legs,
        {
            legs = legs - 1;
            if self.pos.offset == 0 {
                if let Some(dir) = self.choose_dir(target) {
                    self.pos.dir = dir;
                }
            }
            let ahead = self.pos.next_tile(self.pos.dir);
            if !MAZE.walkable_by_ghost(ahead) {
                self.pos.offset = 0;
                return;
            }
            let to_boundary: i64 = TILE_UNITS - self.pos.offset;
            if remaining < to_boundary {
                self.pos.offset = self.pos.offset + remaining;
                return;
            }
            remaining = remaining - to_boundary;
            self.pos.tile = ahead;
            self.pos.offset = 0;

            if self.penned && self.pos.tile == ghost_door() {
                self.penned = false;
            }
            if self.mode == GhostMode::Eaten && self.pos.tile == ghost_house() {
                self.mode = GhostMode::Scatter;
                self.mode_timer = SCATTER_TIME;
                self.penned = true;
            }
        }
    }

    /// How far from the target a step leads, squared.
    fn cost_of(&self, target: IVec2, d: Dir) -> (c: i128)
        ensures
            c == cost(self.pos, target, d),
    {
        let tile = self.pos.next_tile(d);
        squared(tile.x as i64 - target.x as i64) + squared(tile.y as i64 - target.y as i64)
    }

    /// Picks the neighbour that best serves the target. Ghosts never reverse
    /// mid-corridor, which is what keeps them committed to a route; the only
    /// exception is a dead end, where reversing is the sole legal move.
    fn choose_dir(&self, target: IVec2) -> (choice: Option<Dir>)
        ensures
            choice == chosen_dir(*self, target),
    {
        let back = self.pos.dir.opposite();
        let flee = self.mode == GhostMode::Frightened;
        let dirs = Dir::all();
        let mut best: Option<Dir> = None;
        for n in 0..4
            invariant
                dirs@ == Dir::all_dirs(),
                back == self.pos.dir.spec_opposite(),
                flee == (self.mode is Frightened),
                best == best_way(self.pos, target, flee, n as nat),
        {
            let d = dirs[n];
            assert(d == Dir::all_dirs()[n as int]);
            if d != back && MAZE.walkable_by_ghost(self.pos.next_tile(d)) {
                let takes = match best {
                    Some(b) => if flee {
                        self.cost_of(target, d) > self.cost_of(target, b)
                    } else {
                        self.cost_of(target, d) < self.cost_of(target, b)
                    },
                    None => true,
                };
                if takes {
                    best = Some(d);
                }
            }
        }
        if best.is_none() && MAZE.walkable_by_ghost(self.pos.next_tile(back)) {
            best = Some(back);
        }
        best
    }

    /// Advances the scatter and chase clock. Frightened and eaten ghosts are
    /// driven by the simulation instead, so they are left alone here.
    pub fn tick_mode(&mut self, dt: i64)
        requires
            old(self).pos.wf(),
            i64::MIN <= old(self).mode_timer - dt <= i64::MAX,
        ensures
            *final(self) == clocked(*old(self), dt as int),
    {
        if self.mode == GhostMode::Frightened || self.mode == GhostMode::Eaten {
            return;
        }
        self.mode_timer = self.mode_timer - dt;
        if self.mode_timer <= 0 {
            if self.mode == GhostMode::Scatter {
                self.mode = GhostMode::Chase;
                self.mode_timer = CHASE_TIME;
            } else {
                self.mode = GhostMode::Scatter;
                self.mode_timer = SCATTER_TIME;
            }
            self.pos.reverse();
        }
    }

    pub fn frighten(&mut self)
        requires
            old(self).pos.wf(),
        ensures
            *final(self) == frightened(*old(self)),
    {
        // Eyes on their way home are not scared of anything.
        if self.mode == GhostMode::Eaten {
            return;
        }
        if self.mode != GhostMode::Frightened {
            self.pos.reverse();
        }
        self.mode = GhostMode::Frightened;
    }

    pub fn unfrighten(&mut self)
        ensures
            *final(self) == unfrightened(*old(self)),
    {
        if self.mode == GhostMode::Frightened {
            self.mode = GhostMode::Chase;
            self.mode_timer = CHASE_TIME;
        }
    }

    pub fn eat(&mut self)
        ensures
            *final(self) == (MazeGhost { mode: GhostMode::Eaten, ..*old(self) }),
    {
        self.mode = GhostMode::Eaten;
    }

    /// Sent back to the pen without being eaten, after a Pac-Man dies.
    pub fn reset_to_house(&mut self)
        ensures
            *final(self) == (MazeGhost {
                pos: GridPos::new(ghost_house(), Dir::Up),
                mode: GhostMode::Scatter,
                mode_timer: SCATTER_AFTER_DEATH_TIME,
                penned: true,
                ..*old(self)
            }),
    {
        self.pos = GridPos::new(ghost_house(), Dir::Up);
        self.mode = GhostMode::Scatter;
        self.mode_timer = SCATTER_AFTER_DEATH_TIME;
        self.penned = true;
    }

    #[verifier::allow_in_spec]
    pub fn is_edible(&self) -> bool
        returns
            self.mode is Frightened,
    {
        self.mode == GhostMode::Frightened
    }

    #[verifier::allow_in_spec]
    pub fn is_dangerous(&self) -> bool
        returns
            self.mode is Scatter || self.mode is Chase,
    {
        self.mode == GhostMode::Scatter || self.mode == GhostMode::Chase
    }
}

/// The prey is a live Pac-Man of the list, and its first position there.
proof fn lemma_nearest(from: IVec2, pacmen: Seq<PacTarget>) -> (i: int)
    ensures
        nearest(from, pacmen) matches Some(prey) ==> {
            &&& 0 <= i < pacmen.len()
            &&& pacmen[i] == prey
            &&& prey.alive
            &&& forall|j: int|
                0 <= j < pacmen.len() && (#[trigger] pacmen[j]).alive ==> tile_distance(
                    from,
                    prey.tile,
                ) <= tile_distance(from, pacmen[j].tile)
            &&& forall|j: int|
                0 <= j < i && (#[trigger] pacmen[j]).alive ==> tile_distance(from, prey.tile)
                    < tile_distance(from, pacmen[j].tile)
        },
        nearest(from, pacmen) is None ==> forall|j: int|
            0 <= j < pacmen.len() ==> !(#[trigger] pacmen[j]).alive,
    decreases pacmen.len(),
{
    if pacmen.len() == 0 {
        0
    } else {
        let k = lemma_nearest(from, pacmen.drop_last());
        let before = nearest(from, pacmen.drop_last());
        assert(forall|j: int|
            0 <= j < pacmen.len() - 1 ==> #[trigger] pacmen[j] == pacmen.drop_last()[j]);
        let last = pacmen.last();
        let replaced = last.alive && (before is None || tile_distance(from, last.tile)
            < tile_distance(from, before->0.tile));
        if replaced {
            pacmen.len() - 1
        } else {
            k
        }
    }
}

/// A ghost hunts the nearest live Pac-Man, the first of several equally near
/// ones, and has no prey only when nobody is alive.
pub proof fn law_the_prey_is_the_nearest_live_one(from: IVec2, pacmen: Seq<PacTarget>)
    ensures
        nearest(from, pacmen) matches Some(prey) ==> exists|i: int|
            {
                &&& 0 <= i < pacmen.len()
                &&& #[trigger] pacmen[i] == prey
                &&& prey.alive
                &&& forall|j: int|
                    0 <= j < pacmen.len() && (#[trigger] pacmen[j]).alive ==> tile_distance(
                        from,
                        prey.tile,
                    ) <= tile_distance(from, pacmen[j].tile)
                &&& forall|j: int|
                    0 <= j < i && (#[trigger] pacmen[j]).alive ==> tile_distance(from, prey.tile)
                        < tile_distance(from, pacmen[j].tile)
            },
        nearest(from, pacmen) is None <==> forall|j: int|
            0 <= j < pacmen.len() ==> !(#[trigger] pacmen[j]).alive,
{
    let i = lemma_nearest(from, pacmen);
    if nearest(from, pacmen) is Some {
        assert(pacmen[i] == nearest(from, pacmen)->0);
    }
}

/// Eyes head home no matter what, a penned ghost aims for the door, and a
/// scattering one for its corner, wherever the Pac-Men are.
pub proof fn law_some_ghosts_ignore_pacmen(
    who: MazeGhost,
    pacmen: Seq<PacTarget>,
    red_tile: IVec2,
)
    ensures
        who.mode is Eaten ==> target_of(who, pacmen, red_tile) == ghost_house(),
        !(who.mode is Eaten) && who.penned ==> target_of(who, pacmen, red_tile) == ghost_door(),
        who.mode is Scatter && !who.penned ==> target_of(who, pacmen, red_tile)
            == who.scatter_corner,
{
}

/// When a single Pac-Man is left alive, every ghost out hunting has it for prey.
pub proof fn law_hunters_converge_on_the_survivor(
    who: MazeGhost,
    pacmen: Seq<PacTarget>,
    survivor: int,
    red_tile: IVec2,
)
    requires
        0 <= survivor < pacmen.len(),
        pacmen[survivor].alive,
        forall|j: int|
            0 <= j < pacmen.len() && j != survivor ==> !(#[trigger] pacmen[j]).alive,
        who.mode is Chase,
        !who.penned,
    ensures
        nearest(who.pos.tile, pacmen) == Some(pacmen[survivor]),
        who.personality is Red ==> target_of(who, pacmen, red_tile) == pacmen[survivor].tile,
{
    let i = lemma_nearest(who.pos.tile, pacmen);
}

proof fn lemma_best_way(pos: GridPos, target: IVec2, flee: bool, n: nat)
    requires
        n <= 4,
    ensures
        best_way(pos, target, flee, n) matches Some(d) ==> {
            &&& leads_on(pos, d)
            &&& forall|k: int|
                0 <= k < n && leads_on(pos, #[trigger] Dir::all_dirs()[k]) ==> !better(
                    pos,
                    target,
                    flee,
                    Dir::all_dirs()[k],
                    d,
                )
        },
        best_way(pos, target, flee, n) is None ==> forall|k: int|
            0 <= k < n ==> !leads_on(pos, #[trigger] Dir::all_dirs()[k]),
    decreases n,
{
    if n > 0 {
        lemma_best_way(pos, target, flee, (n - 1) as nat);
    }
}

proof fn lemma_all_dirs(d: Dir) -> (k: int)
    ensures
        0 <= k < 4,
        Dir::all_dirs()[k] == d,
{
    match d {
        Dir::Up => 0,
        Dir::Down => 1,
        Dir::Left => 2,
        Dir::Right => 3,
    }
}

/// A ghost goes where it may go. It never turns back while any other way is
/// open, and of the open ways it takes one that no other beats: the closest to
/// the target, or the farthest from it when it flees.
pub proof fn law_ghosts_turn_back_only_in_a_dead_end(who: MazeGhost, target: IVec2, other: Dir)
    ensures
        chosen_dir(who, target) matches Some(d) ==> {
            &&& Mover::MazeGhost.admits(neighbour(who.pos.tile, d))
            &&& d == who.pos.dir.spec_opposite() ==> !leads_on(who.pos, other)
            &&& leads_on(who.pos, other) ==> !better(
                who.pos,
                target,
                who.mode is Frightened,
                other,
                d,
            )
        },
        chosen_dir(who, target) is None ==> !Mover::MazeGhost.admits(
            neighbour(who.pos.tile, other),
        ),
{
    lemma_best_way(who.pos, target, who.mode is Frightened, 4);
    let k = lemma_all_dirs(other);
}

/// A ghost that stands where it may stand ends its step where it may stand: no
/// step takes it into a wall or off the board.
pub proof fn law_a_step_never_ends_in_a_wall(
    who: MazeGhost,
    target: IVec2,
    distance: int,
    legs: nat,
)
    requires
        who.sound(),
    ensures
        walked(who, target, distance, legs).sound(),
    decreases legs,
{
    if legs > 0 && distance > 0 {
        let g = if who.pos.offset == 0 {
            headed(who, target)
        } else {
            who
        };
        let ahead = neighbour(g.pos.tile, g.pos.dir);
        let to_boundary = TILE_UNITS - g.pos.offset;
        if Mover::MazeGhost.admits(ahead) && distance >= to_boundary {
            assert(on_board(ahead.x as int, ahead.y as int));
            law_a_step_never_ends_in_a_wall(
                landed(g, ahead),
                target,
                distance - to_boundary,
                (legs - 1) as nat,
            );
        }
    }
}

/// A ghost starts out where it may stand.
pub proof fn law_a_new_ghost_stands_in_the_house(slot: int)
    ensures
        new_ghost(slot).sound(),
        new_ghost(slot).penned,
        new_ghost(slot).pos.tile == ghost_house(),
{
    lemma_landmarks();
}

/// Nothing that happens to a ghost moves it anywhere it may not stand.
pub proof fn law_ghosts_stay_in_the_maze(who: MazeGhost, dt: int)
    requires
        who.sound(),
    ensures
        clocked(who, dt).sound(),
        frightened(who).sound(),
        unfrightened(who).sound(),
{
    law_reverse_stays_in_the_maze(who.pos, Mover::MazeGhost);
}

/// Eyes are neither frightened nor edible nor dangerous, and a power pellet does
/// not change them.
pub proof fn law_eyes_fear_nothing(who: MazeGhost)
    requires
        who.mode is Eaten,
    ensures
        frightened(who) == who,
        unfrightened(who) == who,
        !who.is_edible(),
        !who.is_dangerous(),
{
}

/// A ghost is edible or dangerous, never both; only eyes are neither.
pub proof fn law_edible_or_dangerous(who: MazeGhost)
    ensures
        !(who.is_edible() && who.is_dangerous()),
        who.is_edible() || who.is_dangerous() <==> !(who.mode is Eaten),
{
}

/// A power pellet turns a ghost round once; a second one does not flip it again.
pub proof fn law_frightening_reverses_once(who: MazeGhost)
    ensures
        frightened(frightened(who)) == frightened(who),
        who.is_dangerous() ==> frightened(who).pos == reversed(who.pos),
        who.is_dangerous() ==> frightened(who).mode is Frightened,
        who.is_dangerous() ==> frightened(who).pos.dir == who.pos.dir.spec_opposite(),
{
}

/// Scatter and chase alternate when the clock runs out, with a turn; before that
/// only the clock moves. Frightened ghosts and eyes ignore it.
pub proof fn law_scatter_and_chase_alternate(who: MazeGhost, dt: int)
    ensures
        who.mode is Scatter && dt >= who.mode_timer ==> clocked(who, dt).mode is Chase,
        who.mode is Chase && dt >= who.mode_timer ==> clocked(who, dt).mode is Scatter,
        who.is_dangerous() && dt >= who.mode_timer ==> clocked(who, dt).pos == reversed(who.pos),
        dt < who.mode_timer ==> clocked(who, dt).mode == who.mode && clocked(who, dt).pos
            == who.pos,
        !who.is_dangerous() ==> clocked(who, dt) == who,
{
}

/// The way a ghost goes on: on a tile boundary the one it chooses, if any, and
/// between two tiles straight on.
pub open spec fn way_on(who: MazeGhost, target: IVec2) -> Dir {
    if who.pos.offset == 0 && chosen_dir(who, target) is Some {
        chosen_dir(who, target)->0
    } else {
        who.pos.dir
    }
}

/// One leg of a walk. A ghost stops where the way is closed, gets as far as its
/// distance takes it, and walks on from every tile it lands on. Landing on the tile
/// above the door frees a penned ghost; eyes that land in the house are a ghost on
/// patrol again, penned, with a full seven seconds; nothing else changes.
pub proof fn law_a_walk_goes_leg_by_leg(who: MazeGhost, target: IVec2, distance: int, legs: nat)
    requires
        who.pos.in_tile(),
        legs > 0,
        distance > 0,
    ensures
        ({
            let e = walked(who, target, distance, legs);
            let dir = way_on(who, target);
            let ahead = neighbour(who.pos.tile, dir);
            let left = 12_000_000 - who.pos.offset;
            let home = who.mode is Eaten && ahead.x == 13 && ahead.y == 14;
            let next = MazeGhost {
                pos: GridPos { tile: ahead, offset: 0, dir },
                mode: if home {
                    GhostMode::Scatter
                } else {
                    who.mode
                },
                mode_timer: if home {
                    84_000
                } else {
                    who.mode_timer
                },
                penned: home || (who.penned && !(ahead.x == 13 && ahead.y == 11)),
                ..who
            };
            if !Mover::MazeGhost.admits(ahead) {
                e == (MazeGhost { pos: GridPos { offset: 0, dir, ..who.pos }, ..who })
            } else if distance < left {
                &&& e.pos.offset == who.pos.offset + distance
                &&& e == (MazeGhost {
                    pos: GridPos { offset: e.pos.offset, dir, ..who.pos },
                    ..who
                })
            } else {
                e == walked(next, target, distance - left, (legs - 1) as nat)
            }
        }),
{
}

/// Eyes that reach the house do not stay eyes: no walk ends as eyes in the house
/// unless it began there. When a walk ends the flight of eyes, they are on patrol
/// with a full seven seconds. A walk changes the mode of nothing else, and the
/// timer of nothing else.
pub proof fn law_eyes_that_reach_the_house_are_a_ghost_again(
    who: MazeGhost,
    target: IVec2,
    distance: int,
    legs: nat,
)
    requires
        who.pos.in_tile(),
    ensures
        ({
            let e = walked(who, target, distance, legs);
            &&& e.mode is Eaten && e.pos.tile.x == 13 && e.pos.tile.y == 14 ==> who.pos.tile
                == e.pos.tile
            &&& if who.mode is Eaten && !(e.mode is Eaten) {
                e.mode is Scatter && e.mode_timer == 84_000
            } else {
                e.mode == who.mode && e.mode_timer == who.mode_timer
            }
            &&& e.personality == who.personality && e.scatter_corner == who.scatter_corner
        }),
    decreases legs,
{
    if legs > 0 && distance > 0 {
        law_a_walk_goes_leg_by_leg(who, target, distance, legs);
        let dir = way_on(who, target);
        let ahead = neighbour(who.pos.tile, dir);
        let left = 12_000_000 - who.pos.offset;
        if Mover::MazeGhost.admits(ahead) && distance >= left {
            let g = if who.pos.offset == 0 {
                headed(who, target)
            } else {
                who
            };
            law_eyes_that_reach_the_house_are_a_ghost_again(
                landed(g, ahead),
                target,
                distance - left,
                (legs - 1) as nat,
            );
        }
    }
}

/// Eyes one tile from the house and headed into it arrive as a penned ghost on
/// patrol.
pub proof fn law_eyes_arrive_as_a_penned_ghost(who: MazeGhost, target: IVec2, legs: nat)
    requires
        who.pos.in_tile(),
        legs > 0,
        who.mode is Eaten,
        neighbour(who.pos.tile, way_on(who, target)) == (IVec2 { x: 13, y: 14 }),
    ensures
        walked(who, target, 12_000_000 - who.pos.offset, legs) == (MazeGhost {
            pos: GridPos { tile: IVec2 { x: 13, y: 14 }, offset: 0, dir: way_on(who, target) },
            mode: GhostMode::Scatter,
            mode_timer: 84_000,
            penned: true,
            ..who
        }),
{
    lemma_landmarks();
    law_a_walk_goes_leg_by_leg(who, target, 12_000_000 - who.pos.offset, legs);
}

/// How far a tile lies from another one in a straight line, squared.
pub open spec fn apart(a: IVec2, b: IVec2) -> int {
    (a.x - b.x) * (a.x - b.x) + (a.y - b.y) * (a.y - b.y)
}

/// The place of a direction in the order of preference: up, down, left, right.
pub open spec fn preference(d: Dir) -> int {
    match d {
        Dir::Up => 0,
        Dir::Down => 1,
        Dir::Left => 2,
        Dir::Right => 3,
    }
}

proof fn lemma_first_best(pos: GridPos, target: IVec2, flee: bool, n: nat)
    requires
        n <= 4,
    ensures
        best_way(pos, target, flee, n) matches Some(d) ==> {
            &&& preference(d) < n
            &&& leads_on(pos, d)
            &&& forall|o: Dir|
                preference(o) < preference(d) && #[trigger] leads_on(pos, o) ==> better(
                    pos,
                    target,
                    flee,
                    d,
                    o,
                )
            &&& forall|o: Dir|
                preference(o) < n && #[trigger] leads_on(pos, o) ==> !better(
                    pos,
                    target,
                    flee,
                    o,
                    d,
                )
        },
        best_way(pos, target, flee, n) is None ==> forall|o: Dir|
            preference(o) < n ==> !#[trigger] leads_on(pos, o),
    decreases n,
{
    if n > 0 {
        lemma_first_best(pos, target, flee, (n - 1) as nat);
        assert(preference(Dir::all_dirs()[n - 1]) == n - 1);
        assert forall|o: Dir| preference(o) == n - 1 implies o == Dir::all_dirs()[n - 1] by {}
    }
}

/// Of the ways that lead on, a ghost takes the one whose next tile lies nearest to
/// its target, and a frightened ghost the one whose next tile lies farthest from
/// it. Of equally good ways it prefers up, then down, then left, then right. It
/// never turns back while any way leads on.
pub proof fn law_ghosts_take_the_way_that_serves_them_best(
    who: MazeGhost,
    target: IVec2,
    other: Dir,
)
    requires
        other != who.pos.dir.spec_opposite(),
        Mover::MazeGhost.admits(neighbour(who.pos.tile, other)),
    ensures
        ({
            let way = chosen_dir(who, target);
            let there = apart(neighbour(who.pos.tile, way->0), target);
            let elsewhere = apart(neighbour(who.pos.tile, other), target);
            &&& way is Some
            &&& way->0 != who.pos.dir.spec_opposite()
            &&& Mover::MazeGhost.admits(neighbour(who.pos.tile, way->0))
            &&& who.mode is Frightened ==> there >= elsewhere
            &&& !(who.mode is Frightened) ==> there <= elsewhere
            &&& there == elsewhere ==> preference(way->0) <= preference(other)
        }),
{
    lemma_first_best(who.pos, target, who.mode is Frightened, 4);
    assert(leads_on(who.pos, other));
}

/// What a ghost out of the house and after the runners aims at: the tile of its
/// prey; four tiles ahead of it; the far end of the line from the first ghost
/// through the tile two ahead of it; or the prey from more than eight tiles away
/// and its own corner from nearer. With nobody on the board, its corner.
pub proof fn law_every_ghost_aims_its_own_way(
    who: MazeGhost,
    pacmen: Seq<PacTarget>,
    red_tile: IVec2,
)
    requires
        who.mode is Chase || who.mode is Frightened,
        !who.penned,
        who.can_aim(pacmen, red_tile),
    ensures
        ({
            let tile = target_of(who, pacmen, red_tile);
            match nearest(who.pos.tile, pacmen) {
                None => tile == who.scatter_corner,
                Some(prey) => {
                    let (x, y) = (prey.tile.x as int, prey.tile.y as int);
                    let (dx, dy) = match prey.dir {
                        Dir::Up => (0int, -1int),
                        Dir::Down => (0, 1),
                        Dir::Left => (-1, 0),
                        Dir::Right => (1, 0),
                    };
                    match who.personality {
                        Personality::Red => tile.x == x && tile.y == y,
                        Personality::Pink => tile.x == x + 4 * dx && tile.y == y + 4 * dy,
                        Personality::Cyan => {
                            &&& tile.x - (x + 2 * dx) == (x + 2 * dx) - red_tile.x
                            &&& tile.y - (y + 2 * dy) == (y + 2 * dy) - red_tile.y
                        },
                        Personality::Orange => {
                            let near = -8 <= x - who.pos.tile.x <= 8 && -8 <= y - who.pos.tile.y
                                <= 8;
                            tile == (if near {
                                who.scatter_corner
                            } else {
                                prey.tile
                            })
                        },
                    }
                },
            }
        }),
{
    let i = lemma_nearest(who.pos.tile, pacmen);
}

/// A ghost starts in the house, facing up, penned and on patrol for seven seconds.
/// The four characters take turns, and so do the seven corners.
pub proof fn law_ghosts_take_turns_in_character(slot: int)
    requires
        slot >= 0,
    ensures
        ({
            let (g, next) = (new_ghost(slot), new_ghost(slot + 4));
            &&& g.pos == (GridPos { tile: IVec2 { x: 13, y: 14 }, offset: 0, dir: Dir::Up })
            &&& g.penned && g.mode is Scatter && g.mode_timer == 84_000
            &&& next.personality == g.personality
            &&& new_ghost(slot + 7).scatter_corner == g.scatter_corner
            &&& slot == 0 ==> g.personality is Red && g.scatter_corner == (IVec2 { x: 27, y: 0 })
            &&& slot == 1 ==> g.personality is Pink && g.scatter_corner == (IVec2 { x: 0, y: 0 })
            &&& slot == 2 ==> g.personality is Cyan && g.scatter_corner == (IVec2 { x: 27, y: 30 })
            &&& slot == 3 ==> g.personality is Orange && g.scatter_corner == (IVec2 { x: 0, y: 30 })
            &&& slot == 4 ==> g.scatter_corner == (IVec2 { x: 13, y: 1 })
            &&& slot == 5 ==> g.scatter_corner == (IVec2 { x: 1, y: 15 })
            &&& slot == 6 ==> g.scatter_corner == (IVec2 { x: 26, y: 15 })
        }),
{
}

} // verus!
