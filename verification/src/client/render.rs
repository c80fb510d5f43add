//! What is drawn where.
//!
//! Which picture, which tint and which place; the drawing itself happens
//! elsewhere.

use vstd::prelude::*;
use crate::ghosts::{GhostMode, Personality};
use crate::grid::{WorldPoint, TILE_UNITS};
use crate::movement::Dir;
use crate::pellets::PelletKind;
use crate::sim::RunnerState;

verus! {

/// Maps a facing direction to its row of pictures.
#[verifier::allow_in_spec]
pub fn dir_index(dir: Dir) -> usize
    returns
        match dir {
            Dir::Up => 0usize,
            Dir::Down => 1usize,
            Dir::Left => 2usize,
            Dir::Right => 3usize,
        },
{
    match dir {
        Dir::Up => 0,
        Dir::Down => 1,
        Dir::Left => 2,
        Dir::Right => 3,
    }
}

/// Half the board's width and height, less half a tile: where the centre lies.
pub const CENTRE_X: i64 = 162_000_000;

pub const CENTRE_Y: i64 = 180_000_000;

/// Board coordinates to screen coordinates, both in distance units. The maze is
/// centred on the origin and y is flipped, because the grid counts downward and
/// the screen counts up.
pub open spec fn on_screen(p: WorldPoint) -> (int, int) {
    (p.x - CENTRE_X, CENTRE_Y - p.y)
}

pub fn tile_to_world(p: WorldPoint) -> (q: WorldPoint)
    requires
        p.x >= i64::MIN + CENTRE_X,
        p.y >= CENTRE_Y - i64::MAX,
    ensures
        (q.x as int, q.y as int) == on_screen(p),
{
    WorldPoint::new(p.x - CENTRE_X, CENTRE_Y - p.y)
}

/// How a runner is tinted. State overrides the base tint so death, stun and power
/// are readable at a glance.
#[derive(Debug, Clone, Copy, PartialEq, Eq, Structural)]
pub enum Tint {
    /// The runner's own colour.
    Base,
    /// The runner's own colour at this many percent of its opacity.
    Faded(u8),
    Energized,
    Stunned,
}

impl Tint {
    /// Opacity in percent.
    #[verifier::allow_in_spec]
    pub fn alpha(self) -> u8
        returns
            match self {
                Tint::Faded(percent) => percent,
                _ => 100u8,
            },
    {
        match self {
            Tint::Faded(percent) => percent,
            _ => 100,
        }
    }
}

/// The tint over a runner's art.
#[verifier::allow_in_spec]
pub fn runner_tint(state: RunnerState, energized: bool, stunned: bool) -> Tint
    returns
        match state {
            RunnerState::Out => Tint::Faded(15),
            RunnerState::Dying => Tint::Faded(35),
            RunnerState::Alive => if stunned {
                Tint::Stunned
            } else if energized {
                Tint::Energized
            } else {
                Tint::Base
            },
        },
{
    match state {
        // Out of the match entirely: leave a faint ghost of them behind.
        RunnerState::Out => Tint::Faded(15),
        RunnerState::Dying => Tint::Faded(35),
        RunnerState::Alive => if stunned {
            Tint::Stunned
        } else if energized {
            Tint::Energized
        } else {
            Tint::Base
        },
    }
}

/// Which picture a ghost shows.
#[derive(Debug, Clone, Copy, PartialEq, Eq, Structural)]
pub enum GhostArt {
    Own(Personality),
    Frightened,
}

/// Which ghost image to show, and its opacity in percent. Frightened swaps to the
/// scared sprite so the player can tell at a glance what can be eaten; eaten
/// ghosts fade to just their trail back home.
pub fn ghost_look(index: usize, mode: GhostMode) -> (look: (GhostArt, u8))
    ensures
        look == (match mode {
            GhostMode::Frightened => (GhostArt::Frightened, 100u8),
            GhostMode::Eaten => (GhostArt::Frightened, 30u8),
            _ => (GhostArt::Own(Personality::of_slot(index as int)), 100u8),
        }),
{
    match mode {
        GhostMode::Frightened => (GhostArt::Frightened, 100),
        GhostMode::Eaten => (GhostArt::Frightened, 30),
        _ => (GhostArt::Own(Personality::for_slot(index)), 100),
    }
}

/// What to do about the picture of a tile's pellet.
#[derive(Debug, Clone, Copy, PartialEq, Eq, Structural)]
pub enum PelletStep {
    Keep,
    Show(PelletKind),
    Remove,
}

/// Pellets are kept in sync by comparing the field with what is on screen.
#[verifier::allow_in_spec]
pub fn pellet_step(content: Option<PelletKind>, shown: bool) -> PelletStep
    returns
        match content {
            Some(kind) => if shown {
                PelletStep::Keep
            } else {
                PelletStep::Show(kind)
            },
            None => if shown {
                PelletStep::Remove
            } else {
                PelletStep::Keep
            },
        },
{
    match content {
        Some(kind) => if shown {
            PelletStep::Keep
        } else {
            PelletStep::Show(kind)
        },
        None => if shown {
            PelletStep::Remove
        } else {
            PelletStep::Keep
        },
    }
}

/// How long each of the three mouth frames is shown, in milliseconds.
pub const ANIM_FRAME_MS: u64 = 80;

/// The mouth frame after this one.
#[verifier::allow_in_spec]
pub fn next_frame(frame: usize) -> usize
    returns
        (if frame == 0 {
            1usize
        } else if frame == 1 {
            2usize
        } else {
            0usize
        }),
{
    if frame == 0 {
        1
    } else if frame == 1 {
        2
    } else {
        0
    }
}

/// No two directions share a row.
pub proof fn law_every_direction_has_its_own_row(a: Dir, b: Dir)
    ensures
        dir_index(a) == dir_index(b) <==> a == b,
        dir_index(a) < 4,
{
}

/// The middle of the board is drawn in the middle of the screen, a row further
/// down is drawn further down, and neighbouring tiles are a tile apart.
pub proof fn law_the_board_is_centred_and_upright(p: WorldPoint, q: WorldPoint)
    ensures
        2 * CENTRE_X == 27 * TILE_UNITS,
        2 * CENTRE_Y == 30 * TILE_UNITS,
        on_screen(WorldPoint { x: CENTRE_X, y: CENTRE_Y }) == (0int, 0int),
        p.y < q.y <==> on_screen(p).1 > on_screen(q).1,
        on_screen(q).0 - on_screen(p).0 == q.x - p.x,
        on_screen(p).1 - on_screen(q).1 == q.y - p.y,
{
}

/// The states a player has to tell apart look different.
pub proof fn law_states_look_different(energized: bool, stunned: bool)
    ensures
        runner_tint(RunnerState::Out, energized, stunned).alpha() < runner_tint(
            RunnerState::Dying,
            energized,
            stunned,
        ).alpha(),
        runner_tint(RunnerState::Dying, energized, stunned).alpha() < runner_tint(
            RunnerState::Alive,
            energized,
            stunned,
        ).alpha(),
        runner_tint(RunnerState::Alive, energized, true) != runner_tint(
            RunnerState::Alive,
            true,
            false,
        ),
        runner_tint(RunnerState::Alive, true, false) != runner_tint(
            RunnerState::Alive,
            false,
            false,
        ),
{
}

/// A runner out of the match is hardly there, a dying one fades, a stunned one shows
/// that before anything else, then an energized one, and any other has its own colour.
pub proof fn law_a_runner_looks_its_state(energized: bool, stunned: bool)
    ensures
        runner_tint(RunnerState::Out, energized, stunned) == Tint::Faded(15),
        runner_tint(RunnerState::Dying, energized, stunned) == Tint::Faded(35),
        runner_tint(RunnerState::Alive, energized, true) is Stunned,
        runner_tint(RunnerState::Alive, true, false) is Energized,
        runner_tint(RunnerState::Alive, false, false) is Base,
{
}

/// The picture of a tile is changed exactly when it is wrong.
pub proof fn law_pictures_follow_the_field(kind: PelletKind)
    ensures
        pellet_step(Some(kind), false) == PelletStep::Show(kind),
        pellet_step(Some(kind), true) is Keep,
        pellet_step(None, true) is Remove,
        pellet_step(None, false) is Keep,
{
}

/// The three mouth frames follow each other round.
pub proof fn law_the_mouth_goes_round(frame: usize)
    requires
        frame < 3,
    ensures
        next_frame(frame) == (frame + 1) % 3,
        dir_index(Dir::Up) == 0 && dir_index(Dir::Down) == 1 && dir_index(Dir::Left) == 2
            && dir_index(Dir::Right) == 3,
{
}

} // verus!
