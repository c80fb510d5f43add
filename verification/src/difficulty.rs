//! The difficulty curve.
//!
//! One step every 30 seconds. The curve is deliberately lethal: from step 3
//! onward ghosts are faster than Pac-Man, so an endless mode still ends. That
//! bounds a match to roughly four or five minutes, which is what keeps a
//! dedicated server from being held forever and keeps the queue moving.

use vstd::prelude::*;
use crate::grid::SECOND;
#[allow(unused_imports)]
use crate::grid::larger;

verus! {

/// Pac-Man never speeds up or slows down. In thousandths of a tile per second.
pub const PACMAN_SPEED: i64 = 8_000;

/// Ghost speed before the difficulty multiplier, in thousandths of a tile per
/// second.
pub const GHOST_BASE_SPEED: i64 = 6_500;

/// Frightened ghosts crawl. In tenths.
pub const GHOST_FRIGHTENED_MULT: i64 = 6;

/// Eaten ghosts rush back to the house. In tenths.
pub const GHOST_EATEN_MULT: i64 = 25;

/// How long one difficulty step lasts, in time units.
pub const STEP_TIME: i64 = 360_000;

#[derive(Debug, Clone, Copy, PartialEq, Eq, Structural)]
pub struct Difficulty {
    pub step: u32,
    pub ghost_count: usize,
    /// In thousandths.
    pub ghost_speed_mult: i64,
    /// In time units.
    pub power_pellet_interval: i64,
    /// In time units.
    pub energized_duration: i64,
}

/// The step reached after `elapsed` time units. Time before the start counts as
/// the start.
pub open spec fn step_at(elapsed: int) -> int {
    let step = larger(elapsed, 0) / (STEP_TIME as int);
    if step <= u32::MAX {
        step
    } else {
        u32::MAX as int
    }
}

/// How many ghosts a step asks for.
pub open spec fn ghosts_at_step(step: int) -> int {
    if step <= 1 {
        4
    } else if step <= 3 {
        5
    } else if step <= 5 {
        6
    } else {
        7
    }
}

/// How long a power pellet lasts at a step: a second less per step, with a floor
/// of two seconds.
pub open spec fn energized_at_step(step: int) -> int {
    larger(8 - step, 2) * SECOND
}

/// The whole curve. The multiplier and the interval keep growing for ever.
pub open spec fn difficulty_at(elapsed: int) -> Difficulty {
    let step = step_at(elapsed);
    Difficulty {
        step: step as u32,
        ghost_count: ghosts_at_step(step) as usize,
        ghost_speed_mult: (1_000 + 100 * step) as i64,
        power_pellet_interval: ((20 + 5 * step) * SECOND) as i64,
        energized_duration: energized_at_step(step) as i64,
    }
}

impl Difficulty {
    /// The difficulty `elapsed` time units into a match.
    pub fn at(elapsed: i64) -> (d: Difficulty)
        ensures
            d == difficulty_at(elapsed as int),
            d.step == step_at(elapsed as int),
            d.ghost_count == ghosts_at_step(d.step as int),
            d.ghost_speed_mult == 1_000 + 100 * d.step,
            d.power_pellet_interval == (20 + 5 * d.step) * SECOND,
            d.energized_duration == energized_at_step(d.step as int),
    {
        let clock: i64 = if elapsed > 0 {
            elapsed
        } else {
            0
        };
        let steps: i64 = clock / STEP_TIME;
        let step: i64 = if steps <= 4_294_967_295 {
            steps
        } else {
            4_294_967_295
        };
        let ghost_count: usize = if step <= 1 {
            4
        } else if step <= 3 {
            5
        } else if step <= 5 {
            6
        } else {
            7
        };
        let energized_seconds: i64 = if step <= 6 {
            8 - step
        } else {
            2
        };
        Difficulty {
            step: step as u32,
            ghost_count,
            ghost_speed_mult: 1_000 + 100 * step,
            power_pellet_interval: (20 + 5 * step) * SECOND,
            energized_duration: energized_seconds * SECOND,
        }
    }

    /// The speed of an ordinary ghost, in thousandths of a tile per second.
    pub open spec fn spec_ghost_speed(self) -> int {
        GHOST_BASE_SPEED * self.ghost_speed_mult / 1_000
    }

    pub fn ghost_speed(&self) -> (speed: i64)
        requires
            0 <= self.ghost_speed_mult <= 1_000_000_000_000_000,
        ensures
            speed == self.spec_ghost_speed(),
    {
        GHOST_BASE_SPEED * self.ghost_speed_mult / 1_000
    }
}

/// The ghost speed of the curve is a whole number of units: a tenth of the base
/// speed more per step.
pub proof fn law_ghost_speed_is_exact(elapsed: int)
    ensures
        difficulty_at(elapsed).spec_ghost_speed() == 650 * (10 + step_at(elapsed)),
{
}

/// One step lasts thirty seconds.
pub proof fn law_a_step_lasts_thirty_seconds(step: int, into: int)
    requires
        0 <= step <= u32::MAX,
        0 <= into < 30 * SECOND,
    ensures
        step_at(step * 30 * SECOND + into) == step,
{
    assert((step * STEP_TIME + into) / STEP_TIME as int == step);
}

/// Difficulty never goes backwards: later there are at least as many ghosts,
/// they are at least as fast, and a power pellet lasts at most as long.
pub proof fn law_difficulty_never_goes_backwards(earlier: int, later: int)
    requires
        earlier <= later,
    ensures
        difficulty_at(earlier).step <= difficulty_at(later).step,
        difficulty_at(earlier).ghost_count <= difficulty_at(later).ghost_count,
        difficulty_at(earlier).ghost_speed_mult <= difficulty_at(later).ghost_speed_mult,
        difficulty_at(earlier).spec_ghost_speed() <= difficulty_at(later).spec_ghost_speed(),
        difficulty_at(earlier).power_pellet_interval <= difficulty_at(later).power_pellet_interval,
        difficulty_at(earlier).energized_duration >= difficulty_at(later).energized_duration,
{
    vstd::arithmetic::div_mod::lemma_div_is_ordered(
        larger(earlier, 0),
        larger(later, 0),
        STEP_TIME as int,
    );
    law_ghost_speed_is_exact(earlier);
    law_ghost_speed_is_exact(later);
}

/// Ghosts outrun Pac-Man exactly from step three on, which is a minute and a
/// half into the match.
pub proof fn law_ghosts_outrun_pacman_from_step_three_on(elapsed: int)
    ensures
        difficulty_at(elapsed).spec_ghost_speed() > PACMAN_SPEED <==> step_at(elapsed) >= 3,
        difficulty_at(elapsed).spec_ghost_speed() != PACMAN_SPEED,
        step_at(elapsed) >= 3 <==> elapsed >= 90 * SECOND,
{
    law_ghost_speed_is_exact(elapsed);
}

/// There are never fewer than four ghosts nor more than seven, and a power pellet
/// lasts between two and eight seconds.
pub proof fn law_the_curve_is_bounded(elapsed: int)
    ensures
        4 <= difficulty_at(elapsed).ghost_count <= 7,
        2 * SECOND <= difficulty_at(elapsed).energized_duration <= 8 * SECOND,
        difficulty_at(elapsed).power_pellet_interval >= 20 * SECOND,
{
}

/// The curve in numbers, `n` half minutes into a match: four ghosts and one more
/// per minute up to seven, a tenth more speed, five seconds more between two power
/// pellets and one second less of energy per half minute, but two seconds at least.
pub proof fn law_the_curve_by_the_half_minute(elapsed: int)
    requires
        0 <= elapsed < 360_000 * 0x1_0000_0000,
    ensures
        ({
            let (d, n) = (difficulty_at(elapsed), elapsed / 360_000);
            &&& d.step == n
            &&& d.ghost_count == (if n / 2 <= 3 {
                4 + n / 2
            } else {
                7
            })
            &&& d.ghost_speed_mult == 1_000 + 100 * n
            &&& d.spec_ghost_speed() == 6_500 + 650 * n
            &&& d.power_pellet_interval == 240_000 + 60_000 * n
            &&& d.energized_duration == (if n <= 6 {
                96_000 - 12_000 * n
            } else {
                24_000
            })
        }),
{
    law_ghost_speed_is_exact(elapsed);
}

} // verus!
