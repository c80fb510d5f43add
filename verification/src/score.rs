//! Scoring and timing constants.

use vstd::prelude::*;
use crate::single::rounded;
#[allow(unused_imports)]
use crate::single::{lemma_a_share_is_a_tenth, to_single};

verus! {

/// A plain pellet.
pub const PELLET: u32 = 10;

/// A power pellet.
pub const POWER_PELLET: u32 = 50;

/// Ghosts eaten within one energization, in order. Past the fourth the chain
/// stays at the last value.
pub const GHOST_CHAIN: [u32; 4] = [200, 400, 800, 1600];

/// The share of the victim's score taken when you eat your rival: a tenth. In
/// single precision that is this many parts of `STEAL_PARTS`.
pub const STEAL_SHARE: u64 = 13_421_773;

/// How many parts a whole score is divided into.
pub const STEAL_PARTS: u64 = 134_217_728;

/// Floor on a steal, so robbing a player on zero is still worth doing.
pub const STEAL_MIN: u32 = 100;

/// How long the victim of a steal cannot move: three seconds.
pub const STUN_TIME: i64 = 36_000;

/// How long the victim cannot be stolen from again: five seconds. Longer than
/// the stun on purpose: without it the thief simply waits out the stun and robs
/// again.
pub const STEAL_IMMUNITY_TIME: i64 = 60_000;

/// Freeze after losing a life, before respawning: a second and a half.
pub const DEATH_FREEZE_TIME: i64 = 18_000;

/// Ghosts scatter for this long after someone dies, to give the respawn air:
/// three seconds.
pub const SCATTER_AFTER_DEATH_TIME: i64 = 36_000;

pub const LIVES: u8 = 3;

/// Distance at which two things on the board count as touching: six tenths of a
/// tile.
pub const COLLIDE_RADIUS: i64 = 7_200_000;

/// Points for the `combo`-th ghost of one energization, zero indexed.
pub open spec fn chain_points(combo: int) -> u32 {
    if combo == 0 {
        200
    } else if combo == 1 {
        400
    } else if combo == 2 {
        800
    } else {
        1600
    }
}

pub fn ghost_points(combo: usize) -> (points: u32)
    ensures
        points == chain_points(combo as int),
{
    if combo < GHOST_CHAIN.len() {
        GHOST_CHAIN[combo]
    } else {
        GHOST_CHAIN[GHOST_CHAIN.len() - 1]
    }
}

/// A tenth of a score, in single precision and rounded down. Up to sixteen million
/// points that is the exact tenth.
pub open spec fn share_of(score: int) -> int {
    to_single(to_single(score) * STEAL_SHARE) / (STEAL_PARTS as int)
}

/// A tenth of the victim's score, but at least the floor.
pub open spec fn nominal_steal(victim_score: int) -> int {
    if share_of(victim_score) >= STEAL_MIN {
        share_of(victim_score)
    } else {
        STEAL_MIN as int
    }
}

/// The nominal size of a steal against a victim sitting on `victim_score`.
/// The simulation clamps this to what the victim actually has.
pub fn steal_amount(victim_score: u32) -> (amount: u32)
    ensures
        amount == nominal_steal(victim_score as int),
        victim_score < 0x100_0000 ==> amount == (if victim_score / 10 >= STEAL_MIN {
            victim_score / 10
        } else {
            STEAL_MIN
        }),
{
    proof {
        lemma_a_share_is_a_tenth(victim_score as int);
    }
    let share: u64 = rounded(rounded(victim_score as u64) * STEAL_SHARE) / STEAL_PARTS;
    if share >= STEAL_MIN as u64 {
        share as u32
    } else {
        STEAL_MIN
    }
}

/// The chain doubles with every ghost up to the fourth and then holds.
pub proof fn law_the_chain_doubles_and_then_holds(combo: int)
    requires
        combo >= 0,
    ensures
        combo < 3 ==> chain_points(combo + 1) == 2 * chain_points(combo),
        combo >= 3 ==> chain_points(combo + 1) == chain_points(combo),
        200 <= chain_points(combo) <= 1600,
{
}

/// A steal is worth at least the floor, and from a thousand points on it is a
/// tenth, rounded down. Past the whole numbers that single precision holds, it is a
/// tenth to within one part in a million.
pub proof fn law_a_steal_takes_a_tenth_with_a_floor(victim_score: int)
    requires
        0 <= victim_score <= u32::MAX,
    ensures
        nominal_steal(victim_score) >= STEAL_MIN,
        1_000 <= victim_score < 0x100_0000 ==> 10 * nominal_steal(victim_score) <= victim_score
            < 10 * nominal_steal(victim_score) + 10,
        victim_score < 1_000 ==> nominal_steal(victim_score) == STEAL_MIN,
        victim_score >= 0x100_0000 ==> {
            &&& 10 * nominal_steal(victim_score) <= victim_score + victim_score / 1_000_000
            &&& victim_score - victim_score / 1_000_000 <= 10 * nominal_steal(victim_score) + 10
        },
{
    lemma_a_share_is_a_tenth(victim_score);
}

/// The immunity window outlasts the stun, so nobody can be robbed twice for one
/// mistake.
pub proof fn law_immunity_outlasts_the_stun()
    ensures
        STEAL_IMMUNITY_TIME > STUN_TIME,
{
}

} // verus!
