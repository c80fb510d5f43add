//! The rules of the game, each stated on what a tick finds and what it leaves
//! behind: who touches whom, what that costs, and what it earns.

use vstd::prelude::*;
#[allow(unused_imports)]
use crate::difficulty::{law_ghost_speed_is_exact, law_the_curve_by_the_half_minute, step_at};
#[allow(unused_imports)]
use crate::ghosts::{
    clocked, new_ghost, target_of, unfrightened, walked, GhostMode, MazeGhost, PacTarget,
};
#[allow(unused_imports)]
use crate::grid::{tile_distance, IVec2};
#[allow(unused_imports)]
use crate::maze::all_corridors;
#[allow(unused_imports)]
use crate::movement::{advanced, neighbour, occupied, reversed, world_of, Dir, GridPos, Mover};
#[allow(unused_imports)]
use crate::pellets::{
    law_a_power_pellet_lands_on_a_free_tile, law_drip_lands_on_free_tiles,
    law_only_a_fraction_is_carried_over, lemma_with, FieldView, PelletKind,
};
#[allow(unused_imports)]
use crate::sim::{
    anyone_energized, ate, clock_struck, contacts, ghost_eaten, ghosts_met, ghosts_moved, in_touch,
    judged, killed, lemma_ate, lemma_ghost_moved_is_sound, lemma_met, lemma_met_wf,
    lemma_room_after_eating, lemma_room_after_moving, lemma_room_through_the_tick, live_tiles,
    meal_of, met, moved, pellets_eaten, replenished, respawned, robbed, runners_moved, targets_of,
    thief_of, ticked, EventsView, Runner, RunnerState, SimView, Turn,
};
#[allow(unused_imports)]
use crate::sim_laws::{
    at_most_one_life_lost, lemma_meeting_leaves_the_pellets, lemma_moving, lemma_robbing,
    lemma_stages, stages, unharmed,
};
#[allow(unused_imports)]
use crate::single::lemma_a_share_is_a_tenth;

verus! {

/// How far to the right a position lies, in distance units.
pub open spec fn across(p: GridPos) -> int {
    12_000_000 * p.tile.x + (match p.dir {
        Dir::Right => p.offset as int,
        Dir::Left => -p.offset,
        _ => 0,
    })
}

/// How far down a position lies, in distance units.
pub open spec fn down(p: GridPos) -> int {
    12_000_000 * p.tile.y + (match p.dir {
        Dir::Down => p.offset as int,
        Dir::Up => -p.offset,
        _ => 0,
    })
}

/// Less than six tenths of a tile.
pub open spec fn short(dx: int, dy: int) -> bool {
    dx * dx + dy * dy < 7_200_000 * 7_200_000
}

/// Whether two positions lie less than six tenths of a tile apart, straight or
/// through the tunnel: the board is twenty-eight tiles wide and closes on itself.
pub open spec fn close(a: GridPos, b: GridPos) -> bool {
    let (dx, dy) = (across(a) - across(b), down(a) - down(b));
    short(dx, dy) || short(dx - 336_000_000, dy) || short(dx + 336_000_000, dy)
}

proof fn lemma_short(dx: int, dy: int)
    ensures
        short(dx, dy) ==> -7_200_000 < dx < 7_200_000,
        short(dx, dy) == short(-dx, dy),
{
    assert(dx * dx == (-dx) * (-dx)) by (nonlinear_arith);
    assert(dx * dx + dy * dy < 7_200_000 * 7_200_000 ==> -7_200_000 < dx < 7_200_000)
        by (nonlinear_arith);
}

/// Two things on the board touch exactly when they are close. Touching is mutual,
/// and whatever shares a place touches.
pub proof fn law_touching_is_being_close(a: GridPos, b: GridPos)
    requires
        a.sound(Mover::Pacman) || a.sound(Mover::MazeGhost),
        b.sound(Mover::Pacman) || b.sound(Mover::MazeGhost),
    ensures
        in_touch(world_of(a), world_of(b)) == close(a, b),
        close(a, b) == close(b, a),
        across(a) == across(b) && down(a) == down(b) ==> close(a, b),
{
    let (dx, dy) = (across(a) - across(b), down(a) - down(b));
    assert(world_of(a).x == across(a) && world_of(a).y == down(a));
    assert(world_of(b).x == across(b) && world_of(b).y == down(b));
    assert((-dy) * (-dy) == dy * dy) by (nonlinear_arith);
    assert(dx == 0 ==> dx * dx == 0) by (nonlinear_arith);
    assert(dy == 0 ==> dy * dy == 0) by (nonlinear_arith);
    lemma_short(dx, dy);
    lemma_short(dx - 336_000_000, dy);
    lemma_short(dx + 336_000_000, dy);
}

/// Whether a ghost on patrol or on the hunt touches a runner.
pub open spec fn catches(s: SimView, slot: int, k: int) -> bool {
    &&& 0 <= k < s.ghosts.len()
    &&& s.ghosts[k].mode is Scatter || s.ghosts[k].mode is Chase
    &&& close(s.runners[slot].pos, s.ghosts[k].pos)
}

/// Whether a fleeing ghost falls to an energized runner that touches it. A runner
/// looks at the ghosts in order and gets no further than the one that catches it.
pub open spec fn falls(s: SimView, slot: int, from: int, k: int) -> bool {
    &&& from <= k < s.ghosts.len()
    &&& s.ghosts[k].mode is Frightened
    &&& close(s.runners[slot].pos, s.ghosts[k].pos)
    &&& s.runners[slot].state is Alive
    &&& s.elapsed < s.runners[slot].energized_until
    &&& forall|j: int| from <= j < k ==> !#[trigger] catches(s, slot, j)
}

/// What a ghost is worth after `n` others of the same energization.
pub open spec fn worth(n: int) -> int {
    if n <= 0 {
        200
    } else if n == 1 {
        400
    } else if n == 2 {
        800
    } else {
        1600
    }
}

/// The points a list of eaten ghosts holds for a slot.
pub open spec fn ghost_pay(list: Seq<(usize, u8, u32)>, slot: int) -> int
    decreases list.len(),
{
    if list.len() == 0 {
        0
    } else {
        ghost_pay(list.drop_last(), slot) + (if list.last().1 == slot {
            list.last().2 as int
        } else {
            0
        })
    }
}

proof fn lemma_ghost_pay_adds(a: Seq<(usize, u8, u32)>, b: Seq<(usize, u8, u32)>, slot: int)
    ensures
        ghost_pay(a + b, slot) == ghost_pay(a, slot) + ghost_pay(b, slot),
    decreases b.len(),
{
    if b.len() == 0 {
        assert(a + b =~= a);
    } else {
        assert((a + b).drop_last() =~= a + b.drop_last());
        lemma_ghost_pay_adds(a, b.drop_last(), slot);
    }
}

proof fn lemma_ghost_pay_of_one(item: (usize, u8, u32), slot: int)
    ensures
        ghost_pay(seq![item], slot) == (if item.1 == slot {
            item.2 as int
        } else {
            0
        }),
{
    assert(seq![item].drop_last() =~= Seq::empty());
    assert(ghost_pay(seq![item].drop_last(), slot) == 0);
}

/// What a list of ghosts eaten by one runner from `from` on has to look like.
spec fn is_feast(s: SimView, slot: int, from: int, list: Seq<(usize, u8, u32)>) -> bool {
    &&& list.len() <= s.ghosts.len() - from
    &&& forall|i: int|
        #![trigger list[i]]
        0 <= i < list.len() ==> {
            &&& list[i].1 == slot
            &&& list[i].2 == worth(s.runners[slot].ghost_combo + i)
            &&& falls(s, slot, from, list[i].0 as int)
        }
    &&& forall|i: int, j: int|
        0 <= i < j < list.len() ==> (#[trigger] list[i]).0 < (#[trigger] list[j]).0
    &&& forall|k: int| #[trigger]
        falls(s, slot, from, k) ==> exists|i: int|
            0 <= i < list.len() && (#[trigger] list[i]).0 == k
}

proof fn lemma_feast_grows(
    s: SimView,
    t: SimView,
    slot: int,
    from: int,
    rest: Seq<(usize, u8, u32)>,
)
    requires
        0 <= slot < 2,
        s.runners.len() == 2,
        0 <= from < s.ghosts.len() <= usize::MAX,
        t.elapsed == s.elapsed,
        t.ghosts == s.ghosts.update(from, t.ghosts[from]),
        t.runners[slot] == (Runner {
            ghost_combo: t.runners[slot].ghost_combo,
            score: t.runners[slot].score,
            ..s.runners[slot]
        }),
        t.runners[slot].ghost_combo == s.runners[slot].ghost_combo + 1,
        falls(s, slot, from, from),
        is_feast(t, slot, from + 1, rest),
    ensures
        is_feast(
            s,
            slot,
            from,
            seq![(from as usize, slot as u8, worth(s.runners[slot].ghost_combo as int) as u32)]
                + rest,
        ),
{
    let head = (from as usize, slot as u8, worth(s.runners[slot].ghost_combo as int) as u32);
    let list = seq![head] + rest;
    assert(forall|j: int| j > from ==> #[trigger] catches(s, slot, j) == catches(t, slot, j));
    assert(!catches(s, slot, from));
    assert forall|k: int| k > from implies #[trigger] falls(s, slot, from, k) == falls(
        t,
        slot,
        from + 1,
        k,
    ) by {
        if falls(t, slot, from + 1, k) {
            assert forall|j: int| from <= j < k implies !#[trigger] catches(s, slot, j) by {
                if j > from {
                    assert(!catches(t, slot, j));
                }
            }
        }
        if falls(s, slot, from, k) {
            assert forall|j: int| from + 1 <= j < k implies !#[trigger] catches(t, slot, j) by {
                assert(!catches(s, slot, j));
            }
        }
    }
    assert forall|i: int| 0 <= i < list.len() implies {
        &&& (#[trigger] list[i]).1 == slot
        &&& list[i].2 == worth(s.runners[slot].ghost_combo + i)
        &&& falls(s, slot, from, list[i].0 as int)
    } by {
        if i > 0 {
            assert(list[i] == rest[i - 1]);
            assert(falls(t, slot, from + 1, rest[i - 1].0 as int));
        }
    }
    assert forall|i: int, j: int| 0 <= i < j < list.len() implies (#[trigger] list[i]).0 < (
    #[trigger] list[j]).0 by {
        assert(list[j] == rest[j - 1]);
        assert(falls(t, slot, from + 1, rest[j - 1].0 as int));
        if i > 0 {
            assert(list[i] == rest[i - 1]);
        }
    }
    assert forall|k: int| #[trigger] falls(s, slot, from, k) implies exists|i: int|
        0 <= i < list.len() && (#[trigger] list[i]).0 == k by {
        if k == from {
            assert(list[0].0 == k);
        } else {
            assert(falls(t, slot, from + 1, k));
            let i = choose|i: int| 0 <= i < rest.len() && (#[trigger] rest[i]).0 == k;
            assert(list[i + 1] == rest[i]);
        }
    }
}

/// What is left after a runner met the ghosts from `at` on: `list` is what it ate,
/// and `hit` tells whether one of them caught it.
spec fn is_meeting(
    t: Turn,
    slot: int,
    at: int,
    list: Seq<(usize, u8, u32)>,
    e: Turn,
    hit: bool,
) -> bool {
    let (s, r) = (t.sim, t.sim.runners[slot]);
    &&& is_feast(s, slot, at, list)
    &&& hit <==> exists|k: int| at <= k && #[trigger] catches(s, slot, k)
    &&& e.sim == (SimView { runners: e.sim.runners, ghosts: e.sim.ghosts, ..s })
    &&& e.sim.runners == s.runners.update(slot, e.sim.runners[slot])
    &&& e.sim.runners[slot] == (Runner {
        ghost_combo: (r.ghost_combo + list.len()) as usize,
        score: (r.score + ghost_pay(list, slot)) as u32,
        ..r
    })
    &&& 0 <= ghost_pay(list, slot) <= 1600 * (s.ghosts.len() - at)
    &&& ghost_pay(list, 1 - slot) == 0
    &&& e.sim.ghosts.len() == s.ghosts.len()
    &&& forall|k: int|
        0 <= k < s.ghosts.len() ==> #[trigger] e.sim.ghosts[k] == (if falls(s, slot, at, k) {
            MazeGhost { mode: GhostMode::Eaten, ..s.ghosts[k] }
        } else {
            s.ghosts[k]
        })
    &&& e.events == (EventsView { ghosts_eaten: t.events.ghosts_eaten + list, ..t.events })
}

/// Whether a runner can meet the ghosts from `at` on within the counters.
spec fn can_meet(t: Turn, slot: int, at: int) -> bool {
    &&& t.sim.wf()
    &&& 0 <= slot < 2
    &&& t.sim.runners[slot].state is Alive
    &&& 0 <= at <= t.sim.ghosts.len() <= usize::MAX
    &&& t.sim.runners[slot].score + 1600 * (t.sim.ghosts.len() - at) <= u32::MAX
    &&& t.sim.runners[slot].ghost_combo + (t.sim.ghosts.len() - at) <= usize::MAX
}

proof fn lemma_eating_one_more(
    t: Turn,
    slot: int,
    at: int,
    rest: Seq<(usize, u8, u32)>,
    e: Turn,
    hit: bool,
) -> (list: Seq<(usize, u8, u32)>)
    requires
        can_meet(t, slot, at),
        falls(t.sim, slot, at, at),
        is_meeting(ghost_eaten(t, slot, at), slot, at + 1, rest, e, hit),
    ensures
        is_meeting(t, slot, at, list, e, hit),
{
    let (s, r) = (t.sim, t.sim.runners[slot]);
    let t2 = ghost_eaten(t, slot, at);
    lemma_feast_grows(s, t2.sim, slot, at, rest);
    let head = (at as usize, slot as u8, worth(r.ghost_combo as int) as u32);
    let list = seq![head] + rest;
    assert(t2.events.ghosts_eaten + rest =~= t.events.ghosts_eaten + list);
    lemma_ghost_pay_adds(seq![head], rest, slot);
    lemma_ghost_pay_adds(seq![head], rest, 1 - slot);
    lemma_ghost_pay_of_one(head, slot);
    lemma_ghost_pay_of_one(head, 1 - slot);
    assert(forall|j: int| j > at ==> #[trigger] catches(s, slot, j) == catches(t2.sim, slot, j));
    assert(!catches(s, slot, at));
    assert(hit <==> exists|k: int| at <= k && #[trigger] catches(s, slot, k)) by {
        if hit {
            let k = choose|k: int| at + 1 <= k && #[trigger] catches(t2.sim, slot, k);
            assert(catches(s, slot, k));
        }
        if exists|k: int| at <= k && #[trigger] catches(s, slot, k) {
            let k = choose|k: int| at <= k && #[trigger] catches(s, slot, k);
            assert(catches(t2.sim, slot, k));
        }
    }
    assert forall|k: int| 0 <= k < s.ghosts.len() implies #[trigger] e.sim.ghosts[k] == (if falls(
        s,
        slot,
        at,
        k,
    ) {
        MazeGhost { mode: GhostMode::Eaten, ..s.ghosts[k] }
    } else {
        s.ghosts[k]
    }) by {
        if falls(s, slot, at, k) && k > at {
            let i = choose|i: int| 0 <= i < list.len() && (#[trigger] list[i]).0 == k;
            assert(list[i] == rest[i - 1]);
            assert(falls(t2.sim, slot, at + 1, rest[i - 1].0 as int));
        } else if falls(t2.sim, slot, at + 1, k) {
            let i = choose|i: int| 0 <= i < rest.len() && (#[trigger] rest[i]).0 == k;
            assert(list[i + 1] == rest[i]);
            assert(falls(s, slot, at, list[i + 1].0 as int));
        }
    }
    assert(e.sim.runners =~= s.runners.update(slot, e.sim.runners[slot]));
    assert(e.events =~= (EventsView { ghosts_eaten: t.events.ghosts_eaten + list, ..t.events }));
    list
}

proof fn lemma_passing_one_by(
    t: Turn,
    slot: int,
    at: int,
    list: Seq<(usize, u8, u32)>,
    e: Turn,
    hit: bool,
)
    requires
        can_meet(t, slot, at),
        !falls(t.sim, slot, at, at),
        !catches(t.sim, slot, at),
        at < t.sim.ghosts.len(),
        is_meeting(t, slot, at + 1, list, e, hit),
    ensures
        is_meeting(t, slot, at, list, e, hit),
{
    let (s, r) = (t.sim, t.sim.runners[slot]);
    assert forall|k: int| #[trigger] falls(s, slot, at, k) == falls(s, slot, at + 1, k) by {
        if falls(s, slot, at + 1, k) {
            assert forall|j: int| at <= j < k implies !#[trigger] catches(s, slot, j) by {}
        }
        if falls(s, slot, at, k) {
            assert forall|j: int| at + 1 <= j < k implies !#[trigger] catches(s, slot, j) by {}
        }
    }
    assert forall|i: int| 0 <= i < list.len() implies {
        &&& (#[trigger] list[i]).1 == slot
        &&& list[i].2 == worth(r.ghost_combo + i)
        &&& falls(s, slot, at, list[i].0 as int)
    } by {
        assert(falls(s, slot, at + 1, list[i].0 as int));
    }
    assert forall|k: int| #[trigger] falls(s, slot, at, k) implies exists|i: int|
        0 <= i < list.len() && (#[trigger] list[i]).0 == k by {
        assert(falls(s, slot, at + 1, k));
    }
}

/// What meeting the ghosts does to one runner and to the ghosts.
proof fn lemma_contacts_in_full(t: Turn, slot: int, from: nat) -> (list: Seq<(usize, u8, u32)>)
    requires
        can_meet(t, slot, from as int),
    ensures
        is_meeting(
            t,
            slot,
            from as int,
            list,
            contacts(t, slot, from).0,
            contacts(t, slot, from).1,
        ),
    decreases t.sim.ghosts.len() - from,
{
    let (s, r) = (t.sim, t.sim.runners[slot]);
    let at = from as int;
    let (e, hit) = contacts(t, slot, from);
    assert(t.events.ghosts_eaten + Seq::empty() =~= t.events.ghosts_eaten);
    assert(s.runners.update(slot, r) =~= s.runners);
    if from >= s.ghosts.len() {
        Seq::empty()
    } else {
        let g = s.ghosts[at];
        assert(g.sound());
        law_touching_is_being_close(r.pos, g.pos);
        if falls(s, slot, at, at) {
            let t2 = ghost_eaten(t, slot, at);
            assert(t2.sim.wf()) by {
                assert forall|i: int| 0 <= i < t2.sim.ghosts.len() implies (
                #[trigger] t2.sim.ghosts[i]).sound() by {
                    assert(s.ghosts[i].sound());
                }
            }
            let rest = lemma_contacts_in_full(t2, slot, from + 1);
            lemma_eating_one_more(t, slot, at, rest, e, hit)
        } else if catches(s, slot, at) {
            assert forall|k: int| !#[trigger] falls(s, slot, at, k) by {
                if falls(s, slot, at, k) {
                    assert(!catches(s, slot, at));
                }
            }
            Seq::empty()
        } else {
            assert(contacts(t, slot, from) == contacts(t, slot, from + 1)) by {
                if !(g.mode is Frightened) || !close(r.pos, g.pos) {
                } else {
                    assert(!r.is_energized(s.elapsed)) by {
                        if r.is_energized(s.elapsed) {
                            assert(falls(s, slot, at, at));
                        }
                    }
                }
            }
            let list = lemma_contacts_in_full(t, slot, from + 1);
            lemma_passing_one_by(t, slot, at, list, e, hit);
            list
        }
    }
}

/// Whether a ghost catches a runner that is on the board.
pub open spec fn caught(s: SimView, slot: int) -> bool {
    s.runners[slot].state is Alive && exists|k: int| #[trigger] catches(s, slot, k)
}

/// Whether a ghost goes to a runner. The first slot has the first bite.
pub open spec fn goes_to(s: SimView, slot: int, k: int) -> bool {
    falls(s, slot, 0, k) && (slot == 1 ==> !falls(s, 0, 0, k))
}

/// How many ghosts a list holds for a slot.
pub open spec fn ghost_tally(list: Seq<(usize, u8, u32)>, slot: int) -> int
    decreases list.len(),
{
    if list.len() == 0 {
        0
    } else {
        ghost_tally(list.drop_last(), slot) + (if list.last().1 == slot {
            1int
        } else {
            0
        })
    }
}

/// Whether every ghost of a list but a slot's first is worth twice the one before,
/// up to the limit of the chain.
pub open spec fn chained(s: SimView, list: Seq<(usize, u8, u32)>, i: int) -> bool {
    if i > 0 && list[i - 1].1 == list[i].1 {
        list[i].2 == (if list[i - 1].2 < 1600 {
            2 * list[i - 1].2
        } else {
            1600
        })
    } else {
        list[i].2 == worth(s.runners[list[i].1 as int].ghost_combo as int)
    }
}

/// What a list of all the ghosts eaten in one tick has to look like: every ghost
/// that goes to a runner, once, in the order of slots and ghosts.
pub open spec fn is_menu(s: SimView, list: Seq<(usize, u8, u32)>) -> bool {
    &&& forall|i: int|
        #![trigger list[i]]
        0 <= i < list.len() ==> list[i].1 < 2 && goes_to(s, list[i].1 as int, list[i].0 as int)
            && chained(s, list, i)
    &&& forall|slot: int, k: int|
        0 <= slot < 2 && #[trigger] goes_to(s, slot, k) ==> exists|i: int|
            0 <= i < list.len() && (#[trigger] list[i]).0 == k && list[i].1 == slot
    &&& forall|i: int, j: int|
        0 <= i < j < list.len() ==> (#[trigger] list[i]).1 <= (#[trigger] list[j]).1 && (list[i].1
            == list[j].1 ==> list[i].0 < list[j].0)
}

/// A runner after meeting the ghosts, with the points and ghosts it got.
pub open spec fn is_survivor(s: SimView, slot: int, pay: int, ghosts: int, after: Runner) -> bool {
    let r = s.runners[slot];
    if caught(s, slot) {
        let lives = if r.lives > 0 {
            r.lives - 1
        } else {
            0
        };
        &&& after.lives == lives
        &&& after.state == (if lives == 0 {
            RunnerState::Out
        } else {
            RunnerState::Dying
        })
        &&& after.respawn_at == (if lives == 0 {
            r.respawn_at as int
        } else {
            s.elapsed + 18_000
        })
        &&& after.energized_until == 0
        &&& after.ghost_combo == 0
        &&& after.score == r.score + pay
        &&& after == (Runner {
            lives: after.lives,
            state: after.state,
            respawn_at: after.respawn_at,
            energized_until: 0,
            ghost_combo: 0,
            score: after.score,
            ..r
        })
    } else {
        &&& after.ghost_combo == r.ghost_combo + ghosts
        &&& after.score == r.score + pay
        &&& after == (Runner { ghost_combo: after.ghost_combo, score: after.score, ..r })
    }
}

/// A ghost after everyone met everyone: eyes if it was eaten; else, if anyone died
/// and it was not eyes before, off to its corner for three seconds.
pub open spec fn is_aftermath(s: SimView, k: int, after: MazeGhost) -> bool {
    let g = s.ghosts[k];
    &&& after.pos == g.pos && after.personality == g.personality && after.scatter_corner
        == g.scatter_corner && after.penned == g.penned
    &&& if goes_to(s, 0, k) || goes_to(s, 1, k) {
        after.mode is Eaten && after.mode_timer == g.mode_timer
    } else if (caught(s, 0) || caught(s, 1)) && !(g.mode is Eaten) {
        after.mode is Scatter && after.mode_timer == 36_000
    } else {
        after == g
    }
}

proof fn lemma_feast_in_numbers(list: Seq<(usize, u8, u32)>, slot: int)
    requires
        0 <= slot < 2,
        forall|i: int| 0 <= i < list.len() ==> (#[trigger] list[i]).1 == slot,
    ensures
        ghost_tally(list, slot) == list.len(),
        ghost_tally(list, 1 - slot) == 0,
    decreases list.len(),
{
    if list.len() > 0 {
        assert(list.last().1 == slot);
        assert forall|i: int| 0 <= i < list.drop_last().len() implies (
        #[trigger] list.drop_last()[i]).1 == slot by {
            assert(list[i].1 == slot);
        }
        lemma_feast_in_numbers(list.drop_last(), slot);
    }
}

proof fn lemma_ghost_tally_adds(a: Seq<(usize, u8, u32)>, b: Seq<(usize, u8, u32)>, slot: int)
    ensures
        ghost_tally(a + b, slot) == ghost_tally(a, slot) + ghost_tally(b, slot),
    decreases b.len(),
{
    if b.len() == 0 {
        assert(a + b =~= a);
    } else {
        assert((a + b).drop_last() =~= a + b.drop_last());
        lemma_ghost_tally_adds(a, b.drop_last(), slot);
    }
}

/// One runner's part of a meeting, whether it is on the board or not.
proof fn lemma_met_in_full(t: Turn, slot: int) -> (list: Seq<(usize, u8, u32)>)
    requires
        t.sim.wf(),
        0 <= slot < 2,
        t.sim.ghosts.len() <= usize::MAX,
        t.sim.runners[slot].score + 1600 * t.sim.ghosts.len() <= u32::MAX,
        t.sim.runners[slot].ghost_combo + t.sim.ghosts.len() <= usize::MAX,
    ensures
        ({
            let (s, r, e) = (t.sim, t.sim.runners[slot], met(t, slot).0.sim);
            let x = e.runners[slot];
            &&& e == (SimView { runners: e.runners, ghosts: e.ghosts, ..s })
            &&& e.runners.len() == 2 && e.runners[1 - slot] == s.runners[1 - slot]
            &&& x.ghost_combo == r.ghost_combo + list.len()
            &&& x.score == r.score + ghost_pay(list, slot)
            &&& x == (Runner { ghost_combo: x.ghost_combo, score: x.score, ..r })
            &&& e.ghosts.len() == s.ghosts.len()
            &&& forall|k: int|
                0 <= k < s.ghosts.len() ==> #[trigger] e.ghosts[k] == (if falls(s, slot, 0, k) {
                    MazeGhost { mode: GhostMode::Eaten, ..s.ghosts[k] }
                } else {
                    s.ghosts[k]
                })
        }),
        met(t, slot).1 == caught(t.sim, slot),
        is_feast(t.sim, slot, 0, list),
        met(t, slot).0.events == (EventsView {
            ghosts_eaten: t.events.ghosts_eaten + list,
            ..t.events
        }),
        ghost_pay(list, 1 - slot) == 0,
        ghost_tally(list, slot) == list.len(),
        ghost_tally(list, 1 - slot) == 0,
{
    if t.sim.runners[slot].state is Alive {
        let list = lemma_contacts_in_full(t, slot, 0);
        lemma_feast_in_numbers(list, slot);
        assert(met(t, slot).1 == caught(t.sim, slot)) by {
            if caught(t.sim, slot) {
                let k = choose|k: int| #[trigger] catches(t.sim, slot, k);
                assert(0 <= k && catches(t.sim, slot, k));
            }
        }
        list
    } else {
        assert(t.events.ghosts_eaten + Seq::empty() =~= t.events.ghosts_eaten);
        Seq::empty()
    }
}

/// What the second runner finds once the first one has met the ghosts.
proof fn lemma_second_helping(s: SimView, first: SimView)
    requires
        s.runners.len() == 2,
        first.runners.len() == 2,
        first.elapsed == s.elapsed,
        first.runners[1] == s.runners[1],
        first.ghosts.len() == s.ghosts.len(),
        forall|k: int|
            0 <= k < s.ghosts.len() ==> #[trigger] first.ghosts[k] == (if falls(s, 0, 0, k) {
                MazeGhost { mode: GhostMode::Eaten, ..s.ghosts[k] }
            } else {
                s.ghosts[k]
            }),
    ensures
        forall|k: int| #[trigger] catches(first, 1, k) == catches(s, 1, k),
        forall|k: int| #[trigger] falls(first, 1, 0, k) == goes_to(s, 1, k),
        caught(first, 1) == caught(s, 1),
{
    assert forall|k: int| #[trigger] catches(first, 1, k) == catches(s, 1, k) by {
        if 0 <= k < s.ghosts.len() {
            assert(first.ghosts[k].pos == s.ghosts[k].pos);
        }
    }
    assert forall|k: int| #[trigger] falls(first, 1, 0, k) == goes_to(s, 1, k) by {
        if falls(first, 1, 0, k) {
            assert forall|j: int| 0 <= j < k implies !#[trigger] catches(s, 1, j) by {
                assert(!catches(first, 1, j));
            }
        }
        if goes_to(s, 1, k) {
            assert forall|j: int| 0 <= j < k implies !#[trigger] catches(first, 1, j) by {
                assert(!catches(s, 1, j));
            }
        }
    }
    if caught(first, 1) {
        let k = choose|k: int| #[trigger] catches(first, 1, k);
        assert(catches(s, 1, k));
    }
    if caught(s, 1) {
        let k = choose|k: int| #[trigger] catches(s, 1, k);
        assert(catches(first, 1, k));
    }
}

proof fn lemma_menu(
    s: SimView,
    first: SimView,
    a: Seq<(usize, u8, u32)>,
    b: Seq<(usize, u8, u32)>,
)
    requires
        s.runners.len() == 2,
        first.runners[1] == s.runners[1],
        forall|k: int| #[trigger] falls(first, 1, 0, k) == goes_to(s, 1, k),
        is_feast(s, 0, 0, a),
        is_feast(first, 1, 0, b),
    ensures
        is_menu(s, a + b),
{
    let list = a + b;
    assert forall|i: int|
        #![trigger list[i]]
        0 <= i < list.len() implies list[i].1 < 2 && goes_to(s, list[i].1 as int, list[i].0 as int)
        && chained(s, list, i) by {
        if i < a.len() {
            assert(list[i] == a[i]);
            assert(falls(s, 0, 0, a[i].0 as int));
            if i > 0 {
                assert(list[i - 1] == a[i - 1]);
            }
        } else {
            assert(list[i] == b[i - a.len()]);
            assert(falls(first, 1, 0, b[i - a.len()].0 as int));
            if i > 0 {
                if i - 1 < a.len() {
                    assert(list[i - 1] == a[i - 1]);
                } else {
                    assert(list[i - 1] == b[i - 1 - a.len()]);
                }
            }
        }
    }
    assert forall|slot: int, k: int| 0 <= slot < 2 && #[trigger] goes_to(s, slot, k) implies exists|
        i: int,
    |
        0 <= i < list.len() && (#[trigger] list[i]).0 == k && list[i].1 == slot by {
        if slot == 0 {
            assert(falls(s, 0, 0, k));
            let i = choose|i: int| 0 <= i < a.len() && (#[trigger] a[i]).0 == k;
            assert(list[i] == a[i]);
        } else {
            assert(falls(first, 1, 0, k));
            let i = choose|i: int| 0 <= i < b.len() && (#[trigger] b[i]).0 == k;
            assert(list[i + a.len()] == b[i]);
        }
    }
    assert forall|i: int, j: int| 0 <= i < j < list.len() implies (#[trigger] list[i]).1 <= (
    #[trigger] list[j]).1 && (list[i].1 == list[j].1 ==> list[i].0 < list[j].0) by {
        if i < a.len() {
            assert(list[i] == a[i]);
        } else {
            assert(list[i] == b[i - a.len()]);
        }
        if j < a.len() {
            assert(list[j] == a[j]);
        } else {
            assert(list[j] == b[j - a.len()]);
        }
    }
}

/// Who is on a list of slots.
pub open spec fn slots_in(first: bool, second: bool) -> Seq<u8> {
    if first && second {
        seq![0u8, 1u8]
    } else if first {
        seq![0u8]
    } else if second {
        seq![1u8]
    } else {
        Seq::empty()
    }
}

/// What is left after both runners met the ghosts.
pub open spec fn is_showdown(s: SimView, e: SimView, events: EventsView) -> bool {
    &&& is_menu(s, events.ghosts_eaten)
    &&& events.deaths == slots_in(caught(s, 0), caught(s, 1))
    &&& events.eliminated == slots_in(
        caught(s, 0) && s.runners[0].lives <= 1,
        caught(s, 1) && s.runners[1].lives <= 1,
    )
    &&& e.ghosts.len() == s.ghosts.len()
    &&& forall|k: int| 0 <= k < s.ghosts.len() ==> is_aftermath(s, k, #[trigger] e.ghosts[k])
    &&& e.runners.len() == 2
    &&& forall|slot: int|
        0 <= slot < 2 ==> is_survivor(
            s,
            slot,
            ghost_pay(events.ghosts_eaten, slot),
            ghost_tally(events.ghosts_eaten, slot),
            #[trigger] e.runners[slot],
        )
}

/// A runner before and after it lost a life.
spec fn is_dead(r: Runner, now: int, x: Runner) -> bool {
    let lives = if r.lives > 0 {
        r.lives - 1
    } else {
        0
    };
    &&& x.lives == lives
    &&& x.state == (if lives == 0 {
        RunnerState::Out
    } else {
        RunnerState::Dying
    })
    &&& x.respawn_at == (if lives == 0 {
        r.respawn_at as int
    } else {
        now + 18_000
    })
    &&& x == (Runner {
        lives: x.lives,
        state: x.state,
        respawn_at: x.respawn_at,
        energized_until: 0,
        ghost_combo: 0,
        ..r
    })
}

/// A ghost before and after somebody died.
spec fn is_cleared(g: MazeGhost, x: MazeGhost) -> bool {
    if g.mode is Eaten {
        x == g
    } else {
        x == (MazeGhost { mode: GhostMode::Scatter, mode_timer: 36_000, ..g })
    }
}

proof fn lemma_killed_in_full(t: Turn, slot: int)
    requires
        t.sim.runners.len() == 2,
        0 <= slot < 2,
        t.sim.runners[slot].state is Alive,
        t.sim.elapsed <= i64::MAX - 18_000,
    ensures
        ({
            let (s, e) = (t.sim, killed(t, slot));
            &&& e.sim == (SimView { runners: e.sim.runners, ghosts: e.sim.ghosts, ..s })
            &&& e.sim.runners.len() == 2
            &&& is_dead(s.runners[slot], s.elapsed as int, e.sim.runners[slot])
            &&& e.sim.runners[1 - slot] == s.runners[1 - slot]
            &&& e.sim.ghosts.len() == s.ghosts.len()
            &&& forall|k: int|
                0 <= k < s.ghosts.len() ==> is_cleared(s.ghosts[k], #[trigger] e.sim.ghosts[k])
            &&& e.events == (EventsView {
                deaths: t.events.deaths.push(slot as u8),
                eliminated: if s.runners[slot].lives <= 1 {
                    t.events.eliminated.push(slot as u8)
                } else {
                    t.events.eliminated
                },
                ..t.events
            })
        }),
{
}

/// A turn after the deaths of a tick, the first slot's first.
spec fn tolled(t: Turn, hit0: bool, hit1: bool) -> Turn {
    let after0 = if hit0 {
        killed(t, 0)
    } else {
        t
    };
    if hit1 {
        killed(after0, 1)
    } else {
        after0
    }
}

/// What the deaths of a tick do to the board.
proof fn lemma_toll(t: Turn, hit0: bool, hit1: bool)
    requires
        t.sim.runners.len() == 2,
        hit0 ==> t.sim.runners[0].state is Alive,
        hit1 ==> t.sim.runners[1].state is Alive,
        t.sim.elapsed <= i64::MAX - 18_000,
        t.events.deaths.len() == 0,
        t.events.eliminated.len() == 0,
    ensures
        ({
            let (s, e) = (t.sim, tolled(t, hit0, hit1));
            &&& e.sim == (SimView { runners: e.sim.runners, ghosts: e.sim.ghosts, ..s })
            &&& e.sim.runners.len() == 2
            &&& if hit0 {
                is_dead(s.runners[0], s.elapsed as int, e.sim.runners[0])
            } else {
                e.sim.runners[0] == s.runners[0]
            }
            &&& if hit1 {
                is_dead(s.runners[1], s.elapsed as int, e.sim.runners[1])
            } else {
                e.sim.runners[1] == s.runners[1]
            }
            &&& e.sim.ghosts.len() == s.ghosts.len()
            &&& forall|k: int|
                0 <= k < s.ghosts.len() ==> if hit0 || hit1 {
                    is_cleared(s.ghosts[k], #[trigger] e.sim.ghosts[k])
                } else {
                    e.sim.ghosts[k] == s.ghosts[k]
                }
            &&& e.events.deaths == slots_in(hit0, hit1)
            &&& e.events.eliminated == slots_in(
                hit0 && s.runners[0].lives <= 1,
                hit1 && s.runners[1].lives <= 1,
            )
            &&& e.events == (EventsView {
                deaths: e.events.deaths,
                eliminated: e.events.eliminated,
                ..t.events
            })
        }),
{
    let s = t.sim;
    let after0 = if hit0 {
        killed(t, 0)
    } else {
        t
    };
    if hit0 {
        lemma_killed_in_full(t, 0);
    }
    if hit1 {
        lemma_killed_in_full(after0, 1);
    }
    let e = tolled(t, hit0, hit1);
    assert(e.events.deaths =~= slots_in(hit0, hit1));
    assert(e.events.eliminated =~= slots_in(
        hit0 && s.runners[0].lives <= 1,
        hit1 && s.runners[1].lives <= 1,
    ));
    assert forall|k: int| 0 <= k < s.ghosts.len() implies if hit0 || hit1 {
        is_cleared(s.ghosts[k], #[trigger] e.sim.ghosts[k])
    } else {
        e.sim.ghosts[k] == s.ghosts[k]
    } by {
        if hit0 {
            assert(is_cleared(s.ghosts[k], after0.sim.ghosts[k]));
        }
    }
}

/// What both runners eat before anyone dies.
proof fn lemma_both_meet(t: Turn)
    requires
        t.sim.wf(),
        t.sim.ghosts.len() <= usize::MAX,
        t.sim.total() + 3200 * t.sim.ghosts.len() <= u32::MAX,
        t.sim.runners[0].ghost_combo + t.sim.ghosts.len() <= usize::MAX,
        t.sim.runners[1].ghost_combo + t.sim.ghosts.len() <= usize::MAX,
        t.events.ghosts_eaten.len() == 0,
    ensures
        ({
            let s = t.sim;
            let (first, hit0) = met(t, 0);
            let (both, hit1) = met(first, 1);
            let list = both.events.ghosts_eaten;
            &&& hit0 == caught(s, 0) && hit1 == caught(s, 1)
            &&& is_menu(s, list)
            &&& both.events == (EventsView { ghosts_eaten: list, ..t.events })
            &&& both.sim == (SimView { runners: both.sim.runners, ghosts: both.sim.ghosts, ..s })
            &&& both.sim.runners.len() == 2
            &&& forall|slot: int|
                0 <= slot < 2 ==> {
                    let (r, x) = (s.runners[slot], #[trigger] both.sim.runners[slot]);
                    &&& x.ghost_combo == r.ghost_combo + ghost_tally(list, slot)
                    &&& x.score == r.score + ghost_pay(list, slot)
                    &&& x == (Runner { ghost_combo: x.ghost_combo, score: x.score, ..r })
                }
            &&& both.sim.ghosts.len() == s.ghosts.len()
            &&& forall|k: int|
                0 <= k < s.ghosts.len() ==> #[trigger] both.sim.ghosts[k] == (if goes_to(s, 0, k)
                    || goes_to(s, 1, k) {
                    MazeGhost { mode: GhostMode::Eaten, ..s.ghosts[k] }
                } else {
                    s.ghosts[k]
                })
        }),
{
    let s = t.sim;
    lemma_met(t, 0);
    lemma_met_wf(t, 0);
    let a = lemma_met_in_full(t, 0);
    let (first, hit0) = met(t, 0);
    assert(first.sim.runners[1] == s.runners[1] && first.sim.elapsed == s.elapsed);
    lemma_second_helping(s, first.sim);
    let b = lemma_met_in_full(first, 1);
    let (both, hit1) = met(first, 1);
    lemma_menu(s, first.sim, a, b);
    let list = both.events.ghosts_eaten;
    assert(list =~= a + b);
    lemma_ghost_pay_adds(a, b, 0);
    lemma_ghost_pay_adds(a, b, 1);
    lemma_ghost_tally_adds(a, b, 0);
    lemma_ghost_tally_adds(a, b, 1);
    assert forall|k: int| 0 <= k < s.ghosts.len() implies #[trigger] both.sim.ghosts[k] == (
    if goes_to(s, 0, k) || goes_to(s, 1, k) {
        MazeGhost { mode: GhostMode::Eaten, ..s.ghosts[k] }
    } else {
        s.ghosts[k]
    }) by {
        assert(first.sim.ghosts[k].pos == s.ghosts[k].pos);
        assert(goes_to(s, 0, k) == falls(s, 0, 0, k));
        assert(goes_to(s, 1, k) == falls(first.sim, 1, 0, k));
    }
}

/// Both runners against the ghosts.
proof fn lemma_showdown(t: Turn)
    requires
        t.sim.wf(),
        t.sim.ghosts.len() <= usize::MAX,
        t.sim.elapsed <= i64::MAX - 18_000,
        t.sim.total() + 3200 * t.sim.ghosts.len() <= u32::MAX,
        t.sim.runners[0].ghost_combo + t.sim.ghosts.len() <= usize::MAX,
        t.sim.runners[1].ghost_combo + t.sim.ghosts.len() <= usize::MAX,
        t.events.deaths.len() == 0,
        t.events.eliminated.len() == 0,
        t.events.ghosts_eaten.len() == 0,
    ensures
        is_showdown(t.sim, ghosts_met(t).sim, ghosts_met(t).events),
        ghosts_met(t).sim == (SimView {
            runners: ghosts_met(t).sim.runners,
            ghosts: ghosts_met(t).sim.ghosts,
            ..t.sim
        }),
        ghosts_met(t).events == (EventsView {
            ghosts_eaten: ghosts_met(t).events.ghosts_eaten,
            deaths: ghosts_met(t).events.deaths,
            eliminated: ghosts_met(t).events.eliminated,
            ..t.events
        }),
{
    let s = t.sim;
    let (first, hit0) = met(t, 0);
    let (both, hit1) = met(first, 1);
    lemma_both_meet(t);
    lemma_toll(both, hit0, hit1);
    let e = ghosts_met(t);
    assert(e == tolled(both, hit0, hit1)) by {
        reveal(ghosts_met);
    }
    assert forall|k: int| 0 <= k < s.ghosts.len() implies is_aftermath(
        s,
        k,
        #[trigger] e.sim.ghosts[k],
    ) by {
        assert(both.sim.ghosts[k].pos == s.ghosts[k].pos);
    }
    assert(both.sim.runners[0].lives == s.runners[0].lives);
    assert(both.sim.runners[1].lives == s.runners[1].lives);
}

/// Whether a runner robs the other one: both on the board and touching, the thief
/// energized, the victim neither energized nor immune.
pub open spec fn robs(s: SimView, thief: int) -> bool {
    let (r, v) = (s.runners[thief], s.runners[1 - thief]);
    &&& r.state is Alive && v.state is Alive
    &&& close(r.pos, v.pos)
    &&& s.elapsed < r.energized_until
    &&& s.elapsed >= v.energized_until
    &&& s.elapsed >= v.immune_until
}

/// What a robbery is worth: a tenth, but at least a hundred points, and never more
/// than the victim has. Beyond the whole numbers that single precision holds, a
/// tenth to within one part in a million.
pub open spec fn is_loot(had: int, taken: int) -> bool {
    &&& had < 100 ==> taken == had
    &&& 100 <= had < 1_000 ==> taken == 100
    &&& 1_000 <= had < 0x100_0000 ==> taken == had / 10
    &&& had >= 0x100_0000 ==> had - had / 1_000_000 - 10 <= 10 * taken <= had + had / 1_000_000
}

/// What a robbery does to both runners and puts on record.
pub open spec fn is_robbery(
    s: SimView,
    thief: int,
    e: SimView,
    steals: Seq<(u8, u8, u32)>,
) -> bool {
    let victim = 1 - thief;
    let (r, v) = (s.runners[thief], s.runners[victim]);
    let taken = v.score - e.runners[victim].score;
    &&& is_loot(v.score as int, taken)
    &&& steals == seq![(thief as u8, victim as u8, taken as u32)]
    &&& e.runners[thief].score == r.score + taken
    &&& e.runners[thief] == (Runner { score: e.runners[thief].score, ..r })
    &&& e.runners[victim].stunned_until == s.elapsed + 36_000
    &&& e.runners[victim].immune_until == s.elapsed + 60_000
    &&& e.runners[victim] == (Runner {
        score: e.runners[victim].score,
        stunned_until: e.runners[victim].stunned_until,
        immune_until: e.runners[victim].immune_until,
        ..v
    })
}

proof fn lemma_robbery(t: Turn)
    requires
        t.sim.wf(),
        t.sim.total() <= u32::MAX,
        t.sim.elapsed <= i64::MAX - 60_000,
        t.events.steals.len() == 0,
    ensures
        robs(t.sim, 0) ==> is_robbery(t.sim, 0, robbed(t).sim, robbed(t).events.steals),
        robs(t.sim, 1) ==> is_robbery(t.sim, 1, robbed(t).sim, robbed(t).events.steals),
        !robs(t.sim, 0) && !robs(t.sim, 1) ==> robbed(t) == t,
        robbed(t).sim == (SimView { runners: robbed(t).sim.runners, ..t.sim }),
        robbed(t).events == (EventsView { steals: robbed(t).events.steals, ..t.events }),
{
    reveal(robbed);
    let s = t.sim;
    law_touching_is_being_close(s.runners[0].pos, s.runners[1].pos);
    lemma_a_share_is_a_tenth(s.runners[0].score as int);
    lemma_a_share_is_a_tenth(s.runners[1].score as int);
    if robs(s, 0) {
        assert(thief_of(s) == Some(0int));
        assert(robbed(t).events.steals =~= seq![
            (0u8, 1u8, (s.runners[1].score - robbed(t).sim.runners[1].score) as u32),
        ]);
    } else if robs(s, 1) {
        assert(thief_of(s) == Some(1int));
        assert(robbed(t).events.steals =~= seq![
            (1u8, 0u8, (s.runners[0].score - robbed(t).sim.runners[0].score) as u32),
        ]);
    }
}

/// The board of a running tick once everyone has moved and eaten: what the runners
/// and the ghosts meet on.
pub open spec fn at_contact(s: SimView) -> SimView {
    stages(s).2.sim
}

/// The board of a running tick once the runners and the ghosts have met.
pub open spec fn after_contact(s: SimView) -> SimView {
    stages(s).3.sim
}

proof fn lemma_tick_in_full(s: SimView)
    requires
        s.wf(),
        s.has_room(),
        s.phase is Running,
    ensures
        ({
            let (h, f, e) = (at_contact(s), after_contact(s), ticked(s));
            &&& h.wf() && f.wf()
            &&& h.elapsed == s.elapsed + 400 && f.elapsed == h.elapsed && e.sim.elapsed == h.elapsed
            &&& is_showdown(h, f, e.events)
            &&& f.total() <= u32::MAX
            &&& robs(f, 0) ==> is_robbery(f, 0, e.sim, e.events.steals)
            &&& robs(f, 1) ==> is_robbery(f, 1, e.sim, e.events.steals)
            &&& !robs(f, 0) && !robs(f, 1) ==> e.sim.runners == f.runners && e.events.steals.len()
                == 0
            &&& e.sim.ghosts == f.ghosts
            &&& h.runners == stages(s).1.sim.runners
            &&& e.events.pellets_eaten == stages(s).1.events.pellets_eaten
        }),
{
    lemma_stages(s);
    lemma_room_through_the_tick(s);
    let (out, eaten, hunted, fought, stolen, settled) = stages(s);
    assert(eaten.events == (EventsView {
        pellets_eaten: eaten.events.pellets_eaten,
        ..out.events
    })) by {
        reveal(pellets_eaten);
    }
    assert(hunted.sim.runners == eaten.sim.runners && hunted.sim.wf()) by {
        reveal(ghosts_moved);
        lemma_room_after_moving(s);
        lemma_room_after_eating(out);
        assert forall|i: int| 0 <= i < hunted.sim.ghosts.len() implies (
        #[trigger] hunted.sim.ghosts[i]).sound() by {
            assert(eaten.sim.ghosts[i].sound());
            lemma_ghost_moved_is_sound(eaten.sim, eaten.sim.ghosts[i]);
        }
    }
    lemma_showdown(hunted);
    lemma_robbery(fought);
    assert(settled.sim.runners == stolen.sim.runners && settled.sim.ghosts == stolen.sim.ghosts
        && settled.sim.elapsed == stolen.sim.elapsed && settled.events == (EventsView {
        pellets_spawned: settled.events.pellets_spawned,
        ..stolen.events
    })) by {
        reveal(replenished);
    }
    reveal(judged);
}

/// A ghost on patrol or on the hunt that touches a runner takes exactly one life,
/// whether the runner is energized or not. The runner leaves the board: for good
/// with its last life, else for a second and a half. Nothing else costs a life.
pub proof fn law_a_hunting_ghost_takes_a_life(s: SimView, slot: int)
    requires
        s.wf(),
        s.has_room(),
        s.phase is Running,
        0 <= slot < 2,
    ensures
        ({
            let (h, e) = (at_contact(s), ticked(s));
            let (r, x) = (h.runners[slot], e.sim.runners[slot]);
            let touched = exists|k: int|
                0 <= k < h.ghosts.len() && close(r.pos, (#[trigger] h.ghosts[k]).pos) && (
                h.ghosts[k].mode is Scatter || h.ghosts[k].mode is Chase);
            &&& e.events.deaths.contains(slot as u8) <==> r.state is Alive && touched
            &&& r.state is Alive && touched ==> {
                &&& x.lives == (if r.lives > 0 {
                    r.lives - 1
                } else {
                    0
                })
                &&& x.state == (if r.lives > 1 {
                    RunnerState::Dying
                } else {
                    RunnerState::Out
                })
                &&& r.lives > 1 ==> x.respawn_at == e.sim.elapsed + 18_000
                &&& r.lives <= 1 <==> e.events.eliminated.contains(slot as u8)
                &&& x.energized_until == 0 && x.ghost_combo == 0
            }
            &&& !(r.state is Alive && touched) ==> {
                &&& x.lives == r.lives && x.state == r.state && x.respawn_at == r.respawn_at
                &&& x.energized_until == r.energized_until
                &&& !e.events.eliminated.contains(slot as u8)
            }
            &&& x.pos == r.pos && x.slot == r.slot && x.desired == r.desired
        }),
{
    lemma_tick_in_full(s);
    let (h, f, e) = (at_contact(s), after_contact(s), ticked(s));
    let r = h.runners[slot];
    let touched = exists|k: int|
        0 <= k < h.ghosts.len() && close(r.pos, (#[trigger] h.ghosts[k]).pos) && (h.ghosts[k].mode
            is Scatter || h.ghosts[k].mode is Chase);
    assert((r.state is Alive && touched) == caught(h, slot)) by {
        if touched {
            let k = choose|k: int|
                0 <= k < h.ghosts.len() && close(r.pos, (#[trigger] h.ghosts[k]).pos) && (
                h.ghosts[k].mode is Scatter || h.ghosts[k].mode is Chase);
            assert(catches(h, slot, k));
        }
        if caught(h, slot) {
            let k = choose|k: int| #[trigger] catches(h, slot, k);
            assert(h.ghosts[k].pos == h.ghosts[k].pos);
        }
    }
    assert(is_survivor(
        h,
        slot,
        ghost_pay(e.events.ghosts_eaten, slot),
        ghost_tally(e.events.ghosts_eaten, slot),
        f.runners[slot],
    ));
    lemma_slots_in(caught(h, 0), caught(h, 1));
    lemma_slots_in(
        caught(h, 0) && h.runners[0].lives <= 1,
        caught(h, 1) && h.runners[1].lives <= 1,
    );
}

proof fn lemma_slots_in(first: bool, second: bool)
    ensures
        slots_in(first, second).contains(0u8) == first,
        slots_in(first, second).contains(1u8) == second,
{
    let list = slots_in(first, second);
    if first {
        assert(list[0] == 0u8);
    }
    if second {
        assert(list.last() == 1u8);
    }
}

/// An energized runner eats every fleeing ghost it touches, as far as it gets, and
/// nobody eats anything else. The first is worth two hundred points, or what the
/// chain has reached, and every further one twice as much, up to sixteen hundred.
/// What is eaten turns to eyes. A death sends all the others to their corners.
pub proof fn law_the_energized_eat_what_flees(s: SimView)
    requires
        s.wf(),
        s.has_room(),
        s.phase is Running,
    ensures
        is_menu(at_contact(s), ticked(s).events.ghosts_eaten),
        ticked(s).sim.ghosts.len() == at_contact(s).ghosts.len(),
        forall|k: int|
            0 <= k < at_contact(s).ghosts.len() ==> is_aftermath(
                at_contact(s),
                k,
                #[trigger] ticked(s).sim.ghosts[k],
            ),
        forall|slot: int|
            0 <= slot < 2 && !ticked(s).events.deaths.contains(slot as u8) ==> (
            #[trigger] ticked(s).sim.runners[slot]).ghost_combo
                == at_contact(s).runners[slot].ghost_combo + ghost_tally(
                ticked(s).events.ghosts_eaten,
                slot,
            ),
{
    lemma_tick_in_full(s);
    let (h, f, e) = (at_contact(s), after_contact(s), ticked(s));
    lemma_slots_in(caught(h, 0), caught(h, 1));
    assert forall|slot: int| 0 <= slot < 2 && !e.events.deaths.contains(slot as u8) implies (
    #[trigger] e.sim.runners[slot]).ghost_combo == h.runners[slot].ghost_combo + ghost_tally(
        e.events.ghosts_eaten,
        slot,
    ) by {
        assert(is_survivor(
            h,
            slot,
            ghost_pay(e.events.ghosts_eaten, slot),
            ghost_tally(e.events.ghosts_eaten, slot),
            f.runners[slot],
        ));
    }
}

/// Robbing is complete and fair to both slots. Whenever both runners end a tick on
/// the board and touching, one energized and the other neither energized nor
/// immune, the first has robbed the second, whichever slot it has; and nobody is
/// robbed otherwise. The victim loses a tenth, at least a hundred points if it has
/// them, stands still for three seconds and is safe for five.
pub proof fn law_robbing_is_complete_and_fair(s: SimView, thief: int)
    requires
        s.wf(),
        s.has_room(),
        s.phase is Running,
        0 <= thief < 2,
    ensures
        ({
            let e = ticked(s);
            let victim = 1 - thief;
            let (r, v) = (e.sim.runners[thief], e.sim.runners[victim]);
            let due = r.state is Alive && v.state is Alive && close(r.pos, v.pos) && e.sim.elapsed
                < r.energized_until && e.sim.elapsed >= v.energized_until && e.sim.elapsed
                >= s.runners[victim].immune_until;
            &&& e.events.steals.len() <= 1
            &&& due <==> e.events.steals.len() == 1 && e.events.steals[0].0 == thief
            &&& due ==> {
                let taken = e.events.steals[0].2 as int;
                &&& e.events.steals[0].1 == victim
                &&& is_loot(v.score + taken, taken)
                &&& v.stunned_until == e.sim.elapsed + 36_000
                &&& v.immune_until == e.sim.elapsed + 60_000
            }
            &&& !due ==> v.stunned_until == s.runners[victim].stunned_until && v.immune_until
                == s.runners[victim].immune_until
        }),
{
    lemma_tick_in_full(s);
    lemma_stages(s);
    let victim = 1 - thief;
    let (out, _, _, fought, _, _) = stages(s);
    let (h, f, e) = (at_contact(s), after_contact(s), ticked(s));
    assert(unharmed(s.runners[victim], out.sim.runners[victim]));
    assert(unharmed(s.runners[thief], out.sim.runners[thief]));
    assert(at_most_one_life_lost(out.sim.runners[victim], f.runners[victim]));
    assert(at_most_one_life_lost(out.sim.runners[thief], f.runners[thief]));
    assert(close(f.runners[0].pos, f.runners[1].pos) == close(f.runners[1].pos, f.runners[0].pos))
        by {
        law_touching_is_being_close(f.runners[0].pos, f.runners[1].pos);
    }
}

/// The points a list of eaten pellets holds for a slot: ten each, fifty for a power
/// pellet.
pub open spec fn pellet_pay(list: Seq<(IVec2, PelletKind, u8)>, slot: int) -> int
    decreases list.len(),
{
    if list.len() == 0 {
        0
    } else {
        pellet_pay(list.drop_last(), slot) + (if list.last().2 != slot {
            0int
        } else if list.last().1 is Power {
            50
        } else {
            10
        })
    }
}

/// The points a list of robberies moves to or from a slot.
pub open spec fn robbery_pay(list: Seq<(u8, u8, u32)>, slot: int) -> int
    decreases list.len(),
{
    if list.len() == 0 {
        0
    } else {
        robbery_pay(list.drop_last(), slot) + (if list.last().0 == slot {
            list.last().2 as int
        } else if list.last().1 == slot {
            -list.last().2
        } else {
            0
        })
    }
}

proof fn lemma_robbery_pay_of_one(item: (u8, u8, u32), slot: int)
    ensures
        robbery_pay(seq![item], slot) == (if item.0 == slot {
            item.2 as int
        } else if item.1 == slot {
            -item.2
        } else {
            0
        }),
        robbery_pay(Seq::empty(), slot) == 0,
{
    assert(seq![item].drop_last() =~= Seq::empty());
    assert(robbery_pay(seq![item].drop_last(), slot) == 0);
}

proof fn lemma_pellet_pay_grows(
    list: Seq<(IVec2, PelletKind, u8)>,
    item: (IVec2, PelletKind, u8),
    slot: int,
)
    ensures
        pellet_pay(list.push(item), slot) == pellet_pay(list, slot) + (if item.2 != slot {
            0int
        } else if item.1 is Power {
            50
        } else {
            10
        }),
{
    assert(list.push(item).drop_last() =~= list);
}

/// A runner as a meal leaves it.
pub open spec fn is_fed(r: Runner, meal: Option<PelletKind>, now: i64, x: Runner) -> bool {
    match meal {
        None => x == r,
        Some(PelletKind::Normal) => x.score == r.score + 10 && x == (Runner {
            score: x.score,
            ..r
        }),
        Some(PelletKind::Power) => {
            let steps = now as int / 360_000;
            &&& x.score == r.score + 50
            &&& x.ghost_combo == 0
            &&& x.energized_until == now + (if steps <= 6 {
                12_000 * (8 - steps)
            } else {
                24_000
            })
            &&& x == (Runner {
                score: x.score,
                ghost_combo: 0,
                energized_until: x.energized_until,
                ..r
            })
        },
    }
}

/// The tile a mover stands on: the next one once it is half way there.
pub open spec fn standing_on(p: GridPos) -> IVec2 {
    if p.offset < 6_000_000 {
        p.tile
    } else {
        neighbour(p.tile, p.dir)
    }
}

/// The board of a running tick once the clock has struck and the runners have
/// moved.
pub open spec fn after_moves(s: SimView) -> SimView {
    stages(s).0.sim
}

/// The board of a running tick once the runners have eaten.
pub open spec fn after_meals(s: SimView) -> SimView {
    stages(s).1.sim
}

/// What a runner finds to eat. On one tile the first slot eats first.
pub open spec fn meal(m: SimView, slot: int) -> Option<PelletKind> {
    let (a, b) = (m.runners[0], m.runners[1]);
    if !(m.runners[slot].state is Alive) {
        None
    } else if slot == 1 && a.state is Alive && standing_on(a.pos) == standing_on(b.pos) {
        None
    } else {
        m.pellets.at(standing_on(m.runners[slot].pos))
    }
}

/// The record of a meal.
pub open spec fn meal_record(m: SimView, slot: int) -> Seq<(IVec2, PelletKind, u8)> {
    match meal(m, slot) {
        Some(kind) => seq![(standing_on(m.runners[slot].pos), kind, slot as u8)],
        None => Seq::empty(),
    }
}

/// A ghost after a round of meals in which somebody ate a power pellet: turned
/// round in flight, unless it was fleeing already or eyes.
pub open spec fn is_scared(g: MazeGhost, x: MazeGhost) -> bool {
    if g.mode is Scatter || g.mode is Chase {
        &&& x.mode is Frightened
        &&& x.pos == reversed(g.pos)
        &&& x.mode_timer == g.mode_timer && x.penned == g.penned
        &&& x.personality == g.personality && x.scatter_corner == g.scatter_corner
    } else {
        x == g
    }
}

proof fn lemma_ate_in_full(t: Turn, slot: int)
    requires
        t.sim.wf(),
        0 <= slot < 2,
        0 <= t.sim.elapsed <= i64::MAX - 96_000,
        t.sim.total() + 50 <= u32::MAX,
    ensures
        ({
            let (s, e) = (t.sim, ate(t, slot));
            let tile = standing_on(s.runners[slot].pos);
            let food = if s.runners[slot].state is Alive {
                s.pellets.at(tile)
            } else {
                None
            };
            &&& meal_of(s, slot) == food
            &&& is_fed(s.runners[slot], food, s.elapsed, e.sim.runners[slot])
            &&& e.sim.runners == s.runners.update(slot, e.sim.runners[slot])
            &&& e.sim == (SimView { runners: e.sim.runners, pellets: e.sim.pellets, ..s })
            &&& e.sim.pellets.wf()
            &&& e.sim.pellets.carry == s.pellets.carry
            &&& forall|other: IVec2| #[trigger]
                e.sim.pellets.at(other) == (if food is Some && other == tile {
                    None
                } else {
                    s.pellets.at(other)
                })
            &&& e.events == (EventsView {
                pellets_eaten: e.events.pellets_eaten,
                ..t.events
            })
            &&& e.events.pellets_eaten == (match food {
                Some(kind) => t.events.pellets_eaten.push((tile, kind, slot as u8)),
                None => t.events.pellets_eaten,
            })
        }),
{
    let (s, e) = (t.sim, ate(t, slot));
    let tile = standing_on(s.runners[slot].pos);
    assert(tile == occupied(s.runners[slot].pos));
    assert(e.sim.runners =~= s.runners.update(slot, e.sim.runners[slot]));
    let food = if s.runners[slot].state is Alive {
        s.pellets.at(tile)
    } else {
        None
    };
    assert forall|other: IVec2| #[trigger]
        e.sim.pellets.at(other) == (if food is Some && other == tile {
            None
        } else {
            s.pellets.at(other)
        }) by {
        lemma_with(s.pellets, tile, None, other);
    }
    lemma_with(s.pellets, tile, None, tile);
}

/// A runner on the board eats what lies where it stands and nothing else: ten
/// points, or fifty for a power pellet, which energizes it for eight seconds, one
/// less for every half minute played, but two at least, and starts a new chain.
/// What is eaten is gone, everything else stays, and a power pellet turns every
/// ghost round in flight but those already fleeing and eyes.
pub proof fn law_a_runner_eats_where_it_stands(s: SimView)
    requires
        s.wf(),
        s.has_room(),
        s.phase is Running,
        0 <= s.elapsed,
    ensures
        ({
            let (m, a, e) = (after_moves(s), after_meals(s), ticked(s));
            let feast = meal(m, 0) == Some(PelletKind::Power) || meal(m, 1) == Some(
                PelletKind::Power,
            );
            &&& is_fed(m.runners[0], meal(m, 0), e.sim.elapsed, a.runners[0])
            &&& is_fed(m.runners[1], meal(m, 1), e.sim.elapsed, a.runners[1])
            &&& at_contact(s).runners == a.runners
            &&& e.events.pellets_eaten == meal_record(m, 0) + meal_record(m, 1)
            &&& m.pellets == s.pellets
            &&& forall|tile: IVec2| #[trigger]
                a.pellets.at(tile) == (if exists|slot: int|
                    0 <= slot < 2 && #[trigger] meal(m, slot) is Some && standing_on(
                        m.runners[slot].pos,
                    ) == tile {
                    None
                } else {
                    s.pellets.at(tile)
                })
            &&& at_contact(s).pellets == a.pellets
            &&& a.ghosts.len() == m.ghosts.len()
            &&& forall|k: int|
                0 <= k < m.ghosts.len() ==> if feast {
                    is_scared(m.ghosts[k], #[trigger] a.ghosts[k])
                } else {
                    a.ghosts[k] == m.ghosts[k]
                }
        }),
{
    lemma_stages(s);
    lemma_tick_in_full(s);
    lemma_room_through_the_tick(s);
    lemma_room_after_moving(s);
    lemma_moving(s);
    let (out, eaten, hunted, _, _, _) = stages(s);
    let (m, a, e) = (after_moves(s), after_meals(s), ticked(s));
    reveal(pellets_eaten);
    lemma_ate_in_full(out, 0);
    lemma_ate(out, 0);
    let first = ate(out, 0);
    lemma_ate_in_full(first, 1);
    assert(hunted.sim.pellets == eaten.sim.pellets) by {
        reveal(ghosts_moved);
    }
    let (t0, t1) = (standing_on(m.runners[0].pos), standing_on(m.runners[1].pos));
    assert(meal_of(first.sim, 1) == meal(m, 1));
    assert(meal_of(out.sim, 0) == meal(m, 0));
    assert(e.events.pellets_eaten =~= meal_record(m, 0) + meal_record(m, 1));
    assert forall|tile: IVec2| #[trigger]
        a.pellets.at(tile) == (if exists|slot: int|
            0 <= slot < 2 && #[trigger] meal(m, slot) is Some && standing_on(m.runners[slot].pos)
                == tile {
            None
        } else {
            s.pellets.at(tile)
        }) by {
        assert(first.sim.pellets.at(tile) == first.sim.pellets.at(tile));
        if meal(m, 0) is Some && t0 == tile {
        } else if meal(m, 1) is Some && t1 == tile {
        }
    }
}

/// Energy lasts: a runner that is still on the board after a tick is energized
/// until the time it was before, or until the time its new power pellet gives it.
pub proof fn law_energy_lasts(s: SimView, slot: int)
    requires
        s.wf(),
        s.has_room(),
        s.phase is Running,
        0 <= s.elapsed,
        0 <= slot < 2,
        ticked(s).sim.runners[slot].state is Alive,
    ensures
        ({
            let (e, until) = (ticked(s).sim, ticked(s).sim.runners[slot].energized_until);
            let steps = e.elapsed as int / 360_000;
            let fresh = e.elapsed + (if steps <= 6 {
                12_000 * (8 - steps)
            } else {
                24_000
            });
            until == (if meal(after_moves(s), slot) == Some(PelletKind::Power) {
                fresh
            } else {
                s.runners[slot].energized_until as int
            })
        }),
{
    law_a_runner_eats_where_it_stands(s);
    law_a_hunting_ghost_takes_a_life(s, slot);
    lemma_moving(s);
    let m = after_moves(s);
    assert(m.runners[slot] == moved(respawned(s.runners[slot], m.elapsed), m.elapsed));
}

/// A power pellet carries through the ticks that follow: as long as a runner stays
/// on the board and eats no other, it is energized at every time before its energy
/// ends and at none after.
pub proof fn law_energy_lasts_until_its_time(path: Seq<SimView>, slot: int, n: int)
    requires
        0 <= slot < 2,
        0 <= n < path.len(),
        forall|i: int|
            #![trigger path[i]]
            0 <= i < path.len() ==> path[i].wf() && path[i].has_room() && path[i].phase is Running
                && path[i].elapsed >= 0 && path[i].runners[slot].state is Alive,
        forall|i: int, j: int|
            #![trigger path[i], path[j]]
            0 <= i < path.len() && j == i + 1 && j < path.len() ==> path[j] == ticked(path[i]).sim
                && meal(after_moves(path[i]), slot) != Some(PelletKind::Power),
    ensures
        path[n].runners[slot].energized_until == path[0].runners[slot].energized_until,
        path[n].runners[slot].is_energized(path[n].elapsed) <==> path[n].elapsed
            < path[0].runners[slot].energized_until,
    decreases n,
{
    assert(path[n].runners[slot].state is Alive);
    if n > 0 {
        law_energy_lasts_until_its_time(path, slot, n - 1);
        let (a, b) = (path[n - 1], path[n]);
        assert(b == ticked(a).sim);
        law_energy_lasts(a, slot);
    }
}

/// Every point a runner gains or loses in a tick is for something it did or
/// suffered, at the going rate: pellets, ghosts, and robberies either way.
pub proof fn law_a_runner_is_paid_for_what_it_did(s: SimView, slot: int)
    requires
        s.wf(),
        s.has_room(),
        s.phase is Running,
        0 <= s.elapsed,
        0 <= slot < 2,
    ensures
        ticked(s).sim.runners[slot].score == s.runners[slot].score + pellet_pay(
            ticked(s).events.pellets_eaten,
            slot,
        ) + ghost_pay(ticked(s).events.ghosts_eaten, slot) + robbery_pay(
            ticked(s).events.steals,
            slot,
        ),
{
    law_a_runner_eats_where_it_stands(s);
    lemma_moving(s);
    lemma_tick_in_full(s);
    let (m, a, h, f, e) = (
        after_moves(s),
        after_meals(s),
        at_contact(s),
        after_contact(s),
        ticked(s),
    );
    assert(m.runners[slot].score == s.runners[slot].score);
    assert(a.runners[slot].score == m.runners[slot].score + pellet_pay(
        e.events.pellets_eaten,
        slot,
    )) by {
        let (one, two) = (meal_record(m, 0), meal_record(m, 1));
        if one.len() > 0 {
            lemma_pellet_pay_grows(Seq::empty(), one[0], slot);
            assert(one =~= Seq::empty().push(one[0]));
        }
        if two.len() > 0 {
            lemma_pellet_pay_grows(one, two[0], slot);
            assert(one + two =~= one.push(two[0]));
        } else {
            assert(one + two =~= one);
        }
    }
    assert(is_survivor(
        h,
        slot,
        ghost_pay(e.events.ghosts_eaten, slot),
        ghost_tally(e.events.ghosts_eaten, slot),
        f.runners[slot],
    ));
    if e.events.steals.len() > 0 {
        lemma_robbery_pay_of_one(e.events.steals[0], slot);
        assert(e.events.steals =~= seq![e.events.steals[0]]);
    }
}

/// A runner on the board and not stunned moves for a thirtieth of a second at eight
/// tiles a second; a stunned one stays where it is. One that lost a life waits for
/// its time to come and is then back in its own corner, facing the other one, with
/// no wish and no chain. Moving changes nothing else.
pub proof fn law_runners_move_and_come_back(s: SimView, slot: int)
    requires
        s.wf(),
        s.has_room(),
        s.phase is Running,
        0 <= slot < 2,
    ensures
        ({
            let (r, x, now) = (
                s.runners[slot],
                after_moves(s).runners[slot],
                ticked(s).sim.elapsed,
            );
            let back = r.state is Dying && now >= r.respawn_at;
            let home = if slot == 0 {
                GridPos { tile: IVec2 { x: 6, y: 23 }, offset: 0, dir: Dir::Right }
            } else {
                GridPos { tile: IVec2 { x: 21, y: 23 }, offset: 0, dir: Dir::Left }
            };
            let (start, wish) = if back {
                (home, None)
            } else {
                (r.pos, r.desired)
            };
            &&& now == s.elapsed + 400
            &&& x.state == (if back {
                RunnerState::Alive
            } else {
                r.state
            })
            &&& x.desired == wish
            &&& x.ghost_combo == (if back {
                0
            } else {
                r.ghost_combo
            })
            &&& x.pos == (if x.state is Alive && now >= r.stunned_until {
                advanced(start, wish, Mover::Pacman, 3_200_000).0
            } else {
                start
            })
            &&& x == (Runner {
                state: x.state,
                desired: x.desired,
                ghost_combo: x.ghost_combo,
                pos: x.pos,
                ..r
            })
        }),
{
    lemma_moving(s);
    lemma_tick_in_full(s);
    let m = after_moves(s);
    assert(m.runners[slot] == moved(respawned(s.runners[slot], m.elapsed), m.elapsed));
}

/// The ghosts a tick begins with: those there were, and newcomers in the house when
/// the half minutes played ask for more than there are. Four to begin with, one
/// more after a minute, after two and after three.
pub proof fn law_ghosts_join_with_the_minutes(s: SimView, k: int)
    requires
        s.wf(),
        s.has_room(),
        s.phase is Running,
        0 <= s.elapsed,
        0 <= k < after_moves(s).ghosts.len(),
    ensures
        ({
            let (m, minutes) = (after_moves(s), (s.elapsed + 400) / 720_000);
            let due = if minutes <= 3 {
                4 + minutes
            } else {
                7
            };
            &&& m.ghosts.len() == (if s.ghosts.len() >= due {
                s.ghosts.len() as int
            } else {
                due
            })
            &&& m.ghosts[k] == (if k < s.ghosts.len() {
                s.ghosts[k]
            } else {
                new_ghost(k)
            })
        }),
{
    lemma_moving(s);
    reveal(clock_struck);
    reveal(runners_moved);
    let now = s.elapsed + 400;
    assert(now / 360_000 / 2 == now / 720_000);
}

/// A ghost as it sets out: nobody energized ends its flight, and the clock of patrol
/// and hunt runs, turning it round when it runs out.
pub open spec fn is_ready(g: MazeGhost, awake: bool, x: MazeGhost) -> bool {
    let hunting = g.mode is Chase || (g.mode is Frightened && !awake);
    let left = (if g.mode is Frightened {
        240_000
    } else {
        g.mode_timer as int
    }) - 400;
    &&& x.penned == g.penned && x.personality == g.personality && x.scatter_corner
        == g.scatter_corner
    &&& if g.mode is Eaten || (g.mode is Frightened && awake) {
        x == g
    } else if left > 0 {
        &&& x.mode is Chase <==> hunting
        &&& x.mode is Scatter <==> !hunting
        &&& x.mode_timer == left
        &&& x.pos == g.pos
    } else if hunting {
        x.mode is Scatter && x.mode_timer == 84_000 && x.pos == reversed(g.pos)
    } else {
        x.mode is Chase && x.mode_timer == 240_000 && x.pos == reversed(g.pos)
    }
}

/// How far a ghost gets in one tick: at six and a half tiles a second, a tenth more
/// for every half minute played, six tenths of that in flight and two and a half
/// times that as eyes.
pub open spec fn stride(mode: GhostMode, elapsed: int) -> int {
    let tenths = match mode {
        GhostMode::Frightened => 6int,
        GhostMode::Eaten => 25,
        _ => 10,
    };
    26_000 * (10 + elapsed / 360_000) * tenths
}

/// Every ghost sets out after the meals and walks towards what it wants at the
/// speed of its mood. Frightened ghosts calm down exactly when nobody on the board
/// is energized any more.
pub proof fn law_ghosts_walk_at_the_speed_of_their_mood(s: SimView, k: int) -> (ready: MazeGhost)
    requires
        s.wf(),
        s.has_room(),
        s.phase is Running,
        0 <= s.elapsed,
        s.elapsed + 400 < 360_000 * 0x1_0000_0000,
        0 <= k < after_meals(s).ghosts.len(),
    ensures
        ({
            let (a, now) = (after_meals(s), ticked(s).sim.elapsed);
            let (one, two) = (a.runners[0], a.runners[1]);
            let awake = (one.state is Alive && now < one.energized_until) || (two.state is Alive
                && now < two.energized_until);
            let prey = seq![
                PacTarget { tile: one.pos.tile, dir: one.pos.dir, alive: one.state is Alive },
                PacTarget { tile: two.pos.tile, dir: two.pos.dir, alive: two.state is Alive },
            ];
            &&& is_ready(a.ghosts[k], awake, ready)
            &&& at_contact(s).ghosts.len() == a.ghosts.len()
            &&& at_contact(s).ghosts[k] == walked(
                ready,
                target_of(ready, prey, a.ghosts[0].pos.tile),
                stride(ready.mode, now as int),
                64,
            )
        }),
{
    lemma_tick_in_full(s);
    lemma_moving(s);
    lemma_room_through_the_tick(s);
    let a = after_meals(s);
    reveal(ghosts_moved);
    let calm = if anyone_energized(a) {
        a.ghosts[k]
    } else {
        unfrightened(a.ghosts[k])
    };
    let ready = clocked(calm, 400);
    let (one, two) = (a.runners[0], a.runners[1]);
    let prey = seq![
        PacTarget { tile: one.pos.tile, dir: one.pos.dir, alive: one.state is Alive },
        PacTarget { tile: two.pos.tile, dir: two.pos.dir, alive: two.state is Alive },
    ];
    assert(targets_of(a) =~= prey);
    law_ghost_speed_is_exact(a.elapsed as int);
    let step = a.elapsed as int / 360_000;
    assert(step_at(a.elapsed as int) == step);
    assert(650 * (10 + step) * 6 / 10 * 400 == 26_000 * (10 + step) * 6);
    assert(650 * (10 + step) * 25 / 10 * 400 == 26_000 * (10 + step) * 25);
    assert(650 * (10 + step) * 10 / 10 * 400 == 26_000 * (10 + step) * 10);
    ready
}

/// Whether a tile is open to a new pellet: an empty corridor tile at least four
/// tiles from every runner on the board.
pub open spec fn is_open(s: SimView, field: FieldView, tile: IVec2) -> bool {
    &&& all_corridors().contains(tile)
    &&& field.at(tile) is None
    &&& forall|slot: int|
        0 <= slot < 2 && (#[trigger] s.runners[slot]).state is Alive ==> tile_distance(
            tile,
            s.runners[slot].pos.tile,
        ) >= 4
}

proof fn lemma_open_is_free(s: SimView, field: FieldView, tile: IVec2)
    requires
        s.runners.len() == 2,
    ensures
        is_open(s, field, tile) <==> all_corridors().contains(tile) && field.free(
            tile,
            live_tiles(s),
        ),
{
    let live = live_tiles(s);
    if is_open(s, field, tile) {
        assert forall|i: int| 0 <= i < live.len() implies tile_distance(tile, #[trigger] live[i])
            >= 4 by {
            assert(s.runners[0].state is Alive ==> tile_distance(tile, s.runners[0].pos.tile) >= 4);
            assert(s.runners[1].state is Alive ==> tile_distance(tile, s.runners[1].pos.tile) >= 4);
        }
    }
    if field.free(tile, live) {
        assert forall|slot: int|
            0 <= slot < 2 && (#[trigger] s.runners[slot]).state is Alive implies tile_distance(
            tile,
            s.runners[slot].pos.tile,
        ) >= 4 by {
            if slot == 0 {
                assert(live[0] == s.runners[0].pos.tile);
            } else {
                assert(live.last() == s.runners[1].pos.tile);
                assert(live[live.len() - 1] == s.runners[1].pos.tile);
            }
        }
    }
}

proof fn lemma_room_is_an_open_tile(s: SimView, field: FieldView)
    requires
        s.runners.len() == 2,
    ensures
        field.has_room(live_tiles(s)) <==> exists|tile: IVec2| #[trigger] is_open(s, field, tile),
{
    if field.has_room(live_tiles(s)) {
        let i = choose|i: int|
            0 <= i < all_corridors().len() && field.free(
                #[trigger] all_corridors()[i],
                live_tiles(s),
            );
        lemma_open_is_free(s, field, all_corridors()[i]);
        assert(is_open(s, field, all_corridors()[i]));
    }
    if exists|tile: IVec2| #[trigger] is_open(s, field, tile) {
        let tile = choose|tile: IVec2| #[trigger] is_open(s, field, tile);
        lemma_open_is_free(s, field, tile);
        let i = all_corridors().index_of(tile);
        assert(all_corridors()[i] == tile);
    }
}

/// The board is replenished as the runners stand at the end of the tick. Everything
/// new lies on its own open tile, and nothing else changes. Plain pellets come at
/// three a second, less only when no tile is open. A power pellet comes when its
/// time has come and a tile is open, and sets the time of the next: twenty seconds
/// on, five more for every half minute played.
pub proof fn law_the_board_is_replenished(s: SimView)
    requires
        s.wf(),
        s.has_room(),
        s.phase is Running,
        0 <= s.elapsed,
        s.elapsed + 400 < 360_000 * 0x1_0000_0000,
        s.pellets.carry >= 0,
    ensures
        ({
            let (h, e) = (at_contact(s), ticked(s).sim);
            let list = ticked(s).events.pellets_spawned;
            let due = e.elapsed >= s.next_power_at;
            let powered = list.len() > 0 && list.last().1 is Power;
            let plain = if powered {
                list.len() - 1
            } else {
                list.len() as int
            };
            &&& forall|i: int|
                #![trigger list[i]]
                0 <= i < list.len() ==> is_open(e, h.pellets, list[i].0) && (list[i].1 is Power
                    ==> due && i == list.len() - 1)
            &&& forall|i: int, j: int|
                0 <= i < j < list.len() ==> (#[trigger] list[i]).0 != (#[trigger] list[j]).0
            &&& forall|i: int|
                #![trigger list[i]]
                0 <= i < list.len() ==> e.pellets.at(list[i].0) == Some(list[i].1)
            &&& forall|tile: IVec2|
                #[trigger] e.pellets.at(tile) == h.pellets.at(tile) || exists|i: int|
                    0 <= i < list.len() && (#[trigger] list[i]).0 == tile
            &&& e.pellets.carry == (s.pellets.carry + 1_200) % 12_000
            &&& plain <= (s.pellets.carry + 1_200) / 12_000
            &&& plain < (s.pellets.carry + 1_200) / 12_000 || (due && !powered) ==> forall|
                tile: IVec2,
            |
                !#[trigger] is_open(e, e.pellets, tile)
            &&& e.next_power_at == (if due {
                e.elapsed + 240_000 + 60_000 * (e.elapsed as int / 360_000)
            } else {
                s.next_power_at as int
            })
        }),
{
    lemma_tick_in_full(s);
    lemma_stages(s);
    lemma_room_through_the_tick(s);
    lemma_room_after_moving(s);
    lemma_moving(s);
    law_a_runner_eats_where_it_stands(s);
    let (out, eaten, hunted, fought, stolen, settled) = stages(s);
    let (h, e) = (at_contact(s), ticked(s).sim);
    lemma_meeting_leaves_the_pellets(hunted);
    lemma_robbing(fought);
    assert(stolen.sim.next_power_at == s.next_power_at && stolen.sim.pellets == h.pellets
        && stolen.events.pellets_spawned.len() == 0 && h.pellets.carry == s.pellets.carry
        && stolen.sim.elapsed == e.elapsed && stolen.sim.runners == e.runners) by {
        reveal(clock_struck);
        reveal(runners_moved);
        reveal(pellets_eaten);
        reveal(ghosts_moved);
        reveal(robbed);
        reveal(judged);
        lemma_room_after_eating(out);
        lemma_showdown(hunted);
    }
    reveal(replenished);
    reveal(judged);
    let live = live_tiles(stolen.sim);
    let start = FieldView { carry: h.pellets.carry + 1_200, ..h.pellets };
    let (field, state, spawned) = start.settled(stolen.sim.rng, live);
    assert(h.pellets.dripped(stolen.sim.rng, live, 400) == (field, state, spawned));
    law_drip_lands_on_free_tiles(start, stolen.sim.rng, live);
    law_only_a_fraction_is_carried_over(h.pellets, stolen.sim.rng, live, 400);
    law_the_curve_by_the_half_minute(e.elapsed as int);
    let list = ticked(s).events.pellets_spawned;
    let due = e.elapsed >= s.next_power_at;
    let (powered_field, _, landed) = field.powered(state, live);
    let powered = due && landed is Some;
    assert(stolen.events.pellets_spawned + spawned =~= spawned);
    assert(list == (if powered {
        spawned.push((landed->0, PelletKind::Power))
    } else {
        spawned
    }));
    assert(e.pellets == (if due {
        powered_field
    } else {
        field
    }));
    assert forall|tile: IVec2| #[trigger] h.pellets.at(tile) == start.at(tile) by {}
    law_a_power_pellet_lands_on_a_free_tile(field, state, live, IVec2 { x: 0, y: 0 });
    assert forall|tile: IVec2|
        powered && tile != landed->0 implies #[trigger] powered_field.at(tile) == field.at(
        tile,
    ) by {
        law_a_power_pellet_lands_on_a_free_tile(field, state, live, tile);
    }
    assert(powered_field.carry == field.carry);
    if powered {
        assert(field.free(landed->0, live));
        assert(field.at(landed->0) is None);
        assert(start.at(landed->0) is None) by {
            if exists|i: int| 0 <= i < spawned.len() && (#[trigger] spawned[i]).0 == landed->0 {
                let i = choose|i: int|
                    0 <= i < spawned.len() && (#[trigger] spawned[i]).0 == landed->0;
                assert(field.at(spawned[i].0) == Some(PelletKind::Normal));
            }
        }
    }
    assert forall|i: int|
        #![trigger list[i]]
        0 <= i < list.len() implies is_open(e, h.pellets, list[i].0) && (list[i].1 is Power ==> due
        && i == list.len() - 1) && e.pellets.at(list[i].0) == Some(list[i].1) by {
        lemma_open_is_free(stolen.sim, h.pellets, list[i].0);
        if i < spawned.len() {
            assert(list[i] == spawned[i]);
            assert(start.free(spawned[i].0, live));
            assert(field.at(spawned[i].0) == Some(PelletKind::Normal));
        }
        assert(is_open(stolen.sim, h.pellets, list[i].0));
        assert(is_open(e, h.pellets, list[i].0));
    }
    assert forall|i: int, j: int| 0 <= i < j < list.len() implies (#[trigger] list[i]).0 != (
    #[trigger] list[j]).0 by {
        assert(list[i] == spawned[i]);
        if j < spawned.len() {
            assert(list[j] == spawned[j]);
        } else {
            assert(field.at(spawned[i].0) == Some(PelletKind::Normal));
        }
    }
    assert forall|tile: IVec2|
        #[trigger] e.pellets.at(tile) == h.pellets.at(tile) || exists|i: int|
            0 <= i < list.len() && (#[trigger] list[i]).0 == tile by {
        if powered && landed->0 == tile {
            assert(list[list.len() - 1].0 == tile);
        } else if exists|i: int| 0 <= i < spawned.len() && (#[trigger] spawned[i]).0 == tile {
            let i = choose|i: int| 0 <= i < spawned.len() && (#[trigger] spawned[i]).0 == tile;
            assert(list[i].0 == tile);
        } else {
            assert(field.at(tile) == start.at(tile));
        }
    }
    assert(powered == (list.len() > 0 && list.last().1 is Power)) by {
        if !powered && list.len() > 0 {
            assert(spawned[list.len() - 1].1 is Normal);
        }
    }
    assert(spawned.len() <= (s.pellets.carry + 1_200) / 12_000);
    lemma_room_is_an_open_tile(stolen.sim, field);
    if spawned.len() < (s.pellets.carry + 1_200) / 12_000 || (due && !powered) {
        assert(!field.has_room(live));
        assert forall|tile: IVec2| !#[trigger] is_open(e, e.pellets, tile) by {
            if is_open(e, e.pellets, tile) {
                assert(field.at(tile) is None) by {
                    if powered && landed->0 == tile {
                        assert(field.at(landed->0) is None);
                    }
                }
                assert(is_open(stolen.sim, field, tile));
            }
        }
    }
}

} // verus!
