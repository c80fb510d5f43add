//! What holds of every match.

use vstd::prelude::*;
#[allow(unused_imports)]
use crate::difficulty::{difficulty_at, law_the_curve_is_bounded};
#[allow(unused_imports)]
use crate::ghosts::{
    clocked, frightened, headed, landed, law_a_new_ghost_stands_in_the_house, multiplier_of,
    new_ghost, target_of, unfrightened, walked, MazeGhost, MAX_LEGS,
};
#[allow(unused_imports)]
use crate::grid::{IVec2, SECOND, TICK_DT, TILE_UNITS};
#[allow(unused_imports)]
use crate::movement::{neighbour, occupied, world_of, Dir};
#[allow(unused_imports)]
use crate::maze::{all_corridors, lemma_landmarks, spawn_p0};
#[allow(unused_imports)]
use crate::pellets::{
    law_a_full_field_covers_the_corridors, law_a_power_pellet_lands_on_a_free_tile,
    law_drip_lands_on_free_tiles, law_only_a_fraction_is_carried_over,
    law_pellets_stay_on_corridors, FieldView, PelletKind, DRIP_PER_SEC,
};
#[allow(unused_imports)]
use crate::score::{chain_points, nominal_steal, PELLET, POWER_PELLET};
#[allow(unused_imports)]
use crate::single::lemma_a_share_is_a_tenth;
#[allow(unused_imports)]
use crate::sim::{
    abandoned, anyone_energized, ate, clock_struck, contacts, ghost_eaten, ghosts_met, ghosts_moved,
    home_of, in_touch, judged, killed, lemma_contacts_wf, lemma_ghost_moved_is_sound, lemma_ate,
    lemma_met, lemma_met_wf, lemma_room_after_eating, lemma_room_after_meeting,
    lemma_room_after_moving, lemma_room_through_the_tick, live_tiles, loot, meal_of, met, moved,
    no_events, opening, pellets_eaten, red_tile_of, replenished, respawned, robbed, runners_moved,
    started, steered, targets_of, thief_of, ticked, winner_of, EventsView, MatchPhase, Runner,
    SimView, Turn, CLOCK_END,
};

verus! {

/// What a turn leaves alone of a runner when nobody dies and nobody is robbed.
pub open spec fn unharmed(a: Runner, b: Runner) -> bool {
    &&& a.slot == b.slot
    &&& a.lives == b.lives
    &&& a.stunned_until == b.stunned_until
    &&& a.immune_until == b.immune_until
}

/// The same runner in the same place.
pub open spec fn unmoved(a: Runner, b: Runner) -> bool {
    a.pos == b.pos && a.state == b.state && unharmed(a, b)
}

/// What no stage of a tick but the last touches: the phase, and what the clock
/// already struck.
pub open spec fn same_match(a: SimView, b: SimView) -> bool {
    &&& a.phase == b.phase
    &&& a.elapsed == b.elapsed
    &&& a.tick_count == b.tick_count
    &&& a.ghosts.len() == b.ghosts.len()
    &&& a.runners.len() == 2
    &&& b.runners.len() == 2
}

/// The points on record for a list of pellets.
pub open spec fn pellet_points(eaten: Seq<(IVec2, PelletKind, u8)>) -> int
    decreases eaten.len(),
{
    if eaten.len() == 0 {
        0
    } else {
        pellet_points(eaten.drop_last()) + (match eaten.last().1 {
            PelletKind::Normal => PELLET as int,
            PelletKind::Power => POWER_PELLET as int,
        })
    }
}

/// The points on record for a list of ghosts.
pub open spec fn chain_total(eaten: Seq<(usize, u8, u32)>) -> int
    decreases eaten.len(),
{
    if eaten.len() == 0 {
        0
    } else {
        chain_total(eaten.drop_last()) + eaten.last().2
    }
}

/// All points a tick handed out.
pub open spec fn points(e: EventsView) -> int {
    pellet_points(e.pellets_eaten) + chain_total(e.ghosts_eaten)
}

/// The points on the board that the events do not account for.
pub open spec fn balance(t: Turn) -> int {
    t.sim.total() - points(t.events)
}

pub proof fn lemma_moving(s: SimView)
    requires
        s.wf(),
        s.has_room(),
    ensures
        ({
            let e = runners_moved(clock_struck(s));
            &&& e.phase == s.phase
            &&& e.elapsed == s.elapsed + TICK_DT
            &&& e.tick_count == s.tick_count + 1
            &&& e.ghosts.len() == s.ghosts_due()
            &&& e.runners.len() == 2
            &&& e.pellets == s.pellets
            &&& forall|i: int|
                0 <= i < 2 ==> {
                    let (a, b) = (s.runners[i], #[trigger] e.runners[i]);
                    &&& b == moved(respawned(a, e.elapsed), e.elapsed)
                    &&& unharmed(a, b)
                    &&& a.score == b.score
                    &&& b.state is Out <==> a.state is Out
                }
        }),
{
    reveal(clock_struck);
    reveal(runners_moved);
    law_the_curve_is_bounded(s.elapsed + TICK_DT);
}

proof fn lemma_eating(t: Turn, slot: int)
    requires
        t.sim.wf(),
        0 <= slot < 2,
        t.sim.total() + POWER_PELLET <= u32::MAX,
    ensures
        ({
            let e = ate(t, slot);
            &&& same_match(t.sim, e.sim)
            &&& forall|i: int| 0 <= i < 2 ==> unmoved(t.sim.runners[i], #[trigger] e.sim.runners[i])
            &&& balance(e) == balance(t)
            &&& e.events.deaths == t.events.deaths
            &&& e.events.steals == t.events.steals
            &&& e.sim.wf()
            &&& t.sim.pellets.on_corridors() ==> e.sim.pellets.on_corridors()
        }),
{
    let tile = occupied(t.sim.runners[slot].pos);
    lemma_taking_keeps_to_the_corridors(t.sim, tile);
    if let Some(kind) = meal_of(t.sim, slot) {
        let list = t.events.pellets_eaten;
        let item = (tile, kind, t.sim.runners[slot].slot);
        assert(list.push(item).drop_last() =~= list);
    }
}

proof fn lemma_taking_keeps_to_the_corridors(s: SimView, tile: IVec2)
    requires
        s.wf(),
    ensures
        s.pellets.on_corridors() ==> s.pellets.with(tile, None).on_corridors(),
        s.pellets.with(tile, None).wf(),
{
    if s.pellets.on_corridors() {
        law_pellets_stay_on_corridors(s.pellets, tile, 0, Seq::empty(), 0);
    }
}

proof fn lemma_eaten(t: Turn)
    requires
        t.sim.wf(),
        t.sim.total() + 2 * POWER_PELLET <= u32::MAX,
    ensures
        ({
            let e = pellets_eaten(t);
            &&& same_match(t.sim, e.sim)
            &&& forall|i: int| 0 <= i < 2 ==> unmoved(t.sim.runners[i], #[trigger] e.sim.runners[i])
            &&& balance(e) == balance(t)
            &&& e.events.deaths == t.events.deaths
            &&& e.events.steals == t.events.steals
            &&& t.sim.pellets.on_corridors() ==> e.sim.pellets.on_corridors()
        }),
{
    reveal(pellets_eaten);
    lemma_ate(t, 0);
    lemma_eating(t, 0);
    lemma_eating(ate(t, 0), 1);
}

proof fn lemma_contacts_frame(t: Turn, slot: int, from: nat)
    requires
        t.sim.wf(),
        0 <= slot < 2,
        from <= t.sim.ghosts.len(),
        t.sim.runners[slot].score + 1600 * (t.sim.ghosts.len() - from) <= u32::MAX,
        t.sim.runners[slot].ghost_combo + (t.sim.ghosts.len() - from) <= usize::MAX,
    ensures
        ({
            let e = contacts(t, slot, from).0;
            &&& same_match(t.sim, e.sim)
            &&& e.sim.pellets == t.sim.pellets
            &&& forall|i: int| 0 <= i < 2 ==> unmoved(t.sim.runners[i], #[trigger] e.sim.runners[i])
            &&& balance(e) == balance(t)
            &&& e.events.deaths == t.events.deaths
            &&& e.events.steals == t.events.steals
            &&& e.sim.wf()
        }),
    decreases t.sim.ghosts.len() - from,
{
    lemma_contacts_wf(t, slot, from);
    if from < t.sim.ghosts.len() {
        let r = t.sim.runners[slot];
        let g = t.sim.ghosts[from as int];
        if in_touch(world_of(r.pos), world_of(g.pos)) && r.is_energized(
            t.sim.elapsed,
        ) && g.is_edible() {
            let e = ghost_eaten(t, slot, from as int);
            assert(e.sim.wf()) by {
                assert forall|i: int| 0 <= i < e.sim.ghosts.len() implies (
                #[trigger] e.sim.ghosts[i]).sound() by {
                    assert(t.sim.ghosts[i].sound());
                }
            }
            let list = t.events.ghosts_eaten;
            let item = (from as usize, slot as u8, chain_points(r.ghost_combo as int));
            assert(list.push(item).drop_last() =~= list);
            lemma_contacts_frame(e, slot, from + 1);
        } else if !(g.is_dangerous() && in_touch(
            world_of(r.pos),
            world_of(g.pos),
        )) {
            lemma_contacts_frame(t, slot, from + 1);
        }
    }
}

proof fn lemma_meeting(t: Turn, slot: int)
    requires
        t.sim.wf(),
        0 <= slot < 2,
        t.sim.runners[slot].score + 1600 * t.sim.ghosts.len() <= u32::MAX,
        t.sim.runners[slot].ghost_combo + t.sim.ghosts.len() <= usize::MAX,
    ensures
        ({
            let e = met(t, slot).0;
            &&& same_match(t.sim, e.sim)
            &&& e.sim.pellets == t.sim.pellets
            &&& forall|i: int| 0 <= i < 2 ==> unmoved(t.sim.runners[i], #[trigger] e.sim.runners[i])
            &&& balance(e) == balance(t)
            &&& e.events.deaths == t.events.deaths
            &&& e.events.steals == t.events.steals
            &&& e.sim.wf()
        }),
{
    if t.sim.runners[slot].is_active() {
        lemma_contacts_frame(t, slot, 0);
    }
}

/// How a death changes a runner: not at all, or one life less and off the board.
pub open spec fn at_most_one_life_lost(a: Runner, b: Runner) -> bool {
    ||| unmoved(a, b)
    ||| {
        &&& a.is_active()
        &&& a.slot == b.slot
        &&& a.pos == b.pos
        &&& a.stunned_until == b.stunned_until
        &&& a.immune_until == b.immune_until
        &&& !b.is_active()
        &&& b.lives == (if a.lives > 0 {
            a.lives - 1
        } else {
            0int
        })
        &&& b.state is Out <==> b.lives == 0
    }
}

proof fn lemma_killing(t: Turn, slot: int)
    requires
        t.sim.wf(),
        0 <= slot < 2,
    ensures
        ({
            let e = killed(t, slot);
            &&& same_match(t.sim, e.sim)
            &&& e.sim.pellets == t.sim.pellets
            &&& e.sim.runners[1 - slot] == t.sim.runners[1 - slot]
            &&& at_most_one_life_lost(t.sim.runners[slot], e.sim.runners[slot])
            &&& e.sim.runners[slot].score == t.sim.runners[slot].score
            &&& balance(e) == balance(t)
            &&& e.events.steals == t.events.steals
            &&& e.sim.wf()
        }),
{
    let e = killed(t, slot);
    assert forall|i: int| 0 <= i < e.sim.ghosts.len() implies (
    #[trigger] e.sim.ghosts[i]).sound() by {
        assert(t.sim.ghosts[i].sound());
    }
}

proof fn lemma_ghosts_met(t: Turn)
    requires
        t.sim.wf(),
        t.sim.total() + 3200 * t.sim.ghosts.len() <= u32::MAX,
        t.sim.runners[0].ghost_combo + t.sim.ghosts.len() <= usize::MAX,
        t.sim.runners[1].ghost_combo + t.sim.ghosts.len() <= usize::MAX,
    ensures
        ({
            let e = ghosts_met(t);
            &&& same_match(t.sim, e.sim)
            &&& e.sim.pellets == t.sim.pellets
            &&& forall|i: int|
                0 <= i < 2 ==> at_most_one_life_lost(t.sim.runners[i], #[trigger] e.sim.runners[i])
            &&& balance(e) == balance(t)
            &&& e.events.steals == t.events.steals
            &&& e.sim.wf()
        }),
{
    reveal(ghosts_met);
    lemma_met(t, 0);
    lemma_meeting(t, 0);
    let (first, hit0) = met(t, 0);
    lemma_meeting(first, 1);
    let (both, hit1) = met(first, 1);
    lemma_killing(both, 0);
    let after0 = if hit0 {
        killed(both, 0)
    } else {
        both
    };
    lemma_killing(after0, 1);
    assert(unmoved(t.sim.runners[0], both.sim.runners[0]));
    assert(unmoved(t.sim.runners[1], both.sim.runners[1]));
}

pub proof fn lemma_robbing(t: Turn)
    requires
        t.sim.wf(),
        t.sim.total() <= u32::MAX,
        t.sim.elapsed <= CLOCK_END + TICK_DT,
    ensures
        ({
            let e = robbed(t);
            &&& same_match(t.sim, e.sim)
            &&& e.sim.pellets == t.sim.pellets
            &&& forall|i: int|
                0 <= i < 2 ==> {
                    let (a, b) = (t.sim.runners[i], #[trigger] e.sim.runners[i]);
                    &&& a.pos == b.pos && a.state == b.state && a.lives == b.lives && a.slot
                        == b.slot
                }
            &&& balance(e) == balance(t)
            &&& e.events.deaths == t.events.deaths
            &&& e.sim.wf()
            &&& e.sim.total() == t.sim.total()
        }),
{
    reveal(robbed);
}

proof fn lemma_replenishing(t: Turn)
    requires
        t.sim.wf(),
    ensures
        ({
            let e = replenished(t);
            &&& same_match(t.sim, e.sim)
            &&& e.sim.runners == t.sim.runners
            &&& e.sim.ghosts == t.sim.ghosts
            &&& balance(e) == balance(t)
            &&& e.events.deaths == t.events.deaths
            &&& e.events.steals == t.events.steals
            &&& e.sim.wf()
            &&& t.sim.pellets.on_corridors() ==> e.sim.pellets.on_corridors()
        }),
{
    reveal(replenished);
    let s = t.sim;
    let live = live_tiles(s);
    let (field, state, _) = s.pellets.dripped(s.rng, live, TICK_DT as int);
    let due = FieldView { carry: s.pellets.carry + 3 * TICK_DT, ..s.pellets };
    law_drip_lands_on_free_tiles(due, s.rng, live);
    assert(field.wf());
    assert(field.powered(state, live).0.wf());
    if s.pellets.on_corridors() {
        law_pellets_stay_on_corridors(
            s.pellets,
            IVec2 { x: 0, y: 0 },
            s.rng,
            live,
            TICK_DT as int,
        );
        law_pellets_stay_on_corridors(field, IVec2 { x: 0, y: 0 }, state, live, 0);
    }
}

/// Whether nothing happened to the pellets between two points of a tick.
pub open spec fn same_pellets(a: Turn, b: Turn) -> bool {
    &&& a.sim.pellets == b.sim.pellets
    &&& a.events.pellets_eaten == b.events.pellets_eaten
    &&& a.events.pellets_spawned == b.events.pellets_spawned
}

proof fn lemma_contacts_leave_the_pellets(t: Turn, slot: int, from: nat)
    ensures
        same_pellets(contacts(t, slot, from).0, t),
    decreases t.sim.ghosts.len() - from,
{
    if from < t.sim.ghosts.len() {
        lemma_contacts_leave_the_pellets(t, slot, from + 1);
        let eaten = ghost_eaten(t, slot, from as int);
        assert(eaten.sim.ghosts.len() == t.sim.ghosts.len());
        lemma_contacts_leave_the_pellets(eaten, slot, from + 1);
    }
}

/// Ghosts and thieves leave the pellets alone.
pub proof fn lemma_meeting_leaves_the_pellets(t: Turn)
    ensures
        same_pellets(robbed(ghosts_met(t)), t),
{
    reveal(ghosts_met);
    reveal(robbed);
    let (first, _) = met(t, 0);
    lemma_contacts_leave_the_pellets(t, 0, 0);
    lemma_contacts_leave_the_pellets(first, 1, 0);
}

/// The stages of a running tick, up to the verdict.
pub open spec fn stages(s: SimView) -> (Turn, Turn, Turn, Turn, Turn, Turn) {
    let out = Turn { sim: runners_moved(clock_struck(s)), events: no_events() };
    let eaten = pellets_eaten(out);
    let hunted = Turn { sim: ghosts_moved(eaten.sim), ..eaten };
    let fought = ghosts_met(hunted);
    let stolen = robbed(fought);
    (out, eaten, hunted, fought, stolen, replenished(stolen))
}

pub proof fn lemma_stages(s: SimView)
    requires
        s.wf(),
        s.has_room(),
        s.phase is Running,
    ensures
        ({
            let (out, eaten, hunted, fought, stolen, settled) = stages(s);
            &&& ticked(s) == (Turn { sim: judged(settled.sim), ..settled })
            &&& same_match(out.sim, settled.sim)
            &&& settled.sim.phase is Running
            &&& settled.sim.elapsed == s.elapsed + TICK_DT
            &&& settled.sim.tick_count == s.tick_count + 1
            &&& settled.sim.ghosts.len() == s.ghosts_due()
            &&& settled.sim.wf()
            &&& settled.sim.runners == stolen.sim.runners
            &&& balance(settled) == s.total()
            &&& s.pellets.on_corridors() ==> settled.sim.pellets.on_corridors()
            &&& settled.events.steals == stolen.events.steals
            &&& fought.events.steals.len() == 0
            &&& stolen == robbed(fought)
            &&& fought.sim.wf()
            &&& fought.sim.elapsed == s.elapsed + TICK_DT
            &&& fought.sim.total() <= u32::MAX
            &&& forall|i: int|
                0 <= i < 2 ==> {
                    let (a, b) = (s.runners[i], #[trigger] out.sim.runners[i]);
                    &&& b == moved(respawned(a, fought.sim.elapsed), fought.sim.elapsed)
                    &&& unharmed(a, b)
                    &&& b.state is Out <==> a.state is Out
                }
            &&& forall|i: int|
                0 <= i < 2 ==> at_most_one_life_lost(
                    out.sim.runners[i],
                    #[trigger] fought.sim.runners[i],
                )
            &&& forall|i: int|
                0 <= i < 2 ==> {
                    let (a, b) = (fought.sim.runners[i], #[trigger] stolen.sim.runners[i]);
                    &&& a.pos == b.pos && a.state == b.state && a.lives == b.lives && a.slot
                        == b.slot
                }
        }),
{
    let (out, eaten, hunted, fought, stolen, settled) = stages(s);
    lemma_room_through_the_tick(s);
    lemma_room_after_moving(s);
    lemma_moving(s);
    lemma_room_after_eating(out);
    lemma_eaten(out);
    assert(hunted.sim.wf() && hunted.sim.runners == eaten.sim.runners && same_match(
        eaten.sim,
        hunted.sim,
    ) && hunted.sim.pellets == eaten.sim.pellets) by {
        reveal(ghosts_moved);
        assert forall|i: int| 0 <= i < hunted.sim.ghosts.len() implies (
        #[trigger] hunted.sim.ghosts[i]).sound() by {
            assert(eaten.sim.ghosts[i].sound());
            lemma_ghost_moved_is_sound(eaten.sim, eaten.sim.ghosts[i]);
        }
    }
    lemma_room_after_meeting(hunted);
    lemma_ghosts_met(hunted);
    lemma_robbing(fought);
    lemma_replenishing(stolen);
    assert forall|i: int| 0 <= i < 2 implies at_most_one_life_lost(
        out.sim.runners[i],
        #[trigger] fought.sim.runners[i],
    ) by {
        assert(unmoved(out.sim.runners[i], eaten.sim.runners[i]));
        assert(at_most_one_life_lost(hunted.sim.runners[i], fought.sim.runners[i]));
    }
}

/// A match that is not running stands still: a tick changes nothing and nothing
/// happens.
pub proof fn law_only_a_running_match_moves(s: SimView)
    requires
        !(s.phase is Running),
    ensures
        ticked(s) == (Turn { sim: s, events: no_events() }),
{
}

/// A match opens with both runners alive in their corners, facing each other, with
/// three lives, no points and nothing pending; with the first four ghosts; with a
/// pellet on every corridor tile; with the first power pellet due after twenty
/// seconds; and waiting to be started.
pub proof fn law_a_match_opens_even(seed: u64, slot: int)
    requires
        0 <= slot < 2,
    ensures
        ({
            let s = opening(seed);
            let r = s.runners[slot];
            &&& s.wf()
            &&& s.elapsed == 0 && s.tick_count == 0 && s.phase is Waiting
            &&& s.next_power_at == 240_000
            &&& r.slot == slot && r.state is Alive && r.lives == 3 && r.score == 0
            &&& r.energized_until == 0 && r.stunned_until == 0 && r.immune_until == 0
            &&& r.ghost_combo == 0 && r.desired is None
            &&& r.pos.offset == 0 && r.pos.tile.y == 23
            &&& slot == 0 ==> r.pos.tile.x == 6 && r.pos.dir == Dir::Right
            &&& slot == 1 ==> r.pos.tile.x == 21 && r.pos.dir == Dir::Left
            &&& s.ghosts.len() == 4
            &&& forall|k: int| 0 <= k < 4 ==> #[trigger] s.ghosts[k] == new_ghost(k)
            &&& forall|tile: IVec2| #[trigger]
                s.pellets.at(tile) == (if all_corridors().contains(tile) {
                    Some(PelletKind::Normal)
                } else {
                    None
                })
        }),
{
    lemma_landmarks();
    let s = opening(seed);
    assert forall|tile: IVec2| #[trigger]
        s.pellets.at(tile) == (if all_corridors().contains(tile) {
            Some(PelletKind::Normal)
        } else {
            None
        }) by {
        law_a_full_field_covers_the_corridors(tile);
    }
    assert forall|k: int| 0 <= k < s.ghosts.len() implies (#[trigger] s.ghosts[k]).sound() by {
        law_a_new_ghost_stands_in_the_house(k);
    }
}

/// Steering sets the wish of the slot it names and changes nothing else; a slot that
/// does not exist cannot be steered.
pub proof fn law_steering_only_sets_a_wish(s: SimView, slot: u8, dir: Dir)
    requires
        s.runners.len() == 2,
    ensures
        ({
            let e = steered(s, slot, dir);
            &&& slot < 2 ==> e.runners[slot as int].desired == Some(dir)
            &&& slot < 2 ==> e.runners[slot as int] == (Runner {
                desired: Some(dir),
                ..s.runners[slot as int]
            })
            &&& slot < 2 ==> e.runners[1 - slot] == s.runners[1 - slot]
            &&& slot >= 2 ==> e == s
            &&& e == (SimView { runners: e.runners, ..s }) && e.runners.len() == 2
        }),
{
}

/// Starting a waiting match makes it run; starting any other match, or starting
/// twice, changes nothing more.
pub proof fn law_a_match_starts_once(s: SimView)
    ensures
        s.phase is Waiting ==> started(s).phase is Running,
        !(s.phase is Waiting) ==> started(s) == s,
        started(started(s)) == started(s),
{
}

/// The clock never stalls: a running tick is exactly one step of time. The board
/// stays legitimate, so no runner and no ghost ever stands in a wall, and no
/// ghost is ever lost: there are as many as the difficulty curve asks for, or as
/// there were.
pub proof fn law_a_tick_keeps_the_match_sound(s: SimView)
    requires
        s.wf(),
        s.has_room(),
        s.phase is Running,
    ensures
        ticked(s).sim.wf(),
        ticked(s).sim.elapsed == s.elapsed + TICK_DT,
        ticked(s).sim.tick_count == s.tick_count + 1,
        ticked(s).sim.ghosts.len() == s.ghosts_due(),
        s.pellets.on_corridors() ==> ticked(s).sim.pellets.on_corridors(),
{
    lemma_stages(s);
    reveal(judged);
}

/// A match finishes when both runners are out and not before, and the winner is
/// whoever has more points, nobody on a draw.
pub proof fn law_a_match_ends_when_both_are_out(s: SimView)
    requires
        s.wf(),
        s.has_room(),
        s.phase is Running,
    ensures
        ({
            let e = ticked(s).sim;
            let over = e.runners[0].state is Out && e.runners[1].state is Out;
            e.phase == (if over {
                MatchPhase::Finished { winner: winner_of(e) }
            } else {
                MatchPhase::Running
            })
        }),
{
    lemma_stages(s);
    reveal(judged);
}

/// The verdict changes nothing but the phase, and that only of a running match in
/// which both are out. It then names whoever has more points, or nobody when both
/// have as many.
pub proof fn law_the_verdict_goes_by_the_points(s: SimView)
    ensures
        judged(s) == (SimView { phase: judged(s).phase, ..s }),
        judged(s).phase != s.phase <==> s.phase is Running && s.runners[0].state is Out
            && s.runners[1].state is Out,
        judged(s).phase != s.phase ==> {
            &&& judged(s).phase matches MatchPhase::Finished { winner }
            &&& winner == Some(0u8) <==> s.runners[0].score > s.runners[1].score
            &&& winner == Some(1u8) <==> s.runners[1].score > s.runners[0].score
            &&& winner is None <==> s.runners[0].score == s.runners[1].score
        },
{
    reveal(judged);
}

/// Giving a slot up forfeits its lives and touches nothing else. It ends a
/// running match exactly when the other slot is out too, and giving up twice is
/// harmless.
pub proof fn law_abandoning_forfeits_the_lives(s: SimView, slot: u8)
    requires
        s.wf(),
        slot < 2,
        !(s.runners[slot as int].state is Out),
    ensures
        ({
            let e = abandoned(s, slot);
            &&& e.runners[slot as int].lives == 0
            &&& e.runners[slot as int].state is Out
            &&& e.runners[slot as int].score == s.runners[slot as int].score
            &&& e.runners[1 - slot as int] == s.runners[1 - slot as int]
            &&& e.phase == (if s.phase is Running && s.runners[1 - slot as int].state is Out {
                MatchPhase::Finished { winner: winner_of(s) }
            } else {
                s.phase
            })
            &&& abandoned(e, slot) == e
        }),
{
    reveal(judged);
}

/// A finished match stays finished, with the same winner and the same scores,
/// whatever is done to it.
pub proof fn law_a_finished_match_is_final(s: SimView, slot: u8, dir: Dir)
    requires
        s.wf(),
        s.phase is Finished,
    ensures
        ticked(s).sim == s,
        started(s) == s,
        abandoned(s, slot).phase == s.phase,
        steered(s, slot, dir).phase == s.phase,
        winner_of(abandoned(s, slot)) == winner_of(s),
        winner_of(steered(s, slot, dir)) == winner_of(s),
        forall|i: int|
            0 <= i < 2 ==> (#[trigger] abandoned(s, slot).runners[i]).score == s.runners[i].score,
        forall|i: int|
            0 <= i < 2 ==> (#[trigger] steered(s, slot, dir).runners[i]).score
                == s.runners[i].score,
{
    reveal(judged);
}

/// A tick costs a runner at most one life, and only a runner that was on the
/// board; no tick gives one back. Whoever is out stays out.
pub proof fn law_a_tick_costs_at_most_one_life(s: SimView, slot: int)
    requires
        s.wf(),
        s.has_room(),
        s.phase is Running,
        0 <= slot < 2,
    ensures
        ({
            let (a, b) = (s.runners[slot], ticked(s).sim.runners[slot]);
            &&& b.lives <= a.lives <= b.lives + 1
            &&& a.state is Out ==> b.state is Out && b.lives == a.lives
        }),
{
    lemma_stages(s);
    reveal(judged);
    let (out, _, _, fought, stolen, _) = stages(s);
    assert(unharmed(s.runners[slot], out.sim.runners[slot]));
    assert(at_most_one_life_lost(out.sim.runners[slot], fought.sim.runners[slot]));
    assert(fought.sim.runners[slot].lives == stolen.sim.runners[slot].lives);
}

/// Every point on the board is on record: what the scores gained in a tick is
/// what the events say was eaten. Stealing moves points and makes none.
pub proof fn law_every_point_is_accounted_for(s: SimView)
    requires
        s.wf(),
        s.has_room(),
        s.phase is Running,
    ensures
        ticked(s).sim.total() == s.total() + points(ticked(s).events),
{
    lemma_stages(s);
    reveal(judged);
}

/// Robbing a rival costs no life and sends nobody off the board. It takes what
/// the victim has at most, a tenth with a floor where it can, and the total stays
/// the same.
pub proof fn law_a_steal_moves_points_only(t: Turn)
    requires
        t.sim.wf(),
        t.sim.total() <= u32::MAX,
        t.sim.elapsed <= CLOCK_END + TICK_DT,
    ensures
        robbed(t).sim.total() == t.sim.total(),
        thief_of(t.sim) is None ==> robbed(t) == t,
        thief_of(t.sim) matches Some(thief) ==> {
            let (r, v) = (t.sim.runners[thief], t.sim.runners[1 - thief]);
            let (r2, v2) = (robbed(t).sim.runners[thief], robbed(t).sim.runners[1 - thief]);
            &&& v2.lives == v.lives && v2.state == v.state
            &&& r2.lives == r.lives && r2.state == r.state
            &&& v.score - v2.score == loot(v.score)
            &&& r2.score - r.score == loot(v.score)
            &&& 0 <= loot(v.score) <= v.score
            &&& v.score >= 100 ==> loot(v.score) == nominal_steal(v.score as int)
            &&& v2.is_stunned(t.sim.elapsed)
            &&& v2.is_immune(t.sim.elapsed)
            &&& v2.immune_until == t.sim.elapsed + 5 * SECOND
            &&& v2.stunned_until == t.sim.elapsed + 3 * SECOND
        },
{
    reveal(robbed);
    if let Some(thief) = thief_of(t.sim) {
        lemma_a_share_is_a_tenth(t.sim.runners[1 - thief].score as int);
    }
}

/// Only an energized runner robs, only one that is not, and never two energized
/// ones each other.
pub proof fn law_the_energized_rob_the_others(s: SimView)
    requires
        s.wf(),
    ensures
        thief_of(s) matches Some(thief) ==> {
            &&& 0 <= thief < 2
            &&& s.runners[thief].is_energized(s.elapsed)
            &&& !s.runners[1 - thief].is_energized(s.elapsed)
            &&& s.runners[1 - thief].is_active()
            &&& !s.runners[1 - thief].is_immune(s.elapsed)
        },
{
}

/// Nobody is robbed while immune: no tick that ends before the immunity does
/// takes anything from that slot, and none but a robbery moves the end of it.
pub proof fn law_the_robbed_are_safe(s: SimView, victim: int)
    requires
        s.wf(),
        s.has_room(),
        s.phase is Running,
        0 <= victim < 2,
        s.elapsed + TICK_DT < s.runners[victim].immune_until,
    ensures
        ticked(s).sim.runners[victim].immune_until == s.runners[victim].immune_until,
        forall|k: int|
            0 <= k < ticked(s).events.steals.len() ==> (#[trigger] ticked(s).events.steals[k]).1
                != victim,
{
    lemma_stages(s);
    reveal(judged);
    reveal(robbed);
    let (out, _, _, fought, stolen, settled) = stages(s);
    assert(unharmed(s.runners[victim], out.sim.runners[victim]));
    assert(at_most_one_life_lost(out.sim.runners[victim], fought.sim.runners[victim]));
}

/// A stunned runner that is on the board does not move.
pub proof fn law_the_stunned_stay_put(s: SimView, slot: int)
    requires
        s.wf(),
        s.has_room(),
        s.phase is Running,
        0 <= slot < 2,
        s.runners[slot].is_active(),
        s.elapsed + TICK_DT < s.runners[slot].stunned_until,
    ensures
        ticked(s).sim.runners[slot].pos == s.runners[slot].pos,
{
    lemma_stages(s);
    reveal(judged);
    let (out, _, _, fought, stolen, _) = stages(s);
    assert(out.sim.runners[slot] == s.runners[slot]);
    assert(at_most_one_life_lost(out.sim.runners[slot], fought.sim.runners[slot]));
    assert(fought.sim.runners[slot].pos == stolen.sim.runners[slot].pos);
}

/// A power pellet energizes whoever eats it and frightens every ghost but eyes.
pub proof fn law_a_power_pellet_frightens_every_ghost(t: Turn)
    requires
        t.sim.wf(),
        0 <= t.sim.elapsed <= CLOCK_END + TICK_DT,
        meal_of(t.sim, 0) == Some(PelletKind::Power) || meal_of(ate(t, 0).sim, 1) == Some(
            PelletKind::Power,
        ),
    ensures
        forall|i: int|
            0 <= i < t.sim.ghosts.len() ==> #[trigger] pellets_eaten(t).sim.ghosts[i]
                == frightened(t.sim.ghosts[i]),
        pellets_eaten(t).sim.ghosts.len() == t.sim.ghosts.len(),
        meal_of(t.sim, 0) == Some(PelletKind::Power) ==> pellets_eaten(
            t,
        ).sim.runners[0].is_energized(t.sim.elapsed),
        meal_of(ate(t, 0).sim, 1) == Some(PelletKind::Power) ==> pellets_eaten(
            t,
        ).sim.runners[1].is_energized(t.sim.elapsed),
{
    reveal(pellets_eaten);
    law_the_curve_is_bounded(t.sim.elapsed as int);
}

/// Whoever died is frozen until the freeze is over and then back at its own corner,
/// with the lives it had left.
pub proof fn law_the_dead_come_home(s: SimView, slot: int)
    requires
        s.wf(),
        s.has_room(),
        0 <= slot < 2,
        s.runners[slot].state is Dying,
    ensures
        ({
            let (a, b) = (s.runners[slot], runners_moved(clock_struck(s)).runners[slot]);
            if s.elapsed + TICK_DT >= a.respawn_at {
                &&& b.state is Alive
                &&& b.lives == a.lives
                &&& b.pos.tile == home_of(a.slot).tile
            } else {
                b == a
            }
        }),
{
    reveal(clock_struck);
    reveal(runners_moved);
    let now = (s.elapsed + TICK_DT) as i64;
    assert(runners_moved(clock_struck(s)).runners[slot] == moved(
        respawned(s.runners[slot], now),
        now,
    ));
}

/// A power pellet comes when it is due and not before, on a free tile if there is
/// one, and sets the time of the next.
pub proof fn law_power_pellets_come_on_schedule(t: Turn)
    requires
        t.sim.wf(),
        0 <= t.sim.elapsed <= CLOCK_END + TICK_DT,
    ensures
        ({
            let (e, live) = (replenished(t), live_tiles(t.sim));
            let (field, _, spawned) = t.sim.pellets.dripped(t.sim.rng, live, TICK_DT as int);
            let drops = t.events.pellets_spawned + spawned;
            if t.sim.elapsed < t.sim.next_power_at {
                &&& e.sim.next_power_at == t.sim.next_power_at
                &&& e.events.pellets_spawned == drops
            } else {
                &&& e.sim.next_power_at == t.sim.elapsed + difficulty_at(
                    t.sim.elapsed as int,
                ).power_pellet_interval
                &&& !field.has_room(live) ==> e.events.pellets_spawned == drops
                &&& field.has_room(live) ==> {
                    let tile = e.events.pellets_spawned.last().0;
                    &&& e.events.pellets_spawned == drops.push((tile, PelletKind::Power))
                    &&& field.free(tile, live)
                    &&& e.sim.pellets.at(tile) == Some(PelletKind::Power)
                }
            }
        }),
{
    reveal(replenished);
    let live = live_tiles(t.sim);
    let (field, state, spawned) = t.sim.pellets.dripped(t.sim.rng, live, TICK_DT as int);
    let start = FieldView { carry: t.sim.pellets.carry + DRIP_PER_SEC * TICK_DT, ..t.sim.pellets };
    law_drip_lands_on_free_tiles(start, t.sim.rng, live);
    law_a_power_pellet_lands_on_a_free_tile(field, state, live, spawn_p0());
    law_the_curve_is_bounded(t.sim.elapsed as int);
}

/// What appears in a tick is still there at its end: nothing that just dripped or
/// was just placed is eaten before anyone could see it.
pub proof fn law_what_appears_in_a_tick_stays_for_it(s: SimView)
    requires
        s.wf(),
        s.phase is Running ==> s.has_room(),
    ensures
        forall|i: int|
            0 <= i < ticked(s).events.pellets_spawned.len() ==> {
                let (tile, kind) = #[trigger] ticked(s).events.pellets_spawned[i];
                ticked(s).sim.pellets.at(tile) == Some(kind)
            },
{
    if s.phase is Running {
        lemma_stages(s);
        let (out, eaten, hunted, fought, stolen, settled) = stages(s);
        assert(eaten.events.pellets_spawned == out.events.pellets_spawned) by {
            reveal(pellets_eaten);
        }
        lemma_meeting_leaves_the_pellets(hunted);
        lemma_robbing(fought);
        reveal(replenished);
        reveal(judged);
        let live = live_tiles(stolen.sim);
        let start = FieldView {
            carry: stolen.sim.pellets.carry + DRIP_PER_SEC * TICK_DT,
            ..stolen.sim.pellets
        };
        let (field, state, spawned) = start.settled(stolen.sim.rng, live);
        law_drip_lands_on_free_tiles(start, stolen.sim.rng, live);
        assert(stolen.events.pellets_spawned + spawned =~= spawned);
        let all = ticked(s).events.pellets_spawned;
        assert forall|i: int| 0 <= i < all.len() implies ({
            let (tile, kind) = #[trigger] all[i];
            ticked(s).sim.pellets.at(tile) == Some(kind)
        }) by {
            law_a_power_pellet_lands_on_a_free_tile(field, state, live, all[i].0);
            if i < spawned.len() {
                assert(all[i] == spawned[i]);
                assert(field.at(spawned[i].0) == Some(PelletKind::Normal));
            }
        }
    }
}

/// A match that kept the pace of its own clock: no more points, no longer combos
/// and no more ghosts than that many ticks can bring.
pub open spec fn paced(s: SimView) -> bool {
    &&& s.elapsed == TICK_DT * s.tick_count
    &&& s.total() <= 22_500 * s.tick_count
    &&& s.runners[0].ghost_combo <= 7 * s.tick_count
    &&& s.runners[1].ghost_combo <= 7 * s.tick_count
    &&& s.ghosts.len() <= 7
    &&& forall|i: int| 0 <= i < s.ghosts.len() ==> (#[trigger] s.ghosts[i]).mode_timer >= 0
    &&& 0 <= s.pellets.carry < SECOND
}

/// A match starts out at its pace, and a match at its pace can be
/// stepped for more than an hour and a half.
pub proof fn law_a_paced_match_has_room(s: SimView, seed: u64)
    ensures
        paced(opening(seed)),
        paced(s) && s.runners.len() == 2 && 0 <= s.tick_count <= 190_000 ==> s.has_room(),
{
    law_the_curve_is_bounded(s.elapsed + TICK_DT);
}

/// No ghost's clock has run below zero.
spec fn timers_hold(ghosts: Seq<MazeGhost>) -> bool {
    forall|i: int| 0 <= i < ghosts.len() ==> (#[trigger] ghosts[i]).mode_timer >= 0
}

proof fn lemma_walked_timer(g: MazeGhost, target: IVec2, distance: int, legs: nat)
    requires
        g.mode_timer >= 0,
    ensures
        walked(g, target, distance, legs).mode_timer >= 0,
    decreases legs,
{
    if legs > 0 && distance > 0 {
        let h = if g.pos.offset == 0 {
            headed(g, target)
        } else {
            g
        };
        let ahead = neighbour(h.pos.tile, h.pos.dir);
        lemma_walked_timer(
            landed(h, ahead),
            target,
            distance - (TILE_UNITS - h.pos.offset),
            (legs - 1) as nat,
        );
    }
}

proof fn lemma_contacts_pace(t: Turn, slot: int, from: nat)
    requires
        t.sim.runners.len() == 2,
        0 <= slot < 2,
        from <= t.sim.ghosts.len(),
        timers_hold(t.sim.ghosts),
        t.sim.runners[slot].ghost_combo + (t.sim.ghosts.len() - from) <= usize::MAX,
    ensures
        ({
            let (s, e) = (t.sim, contacts(t, slot, from).0.sim);
            &&& timers_hold(e.ghosts)
            &&& e.ghosts.len() == s.ghosts.len()
            &&& e.runners.len() == 2
            &&& e.runners[slot].ghost_combo <= s.runners[slot].ghost_combo + (s.ghosts.len() - from)
            &&& e.runners[1 - slot] == s.runners[1 - slot]
        }),
    decreases t.sim.ghosts.len() - from,
{
    if from < t.sim.ghosts.len() {
        let e = ghost_eaten(t, slot, from as int);
        lemma_contacts_pace(e, slot, from + 1);
        lemma_contacts_pace(t, slot, from + 1);
    }
}

proof fn lemma_meeting_pace(t: Turn)
    requires
        t.sim.wf(),
        timers_hold(t.sim.ghosts),
        t.sim.runners[0].ghost_combo + t.sim.ghosts.len() <= usize::MAX,
        t.sim.runners[1].ghost_combo + t.sim.ghosts.len() <= usize::MAX,
    ensures
        ({
            let (s, e) = (t.sim, ghosts_met(t).sim);
            &&& timers_hold(e.ghosts)
            &&& e.runners[0].ghost_combo <= s.runners[0].ghost_combo + s.ghosts.len()
            &&& e.runners[1].ghost_combo <= s.runners[1].ghost_combo + s.ghosts.len()
        }),
{
    reveal(ghosts_met);
    lemma_contacts_pace(t, 0, 0);
    let (first, hit0) = met(t, 0);
    lemma_contacts_pace(first, 1, 0);
}

/// A sound match at its pace is still at its pace after a tick.
pub proof fn law_a_tick_keeps_the_pace(s: SimView)
    requires
        s.wf(),
        s.phase is Running,
        paced(s),
        0 <= s.tick_count <= 190_000,
    ensures
        paced(ticked(s).sim),
{
    law_a_paced_match_has_room(s, 0);
    lemma_stages(s);
    lemma_room_through_the_tick(s);
    lemma_room_after_moving(s);
    law_the_curve_is_bounded(s.elapsed + TICK_DT);
    let (out, eaten, hunted, fought, stolen, settled) = stages(s);
    assert(timers_hold(out.sim.ghosts) && out.sim.total() == s.total()
        && out.sim.runners[0].ghost_combo <= s.runners[0].ghost_combo
        && out.sim.runners[1].ghost_combo <= s.runners[1].ghost_combo) by {
        reveal(clock_struck);
        reveal(runners_moved);
        assert forall|i: int| 0 <= i < out.sim.ghosts.len() implies (
        #[trigger] out.sim.ghosts[i]).mode_timer >= 0 by {
            if i < s.ghosts.len() {
                assert(out.sim.ghosts[i] == s.ghosts[i]);
            } else {
                assert(out.sim.ghosts[i] == new_ghost(i));
            }
        }
    }
    lemma_room_after_eating(out);
    lemma_eaten(out);
    assert(timers_hold(eaten.sim.ghosts) && eaten.sim.runners[0].ghost_combo
        <= out.sim.runners[0].ghost_combo && eaten.sim.runners[1].ghost_combo
        <= out.sim.runners[1].ghost_combo) by {
        reveal(pellets_eaten);
        lemma_ate(out, 0);
        lemma_ate(ate(out, 0), 1);
        assert forall|i: int| 0 <= i < eaten.sim.ghosts.len() implies (
        #[trigger] eaten.sim.ghosts[i]).mode_timer >= 0 by {
            assert(out.sim.ghosts[i].mode_timer >= 0);
        }
    }
    assert(timers_hold(hunted.sim.ghosts) && hunted.sim.wf() && hunted.sim.runners
        == eaten.sim.runners && hunted.sim.ghosts.len() == eaten.sim.ghosts.len()) by {
        reveal(ghosts_moved);
        assert forall|i: int| 0 <= i < hunted.sim.ghosts.len() implies (
        #[trigger] hunted.sim.ghosts[i]).mode_timer >= 0 && hunted.sim.ghosts[i].sound() by {
            let g = eaten.sim.ghosts[i];
            assert(g.mode_timer >= 0 && g.sound());
            lemma_ghost_moved_is_sound(eaten.sim, g);
            let calm = if anyone_energized(eaten.sim) {
                g
            } else {
                unfrightened(g)
            };
            let ready = clocked(calm, TICK_DT as int);
            let speed = difficulty_at(eaten.sim.elapsed as int).spec_ghost_speed() * multiplier_of(
                ready.mode,
            ) / 10;
            lemma_walked_timer(
                ready,
                target_of(ready, targets_of(eaten.sim), red_tile_of(eaten.sim)),
                speed * TICK_DT,
                MAX_LEGS as nat,
            );
        }
    }
    lemma_meeting_pace(hunted);
    assert(fought.sim.total() <= hunted.sim.total() + 3200 * hunted.sim.ghosts.len()) by {
        reveal(ghosts_met);
        lemma_met(hunted, 0);
        lemma_met_wf(hunted, 0);
        lemma_met(met(hunted, 0).0, 1);
    }
    lemma_robbing(fought);
    assert(stolen.sim.runners[0].ghost_combo == fought.sim.runners[0].ghost_combo
        && stolen.sim.runners[1].ghost_combo == fought.sim.runners[1].ghost_combo
        && stolen.sim.ghosts == fought.sim.ghosts) by {
        reveal(robbed);
    }
    lemma_replenishing(stolen);
    assert(0 <= settled.sim.pellets.carry < SECOND) by {
        reveal(replenished);
        law_only_a_fraction_is_carried_over(
            stolen.sim.pellets,
            stolen.sim.rng,
            live_tiles(stolen.sim),
            TICK_DT as int,
        );
    }
    reveal(judged);
}

/// Whoever has more points wins, and nobody when both have as many.
pub proof fn law_more_points_win(s: SimView)
    ensures
        s.runners[0].score > s.runners[1].score ==> winner_of(s) == Some(0u8),
        s.runners[0].score < s.runners[1].score ==> winner_of(s) == Some(1u8),
        s.runners[0].score == s.runners[1].score ==> winner_of(s) is None,
{
}

} // verus!
