use pacman_duel::difficulty::Difficulty;
use pacman_duel::ghosts::{GhostMode, MazeGhost, PacTarget};
use pacman_duel::grid::{IVec2, SECOND, TICK_DT};
use pacman_duel::maze::{ghost_house, spawn_p0, spawn_p1, MAZE};
use pacman_duel::movement::{Dir, GridPos};
use pacman_duel::pellets::{PelletField, PelletKind};
use pacman_duel::score;
use pacman_duel::sim::{MatchPhase, RunnerState, Sim};

fn running_sim() -> Sim {
    let mut s = Sim::new(1234);
    s.start();
    s
}

/// Drops every ghost far away and asleep so a test can isolate one rule.
fn park_ghosts(sim: &mut Sim) {
    for g in sim.ghosts.iter_mut() {
        g.pos = GridPos::new(ghost_house(), Dir::Up);
        g.mode = GhostMode::Eaten;
        g.penned = true;
    }
}

#[test]
fn a_new_sim_waits_before_running() {
    let mut s = Sim::new(1);
    assert_eq!(s.phase, MatchPhase::Waiting);
    s.tick();
    assert_eq!(s.elapsed, 0, "a waiting match must not advance");
    s.start();
    s.tick();
    assert!(s.elapsed > 0);
}

#[test]
fn both_players_start_with_three_lives_and_no_score() {
    let s = Sim::new(1);
    for p in &s.runners {
        assert_eq!(p.lives, 3);
        assert_eq!(p.score, 0);
        assert_eq!(p.state, RunnerState::Alive);
    }
}

#[test]
fn eating_a_pellet_is_worth_ten() {
    let mut s = running_sim();
    park_ghosts(&mut s);
    // Clear the board, then plant one pellet right where slot 0 will land.
    s.pellets = PelletField::empty();
    let target = s.runners[0].pos.occupied_tile();
    s.pellets.put(target, PelletKind::Normal);

    let ev = s.tick();
    assert_eq!(s.runners[0].score, score::PELLET);
    assert_eq!(ev.pellets_eaten.len(), 1);
}

#[test]
fn a_power_pellet_energizes_and_frightens_every_ghost() {
    let mut s = running_sim();
    s.pellets = PelletField::empty();
    let target = s.runners[0].pos.occupied_tile();
    s.pellets.put(target, PelletKind::Power);

    s.tick();
    assert!(s.runners[0].is_energized(s.elapsed));
    assert_eq!(s.runners[0].score, score::POWER_PELLET);
    assert!(s.ghosts.iter().all(|g| g.mode == GhostMode::Frightened));
}

#[test]
fn the_ghost_chain_doubles_within_one_energization() {
    let mut s = running_sim();
    s.pellets = PelletField::empty();
    s.runners[0].energized_until = 100 * SECOND;
    for g in s.ghosts.iter_mut() {
        g.frighten();
    }

    let mut awarded = Vec::new();
    for i in 0..4 {
        // Park a frightened ghost on top of slot 0 and let contact resolve.
        s.ghosts[i].pos = s.runners[0].pos;
        s.ghosts[i].mode = GhostMode::Frightened;
        let ev = s.tick();
        awarded.extend(ev.ghosts_eaten.iter().map(|(_, _, pts)| *pts));
    }

    assert_eq!(awarded, vec![200, 400, 800, 1600]);
}

#[test]
fn a_dangerous_ghost_takes_a_life() {
    let mut s = running_sim();
    s.pellets = PelletField::empty();
    s.ghosts[0].pos = s.runners[0].pos;
    s.ghosts[0].mode = GhostMode::Chase;
    s.ghosts[0].penned = false;

    let ev = s.tick();
    assert_eq!(ev.deaths, vec![0]);
    assert_eq!(s.runners[0].lives, 2);
    assert_eq!(s.runners[0].state, RunnerState::Dying);
}

#[test]
fn a_dying_player_respawns_at_their_own_corner() {
    let mut s = running_sim();
    s.pellets = PelletField::empty();
    park_ghosts(&mut s);
    s.runners[1].state = RunnerState::Dying;
    s.runners[1].respawn_at = s.elapsed + SECOND / 1000;
    s.runners[1].pos = GridPos::new(IVec2::new(1, 1), Dir::Up);

    s.tick();
    assert_eq!(s.runners[1].state, RunnerState::Alive);
    assert_eq!(s.runners[1].pos.tile, spawn_p1());
}

#[test]
fn losing_the_last_life_puts_you_out_but_the_match_runs_on() {
    let mut s = running_sim();
    s.pellets = PelletField::empty();
    s.runners[0].lives = 1;
    s.ghosts[0].pos = s.runners[0].pos;
    s.ghosts[0].mode = GhostMode::Chase;
    s.ghosts[0].penned = false;

    let ev = s.tick();
    assert_eq!(ev.eliminated, vec![0]);
    assert_eq!(s.runners[0].state, RunnerState::Out);
    assert_eq!(s.phase, MatchPhase::Running, "slot 1 is still playing");
}

#[test]
fn the_match_finishes_only_when_both_players_are_out() {
    let mut s = running_sim();
    s.runners[0].score = 500;
    s.runners[1].score = 100;

    s.abandon(0);
    assert_eq!(s.phase, MatchPhase::Running);

    s.abandon(1);
    assert_eq!(s.phase, MatchPhase::Finished { winner: Some(0) });
}

#[test]
fn the_winner_is_whoever_scored_more() {
    let mut s = running_sim();
    s.runners[0].score = 10;
    s.runners[1].score = 20;
    s.abandon(0);
    s.abandon(1);
    assert_eq!(s.phase, MatchPhase::Finished { winner: Some(1) });
}

#[test]
fn an_equal_score_is_a_draw() {
    let mut s = running_sim();
    s.runners[0].score = 700;
    s.runners[1].score = 700;
    s.abandon(0);
    s.abandon(1);
    assert_eq!(s.phase, MatchPhase::Finished { winner: None });
}

#[test]
fn ghosts_ignore_a_player_who_is_out() {
    let mut s = running_sim();
    s.abandon(0);
    let targets: Vec<PacTarget> = s
        .runners
        .iter()
        .map(|p| PacTarget {
            tile: p.pos.tile,
            dir: p.pos.dir,
            alive: p.is_active(),
        })
        .collect();

    let mut g = MazeGhost::new(0);
    g.penned = false;
    g.mode = GhostMode::Chase;
    g.pos = GridPos::new(spawn_p0(), Dir::Up);
    assert_eq!(
        g.target(&targets, IVec2::new(0, 0)),
        s.runners[1].pos.tile,
        "every ghost should converge on the survivor"
    );
}

#[test]
fn an_energized_player_robs_a_tenth_and_stuns_the_rival() {
    let mut s = running_sim();
    s.pellets = PelletField::empty();
    park_ghosts(&mut s);
    s.runners[0].energized_until = 100 * SECOND;
    s.runners[1].score = 2000;
    s.runners[1].pos = s.runners[0].pos;

    let ev = s.tick();
    assert_eq!(ev.steals.len(), 1, "expected exactly one steal");
    let (thief, victim, amount) = ev.steals[0];
    assert_eq!((thief, victim, amount), (0, 1, 200));
    assert_eq!(s.runners[1].score, 1800);
    assert_eq!(s.runners[0].score, 200);
    assert!(s.runners[1].is_stunned(s.elapsed));
}

#[test]
fn a_steal_never_costs_a_life() {
    let mut s = running_sim();
    s.pellets = PelletField::empty();
    park_ghosts(&mut s);
    s.runners[0].energized_until = 100 * SECOND;
    s.runners[1].score = 1000;
    s.runners[1].pos = s.runners[0].pos;

    s.tick();
    assert_eq!(s.runners[1].lives, 3, "eating your rival must not cost a life");
    assert_eq!(s.runners[1].state, RunnerState::Alive);
}

#[test]
fn a_robbed_player_is_immune_for_five_seconds() {
    let mut s = running_sim();
    s.pellets = PelletField::empty();
    park_ghosts(&mut s);
    s.runners[0].energized_until = 1000 * SECOND;
    s.runners[1].score = 5000;
    s.runners[1].pos = s.runners[0].pos;

    let first = s.tick();
    assert_eq!(first.steals.len(), 1);

    // Keep them overlapping. Immunity must hold for longer than the stun.
    let mut more = 0;
    for _ in 0..(4 * SECOND / TICK_DT) as usize {
        s.runners[1].pos = s.runners[0].pos;
        more += s.tick().steals.len();
    }
    assert_eq!(more, 0, "a second steal landed inside the immunity window");
}

#[test]
fn two_energized_players_cannot_rob_each_other() {
    let mut s = running_sim();
    s.pellets = PelletField::empty();
    park_ghosts(&mut s);
    s.runners[0].energized_until = 100 * SECOND;
    s.runners[1].energized_until = 100 * SECOND;
    s.runners[1].score = 1000;
    s.runners[1].pos = s.runners[0].pos;

    assert!(s.tick().steals.is_empty());
}

#[test]
fn a_stunned_player_cannot_move() {
    let mut s = running_sim();
    s.pellets = PelletField::empty();
    park_ghosts(&mut s);
    s.runners[1].stunned_until = s.elapsed + 10 * SECOND;
    let before = s.runners[1].pos;

    for _ in 0..10 {
        s.tick();
    }
    assert_eq!(s.runners[1].pos, before);
}

#[test]
fn ghost_count_grows_with_the_difficulty_curve() {
    let mut s = running_sim();
    assert_eq!(s.ghosts.len(), 4);

    // Step 5 (2:30) is still six ghosts.
    s.elapsed = 155 * SECOND;
    s.tick();
    assert_eq!(s.ghosts.len(), 6);

    // Step 6 (3:00) brings the seventh.
    s.elapsed = 185 * SECOND;
    s.tick();
    assert_eq!(s.ghosts.len(), Difficulty::at(s.elapsed).ghost_count);
    assert_eq!(s.ghosts.len(), 7);
}

#[test]
fn power_pellets_appear_on_schedule() {
    let mut s = running_sim();
    s.pellets = PelletField::empty();
    park_ghosts(&mut s);

    let mut powers = 0;
    for _ in 0..(25 * SECOND / TICK_DT) as usize {
        powers += s
            .tick()
            .pellets_spawned
            .iter()
            .filter(|(_, k)| *k == PelletKind::Power)
            .count();
    }
    assert!(powers >= 1, "no power pellet in the first 25 seconds");
}

#[test]
fn the_board_never_runs_dry() {
    let mut s = running_sim();
    s.pellets = PelletField::empty();
    park_ghosts(&mut s);

    for _ in 0..(10 * SECOND / TICK_DT) as usize {
        s.tick();
    }
    assert!(s.pellets.count() > 0, "the drip failed to refill the maze");
}

#[test]
fn abandoning_forfeits_the_remaining_lives() {
    let mut s = running_sim();
    s.abandon(1);
    assert_eq!(s.runners[1].lives, 0);
    assert_eq!(s.runners[1].state, RunnerState::Out);
}

#[test]
fn abandoning_twice_is_harmless() {
    let mut s = running_sim();
    s.runners[0].score = 1;
    s.abandon(1);
    s.abandon(1);
    assert_eq!(s.phase, MatchPhase::Running);
}

#[test]
fn a_five_minute_match_stays_consistent() {
    let mut s = running_sim();
    let ticks = (300 * SECOND / TICK_DT) as usize;

    for i in 0..ticks {
        if i % 37 == 0 {
            s.set_input(0, Dir::all()[i % 4]);
        }
        if i % 53 == 0 {
            s.set_input(1, Dir::all()[(i + 2) % 4]);
        }
        s.tick();

        for p in &s.runners {
            assert!(
                MAZE.walkable_by_pacman(p.pos.tile),
                "slot {} left the maze at {:?}",
                p.slot,
                p.pos.tile
            );
            assert!(p.lives <= score::LIVES);
        }
        for g in &s.ghosts {
            assert!(MAZE.walkable_by_ghost(g.pos.tile));
        }

        if !s.is_running() {
            break;
        }
    }

    assert!(s.elapsed > 0);
}

#[test]
fn the_same_seed_produces_the_same_match() {
    let run = |seed: u64| {
        let mut s = Sim::new(seed);
        s.start();
        for i in 0..600 {
            s.set_input(0, Dir::all()[i % 4]);
            s.tick();
        }
        (s.runners[0].score, s.runners[1].score, s.pellets.count())
    };
    assert_eq!(run(77), run(77));
}

#[test]
fn a_finished_match_stays_finished() {
    let mut s = running_sim();
    s.abandon(0);
    s.abandon(1);
    let clock = s.elapsed;
    s.start();
    s.tick();
    assert_eq!(s.elapsed, clock);
    assert_eq!(s.phase, MatchPhase::Finished { winner: None });
}

#[test]
fn a_steal_from_a_poor_rival_takes_what_there_is() {
    let mut s = running_sim();
    s.pellets = PelletField::empty();
    park_ghosts(&mut s);
    s.runners[0].energized_until = 100 * SECOND;
    s.runners[1].score = 30;
    s.runners[1].pos = s.runners[0].pos;

    let ev = s.tick();
    assert_eq!(ev.steals, vec![(0, 1, 30)]);
    assert_eq!(s.runners[0].score, 30);
    assert_eq!(s.runners[1].score, 0);
}

#[test]
fn an_input_for_an_unknown_slot_is_ignored() {
    let mut s = running_sim();
    s.set_input(7, Dir::Up);
    s.abandon(7);
    assert_eq!(s.phase, MatchPhase::Running);
    assert_eq!(s.runners[0].lives, 3);
}

#[test]
fn a_fresh_match_has_room_to_tick() {
    assert!(running_sim().can_tick());
}

#[test]
fn whoever_is_ahead_is_winning() {
    let mut s = running_sim();
    assert_eq!(s.winner(), None);
    s.runners[1].score = 1;
    assert_eq!(s.winner(), Some(1));
    s.runners[0].score = 2;
    assert_eq!(s.winner(), Some(0));
}

#[test]
fn what_appears_in_a_tick_is_still_there_after_it() {
    let mut s = running_sim();
    park_ghosts(&mut s);
    s.pellets = PelletField::empty();
    let mut seen = 0;
    for _ in 0..900 {
        let ev = s.tick();
        for (tile, kind) in ev.pellets_spawned {
            assert_eq!(s.pellets.at(tile), Some(kind));
            seen += 1;
        }
    }
    assert!(seen > 80, "only {seen} pellets appeared");
}
