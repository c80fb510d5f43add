use pacman_duel::difficulty::{Difficulty, PACMAN_SPEED, STEP_TIME};
use pacman_duel::grid::SECOND;

/// The difficulty some tenths of a second into a match.
fn at_tenths(tenths: i64) -> Difficulty {
    Difficulty::at(tenths * SECOND / 10)
}

#[test]
fn the_table_matches_the_spec() {
    let cases = [
        //  secs, ghosts, mult, interval, energized
        (0, 4, 1_000, 20, 8),
        (30, 4, 1_100, 25, 7),
        (60, 5, 1_200, 30, 6),
        (90, 5, 1_300, 35, 5),
        (120, 6, 1_400, 40, 4),
        (150, 6, 1_500, 45, 3),
        (180, 7, 1_600, 50, 2),
    ];
    for (secs, ghosts, mult, interval, energized) in cases {
        let d = Difficulty::at(secs * SECOND);
        assert_eq!(d.ghost_count, ghosts, "ghost count at {secs}s");
        assert_eq!(d.ghost_speed_mult, mult, "mult at {secs}s: {d:?}");
        assert_eq!(d.power_pellet_interval, interval * SECOND, "interval at {secs}s");
        assert_eq!(d.energized_duration, energized * SECOND, "energized at {secs}s");
    }
}

#[test]
fn a_step_lasts_thirty_seconds() {
    assert_eq!(at_tenths(299).step, 0);
    assert_eq!(at_tenths(300).step, 1);
    assert_eq!(at_tenths(599).step, 1);
}

#[test]
fn ghosts_outrun_pacman_from_step_three_on() {
    assert!(Difficulty::at(0).ghost_speed() < PACMAN_SPEED);
    assert!(Difficulty::at(60 * SECOND).ghost_speed() < PACMAN_SPEED);
    assert!(
        Difficulty::at(90 * SECOND).ghost_speed() > PACMAN_SPEED,
        "the mode must turn lethal at 1:30"
    );
}

#[test]
fn ghost_count_never_exceeds_seven() {
    for step in 0..40 {
        let d = Difficulty::at(step * STEP_TIME);
        assert!(d.ghost_count <= 7, "step {step} wanted {}", d.ghost_count);
    }
}

#[test]
fn energized_duration_floors_at_two_seconds() {
    assert_eq!(Difficulty::at(600 * SECOND).energized_duration, 2 * SECOND);
    assert_eq!(Difficulty::at(6000 * SECOND).energized_duration, 2 * SECOND);
}

#[test]
fn difficulty_never_goes_backwards() {
    let mut prev = Difficulty::at(0);
    for i in 1..60 {
        let cur = Difficulty::at(i * 15 * SECOND);
        assert!(cur.ghost_speed_mult >= prev.ghost_speed_mult);
        assert!(cur.ghost_count >= prev.ghost_count);
        assert!(cur.energized_duration <= prev.energized_duration);
        prev = cur;
    }
}

#[test]
fn negative_time_is_treated_as_zero() {
    assert_eq!(Difficulty::at(-5 * SECOND).step, 0);
}

#[test]
fn ghost_speed_grows_by_a_tenth_of_the_base_per_step() {
    assert_eq!(Difficulty::at(0).ghost_speed(), 6_500);
    assert_eq!(Difficulty::at(STEP_TIME).ghost_speed(), 7_150);
    assert_eq!(Difficulty::at(3 * STEP_TIME).ghost_speed(), 8_450);
}
