use pacman_duel::score::{ghost_points, steal_amount, STEAL_IMMUNITY_TIME, STEAL_MIN, STUN_TIME};

#[test]
fn the_ghost_chain_doubles_and_then_holds() {
    assert_eq!(ghost_points(0), 200);
    assert_eq!(ghost_points(1), 400);
    assert_eq!(ghost_points(2), 800);
    assert_eq!(ghost_points(3), 1600);
    assert_eq!(ghost_points(9), 1600, "the chain must not run off the end");
}

#[test]
fn a_steal_takes_a_tenth() {
    assert_eq!(steal_amount(2000), 200);
    assert_eq!(steal_amount(10_000), 1000);
}

#[test]
fn a_steal_has_a_floor() {
    assert_eq!(steal_amount(500), STEAL_MIN);
    assert_eq!(steal_amount(0), STEAL_MIN);
}

#[test]
fn a_steal_rounds_down() {
    assert_eq!(steal_amount(1009), 100);
    assert_eq!(steal_amount(1019), 101);
}

#[test]
fn immunity_outlasts_the_stun() {
    assert!(STEAL_IMMUNITY_TIME > STUN_TIME);
}

#[test]
fn a_share_is_worked_out_in_single_precision() {
    let mut score = 0u32;
    loop {
        let share = ((score as f32 * 0.10) as u32).max(STEAL_MIN);
        assert_eq!(steal_amount(score), share, "{score}");
        match score.checked_add(if score < 20_000 { 1 } else { 40_009 }) {
            Some(next) => score = next,
            None => break,
        }
    }
    assert_eq!(steal_amount(u32::MAX), 429_496_736);
    assert_eq!(steal_amount((1 << 24) - 1), 1_677_721);
}
