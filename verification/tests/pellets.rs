use pacman_duel::grid::{chebyshev, IVec2, SECOND, TICK_DT};
use pacman_duel::maze::MAZE;
use pacman_duel::pellets::{PelletField, PelletKind, Rng, DRIP_MIN_DISTANCE};

fn first_corridor() -> IVec2 {
    MAZE.corridors()[0]
}

#[test]
fn rng_is_deterministic_for_a_seed() {
    let a: Vec<u64> = (0..8).map(|_| Rng::seeded(7).next_u64()).collect();
    let mut b = Rng::seeded(7);
    assert_eq!(a[0], b.next_u64());

    let mut c = Rng::seeded(7);
    let mut d = Rng::seeded(7);
    for _ in 0..100 {
        assert_eq!(c.next_u64(), d.next_u64());
    }
}

#[test]
fn rng_seeds_differ() {
    let mut a = Rng::seeded(1);
    let mut b = Rng::seeded(2);
    assert_ne!(a.next_u64(), b.next_u64());
}

#[test]
fn rng_below_stays_in_range() {
    let mut rng = Rng::seeded(99);
    for _ in 0..1000 {
        assert!(rng.below(7) < 7);
    }
    assert_eq!(rng.below(0), 0);
}

#[test]
fn a_full_field_has_a_pellet_on_every_corridor() {
    let field = PelletField::new_full();
    assert_eq!(field.count(), MAZE.corridors().len());
    for tile in MAZE.corridors() {
        assert_eq!(field.at(tile), Some(PelletKind::Normal));
    }
}

#[test]
fn taking_a_pellet_empties_the_tile() {
    let mut field = PelletField::new_full();
    let t = first_corridor();
    assert_eq!(field.take(t), Some(PelletKind::Normal));
    assert_eq!(field.at(t), None);
    assert_eq!(field.take(t), None, "taking twice must not resurrect it");
}

#[test]
fn walls_never_hold_pellets() {
    let field = PelletField::new_full();
    assert_eq!(field.at(IVec2::new(0, 0)), None);
}

#[test]
fn drip_rate_is_three_per_second() {
    let mut field = PelletField::empty();
    let mut rng = Rng::seeded(1);
    assert_eq!(field.drip(&mut rng, &[], SECOND).len(), 3);
}

#[test]
fn drip_accumulates_across_short_ticks() {
    let mut field = PelletField::empty();
    let mut rng = Rng::seeded(1);
    let mut total = 0;
    // 30 ticks of 1/30s is one second, so exactly three pellets.
    for _ in 0..30 {
        total += field.drip(&mut rng, &[], TICK_DT).len();
    }
    assert_eq!(total, 3);
}

#[test]
fn drip_never_lands_near_a_live_player() {
    let mut field = PelletField::empty();
    let mut rng = Rng::seeded(42);
    let player = IVec2::new(6, 23);
    let spawned = field.drip(&mut rng, &[player], 30 * SECOND);
    assert!(!spawned.is_empty());
    for (tile, _) in spawned {
        assert!(
            chebyshev(tile, player) >= DRIP_MIN_DISTANCE,
            "{tile:?} dripped {} tiles from the player",
            chebyshev(tile, player)
        );
    }
}

#[test]
fn drip_stops_when_the_board_is_full() {
    let mut field = PelletField::new_full();
    let mut rng = Rng::seeded(3);
    assert!(field.drip(&mut rng, &[], 100 * SECOND).is_empty());
}

#[test]
fn power_pellets_land_on_empty_tiles_away_from_players() {
    let mut field = PelletField::empty();
    let mut rng = Rng::seeded(11);
    let player = IVec2::new(6, 23);
    let tile = field.spawn_power(&mut rng, &[player]).unwrap();
    assert_eq!(field.at(tile), Some(PelletKind::Power));
    assert!(chebyshev(tile, player) >= DRIP_MIN_DISTANCE);
}

#[test]
fn snapshot_bits_round_trip() {
    let mut field = PelletField::new_full();
    let corridors = MAZE.corridors();
    field.take(corridors[0]);
    field.take(corridors[5]);
    field.put(corridors[9], PelletKind::Power);

    let restored = PelletField::from_snapshot_bits(&field.snapshot_bits());
    for tile in &corridors {
        assert_eq!(restored.at(*tile), field.at(*tile), "mismatch at {tile:?}");
    }
}

#[test]
fn snapshot_bits_are_compact() {
    let field = PelletField::new_full();
    let bits = field.snapshot_bits();
    assert!(bits.len() < 100, "pellet sync grew to {} bytes", bits.len());
}

#[test]
fn a_short_snapshot_leaves_the_rest_empty() {
    let bits = PelletField::new_full().snapshot_bits();
    let restored = PelletField::from_snapshot_bits(&bits[..1]);
    let corridors = MAZE.corridors();
    for (i, tile) in corridors.iter().enumerate() {
        assert_eq!(restored.at(*tile).is_some(), i < 4, "corridor {i}");
    }
    assert_eq!(PelletField::from_snapshot_bits(&[]).count(), 0);
}

#[test]
fn four_corridors_fit_a_byte() {
    let mut field = PelletField::empty();
    let corridors = MAZE.corridors();
    field.put(corridors[0], PelletKind::Normal);
    field.put(corridors[2], PelletKind::Power);
    let bits = field.snapshot_bits();
    assert_eq!(bits.len(), (corridors.len() + 3) / 4);
    let first = bits[0];
    assert_ne!(first, 0);
    assert!(bits[1..].iter().all(|b| *b == 0));
    let restored = PelletField::from_snapshot_bits(&bits);
    assert_eq!(restored.at(corridors[2]), Some(PelletKind::Power));
    assert_eq!(restored.at(corridors[1]), None);
}

#[test]
fn a_full_board_takes_no_power_pellet() {
    let mut field = PelletField::new_full();
    let mut rng = Rng::seeded(5);
    assert_eq!(field.spawn_power(&mut rng, &[]), None);
}

#[test]
fn a_field_off_the_board_is_empty() {
    let mut field = PelletField::new_full();
    let outside = IVec2::new(-1, 3);
    field.put(outside, PelletKind::Power);
    assert_eq!(field.at(outside), None);
    assert_eq!(field.take(outside), None);
}

#[test]
fn a_full_board_runs_up_no_debt() {
    let mut field = PelletField::new_full();
    let mut rng = Rng::seeded(3);
    assert!(field.drip(&mut rng, &[], 100 * SECOND).is_empty());
    for tile in MAZE.corridors().into_iter().take(10) {
        field.take(tile);
    }
    let n = field.count();
    assert!(field.drip(&mut rng, &[], 0).is_empty(), "nothing is owed for no time");
    assert_eq!(field.count(), n);
    assert_eq!(field.drip(&mut rng, &[], SECOND).len(), 3);
}

#[test]
fn a_full_board_keeps_the_fraction() {
    let mut field = PelletField::new_full();
    let mut rng = Rng::seeded(3);
    assert!(field.drip(&mut rng, &[], SECOND / 2).is_empty());
    field.take(first_corridor());
    // Half a pellet is carried over, and a sixth of a second brings the rest.
    assert_eq!(field.drip(&mut rng, &[], SECOND / 6 - 1).len(), 0);
    assert_eq!(field.drip(&mut rng, &[], 1).len(), 1);
}

#[test]
fn seeds_differ_at_every_step() {
    let mut a = Rng::seeded(1);
    let mut b = Rng::seeded(2);
    for _ in 0..1000 {
        assert_ne!(a.next_u64(), b.next_u64());
    }
}

#[test]
fn one_seed_hands_out_zeros_only() {
    let mut still = Rng::seeded(0x9E37_79B9_7F4A_7C15);
    let mut zero = Rng::seeded(0);
    for _ in 0..100 {
        assert_eq!(still.next_u64(), 0);
        assert_ne!(zero.next_u64(), 0);
    }
}
