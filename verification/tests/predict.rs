use pacman_duel::client::predict::{Interp, Local, SNAPSHOT_INTERVAL};
use pacman_duel::difficulty::PACMAN_SPEED;
use pacman_duel::grid::{WorldPoint, TICK_DT, TILE_UNITS};
use pacman_duel::maze::{spawn_p0, spawn_p1};
use pacman_duel::movement::{Dir, GridPos, Mover};

fn start() -> GridPos {
    GridPos::new(spawn_p0(), Dir::Right)
}

/// A point given in tiles.
fn tiles(x: i64, y: i64) -> WorldPoint {
    WorldPoint::new(x * TILE_UNITS, y * TILE_UNITS)
}

/// Replays the same inputs the way the server would.
fn server_would(mut pos: GridPos, dir: Dir, steps: usize) -> GridPos {
    for _ in 0..steps {
        pos.advance(Some(dir), Mover::Pacman, PACMAN_SPEED, TICK_DT);
    }
    pos
}

#[test]
fn sequence_numbers_start_at_one_and_increase() {
    let mut local = Local::new(start());
    assert_eq!(local.push_and_apply(Dir::Right), 1);
    assert_eq!(local.push_and_apply(Dir::Right), 2);
    assert_eq!(local.pending.len(), 2);
}

#[test]
fn a_fully_acknowledged_client_agrees_exactly_with_the_server() {
    let mut local = Local::new(start());
    for _ in 0..10 {
        local.push_and_apply(Dir::Right);
    }
    let authoritative = server_would(start(), Dir::Right, 10);

    local.reconcile(10, authoritative);

    assert!(local.pending.is_empty());
    assert_eq!(local.pos, authoritative);
    assert_eq!(
        local.last_correction, 0,
        "a correct prediction moved the player by {}",
        local.last_correction
    );
}

#[test]
fn unacknowledged_inputs_are_replayed_and_kept() {
    let mut local = Local::new(start());
    for _ in 0..10 {
        local.push_and_apply(Dir::Right);
    }
    // The server has only seen the first six.
    let authoritative = server_would(start(), Dir::Right, 6);

    local.reconcile(6, authoritative);

    assert_eq!(local.pending.len(), 4, "the last four are still in flight");
    assert_eq!(
        local.pos,
        server_would(start(), Dir::Right, 10),
        "replaying the pending inputs must land where the client already was"
    );
    assert_eq!(local.last_correction, 0);
}

#[test]
fn a_disagreement_shows_up_as_a_correction() {
    let mut local = Local::new(start());
    for _ in 0..10 {
        local.push_and_apply(Dir::Right);
    }
    // The server says we never moved: something rejected the inputs.
    local.reconcile(10, start());

    assert_eq!(local.pos, start());
    assert!(
        local.last_correction > TILE_UNITS as u64,
        "a real disagreement should register, got {}",
        local.last_correction
    );
}

#[test]
fn an_older_acknowledgement_does_not_drop_newer_inputs() {
    let mut local = Local::new(start());
    for _ in 0..5 {
        local.push_and_apply(Dir::Right);
    }
    local.reconcile(2, server_would(start(), Dir::Right, 2));
    assert_eq!(local.pending.len(), 3);

    // A late duplicate of an older snapshot must not resurrect anything.
    local.reconcile(2, server_would(start(), Dir::Right, 2));
    assert_eq!(local.pending.len(), 3);
}

#[test]
fn forcing_clears_the_prediction() {
    let mut local = Local::new(start());
    for _ in 0..5 {
        local.push_and_apply(Dir::Right);
    }
    let elsewhere = GridPos::new(spawn_p1(), Dir::Left);
    local.force(elsewhere);

    assert!(local.pending.is_empty());
    assert_eq!(local.pos, elsewhere);
    assert_eq!(local.last_correction, 0);
}

#[test]
fn interpolation_walks_from_one_sample_to_the_next() {
    let mut interp = Interp::new(tiles(0, 0));
    interp.push(tiles(1, 0));

    assert_eq!(interp.render().x, 0, "should start at the old sample");
    interp.advance(SNAPSHOT_INTERVAL / 2);
    let mid = interp.render().x;
    assert_eq!(mid, TILE_UNITS / 2, "halfway was {mid}");

    interp.advance(SNAPSHOT_INTERVAL);
    assert_eq!(interp.render().x, TILE_UNITS, "should settle exactly");
}

#[test]
fn interpolation_never_overshoots() {
    let mut interp = Interp::new(tiles(0, 0));
    interp.push(tiles(1, 0));
    interp.advance(SNAPSHOT_INTERVAL * 100);
    assert_eq!(interp.render().x, TILE_UNITS);
}

#[test]
fn a_tunnel_wrap_snaps_instead_of_flying_across_the_maze() {
    let mut interp = Interp::new(tiles(0, 14));
    interp.push(tiles(27, 14));
    assert_eq!(
        interp.render(),
        tiles(27, 14),
        "a wrap must teleport, not slide through every wall on the way"
    );
}

#[test]
fn interpolation_is_continuous_across_back_to_back_samples() {
    let mut interp = Interp::new(tiles(0, 0));
    interp.push(tiles(1, 0));
    interp.advance(SNAPSHOT_INTERVAL / 2);
    let before = interp.render();

    // A new sample arriving early must not jump backwards.
    interp.push(tiles(2, 0));
    let after = interp.render();
    assert_eq!(before, after, "{before:?} jumped to {after:?}");
}

#[test]
fn a_correction_is_measured_in_a_straight_line() {
    let mut local = Local::new(GridPos::new(spawn_p0(), Dir::Right));
    let mut elsewhere = GridPos::new(spawn_p0(), Dir::Right);
    elsewhere.tile.x += 3;
    elsewhere.tile.y -= 4;
    local.reconcile(0, elsewhere);
    assert_eq!(local.last_correction, 5 * TILE_UNITS as u64);
}

#[test]
fn a_jump_of_exactly_three_tiles_still_slides() {
    let mut interp = Interp::new(tiles(0, 0));
    interp.push(tiles(3, 0));
    assert_eq!(interp.render(), tiles(0, 0));
    let mut far = Interp::new(tiles(0, 0));
    far.push(WorldPoint::new(3 * TILE_UNITS + 1, 0));
    assert_eq!(far.render(), WorldPoint::new(3 * TILE_UNITS + 1, 0));
}
