use pacman_duel::grid::{IVec2, WorldPoint, SECOND, TILE_UNITS};
use pacman_duel::maze::{ghost_door, spawn_p0, MAZE, MAZE_W, TUNNEL_ROW};
use pacman_duel::movement::{Dir, GridPos, Mover};

/// Eight tiles a second.
const SPEED: i64 = 8_000;

/// The time a tile takes at that speed.
const TILE_TIME: i64 = SECOND / 8;

fn open_pos() -> GridPos {
    GridPos::new(spawn_p0(), Dir::Right)
}

#[test]
fn opposite_is_an_involution() {
    for d in Dir::all() {
        assert_eq!(d.opposite().opposite(), d);
        assert_eq!(d.delta().plus(d.opposite().delta()), IVec2::new(0, 0));
    }
}

#[test]
fn advancing_a_full_tile_moves_exactly_one_tile() {
    let mut p = open_pos();
    let start = p.tile;
    let crossed = p.advance(None, Mover::Pacman, SPEED, TILE_TIME);
    assert_eq!(crossed, 1);
    assert_eq!(p.tile, start.plus(IVec2::new(1, 0)));
    assert_eq!(p.offset, 0, "offset was {}", p.offset);
}

#[test]
fn advancing_half_a_tile_stays_in_the_tile() {
    let mut p = open_pos();
    let start = p.tile;
    let crossed = p.advance(None, Mover::Pacman, SPEED, TILE_TIME / 2);
    assert_eq!(crossed, 0);
    assert_eq!(p.tile, start);
    assert_eq!(p.offset, TILE_UNITS / 2);
}

#[test]
fn turning_does_not_happen_mid_tile() {
    let mut p = open_pos();
    p.advance(None, Mover::Pacman, SPEED, TILE_TIME / 4);
    // Up is open from the spawn row, but we are not on a boundary yet.
    p.advance(Some(Dir::Up), Mover::Pacman, SPEED, TILE_TIME / 4);
    assert_eq!(p.dir, Dir::Right, "turned in the middle of a tile");
}

#[test]
fn turning_happens_when_landing_on_a_boundary() {
    let mut p = GridPos::new(IVec2::new(6, 23), Dir::Right);
    // (6,23) has an open corridor upward at (6,22).
    assert!(MAZE.walkable_by_pacman(IVec2::new(6, 22)));
    p.offset = 0;
    p.advance(Some(Dir::Up), Mover::Pacman, SPEED, 0);
    assert_eq!(p.dir, Dir::Up, "should turn in place when stopped");
}

#[test]
fn walking_into_a_wall_parks_at_the_boundary() {
    // (1,1) is a corridor with a wall above it.
    let mut p = GridPos::new(IVec2::new(1, 1), Dir::Up);
    assert!(!MAZE.walkable_by_pacman(IVec2::new(1, 0)));
    let crossed = p.advance(None, Mover::Pacman, SPEED, SECOND);
    assert_eq!(crossed, 0);
    assert_eq!(p.offset, 0);
    assert_eq!(p.tile, IVec2::new(1, 1));
}

#[test]
fn a_long_step_crosses_several_tiles() {
    let mut p = GridPos::new(IVec2::new(1, 29), Dir::Right);
    let crossed = p.advance(None, Mover::Pacman, SPEED, 3 * TILE_TIME);
    assert_eq!(crossed, 3);
    assert_eq!(p.tile, IVec2::new(4, 29));
}

#[test]
fn crossing_the_tunnel_wraps_to_the_other_side() {
    let mut p = GridPos::new(IVec2::new(0, TUNNEL_ROW), Dir::Left);
    p.advance(None, Mover::Pacman, SPEED, TILE_TIME);
    assert_eq!(p.tile.x, MAZE_W as i32 - 1);
    assert_eq!(p.tile.y, TUNNEL_ROW);
}

#[test]
fn pacman_cannot_walk_through_the_ghost_door() {
    let mut p = GridPos::new(ghost_door(), Dir::Down);
    let crossed = p.advance(None, Mover::Pacman, SPEED, SECOND);
    assert_eq!(crossed, 0, "pacman entered the ghost house");
}

#[test]
fn ghosts_can_walk_through_the_ghost_door() {
    let mut p = GridPos::new(ghost_door(), Dir::Down);
    let crossed = p.advance(None, Mover::MazeGhost, SPEED, TILE_TIME);
    assert_eq!(crossed, 1);
}

#[test]
fn occupied_tile_flips_past_the_halfway_mark() {
    let mut p = open_pos();
    p.offset = TILE_UNITS * 49 / 100;
    assert_eq!(p.occupied_tile(), p.tile);
    p.offset = TILE_UNITS * 51 / 100;
    assert_eq!(p.occupied_tile(), p.tile.plus(IVec2::new(1, 0)));
}

#[test]
fn reverse_preserves_travelled_distance() {
    let mut p = open_pos();
    p.offset = TILE_UNITS / 4;
    let before = p.world();
    p.reverse();
    assert_eq!(p.dir, Dir::Left);
    let after = p.world();
    assert_eq!(before, after, "reverse teleported: {before:?} -> {after:?}");
}

#[test]
fn movement_is_step_size_independent() {
    let mut coarse = GridPos::new(IVec2::new(1, 29), Dir::Right);
    coarse.advance(None, Mover::Pacman, SPEED, 4 * TILE_TIME);

    let mut fine = GridPos::new(IVec2::new(1, 29), Dir::Right);
    for _ in 0..40 {
        fine.advance(None, Mover::Pacman, SPEED, TILE_TIME / 10);
    }

    assert_eq!(coarse.tile, fine.tile);
    assert_eq!(coarse.offset, fine.offset);
}

#[test]
fn world_position_follows_the_heading() {
    let mut p = GridPos::new(IVec2::new(6, 23), Dir::Up);
    p.offset = TILE_UNITS / 2;
    assert_eq!(
        p.world(),
        WorldPoint::new(6 * TILE_UNITS, 23 * TILE_UNITS - TILE_UNITS / 2)
    );
    p.dir = Dir::Left;
    assert_eq!(
        p.world(),
        WorldPoint::new(6 * TILE_UNITS - TILE_UNITS / 2, 23 * TILE_UNITS)
    );
}

#[test]
fn reversing_twice_changes_nothing() {
    let mut p = open_pos();
    p.offset = TILE_UNITS / 3;
    let before = p;
    p.reverse();
    p.reverse();
    assert_eq!(p, before);
}

#[test]
fn a_wish_leads_on_until_the_way_is_closed() {
    // Left along the top row, then down the first column to its end.
    let mut p = GridPos::new(IVec2::new(4, 1), Dir::Left);
    let crossed = p.advance(Some(Dir::Down), Mover::Pacman, SPEED, 100 * TILE_TIME);
    assert_eq!(crossed, 10);
    assert_eq!(p, GridPos::new(IVec2::new(1, 8), Dir::Down));

    // A closed wish changes nothing: the mover parks where its way ends.
    let mut p = GridPos::new(IVec2::new(3, 1), Dir::Left);
    let crossed = p.advance(Some(Dir::Up), Mover::Pacman, SPEED, 100 * TILE_TIME);
    assert_eq!(crossed, 2);
    assert_eq!(p, GridPos::new(IVec2::new(1, 1), Dir::Left));

    let mut p = GridPos::new(IVec2::new(1, 1), Dir::Up);
    assert_eq!(p.advance(None, Mover::Pacman, SPEED, TILE_TIME), 0);
    assert_eq!(p, GridPos::new(IVec2::new(1, 1), Dir::Up));
}
