use pacman_duel::client::render::{
    dir_index, ghost_look, next_frame, pellet_step, runner_tint, tile_to_world, GhostArt, PelletStep,
    Tint,
};
use pacman_duel::ghosts::{GhostMode, Personality};
use pacman_duel::grid::{WorldPoint, TILE_UNITS};
use pacman_duel::maze::{MAZE_H, MAZE_W};
use pacman_duel::movement::Dir;
use pacman_duel::pellets::PelletKind;
use pacman_duel::sim::RunnerState;

fn tiles(x: i64, y: i64) -> WorldPoint {
    WorldPoint::new(x * TILE_UNITS, y * TILE_UNITS)
}

#[test]
fn the_maze_is_centred_on_the_origin() {
    let half = WorldPoint::new(
        MAZE_W as i64 * TILE_UNITS / 2 - TILE_UNITS / 2,
        MAZE_H as i64 * TILE_UNITS / 2 - TILE_UNITS / 2,
    );
    let centre = tile_to_world(half);
    assert_eq!(centre, WorldPoint::new(0, 0), "centre landed at {centre:?}");
}

#[test]
fn the_y_axis_is_flipped_for_the_screen() {
    let top = tile_to_world(tiles(14, 1));
    let bottom = tile_to_world(tiles(14, 29));
    assert!(top.y > bottom.y, "row 1 must draw above row 29");
}

#[test]
fn adjacent_tiles_are_one_tile_apart() {
    let a = tile_to_world(tiles(5, 5));
    let b = tile_to_world(tiles(6, 5));
    assert_eq!(b.x - a.x, TILE_UNITS);
}

#[test]
fn every_direction_has_its_own_row() {
    let rows: std::collections::HashSet<usize> = [Dir::Up, Dir::Down, Dir::Left, Dir::Right]
        .into_iter()
        .map(dir_index)
        .collect();
    assert_eq!(rows.len(), 4, "two directions collided onto one row");
}

#[test]
fn a_player_who_is_out_is_drawn_faded() {
    let solid = runner_tint(RunnerState::Alive, false, false);
    let out = runner_tint(RunnerState::Out, false, false);
    assert_ne!(solid, out);
    assert!(out.alpha() < solid.alpha());
}

#[test]
fn stunned_reads_differently_from_energized() {
    let stunned = runner_tint(RunnerState::Alive, false, true);
    let energized = runner_tint(RunnerState::Alive, true, false);
    assert_ne!(stunned, energized);
}

#[test]
fn a_stun_hides_the_power() {
    assert_eq!(runner_tint(RunnerState::Alive, true, true), Tint::Stunned);
    assert_eq!(runner_tint(RunnerState::Dying, true, true), Tint::Faded(35));
}

#[test]
fn ghosts_show_what_they_are() {
    assert_eq!(
        ghost_look(5, GhostMode::Chase),
        (GhostArt::Own(Personality::Pink), 100)
    );
    assert_eq!(ghost_look(5, GhostMode::Frightened), (GhostArt::Frightened, 100));
    assert_eq!(ghost_look(5, GhostMode::Eaten), (GhostArt::Frightened, 30));
}

#[test]
fn pellet_pictures_follow_the_field() {
    assert_eq!(pellet_step(Some(PelletKind::Power), false), PelletStep::Show(PelletKind::Power));
    assert_eq!(pellet_step(Some(PelletKind::Power), true), PelletStep::Keep);
    assert_eq!(pellet_step(None, true), PelletStep::Remove);
    assert_eq!(pellet_step(None, false), PelletStep::Keep);
}

#[test]
fn the_mouth_has_three_frames() {
    assert_eq!([next_frame(0), next_frame(1), next_frame(2)], [1, 2, 0]);
}
