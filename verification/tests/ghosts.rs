use pacman_duel::difficulty::GHOST_FRIGHTENED_MULT;
use pacman_duel::ghosts::{GhostMode, MazeGhost, PacTarget, Personality, CHASE_TIME, SCATTER_TIME};
use pacman_duel::grid::{chebyshev, IVec2, SECOND, TICK_DT};
use pacman_duel::maze::{ghost_door, ghost_house, MAZE};
use pacman_duel::movement::{Dir, GridPos};

const ZERO: IVec2 = IVec2 { x: 0, y: 0 };

fn ghost_at(personality: Personality, tile: IVec2) -> MazeGhost {
    let mut g = MazeGhost::new(0);
    g.personality = personality;
    g.pos = GridPos::new(tile, Dir::Right);
    g.mode = GhostMode::Chase;
    g.penned = false;
    g
}

fn live(tile: IVec2, dir: Dir) -> PacTarget {
    PacTarget {
        tile,
        dir,
        alive: true,
    }
}

#[test]
fn red_targets_the_nearest_pacman_tile() {
    let g = ghost_at(Personality::Red, IVec2::new(1, 1));
    let near = live(IVec2::new(3, 1), Dir::Right);
    let far = live(IVec2::new(20, 20), Dir::Left);
    assert_eq!(g.target(&[near, far], ZERO), IVec2::new(3, 1));
    assert_eq!(g.target(&[far, near], ZERO), IVec2::new(3, 1));
}

#[test]
fn pink_targets_four_tiles_ahead() {
    let g = ghost_at(Personality::Pink, IVec2::new(1, 1));
    let p = live(IVec2::new(10, 10), Dir::Up);
    let d = Dir::Up.delta();
    let want = IVec2::new(10, 10).plus(IVec2::new(d.x * 4, d.y * 4));
    assert_eq!(g.target(&[p], ZERO), want);
}

#[test]
fn cyan_reflects_red_about_a_point_ahead() {
    let g = ghost_at(Personality::Cyan, IVec2::new(1, 1));
    let p = live(IVec2::new(10, 10), Dir::Right);
    let red = IVec2::new(8, 10);
    let pivot = IVec2::new(12, 10);
    let want = IVec2::new(pivot.x * 2 - red.x, pivot.y * 2 - red.y);
    assert_eq!(g.target(&[p], red), want);
}

#[test]
fn orange_chases_from_far_and_goes_home_when_close() {
    let g = ghost_at(Personality::Orange, IVec2::new(1, 1));
    let far = live(IVec2::new(20, 1), Dir::Up);
    assert_eq!(g.target(&[far], ZERO), IVec2::new(20, 1));

    let near = live(IVec2::new(5, 1), Dir::Up);
    assert_eq!(g.target(&[near], ZERO), g.scatter_corner);
}

#[test]
fn dead_pacmen_are_never_targeted() {
    let g = ghost_at(Personality::Red, IVec2::new(1, 1));
    let dead = PacTarget {
        tile: IVec2::new(2, 1),
        dir: Dir::Up,
        alive: false,
    };
    let alive = live(IVec2::new(20, 20), Dir::Up);
    assert_eq!(g.target(&[dead, alive], ZERO), IVec2::new(20, 20));
}

#[test]
fn with_no_live_prey_a_ghost_falls_back_to_its_corner() {
    let g = ghost_at(Personality::Red, IVec2::new(1, 1));
    assert_eq!(g.target(&[], ZERO), g.scatter_corner);
}

#[test]
fn scatter_mode_ignores_pacman_entirely() {
    let mut g = ghost_at(Personality::Red, IVec2::new(1, 1));
    g.mode = GhostMode::Scatter;
    let p = live(IVec2::new(3, 1), Dir::Up);
    assert_eq!(g.target(&[p], ZERO), g.scatter_corner);
}

#[test]
fn eaten_ghosts_head_home_no_matter_what() {
    let mut g = ghost_at(Personality::Red, IVec2::new(1, 1));
    g.mode = GhostMode::Eaten;
    let p = live(IVec2::new(3, 1), Dir::Up);
    assert_eq!(g.target(&[p], ZERO), ghost_house());
}

#[test]
fn a_penned_ghost_aims_for_the_door() {
    let g = MazeGhost::new(0);
    assert!(g.penned);
    assert_eq!(g.target(&[], ZERO), ghost_door());
}

#[test]
fn a_ghost_leaves_the_house_and_reaches_the_maze() {
    let mut g = MazeGhost::new(0);
    for _ in 0..600 {
        let target = g.target(&[], ZERO);
        g.step(target, 6_500, TICK_DT);
        if !g.penned {
            break;
        }
    }
    assert!(!g.penned, "ghost never made it out of the house");
    assert!(MAZE.walkable_by_ghost(g.pos.tile));
}

#[test]
fn a_ghost_closes_distance_on_a_stationary_target() {
    let mut g = ghost_at(Personality::Red, IVec2::new(6, 23));
    let prey = live(IVec2::new(21, 23), Dir::Right);
    let before = chebyshev(g.pos.tile, prey.tile);
    for _ in 0..200 {
        let target = g.target(&[prey], ZERO);
        g.step(target, 6_500, TICK_DT);
    }
    let after = chebyshev(g.pos.tile, prey.tile);
    assert!(after < before, "ghost went from {before} to {after} tiles away");
}

#[test]
fn a_ghost_never_ends_a_step_inside_a_wall() {
    let mut g = ghost_at(Personality::Red, IVec2::new(6, 23));
    let prey = live(IVec2::new(1, 1), Dir::Up);
    for _ in 0..2000 {
        let target = g.target(&[prey], ZERO);
        g.step(target, 10_000, TICK_DT);
        assert!(
            MAZE.walkable_by_ghost(g.pos.tile),
            "ghost stepped into {:?}",
            g.pos.tile
        );
    }
}

#[test]
fn frightened_ghosts_run_away_instead_of_closing_in() {
    let mut g = ghost_at(Personality::Red, IVec2::new(6, 20));
    g.mode = GhostMode::Frightened;
    let prey_tile = IVec2::new(6, 23);
    let before = chebyshev(g.pos.tile, prey_tile);
    for _ in 0..120 {
        g.step(prey_tile, 6_500 * GHOST_FRIGHTENED_MULT / 10, TICK_DT);
    }
    let after = chebyshev(g.pos.tile, prey_tile);
    assert!(after > before, "frightened ghost closed in: {before} -> {after}");
}

#[test]
fn mode_alternates_between_scatter_and_chase() {
    let mut g = ghost_at(Personality::Red, IVec2::new(6, 23));
    g.mode = GhostMode::Scatter;
    g.mode_timer = SCATTER_TIME;
    g.tick_mode(SCATTER_TIME + SECOND / 10);
    assert_eq!(g.mode, GhostMode::Chase);
    g.tick_mode(CHASE_TIME + SECOND / 10);
    assert_eq!(g.mode, GhostMode::Scatter);
}

#[test]
fn frightened_and_eaten_ghosts_ignore_the_mode_clock() {
    let mut g = ghost_at(Personality::Red, IVec2::new(6, 23));
    g.mode = GhostMode::Frightened;
    g.tick_mode(1000 * SECOND);
    assert_eq!(g.mode, GhostMode::Frightened);

    g.mode = GhostMode::Eaten;
    g.tick_mode(1000 * SECOND);
    assert_eq!(g.mode, GhostMode::Eaten);
}

#[test]
fn eyes_are_not_frightened_and_not_edible() {
    let mut g = ghost_at(Personality::Red, IVec2::new(6, 23));
    g.eat();
    assert_eq!(g.mode, GhostMode::Eaten);
    g.frighten();
    assert_eq!(g.mode, GhostMode::Eaten, "eyes should ignore a power pellet");
    assert!(!g.is_edible());
    assert!(!g.is_dangerous());
}

#[test]
fn frightening_reverses_direction_once() {
    let mut g = ghost_at(Personality::Red, IVec2::new(6, 23));
    let before = g.pos.dir;
    g.frighten();
    assert_eq!(g.pos.dir, before.opposite());

    let after = g.pos.dir;
    g.frighten();
    assert_eq!(g.pos.dir, after, "a second power pellet must not flip again");
}

#[test]
fn personalities_follow_the_slot() {
    let want = [
        Personality::Red,
        Personality::Pink,
        Personality::Cyan,
        Personality::Orange,
    ];
    for slot in 0..8 {
        assert_eq!(Personality::for_slot(slot), want[slot % 4]);
    }
}

#[test]
fn speed_multipliers_follow_the_mode() {
    let mut g = ghost_at(Personality::Red, IVec2::new(6, 23));
    assert_eq!(g.speed_multiplier(), 10);
    g.mode = GhostMode::Frightened;
    assert_eq!(g.speed_multiplier(), 6);
    g.mode = GhostMode::Eaten;
    assert_eq!(g.speed_multiplier(), 25);
}

#[test]
fn calming_down_ends_the_fright_only() {
    let mut g = ghost_at(Personality::Red, IVec2::new(6, 23));
    g.frighten();
    assert!(g.is_edible());
    g.unfrighten();
    assert!(!g.is_edible());
    g.eat();
    g.unfrighten();
    assert_eq!(g.mode, GhostMode::Eaten);
}
