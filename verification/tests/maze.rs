use std::collections::HashSet;

use pacman_duel::grid::{chebyshev, IVec2};
use pacman_duel::maze::{
    ghost_door, ghost_house, scatter_corner, spawn_p0, spawn_p1, Tile, LAYOUT, MAZE, MAZE_H, MAZE_W,
    TUNNEL_ROW,
};

fn steps() -> [IVec2; 4] {
    [
        IVec2::new(1, 0),
        IVec2::new(-1, 0),
        IVec2::new(0, 1),
        IVec2::new(0, -1),
    ]
}

#[test]
fn every_row_is_exactly_maze_width() {
    for (y, row) in LAYOUT.iter().enumerate() {
        assert_eq!(row.len(), MAZE_W, "row {y} is {} chars", row.len());
    }
}

#[test]
fn nothing_can_walk_off_the_board_except_through_the_tunnel() {
    for y in 0..MAZE_H as i32 {
        if y == TUNNEL_ROW {
            continue;
        }
        let left = IVec2::new(0, y);
        let right = IVec2::new(MAZE_W as i32 - 1, y);
        assert!(!MAZE.walkable_by_ghost(left), "left edge open at y={y}");
        assert!(!MAZE.walkable_by_ghost(right), "right edge open at y={y}");
    }
}

#[test]
fn top_and_bottom_rows_are_solid_wall() {
    for x in 0..MAZE_W as i32 {
        assert_eq!(MAZE.tile(x, 0), Tile::Wall);
        assert_eq!(MAZE.tile(x, MAZE_H as i32 - 1), Tile::Wall);
    }
}

#[test]
fn tunnel_row_is_open_on_both_edges() {
    assert!(MAZE.walkable_by_pacman(IVec2::new(0, TUNNEL_ROW)));
    assert!(MAZE.walkable_by_pacman(IVec2::new(MAZE_W as i32 - 1, TUNNEL_ROW)));
}

#[test]
fn tunnel_row_wraps_horizontally() {
    let off_left = IVec2::new(-1, TUNNEL_ROW);
    assert_eq!(MAZE.wrap(off_left), IVec2::new(MAZE_W as i32 - 1, TUNNEL_ROW));

    let off_right = IVec2::new(MAZE_W as i32, TUNNEL_ROW);
    assert_eq!(MAZE.wrap(off_right), IVec2::new(0, TUNNEL_ROW));
}

#[test]
fn other_rows_do_not_wrap() {
    let off = IVec2::new(-1, 5);
    assert_eq!(MAZE.wrap(off), off);
    assert!(!MAZE.walkable_by_pacman(off));
}

#[test]
fn spawns_are_walkable_and_far_apart() {
    assert!(MAZE.walkable_by_pacman(spawn_p0()));
    assert!(MAZE.walkable_by_pacman(spawn_p1()));
    assert!(
        chebyshev(spawn_p0(), spawn_p1()) >= 10,
        "spawns must not start on top of each other"
    );
}

#[test]
fn pacman_cannot_enter_the_ghost_house() {
    assert!(!MAZE.walkable_by_pacman(ghost_house()));
    assert!(MAZE.walkable_by_ghost(ghost_house()));
    assert!(MAZE.walkable_by_ghost(IVec2::new(13, 12)));
    assert!(!MAZE.walkable_by_pacman(IVec2::new(13, 12)));
}

#[test]
fn the_ghost_door_leads_to_a_corridor() {
    assert!(MAZE.walkable_by_ghost(ghost_door()));
    assert!(MAZE.walkable_by_pacman(ghost_door()));
}

#[test]
fn ghosts_can_reach_the_maze_from_inside_the_house() {
    let mut seen = HashSet::new();
    let mut stack = vec![ghost_house()];
    seen.insert(ghost_house());
    while let Some(cur) = stack.pop() {
        for d in steps() {
            let next = MAZE.wrap(cur.plus(d));
            if MAZE.walkable_by_ghost(next) && seen.insert(next) {
                stack.push(next);
            }
        }
    }
    assert!(seen.contains(&ghost_door()), "no path from the house to the door");
    assert!(seen.contains(&spawn_p0()), "ghosts cannot reach slot 0 spawn");
    assert!(seen.contains(&spawn_p1()), "ghosts cannot reach slot 1 spawn");
}

#[test]
fn the_maze_has_a_reasonable_number_of_corridors() {
    let n = MAZE.corridors().len();
    assert!(n > 200, "only {n} corridor tiles, layout looks broken");
}

#[test]
fn all_corridors_are_reachable_from_spawn() {
    let mut seen = HashSet::new();
    let mut stack = vec![spawn_p0()];
    seen.insert(spawn_p0());
    while let Some(cur) = stack.pop() {
        for d in steps() {
            let next = MAZE.wrap(cur.plus(d));
            if MAZE.walkable_by_pacman(next) && seen.insert(next) {
                stack.push(next);
            }
        }
    }
    let unreachable: Vec<_> = MAZE
        .corridors()
        .into_iter()
        .filter(|t| !seen.contains(t))
        .collect();
    assert!(unreachable.is_empty(), "unreachable corridors: {unreachable:?}");
}

#[test]
fn off_the_board_there_is_nothing_to_stand_on() {
    for (x, y) in [(-1, 0), (0, -1), (MAZE_W as i32, 3), (3, MAZE_H as i32)] {
        assert!(!MAZE.tile(x, y).walkable_by_ghost());
        assert!(!MAZE.tile(x, y).walkable_by_pacman());
    }
}

#[test]
fn corridors_are_listed_once_each() {
    let all = MAZE.corridors();
    let distinct: HashSet<IVec2> = all.iter().copied().collect();
    assert_eq!(distinct.len(), all.len());
    for y in 0..MAZE_H as i32 {
        for x in 0..MAZE_W as i32 {
            assert_eq!(
                distinct.contains(&IVec2::new(x, y)),
                MAZE.tile(x, y).holds_pellets(),
                "({x}, {y})"
            );
        }
    }
}

#[test]
fn scatter_corners_repeat_after_the_last_one() {
    for slot in 0..7 {
        assert_eq!(scatter_corner(slot), scatter_corner(slot + 7));
    }
}

#[test]
fn scatter_corners_lie_outside_the_walkable_area() {
    let corners: Vec<IVec2> = (0..7).map(scatter_corner).collect();
    assert_eq!(
        corners,
        vec![
            IVec2::new(27, 0),
            IVec2::new(0, 0),
            IVec2::new(27, 30),
            IVec2::new(0, 30),
            IVec2::new(13, 1),
            IVec2::new(1, 15),
            IVec2::new(26, 15),
        ]
    );
    for c in corners {
        assert!(!MAZE.walkable_by_ghost(c), "{c:?}");
    }
}
