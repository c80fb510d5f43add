//! Who can get where: the maze holds together.
//!
//! Every corridor can be walked to from the spawns, and the ghosts find their way
//! out of the house into all of it.

use vstd::prelude::*;
#[allow(unused_imports)]
use crate::grid::IVec2;
#[allow(unused_imports)]
use crate::maze::{
    ghost_door, ghost_house, law_walkable_tiles_are_on_the_board, law_wrapping_is_idempotent,
    lemma_landmarks, on_board, spawn_p0, spawn_p1, tile_at, tile_under, wrapped, LAYOUT, MAZE_H,
    MAZE_W,
};
#[allow(unused_imports)]
use crate::movement::{law_a_step_back_undoes_a_step, neighbour, Dir, Mover};

verus! {

/// Whether one step leads from one tile to the other.
pub open spec fn adjacent(a: IVec2, b: IVec2) -> bool {
    exists|d: Dir| #[trigger] neighbour(a, d) == b
}

/// Whether a path's `i`-th step leads to the next tile, and the mover may enter it.
pub open spec fn may_step(mover: Mover, path: Seq<IVec2>, i: int) -> bool {
    mover.admits(path[i + 1]) && adjacent(path[i], path[i + 1])
}

/// Whether a path leads from one tile to the other, step by step.
pub open spec fn leads(mover: Mover, path: Seq<IVec2>, from: IVec2, to: IVec2) -> bool {
    &&& path.len() > 0
    &&& path[0] == from
    &&& path[path.len() - 1] == to
    &&& forall|i: int| 0 <= i < path.len() - 1 ==> #[trigger] may_step(mover, path, i)
}

/// Whether a mover gets from one tile to the other at all.
pub open spec fn reaches(mover: Mover, from: IVec2, to: IVec2) -> bool {
    exists|path: Seq<IVec2>| leads(mover, path, from, to)
}

proof fn lemma_standing_still(mover: Mover, tile: IVec2)
    ensures
        reaches(mover, tile, tile),
{
    assert(leads(mover, seq![tile], tile, tile));
}

proof fn lemma_one_step_further(mover: Mover, from: IVec2, before: IVec2, d: Dir)
    requires
        reaches(mover, from, before),
        mover.admits(neighbour(before, d)),
    ensures
        reaches(mover, from, neighbour(before, d)),
{
    let path = choose|path: Seq<IVec2>| leads(mover, path, from, before);
    let longer = path.push(neighbour(before, d));
    assert forall|i: int| 0 <= i < longer.len() - 1 implies #[trigger] may_step(
        mover,
        longer,
        i,
    ) by {
        if i < path.len() - 1 {
            assert(may_step(mover, path, i));
        }
    }
    assert(leads(mover, longer, from, neighbour(before, d)));
}

proof fn lemma_two_ways_make_one(mover: Mover, a: IVec2, b: IVec2, c: IVec2)
    requires
        reaches(mover, a, b),
        reaches(mover, b, c),
    ensures
        reaches(mover, a, c),
{
    let first = choose|path: Seq<IVec2>| leads(mover, path, a, b);
    let second = choose|path: Seq<IVec2>| leads(mover, path, b, c);
    let whole = first + second.skip(1);
    let n = first.len();
    assert forall|i: int| 0 <= i < whole.len() - 1 implies #[trigger] may_step(
        mover,
        whole,
        i,
    ) by {
        if i < n - 1 {
            assert(may_step(mover, first, i));
        } else {
            assert(may_step(mover, second, i - n + 1));
            assert(whole[i + 1] == second[i - n + 2]);
        }
    }
    assert(whole[whole.len() - 1] == c) by {
        if second.len() > 1 {
            assert(whole[whole.len() - 1] == second[second.len() - 1]);
        }
    }
    assert(leads(mover, whole, a, c));
}

proof fn lemma_there_is_a_way_back(mover: Mover, from: IVec2, to: IVec2)
    requires
        on_board(from.x as int, from.y as int),
        mover.admits(from),
        reaches(mover, from, to),
    ensures
        reaches(mover, to, from),
{
    let path = choose|path: Seq<IVec2>| leads(mover, path, from, to);
    let n = path.len();
    let back = Seq::new(n, |i: int| path[n - 1 - i]);
    assert forall|k: int| 0 <= k < n implies mover.admits(#[trigger] path[k]) && on_board(
        path[k].x as int,
        path[k].y as int,
    ) by {
        if k > 0 {
            assert(may_step(mover, path, k - 1));
            let d = choose|d: Dir| #[trigger] neighbour(path[k - 1], d) == path[k];
            law_wrapping_is_idempotent(path[k - 1].spec_plus(d.spec_delta()));
            law_walkable_tiles_are_on_the_board(path[k]);
        }
    }
    assert forall|i: int| 0 <= i < n - 1 implies #[trigger] may_step(mover, back, i) by {
        let (a, b) = (path[n - 2 - i], path[n - 1 - i]);
        assert(may_step(mover, path, n - 2 - i));
        let d = choose|d: Dir| #[trigger] neighbour(a, d) == b;
        law_a_step_back_undoes_a_step(a, d);
        assert(neighbour(b, d.spec_opposite()) == a);
    }
    assert(leads(mover, back, to, from));
}

proof fn lemma_ghosts_follow_pacman(from: IVec2, to: IVec2)
    requires
        reaches(Mover::Pacman, from, to),
    ensures
        reaches(Mover::MazeGhost, from, to),
{
    let path = choose|path: Seq<IVec2>| leads(Mover::Pacman, path, from, to);
    assert forall|i: int| 0 <= i < path.len() - 1 implies #[trigger] may_step(
        Mover::MazeGhost,
        path,
        i,
    ) by {
        assert(may_step(Mover::Pacman, path, i));
    }
    assert(leads(Mover::MazeGhost, path, from, to));
}

/// The tile with these coordinates.
spec fn spot(x: int, y: int) -> IVec2 {
    IVec2 { x: x as i32, y: y as i32 }
}

/// Whether Pac-Man gets to a tile from the first spawn.
spec fn reached(x: int, y: int) -> bool {
    reaches(Mover::Pacman, spawn_p0(), spot(x, y))
}

/// A run of corridor along a row, both ends included.
spec fn open_row(y: int, a: int, b: int) -> bool
    decreases b - a + 1,
{
    a > b || tile_at(a, y) is Corridor && open_row(y, a + 1, b)
}

/// A run of corridor along a column, both ends included.
spec fn open_column(x: int, a: int, b: int) -> bool
    decreases b - a + 1,
{
    a > b || tile_at(x, a) is Corridor && open_column(x, a + 1, b)
}

proof fn lemma_open_row(y: int, a: int, b: int, x: int)
    requires
        open_row(y, a, b),
        a <= x <= b,
    ensures
        tile_at(x, y) is Corridor,
    decreases b - a + 1,
{
    if x > a {
        lemma_open_row(y, a + 1, b, x);
    }
}

proof fn lemma_open_column(x: int, a: int, b: int, y: int)
    requires
        open_column(x, a, b),
        a <= y <= b,
    ensures
        tile_at(x, y) is Corridor,
    decreases b - a + 1,
{
    if y > a {
        lemma_open_column(x, a + 1, b, y);
    }
}

proof fn lemma_along_to(y: int, a: int, b: int, at: int, x: int)
    requires
        0 <= a <= at <= b < MAZE_W,
        0 <= y < MAZE_H,
        open_row(y, a, b),
        reached(at, y),
        a <= x <= b,
    ensures
        reached(x, y),
    decreases if x < at { at - x } else { x - at },
{
    lemma_open_row(y, a, b, x);
    if x > at {
        lemma_along_to(y, a, b, at, x - 1);
        assert(neighbour(spot(x - 1, y), Dir::Right) == spot(x, y));
        lemma_one_step_further(Mover::Pacman, spawn_p0(), spot(x - 1, y), Dir::Right);
    } else if x < at {
        lemma_along_to(y, a, b, at, x + 1);
        assert(neighbour(spot(x + 1, y), Dir::Left) == spot(x, y));
        lemma_one_step_further(Mover::Pacman, spawn_p0(), spot(x + 1, y), Dir::Left);
    }
}

/// Whoever gets to a run along a row gets to all of it.
proof fn lemma_along_a_row(y: int, a: int, b: int, at: int)
    requires
        0 <= a <= at <= b < MAZE_W,
        0 <= y < MAZE_H,
        open_row(y, a, b),
        reached(at, y),
    ensures
        forall|x: int| a <= x <= b ==> #[trigger] reached(x, y),
{
    assert forall|x: int| a <= x <= b implies #[trigger] reached(x, y) by {
        lemma_along_to(y, a, b, at, x);
    }
}

proof fn lemma_down_to(x: int, a: int, b: int, at: int, y: int)
    requires
        0 <= x < MAZE_W,
        0 <= a <= at <= b < MAZE_H,
        open_column(x, a, b),
        reached(x, at),
        a <= y <= b,
    ensures
        reached(x, y),
    decreases if y < at { at - y } else { y - at },
{
    lemma_open_column(x, a, b, y);
    if y > at {
        lemma_down_to(x, a, b, at, y - 1);
        assert(neighbour(spot(x, y - 1), Dir::Down) == spot(x, y));
        lemma_one_step_further(Mover::Pacman, spawn_p0(), spot(x, y - 1), Dir::Down);
    } else if y < at {
        lemma_down_to(x, a, b, at, y + 1);
        assert(neighbour(spot(x, y + 1), Dir::Up) == spot(x, y));
        lemma_one_step_further(Mover::Pacman, spawn_p0(), spot(x, y + 1), Dir::Up);
    }
}

/// Whoever gets to a run along a column gets to all of it.
proof fn lemma_along_a_column(x: int, a: int, b: int, at: int)
    requires
        0 <= x < MAZE_W,
        0 <= a <= at <= b < MAZE_H,
        open_column(x, a, b),
        reached(x, at),
    ensures
        forall|y: int| a <= y <= b ==> #[trigger] reached(x, y),
{
    assert forall|y: int| a <= y <= b implies #[trigger] reached(x, y) by {
        lemma_down_to(x, a, b, at, y);
    }
}

/// The runs of corridor along the rows.
spec fn on_a_row(x: int, y: int) -> bool {
    ||| y == 1 && (1 <= x <= 12 || 15 <= x <= 26)
    ||| y == 5 && (1 <= x <= 26)
    ||| y == 8 && (1 <= x <= 6 || 9 <= x <= 18 || 21 <= x <= 26)
    ||| y == 14 && (0 <= x <= 6 || 21 <= x <= 27)
    ||| y == 20 && (1 <= x <= 12 || 15 <= x <= 26)
    ||| y == 23 && (1 <= x <= 3 || 6 <= x <= 21 || 24 <= x <= 26)
    ||| y == 26 && (1 <= x <= 6 || 9 <= x <= 12 || 15 <= x <= 18 || 21 <= x <= 26)
    ||| y == 29 && (1 <= x <= 26)
}

/// The runs of corridor along the columns.
spec fn on_a_column(x: int, y: int) -> bool {
    ||| x == 1 && (1 <= y <= 8 || 20 <= y <= 23 || 26 <= y <= 29)
    ||| x == 3 && (23 <= y <= 26)
    ||| x == 6 && (1 <= y <= 26)
    ||| x == 9 && (5 <= y <= 8 || 23 <= y <= 26)
    ||| x == 12 && (1 <= y <= 5 || 20 <= y <= 23 || 26 <= y <= 29)
    ||| x == 13 && (8 <= y <= 11)
    ||| x == 14 && (8 <= y <= 11)
    ||| x == 15 && (1 <= y <= 5 || 20 <= y <= 23 || 26 <= y <= 29)
    ||| x == 18 && (5 <= y <= 8 || 23 <= y <= 26)
    ||| x == 21 && (1 <= y <= 26)
    ||| x == 24 && (23 <= y <= 26)
    ||| x == 26 && (1 <= y <= 8 || 20 <= y <= 23 || 26 <= y <= 29)
}

/// The runs cover every corridor tile.
proof fn lemma_the_runs_cover_the_corridors(x: int, y: int)
    requires
        on_board(x, y),
        tile_at(x, y) is Corridor,
    ensures
        on_a_row(x, y) || on_a_column(x, y),
{
    assert(x == 0 || x == 1 || x == 2 || x == 3 || x == 4 || x == 5 || x == 6 || x == 7 || x == 8
        || x == 9 || x == 10 || x == 11 || x == 12 || x == 13 || x == 14 || x == 15 || x == 16 || x
        == 17 || x == 18 || x == 19 || x == 20 || x == 21 || x == 22 || x == 23 || x == 24 || x
        == 25 || x == 26 || x == 27);
    if y == 0 || y == 30 {
        reveal_strlit("############################");
    } else if y == 1 || y == 20 {
        reveal_strlit("#............##............#");
    } else if y == 2 || y == 3 || y == 4 || y == 21 || y == 22 {
        reveal_strlit("#.####.#####.##.#####.####.#");
    } else if y == 5 || y == 29 {
        reveal_strlit("#..........................#");
    } else if y == 6 || y == 7 {
        reveal_strlit("#.####.##.########.##.####.#");
    } else if y == 8 {
        reveal_strlit("#......##..........##......#");
    } else if y == 9 {
        reveal_strlit("######.######..######.######");
    } else if y == 10 || y == 11 {
        reveal_strlit("     #.######..######.#     ");
    } else if y == 12 {
        reveal_strlit("     #.######--######.#     ");
    } else if y == 13 || y == 15 {
        reveal_strlit("######.## #______# ##.######");
    } else if y == 14 {
        reveal_strlit(".......   #______#   .......");
    } else if y == 16 || y == 18 {
        reveal_strlit("     #.## ######## ##.#     ");
    } else if y == 17 {
        reveal_strlit("     #.##          ##.#     ");
    } else if y == 19 {
        reveal_strlit("######.## ######## ##.######");
    } else if y == 23 {
        reveal_strlit("#...##................##...#");
    } else if y == 24 || y == 25 {
        reveal_strlit("###.##.##.########.##.##.###");
    } else if y == 26 {
        reveal_strlit("#......##....##....##......#");
    } else if y == 27 || y == 28 {
        reveal_strlit("#.##########.##.##########.#");
    }
}

/// The runs along the rows are open all along.
proof fn lemma_the_rows_are_open()
    ensures
        open_row(1, 1, 12),
        open_row(1, 15, 26),
        open_row(5, 1, 26),
        open_row(8, 1, 6),
        open_row(8, 9, 18),
        open_row(8, 21, 26),
        open_row(14, 0, 6),
        open_row(14, 21, 27),
        open_row(20, 1, 12),
        open_row(20, 15, 26),
        open_row(23, 1, 3),
        open_row(23, 6, 21),
        open_row(23, 24, 26),
        open_row(26, 1, 6),
        open_row(26, 9, 12),
        open_row(26, 15, 18),
        open_row(26, 21, 26),
        open_row(29, 1, 26),
{
    reveal_with_fuel(open_row, 28);
    reveal_strlit("#............##............#");
    reveal_strlit("#..........................#");
    reveal_strlit("#......##..........##......#");
    reveal_strlit(".......   #______#   .......");
    reveal_strlit("#...##................##...#");
    reveal_strlit("#......##....##....##......#");
}

/// The runs along the columns are open all along.
proof fn lemma_the_columns_are_open()
    ensures
        open_column(1, 1, 8),
        open_column(1, 20, 23),
        open_column(1, 26, 29),
        open_column(3, 23, 26),
        open_column(6, 1, 26),
        open_column(9, 5, 8),
        open_column(9, 23, 26),
        open_column(12, 1, 5),
        open_column(12, 20, 23),
        open_column(12, 26, 29),
        open_column(13, 8, 11),
        open_column(14, 8, 11),
        open_column(15, 1, 5),
        open_column(15, 20, 23),
        open_column(15, 26, 29),
        open_column(18, 5, 8),
        open_column(18, 23, 26),
        open_column(21, 1, 26),
        open_column(24, 23, 26),
        open_column(26, 1, 8),
        open_column(26, 20, 23),
        open_column(26, 26, 29),
{
    reveal_with_fuel(open_column, 28);
    reveal_strlit("#............##............#");
    reveal_strlit("#.####.#####.##.#####.####.#");
    reveal_strlit("#..........................#");
    reveal_strlit("#.####.##.########.##.####.#");
    reveal_strlit("#......##..........##......#");
    reveal_strlit("######.######..######.######");
    reveal_strlit("     #.######..######.#     ");
    reveal_strlit("     #.######--######.#     ");
    reveal_strlit("######.## #______# ##.######");
    reveal_strlit(".......   #______#   .......");
    reveal_strlit("     #.## ######## ##.#     ");
    reveal_strlit("     #.##          ##.#     ");
    reveal_strlit("######.## ######## ##.######");
    reveal_strlit("#...##................##...#");
    reveal_strlit("###.##.##.########.##.##.###");
    reveal_strlit("#......##....##....##......#");
    reveal_strlit("#.##########.##.##########.#");
}

/// From the spawn up and down its column, along the row to the other spawn, and
/// from these two columns into every run.
proof fn lemma_every_run_is_reached()
    ensures
        forall|x: int, y: int| on_a_row(x, y) || on_a_column(x, y) ==> #[trigger] reached(x, y),
{
    lemma_the_rows_are_open();
    lemma_the_columns_are_open();
    lemma_standing_still(Mover::Pacman, spawn_p0());
    assert(spot(6, 23) == spawn_p0());
    lemma_along_a_column(6, 1, 26, 23);
    lemma_along_a_row(23, 6, 21, 6);
    lemma_along_a_column(21, 1, 26, 23);
    lemma_along_a_row(1, 1, 12, 6);
    lemma_along_a_row(1, 15, 26, 21);
    lemma_along_a_row(5, 1, 26, 6);
    lemma_along_a_row(8, 1, 6, 6);
    lemma_along_a_row(8, 21, 26, 21);
    lemma_along_a_row(14, 0, 6, 6);
    lemma_along_a_row(14, 21, 27, 21);
    lemma_along_a_row(20, 1, 12, 6);
    lemma_along_a_row(20, 15, 26, 21);
    lemma_along_a_row(26, 1, 6, 6);
    lemma_along_a_row(26, 21, 26, 21);
    lemma_along_a_column(9, 5, 8, 5);
    lemma_along_a_column(18, 5, 8, 5);
    lemma_along_a_row(8, 9, 18, 9);
    lemma_along_a_column(13, 8, 11, 8);
    lemma_along_a_column(14, 8, 11, 8);
    lemma_along_a_column(9, 23, 26, 23);
    lemma_along_a_column(18, 23, 26, 23);
    lemma_along_a_row(26, 9, 12, 9);
    lemma_along_a_row(26, 15, 18, 18);
    lemma_along_a_column(12, 26, 29, 26);
    lemma_along_a_column(15, 26, 29, 26);
    lemma_along_a_row(29, 1, 26, 12);
    lemma_along_a_column(3, 23, 26, 26);
    lemma_along_a_row(23, 1, 3, 3);
    lemma_along_a_column(24, 23, 26, 26);
    lemma_along_a_row(23, 24, 26, 24);
    lemma_along_a_column(1, 1, 8, 1);
    lemma_along_a_column(1, 20, 23, 20);
    lemma_along_a_column(1, 26, 29, 26);
    lemma_along_a_column(12, 1, 5, 1);
    lemma_along_a_column(12, 20, 23, 20);
    lemma_along_a_column(15, 1, 5, 1);
    lemma_along_a_column(15, 20, 23, 20);
    lemma_along_a_column(26, 1, 8, 1);
    lemma_along_a_column(26, 20, 23, 20);
    lemma_along_a_column(26, 26, 29, 26);
}

/// Every corridor tile can be walked to from the spawn.
pub proof fn law_every_corridor_can_be_reached(tile: IVec2)
    requires
        on_board(tile.x as int, tile.y as int),
        tile_at(tile.x as int, tile.y as int) is Corridor,
    ensures
        reaches(Mover::Pacman, spawn_p0(), tile),
{
    let (x, y) = (tile.x as int, tile.y as int);
    lemma_the_runs_cover_the_corridors(x, y);
    lemma_every_run_is_reached();
    assert(reached(x, y));
    assert(spot(x, y) == tile);
}

/// The ghosts find their way out of the house and into every corridor, so to the
/// door and to both spawns.
pub proof fn law_ghosts_reach_the_maze_from_the_house(tile: IVec2)
    requires
        on_board(tile.x as int, tile.y as int),
        tile_at(tile.x as int, tile.y as int) is Corridor,
    ensures
        reaches(Mover::MazeGhost, ghost_house(), tile),
        reaches(Mover::MazeGhost, ghost_house(), ghost_door()),
        reaches(Mover::MazeGhost, ghost_house(), spawn_p0()),
        reaches(Mover::MazeGhost, ghost_house(), spawn_p1()),
{
    lemma_landmarks();
    lemma_the_way_out();
    lemma_from_the_door(tile);
    lemma_from_the_door(spawn_p0());
    lemma_from_the_door(spawn_p1());
}

proof fn lemma_the_way_out()
    ensures
        reaches(Mover::MazeGhost, ghost_house(), ghost_door()),
{
    reveal_strlit("######.## #______# ##.######");
    reveal_strlit("     #.######--######.#     ");
    lemma_landmarks();
    let (g, h) = (Mover::MazeGhost, ghost_house());
    lemma_standing_still(g, h);
    assert(neighbour(spot(13, 14), Dir::Up) == spot(13, 13));
    lemma_one_step_further(g, h, spot(13, 14), Dir::Up);
    assert(neighbour(spot(13, 13), Dir::Up) == spot(13, 12));
    lemma_one_step_further(g, h, spot(13, 13), Dir::Up);
    assert(neighbour(spot(13, 12), Dir::Up) == spot(13, 11));
    lemma_one_step_further(g, h, spot(13, 12), Dir::Up);
}

proof fn lemma_from_the_door(tile: IVec2)
    requires
        on_board(tile.x as int, tile.y as int),
        tile_at(tile.x as int, tile.y as int) is Corridor,
    ensures
        reaches(Mover::MazeGhost, ghost_house(), tile),
{
    let (p, g) = (Mover::Pacman, Mover::MazeGhost);
    lemma_landmarks();
    lemma_the_way_out();
    law_every_corridor_can_be_reached(ghost_door());
    law_every_corridor_can_be_reached(tile);
    lemma_there_is_a_way_back(p, spawn_p0(), ghost_door());
    lemma_two_ways_make_one(p, ghost_door(), spawn_p0(), tile);
    lemma_ghosts_follow_pacman(ghost_door(), tile);
    lemma_two_ways_make_one(g, ghost_house(), ghost_door(), tile);
}

} // verus!
