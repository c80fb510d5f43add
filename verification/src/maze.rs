//! The maze grid.
//!
//! One fixed 28x31 layout, compiled in. Row 14 is the tunnel row: walking off
//! either side wraps to the other.

use vstd::prelude::*;
use crate::grid::IVec2;

verus! {

pub const MAZE_W: usize = 28;

pub const MAZE_H: usize = 31;

/// Tiles on the board, corridor or not.
pub const CELLS: usize = 868;

/// The row whose left and right edges connect to each other.
pub const TUNNEL_ROW: i32 = 14;

/// Where slot 0 starts, and where it respawns after dying.
#[verifier::allow_in_spec]
pub fn spawn_p0() -> IVec2
    returns
        (IVec2 { x: 6, y: 23 }),
{
    IVec2 { x: 6, y: 23 }
}

/// Where slot 1 starts, and where it respawns after dying.
#[verifier::allow_in_spec]
pub fn spawn_p1() -> IVec2
    returns
        (IVec2 { x: 21, y: 23 }),
{
    IVec2 { x: 21, y: 23 }
}

/// The tile ghosts are released from and return to when eaten.
#[verifier::allow_in_spec]
pub fn ghost_house() -> IVec2
    returns
        (IVec2 { x: 13, y: 14 }),
{
    IVec2 { x: 13, y: 14 }
}

/// The tile directly above the house door, where a released ghost enters play.
#[verifier::allow_in_spec]
pub fn ghost_door() -> IVec2
    returns
        (IVec2 { x: 13, y: 11 }),
{
    IVec2 { x: 13, y: 11 }
}

/// How many scatter corners there are.
pub const SCATTER_CORNERS: usize = 7;

/// Scatter targets by ghost slot; slots past the last corner start over.
/// Corners are intentionally outside the walkable area: ghosts orbit them rather
/// than reaching them, which is what produces the classic patrol behaviour.
pub open spec fn scatter_corner_of(slot: int) -> IVec2 {
    let k = slot % 7;
    if k == 0 {
        IVec2 { x: 27, y: 0 }
    } else if k == 1 {
        IVec2 { x: 0, y: 0 }
    } else if k == 2 {
        IVec2 { x: 27, y: 30 }
    } else if k == 3 {
        IVec2 { x: 0, y: 30 }
    } else if k == 4 {
        IVec2 { x: 13, y: 1 }
    } else if k == 5 {
        IVec2 { x: 1, y: 15 }
    } else {
        IVec2 { x: 26, y: 15 }
    }
}

pub fn scatter_corner(slot: usize) -> (corner: IVec2)
    ensures
        corner == scatter_corner_of(slot as int),
{
    match slot % SCATTER_CORNERS {
        0 => IVec2::new(27, 0),
        1 => IVec2::new(0, 0),
        2 => IVec2::new(27, 30),
        3 => IVec2::new(0, 30),
        4 => IVec2::new(13, 1),
        5 => IVec2::new(1, 15),
        _ => IVec2::new(26, 15),
    }
}

#[derive(Debug, Clone, Copy, PartialEq, Eq, Structural)]
pub enum Tile {
    Wall,
    Corridor,
    /// Inside the ghost house. Ghosts may walk here, Pac-Man may not.
    House,
    /// The house door. Ghosts cross it, Pac-Man may not.
    Door,
    /// Outside the playfield.
    Void,
}

impl Tile {
    /// Whether a Pac-Man may occupy this tile.
    #[verifier::allow_in_spec]
    pub fn walkable_by_pacman(self) -> bool
        returns
            self is Corridor,
    {
        matches!(self, Tile::Corridor)
    }

    /// Whether a ghost may occupy this tile.
    #[verifier::allow_in_spec]
    pub fn walkable_by_ghost(self) -> bool
        returns
            self is Corridor || self is House || self is Door,
    {
        matches!(self, Tile::Corridor | Tile::House | Tile::Door)
    }

    /// Whether a pellet may ever sit here.
    #[verifier::allow_in_spec]
    pub fn holds_pellets(self) -> bool
        returns
            self is Corridor,
    {
        matches!(self, Tile::Corridor)
    }
}

/// `#` wall, `.` corridor, `-` house door, `_` house interior, ` ` void.
///
/// A corridor runs down the middle from row 8 to the house door, so the ghosts
/// released from the house have a way into the maze.
pub const LAYOUT: [&'static str; 31] = [
    "############################",
    "#............##............#",
    "#.####.#####.##.#####.####.#",
    "#.####.#####.##.#####.####.#",
    "#.####.#####.##.#####.####.#",
    "#..........................#",
    "#.####.##.########.##.####.#",
    "#.####.##.########.##.####.#",
    "#......##..........##......#",
    "######.######..######.######",
    "     #.######..######.#     ",
    "     #.######..######.#     ",
    "     #.######--######.#     ",
    "######.## #______# ##.######",
    ".......   #______#   .......",
    "######.## #______# ##.######",
    "     #.## ######## ##.#     ",
    "     #.##          ##.#     ",
    "     #.## ######## ##.#     ",
    "######.## ######## ##.######",
    "#............##............#",
    "#.####.#####.##.#####.####.#",
    "#.####.#####.##.#####.####.#",
    "#...##................##...#",
    "###.##.##.########.##.##.###",
    "###.##.##.########.##.##.###",
    "#......##....##....##......#",
    "#.##########.##.##########.#",
    "#.##########.##.##########.#",
    "#..........................#",
    "############################",
];

/// What a layout character stands for.
pub open spec fn tile_of(c: char) -> Tile {
    if c == '#' {
        Tile::Wall
    } else if c == '.' {
        Tile::Corridor
    } else if c == '-' {
        Tile::Door
    } else if c == '_' {
        Tile::House
    } else {
        Tile::Void
    }
}

/// Whether a coordinate lies on the board.
pub open spec fn on_board(x: int, y: int) -> bool {
    0 <= x < MAZE_W && 0 <= y < MAZE_H
}

/// The tile at a coordinate. Everything off the board is void.
pub open spec fn tile_at(x: int, y: int) -> Tile {
    if on_board(x, y) {
        tile_of(LAYOUT[y]@[x])
    } else {
        Tile::Void
    }
}

/// The tunnel row wraps horizontally. Everything else stays as it is.
pub open spec fn wrapped(pos: IVec2) -> IVec2 {
    if pos.y == TUNNEL_ROW {
        IVec2 { x: (pos.x as int % MAZE_W as int) as i32, y: pos.y }
    } else {
        pos
    }
}

/// The tile a position stands for once the tunnel is taken into account.
pub open spec fn tile_under(pos: IVec2) -> Tile {
    tile_at(wrapped(pos).x as int, wrapped(pos).y as int)
}

/// The coordinate of the `k`-th tile in row-major order.
pub open spec fn nth_tile(k: int) -> IVec2 {
    IVec2 { x: (k % MAZE_W as int) as i32, y: (k / MAZE_W as int) as i32 }
}

/// The corridor tiles among the first `k` tiles, in row-major order.
pub open spec fn corridors_before(k: nat) -> Seq<IVec2>
    decreases k,
{
    if k == 0 {
        Seq::empty()
    } else {
        let t = nth_tile(k - 1);
        let before = corridors_before((k - 1) as nat);
        if tile_at(t.x as int, t.y as int).holds_pellets() {
            before.push(t)
        } else {
            before
        }
    }
}

/// Every corridor tile, in row-major order.
pub open spec fn all_corridors() -> Seq<IVec2> {
    corridors_before(CELLS as nat)
}

/// Every row of the layout is exactly as wide as the maze.
pub proof fn lemma_layout_rows(y: int)
    requires
        0 <= y < MAZE_H,
    ensures
        LAYOUT[y]@.len() == MAZE_W,
{
    reveal_strlit("############################");
    reveal_strlit("#............##............#");
    reveal_strlit("#.####.#####.##.#####.####.#");
    reveal_strlit("#..........................#");
    reveal_strlit("#.####.##.########.##.####.#");
    reveal_strlit("#......##..........##......#");
    reveal_strlit("######.######..######.######");
    reveal_strlit("     #.######..######.#     ");
    reveal_strlit("     #.######--######.#     ");
    reveal_strlit("######.## #______# ##.######");
    reveal_strlit(".......   #______#   .......");
    reveal_strlit("     #.## ######## ##.#     ");
    reveal_strlit("     #.##          ##.#     ");
    reveal_strlit("######.## ######## ##.######");
    reveal_strlit("#...##................##...#");
    reveal_strlit("###.##.##.########.##.##.###");
    reveal_strlit("#......##....##....##......#");
    reveal_strlit("#.##########.##.##########.#");
}

pub struct Maze;

/// The one and only maze.
pub const MAZE: Maze = Maze;

impl Maze {
    pub fn tile(&self, x: i32, y: i32) -> (tile: Tile)
        ensures
            tile == tile_at(x as int, y as int),
    {
        if y < 0 || y >= MAZE_H as i32 || x < 0 || x >= MAZE_W as i32 {
            return Tile::Void;
        }
        proof {
            lemma_layout_rows(y as int);
        }
        match LAYOUT[y as usize].get_char(x as usize) {
            '#' => Tile::Wall,
            '.' => Tile::Corridor,
            '-' => Tile::Door,
            '_' => Tile::House,
            _ => Tile::Void,
        }
    }

    pub fn at(&self, pos: IVec2) -> (tile: Tile)
        ensures
            tile == tile_at(pos.x as int, pos.y as int),
    {
        self.tile(pos.x, pos.y)
    }

    /// Wraps the tunnel row horizontally. Everything else is returned as is.
    pub fn wrap(&self, pos: IVec2) -> (r: IVec2)
        ensures
            r == wrapped(pos),
    {
        if pos.y != TUNNEL_ROW {
            return pos;
        }
        let w: i32 = MAZE_W as i32;
        let x: i32 = if pos.x >= 0 {
            pos.x % w
        } else {
            w - 1 - (-1 - pos.x) % w
        };
        IVec2::new(x, pos.y)
    }

    pub fn walkable_by_pacman(&self, pos: IVec2) -> (walkable: bool)
        ensures
            walkable == tile_under(pos).walkable_by_pacman(),
    {
        self.at(self.wrap(pos)).walkable_by_pacman()
    }

    pub fn walkable_by_ghost(&self, pos: IVec2) -> (walkable: bool)
        ensures
            walkable == tile_under(pos).walkable_by_ghost(),
    {
        self.at(self.wrap(pos)).walkable_by_ghost()
    }

    /// Every corridor tile, in row-major order. Used to seed the pellet field
    /// and to pick drip candidates.
    pub fn corridors(&self) -> (out: Vec<IVec2>)
        ensures
            out@ == all_corridors(),
    {
        let mut out: Vec<IVec2> = Vec::new();
        for k in 0..CELLS
            invariant
                out@ == corridors_before(k as nat),
        {
            let t = IVec2::new((k % MAZE_W) as i32, (k / MAZE_W) as i32);
            assert(t == nth_tile(k as int));
            if self.at(t).holds_pellets() {
                out.push(t);
            }
        }
        out
    }
}

/// Where the layout opens and closes: outside the tunnel row the two edge
/// columns are closed, the top and bottom rows are solid wall, and the tunnel
/// row is open at both ends.
pub proof fn lemma_edges(x: int, y: int)
    requires
        on_board(x, y),
    ensures
        y != TUNNEL_ROW ==> !tile_at(0, y).walkable_by_ghost(),
        y != TUNNEL_ROW ==> !tile_at(MAZE_W - 1, y).walkable_by_ghost(),
        tile_at(0, TUNNEL_ROW as int) is Corridor,
        tile_at(MAZE_W - 1, TUNNEL_ROW as int) is Corridor,
        tile_at(x, 0) is Wall,
        tile_at(x, MAZE_H - 1) is Wall,
{
    reveal_strlit("############################");
    reveal_strlit("#............##............#");
    reveal_strlit("#.####.#####.##.#####.####.#");
    reveal_strlit("#..........................#");
    reveal_strlit("#.####.##.########.##.####.#");
    reveal_strlit("#......##..........##......#");
    reveal_strlit("######.######..######.######");
    reveal_strlit("     #.######..######.#     ");
    reveal_strlit("     #.######--######.#     ");
    reveal_strlit("######.## #______# ##.######");
    reveal_strlit(".......   #______#   .......");
    reveal_strlit("     #.## ######## ##.#     ");
    reveal_strlit("     #.##          ##.#     ");
    reveal_strlit("######.## ######## ##.######");
    reveal_strlit("#...##................##...#");
    reveal_strlit("###.##.##.########.##.##.###");
    reveal_strlit("#......##....##....##......#");
    reveal_strlit("#.##########.##.##########.#");
    let wall = LAYOUT[0]@;
    assert(x == 0 || x == 1 || x == 2 || x == 3 || x == 4 || x == 5 || x == 6 || x == 7 || x == 8
        || x == 9 || x == 10 || x == 11 || x == 12 || x == 13 || x == 14 || x == 15 || x == 16 || x
        == 17 || x == 18 || x == 19 || x == 20 || x == 21 || x == 22 || x == 23 || x == 24 || x
        == 25 || x == 26 || x == 27);
}

/// The named tiles are what they are meant to be: both spawns and the tile above
/// the door are corridor, the house tile is house.
pub proof fn lemma_landmarks()
    ensures
        tile_under(spawn_p0()) is Corridor,
        tile_under(spawn_p1()) is Corridor,
        tile_under(ghost_door()) is Corridor,
        tile_under(ghost_house()) is House,
{
    reveal_strlit("     #.######..######.#     ");
    reveal_strlit(".......   #______#   .......");
    reveal_strlit("#...##................##...#");
}

/// No ghost ever stands on a scatter corner: they all lie beside the walkable
/// area, on the board.
pub proof fn law_no_scatter_corner_is_walkable(slot: int)
    ensures
        on_board(scatter_corner_of(slot).x as int, scatter_corner_of(slot).y as int),
        !tile_under(scatter_corner_of(slot)).walkable_by_ghost(),
{
    reveal_strlit("############################");
    reveal_strlit("#............##............#");
    reveal_strlit("######.## #______# ##.######");
}

/// Off the board nothing is walkable, so whatever a mover may enter lies on the
/// board once the tunnel is taken into account.
pub proof fn law_walkable_tiles_are_on_the_board(pos: IVec2)
    requires
        tile_under(pos).walkable_by_ghost() || tile_under(pos).walkable_by_pacman(),
    ensures
        on_board(wrapped(pos).x as int, wrapped(pos).y as int),
{
}

/// Nothing can step off the board except through the tunnel: a walkable tile on
/// an edge column lies in the tunnel row, and none lies on the top or bottom row.
pub proof fn law_only_the_tunnel_leaves_the_board(pos: IVec2)
    requires
        on_board(pos.x as int, pos.y as int),
        tile_under(pos).walkable_by_ghost() || tile_under(pos).walkable_by_pacman(),
    ensures
        0 < pos.y < MAZE_H - 1,
        pos.x == 0 || pos.x == MAZE_W - 1 ==> pos.y == TUNNEL_ROW,
{
    lemma_edges(pos.x as int, pos.y as int);
}

/// Wrapping lands inside the tunnel row and wrapping again changes nothing.
pub proof fn law_wrapping_is_idempotent(pos: IVec2)
    ensures
        wrapped(wrapped(pos)) == wrapped(pos),
        pos.y == TUNNEL_ROW ==> 0 <= wrapped(pos).x < MAZE_W,
        pos.y != TUNNEL_ROW ==> wrapped(pos) == pos,
{
}

/// What Pac-Man may enter, a ghost may enter too.
pub proof fn law_ghosts_walk_wherever_pacman_does(tile: Tile)
    ensures
        tile.walkable_by_pacman() ==> tile.walkable_by_ghost(),
        tile.holds_pellets() == tile.walkable_by_pacman(),
{
}

/// The position of a tile in row-major order.
pub open spec fn cell_index(t: IVec2) -> int {
    t.y * MAZE_W + t.x
}

/// Tile and row-major position determine each other on the board.
pub proof fn lemma_cell_index(t: IVec2)
    requires
        on_board(t.x as int, t.y as int),
    ensures
        0 <= cell_index(t) < CELLS,
        nth_tile(cell_index(t)) == t,
{
}

pub proof fn lemma_corridors_before(k: nat)
    requires
        k <= CELLS,
    ensures
        corridors_before(k).len() <= k,
        forall|i: int|
            0 <= i < corridors_before(k).len() ==> {
                let t = #[trigger] corridors_before(k)[i];
                &&& on_board(t.x as int, t.y as int)
                &&& tile_at(t.x as int, t.y as int) is Corridor
                &&& cell_index(t) < k
            },
        forall|i: int, j: int|
            0 <= i < j < corridors_before(k).len() ==> cell_index(#[trigger] corridors_before(k)[i])
                < cell_index(#[trigger] corridors_before(k)[j]),
        forall|t: IVec2|
            on_board(t.x as int, t.y as int) && tile_at(t.x as int, t.y as int) is Corridor
                && #[trigger] cell_index(t) < k ==> corridors_before(k).contains(t),
    decreases k,
{
    if k > 0 {
        lemma_corridors_before((k - 1) as nat);
        let before = corridors_before((k - 1) as nat);
        let last = nth_tile(k - 1);
        assert(cell_index(last) == k - 1);
        assert forall|t: IVec2|
            on_board(t.x as int, t.y as int) && tile_at(t.x as int, t.y as int) is Corridor
                && #[trigger] cell_index(t) < k implies corridors_before(k).contains(t) by {
            if cell_index(t) < k - 1 {
                assert(before.contains(t));
                let i = choose|i: int| 0 <= i < before.len() && before[i] == t;
                assert(corridors_before(k)[i] == t);
            } else {
                lemma_cell_index(t);
                assert(t == last);
                assert(corridors_before(k)[before.len() as int] == t);
            }
        }
    }
}

/// The corridor list holds every corridor tile of the board, nothing else, each
/// once, in row-major order.
pub proof fn law_corridors_are_the_corridor_tiles()
    ensures
        all_corridors().len() <= CELLS,
        forall|t: IVec2|
            #![trigger all_corridors().contains(t)]
            #![trigger tile_at(t.x as int, t.y as int)]
            all_corridors().contains(t) <==> on_board(t.x as int, t.y as int) && tile_at(
                t.x as int,
                t.y as int,
            ) is Corridor,
        all_corridors().no_duplicates(),
        forall|i: int, j: int|
            0 <= i < j < all_corridors().len() ==> cell_index(#[trigger] all_corridors()[i])
                < cell_index(#[trigger] all_corridors()[j]),
{
    lemma_corridors_before(CELLS as nat);
    assert forall|t: IVec2|
        on_board(t.x as int, t.y as int) && #[trigger] tile_at(
            t.x as int,
            t.y as int,
        ) is Corridor implies all_corridors().contains(t) by {
        lemma_cell_index(t);
    }
}

/// Corridors are for everybody and the only place for pellets; the house and its door
/// are for ghosts; walls and what lies outside are for nobody.
pub proof fn law_who_may_walk_where()
    ensures
        Tile::Corridor.walkable_by_pacman() && Tile::Corridor.walkable_by_ghost()
            && Tile::Corridor.holds_pellets(),
        !Tile::House.walkable_by_pacman() && Tile::House.walkable_by_ghost()
            && !Tile::House.holds_pellets(),
        !Tile::Door.walkable_by_pacman() && Tile::Door.walkable_by_ghost()
            && !Tile::Door.holds_pellets(),
        !Tile::Wall.walkable_by_pacman() && !Tile::Wall.walkable_by_ghost()
            && !Tile::Wall.holds_pellets(),
        !Tile::Void.walkable_by_pacman() && !Tile::Void.walkable_by_ghost()
            && !Tile::Void.holds_pellets(),
{
}

/// Only the tunnel row closes on itself: a column is counted round its twenty-eight
/// there, and every other coordinate stands for itself. Off the board there is
/// nothing.
pub proof fn law_only_the_tunnel_row_closes(pos: IVec2)
    ensures
        wrapped(pos).y == pos.y,
        pos.y == 14 ==> 0 <= wrapped(pos).x < 28 && (pos.x - wrapped(pos).x) % 28 == 0,
        pos.y != 14 ==> wrapped(pos).x == pos.x,
        tile_under(pos) == tile_at(wrapped(pos).x as int, wrapped(pos).y as int),
        !(0 <= pos.y < 31) ==> tile_under(pos) is Void,
        pos.y != 14 && !(0 <= pos.x < 28) ==> tile_under(pos) is Void,
{
}

/// Whether a row reads the same from both ends.
pub open spec fn mirrored(row: Seq<char>) -> bool {
    &&& row.len() == 28
    &&& row[0] == row[27]
    &&& row[1] == row[26]
    &&& row[2] == row[25]
    &&& row[3] == row[24]
    &&& row[4] == row[23]
    &&& row[5] == row[22]
    &&& row[6] == row[21]
    &&& row[7] == row[20]
    &&& row[8] == row[19]
    &&& row[9] == row[18]
    &&& row[10] == row[17]
    &&& row[11] == row[16]
    &&& row[12] == row[15]
    &&& row[13] == row[14]
}

/// The maze is fair: its right half mirrors its left half, and so do the corners the
/// two runners start from.
pub proof fn law_the_maze_is_fair_to_both(x: int, y: int)
    requires
        on_board(x, y),
    ensures
        tile_at(27 - x, y) == tile_at(x, y),
        spawn_p1().x == 27 - spawn_p0().x,
        spawn_p1().y == spawn_p0().y,
{
    assert(mirrored("############################"@)) by {
        reveal_strlit("############################");
    }
    assert(mirrored("#............##............#"@)) by {
        reveal_strlit("#............##............#");
    }
    assert(mirrored("#.####.#####.##.#####.####.#"@)) by {
        reveal_strlit("#.####.#####.##.#####.####.#");
    }
    assert(mirrored("#..........................#"@)) by {
        reveal_strlit("#..........................#");
    }
    assert(mirrored("#.####.##.########.##.####.#"@)) by {
        reveal_strlit("#.####.##.########.##.####.#");
    }
    assert(mirrored("#......##..........##......#"@)) by {
        reveal_strlit("#......##..........##......#");
    }
    assert(mirrored("######.######..######.######"@)) by {
        reveal_strlit("######.######..######.######");
    }
    assert(mirrored("     #.######..######.#     "@)) by {
        reveal_strlit("     #.######..######.#     ");
    }
    assert(mirrored("     #.######--######.#     "@)) by {
        reveal_strlit("     #.######--######.#     ");
    }
    assert(mirrored("######.## #______# ##.######"@)) by {
        reveal_strlit("######.## #______# ##.######");
    }
    assert(mirrored(".......   #______#   ......."@)) by {
        reveal_strlit(".......   #______#   .......");
    }
    assert(mirrored("     #.## ######## ##.#     "@)) by {
        reveal_strlit("     #.## ######## ##.#     ");
    }
    assert(mirrored("     #.##          ##.#     "@)) by {
        reveal_strlit("     #.##          ##.#     ");
    }
    assert(mirrored("######.## ######## ##.######"@)) by {
        reveal_strlit("######.## ######## ##.######");
    }
    assert(mirrored("#...##................##...#"@)) by {
        reveal_strlit("#...##................##...#");
    }
    assert(mirrored("###.##.##.########.##.##.###"@)) by {
        reveal_strlit("###.##.##.########.##.##.###");
    }
    assert(mirrored("#......##....##....##......#"@)) by {
        reveal_strlit("#......##....##....##......#");
    }
    assert(mirrored("#.##########.##.##########.#"@)) by {
        reveal_strlit("#.##########.##.##########.#");
    }
    let row = LAYOUT[y]@;
    assert(mirrored(row));
}

/// Every character of the layout stands for one kind of tile, and any other for what
/// lies outside.
pub proof fn law_characters_stand_for_tiles(c: char)
    ensures
        tile_of(c) is Wall <==> c == '#',
        tile_of(c) is Corridor <==> c == '.',
        tile_of(c) is Door <==> c == '-',
        tile_of(c) is House <==> c == '_',
{
}

} // verus!
