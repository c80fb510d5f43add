//! Grid movement.
//!
//! Everything on the board moves the same way: along a corridor, one tile at a
//! time, turning only when it lands exactly on a tile boundary. That constraint
//! is what makes client prediction trivial: given a position, a direction and a
//! speed, the next position is exact, with no drift across the network.

use vstd::prelude::*;
use crate::grid::{IVec2, WorldPoint, TILE_UNITS};
use crate::maze::{MAZE, MAZE_W, TUNNEL_ROW};
#[allow(unused_imports)]
use crate::maze::{on_board, tile_under, wrapped};

verus! {

#[derive(Debug, Clone, Copy, PartialEq, Eq, Hash, Structural)]
pub enum Dir {
    Up,
    Down,
    Left,
    Right,
}

impl Dir {
    /// The step one tile that way. Screen space: `y` grows downward, so up is
    /// negative `y`.
    pub open spec fn spec_delta(self) -> IVec2 {
        match self {
            Dir::Up => IVec2 { x: 0, y: -1i32 },
            Dir::Down => IVec2 { x: 0, y: 1 },
            Dir::Left => IVec2 { x: -1i32, y: 0 },
            Dir::Right => IVec2 { x: 1, y: 0 },
        }
    }

    pub fn delta(self) -> (step: IVec2)
        ensures
            step == self.spec_delta(),
    {
        match self {
            Dir::Up => IVec2::new(0, -1),
            Dir::Down => IVec2::new(0, 1),
            Dir::Left => IVec2::new(-1, 0),
            Dir::Right => IVec2::new(1, 0),
        }
    }

    pub open spec fn spec_opposite(self) -> Dir {
        match self {
            Dir::Up => Dir::Down,
            Dir::Down => Dir::Up,
            Dir::Left => Dir::Right,
            Dir::Right => Dir::Left,
        }
    }

    #[verifier::when_used_as_spec(spec_opposite)]
    pub fn opposite(self) -> (d: Dir)
        ensures
            d == self.spec_opposite(),
    {
        match self {
            Dir::Up => Dir::Down,
            Dir::Down => Dir::Up,
            Dir::Left => Dir::Right,
            Dir::Right => Dir::Left,
        }
    }

    /// All four directions, in the order in which they are preferred.
    pub open spec fn all_dirs() -> Seq<Dir> {
        seq![Dir::Up, Dir::Down, Dir::Left, Dir::Right]
    }

    pub fn all() -> (dirs: [Dir; 4])
        ensures
            dirs@ == Dir::all_dirs(),
    {
        let dirs = [Dir::Up, Dir::Down, Dir::Left, Dir::Right];
        assert(dirs@ =~= Dir::all_dirs());
        dirs
    }
}

/// Who is moving. Ghosts may cross the house door, Pac-Man may not.
#[derive(Debug, Clone, Copy, PartialEq, Eq, Structural)]
pub enum Mover {
    Pacman,
    MazeGhost,
}

impl Mover {
    /// Whether this mover may stand on a tile.
    pub open spec fn admits(self, tile: IVec2) -> bool {
        match self {
            Mover::Pacman => tile_under(tile).walkable_by_pacman(),
            Mover::MazeGhost => tile_under(tile).walkable_by_ghost(),
        }
    }

    pub fn can_enter(self, tile: IVec2) -> (open: bool)
        ensures
            open == self.admits(tile),
    {
        match self {
            Mover::Pacman => MAZE.walkable_by_pacman(tile),
            Mover::MazeGhost => MAZE.walkable_by_ghost(tile),
        }
    }
}

/// The tile one step away from `tile`, tunnel wrapping applied.
pub open spec fn neighbour(tile: IVec2, d: Dir) -> IVec2 {
    wrapped(tile.spec_plus(d.spec_delta()))
}

/// How far an offset can lie from zero: four billion tiles.
pub const OFFSET_LIMIT: i64 = 50_000_000_000_000_000;

/// A position on the grid: which tile, how far into it, and heading where.
#[derive(Debug, Clone, Copy, PartialEq, Eq, Structural)]
pub struct GridPos {
    pub tile: IVec2,
    /// Progress into the current tile along `dir`, in distance units: at least
    /// zero and less than a tile.
    pub offset: i64,
    pub dir: Dir,
}

/// The heading after asking for `desired` on a tile boundary: taken when that
/// way is open, ignored otherwise.
pub open spec fn turned(pos: GridPos, desired: Option<Dir>, mover: Mover) -> GridPos {
    match desired {
        Some(want) => if want != pos.dir && mover.admits(neighbour(pos.tile, want)) {
            GridPos { dir: want, ..pos }
        } else {
            pos
        },
        None => pos,
    }
}

/// Where a mover gets by covering `distance`, and how many tile boundaries it
/// crosses on the way. It turns on the boundaries it lands on and stops for good
/// in front of a tile it may not enter.
pub open spec fn travel(
    pos: GridPos,
    desired: Option<Dir>,
    mover: Mover,
    distance: int,
) -> (GridPos, int)
    decreases distance + pos.offset,
{
    let ahead = neighbour(pos.tile, pos.dir);
    if distance <= 0 {
        (pos, 0)
    } else if !mover.admits(ahead) {
        (GridPos { offset: 0, ..pos }, 0)
    } else if distance < TILE_UNITS - pos.offset {
        (GridPos { offset: (pos.offset + distance) as i64, ..pos }, 0)
    } else {
        let landed = turned(GridPos { tile: ahead, offset: 0, ..pos }, desired, mover);
        let rest = travel(landed, desired, mover, distance - (TILE_UNITS - pos.offset));
        (rest.0, rest.1 + 1)
    }
}

/// A whole move: a mover on a tile boundary may turn in place first, then it
/// travels.
pub open spec fn advanced(
    pos: GridPos,
    desired: Option<Dir>,
    mover: Mover,
    distance: int,
) -> (GridPos, int) {
    let start = if pos.offset == 0 {
        turned(pos, desired, mover)
    } else {
        pos
    };
    travel(start, desired, mover, distance)
}

/// The same place on the board, heading the other way.
pub open spec fn reversed(pos: GridPos) -> GridPos {
    if pos.offset > 0 {
        GridPos {
            tile: neighbour(pos.tile, pos.dir),
            offset: (TILE_UNITS - pos.offset) as i64,
            dir: pos.dir.spec_opposite(),
        }
    } else {
        GridPos { dir: pos.dir.spec_opposite(), ..pos }
    }
}

/// An offset taken along a unit step: forwards, backwards or not at all.
pub open spec fn along(step: i32, offset: int) -> int {
    if step > 0 {
        offset
    } else if step < 0 {
        -offset
    } else {
        0
    }
}

/// Where a position lies on the board, in distance units.
pub open spec fn world_of(pos: GridPos) -> WorldPoint {
    WorldPoint {
        x: (pos.tile.x * TILE_UNITS + along(pos.dir.spec_delta().x, pos.offset as int)) as i64,
        y: (pos.tile.y * TILE_UNITS + along(pos.dir.spec_delta().y, pos.offset as int)) as i64,
    }
}

/// The tile a position counts as occupying.
pub open spec fn occupied(pos: GridPos) -> IVec2 {
    if 2 * pos.offset >= TILE_UNITS {
        neighbour(pos.tile, pos.dir)
    } else {
        pos.tile
    }
}

impl GridPos {
    /// The progress into the tile is less than a tile.
    pub open spec fn in_tile(self) -> bool {
        0 <= self.offset < TILE_UNITS
    }

    /// A position the arithmetic below can work on. The offset may lie outside the
    /// tile.
    pub open spec fn wf(self) -> bool {
        -OFFSET_LIMIT <= self.offset <= OFFSET_LIMIT
    }

    /// A position a mover can legitimately be in: on a board tile it may enter,
    /// and on its way out of that tile only towards one it may enter.
    pub open spec fn sound(self, mover: Mover) -> bool {
        &&& self.in_tile()
        &&& on_board(self.tile.x as int, self.tile.y as int)
        &&& mover.admits(self.tile)
        &&& self.offset > 0 ==> mover.admits(neighbour(self.tile, self.dir))
    }

    #[verifier::allow_in_spec]
    pub fn new(tile: IVec2, dir: Dir) -> GridPos
        returns
            (GridPos { tile, offset: 0, dir }),
    {
        GridPos { tile, offset: 0, dir }
    }

    /// Advances along `dir`, adopting `desired` at each tile boundary when that
    /// way is open. Returns the number of tile boundaries crossed, which the
    /// caller uses to know when to test for pellets.
    ///
    /// Blocked movement parks the mover at `offset == 0` on its current tile
    /// rather than letting it drift into a wall.
    pub fn advance(&mut self, desired: Option<Dir>, mover: Mover, speed: i64, dt: i64) -> (crossed:
        u32)
        requires
            old(self).wf(),
            i64::MIN <= speed * dt <= i64::MAX,
            old(self).offset + speed * dt < 0x1_0000_0000 * TILE_UNITS,
        ensures
            (*final(self), crossed as int) == advanced(*old(self), desired, mover, speed * dt),
            final(self).wf(),
    {
        // A mover standing still may still turn in place, as long as the new
        // direction is open. This is what makes controls feel responsive when
        // you are pinned against a wall.
        if self.offset == 0 {
            self.turn(desired, mover);
        }
        let mut crossed: u32 = 0;
        let mut remaining: i64 = speed * dt;
        let ghost start = *self;
        let ghost distance = remaining as int;
        while remaining > 0
            invariant
                self.wf(),
                start.offset + distance < 0x1_0000_0000 * TILE_UNITS,
                crossed > 0 ==> self.offset == 0 && crossed * TILE_UNITS == distance - remaining
                    + start.offset,
                crossed == 0 ==> remaining == distance && *self == start,
                advanced(*old(self), desired, mover, speed * dt) == travel(
                    start,
                    desired,
                    mover,
                    distance,
                ),
                travel(start, desired, mover, distance).0 == travel(
                    *self,
                    desired,
                    mover,
                    remaining as int,
                ).0,
                travel(start, desired, mover, distance).1 == crossed + travel(
                    *self,
                    desired,
                    mover,
                    remaining as int,
                ).1,
            decreases remaining + self.offset,
        {
            // Refuse to leave the tile when the way ahead is closed.
            let ahead = self.next_tile(self.dir);
            if !mover.can_enter(ahead) {
                self.offset = 0;
                return crossed;
            }
            let to_boundary: i64 = TILE_UNITS - self.offset;
            if remaining < to_boundary {
                self.offset = self.offset + remaining;
                return crossed;
            }
            // Land exactly on the next tile, then decide where to go from here.

            remaining = remaining - to_boundary;
            self.tile = ahead;
            self.offset = 0;
            crossed = crossed + 1;
            self.turn(desired, mover);
        }
        crossed
    }

    /// Takes the wanted direction when that way is open.
    fn turn(&mut self, desired: Option<Dir>, mover: Mover)
        requires
            old(self).wf(),
        ensures
            *final(self) == turned(*old(self), desired, mover),
    {
        if let Some(want) = desired {
            if want != self.dir && mover.can_enter(self.next_tile(want)) {
                self.dir = want;
            }
        }
    }

    /// The tile one step away in `d`, tunnel wrapping applied.
    pub fn next_tile(&self, d: Dir) -> (tile: IVec2)
        ensures
            tile == neighbour(self.tile, d),
    {
        MAZE.wrap(self.tile.plus(d.delta()))
    }

    /// Exact position in distance units, for rendering and for distance checks
    /// that should not snap to the grid.
    pub fn world(&self) -> (at: WorldPoint)
        requires
            self.wf(),
        ensures
            at == world_of(*self),
            at.x == self.tile.x * TILE_UNITS + along(self.dir.spec_delta().x, self.offset as int),
            at.y == self.tile.y * TILE_UNITS + along(self.dir.spec_delta().y, self.offset as int),
    {
        let x: i64 = self.tile.x as i64 * TILE_UNITS;
        let y: i64 = self.tile.y as i64 * TILE_UNITS;
        match self.dir {
            Dir::Up => WorldPoint::new(x, y - self.offset),
            Dir::Down => WorldPoint::new(x, y + self.offset),
            Dir::Left => WorldPoint::new(x - self.offset, y),
            Dir::Right => WorldPoint::new(x + self.offset, y),
        }
    }

    /// The tile this position counts as occupying for collisions and pickups.
    /// Past the halfway mark it is the tile ahead, which keeps head-on
    /// collisions from resolving a frame late.
    pub fn occupied_tile(&self) -> (tile: IVec2)
        requires
            self.wf(),
        ensures
            tile == occupied(*self),
    {
        if 2 * self.offset >= TILE_UNITS {
            self.next_tile(self.dir)
        } else {
            self.tile
        }
    }

    /// Reverses direction in place, preserving the distance already travelled.
    /// Used when ghosts flip on a mode change.
    pub fn reverse(&mut self)
        requires
            old(self).wf(),
        ensures
            *final(self) == reversed(*old(self)),
    {
        if self.offset > 0 {
            self.tile = self.next_tile(self.dir);
            self.offset = TILE_UNITS - self.offset;
        }
        self.dir = self.dir.opposite();
    }
}

/// Turning round twice changes nothing, and a step there and back again leads
/// nowhere.
pub proof fn law_opposite_is_an_involution(d: Dir)
    ensures
        d.spec_opposite().spec_opposite() == d,
        d.spec_opposite() != d,
        d.spec_delta().spec_plus(d.spec_opposite().spec_delta()) == (IVec2 { x: 0, y: 0 }),
{
}

/// One step and one step back lead to where the walk began, also through the
/// tunnel.
pub proof fn law_a_step_back_undoes_a_step(tile: IVec2, d: Dir)
    requires
        on_board(tile.x as int, tile.y as int),
    ensures
        neighbour(neighbour(tile, d), d.spec_opposite()) == tile,
{
}

/// A mover that starts in a legitimate position ends in one: no distance, wish
/// or direction takes it into a wall, off the board or past its tile.
pub proof fn law_travel_stays_in_the_maze(
    pos: GridPos,
    desired: Option<Dir>,
    mover: Mover,
    distance: int,
)
    requires
        pos.sound(mover),
    ensures
        travel(pos, desired, mover, distance).0.sound(mover),
        travel(pos, desired, mover, distance).1 >= 0,
        advanced(pos, desired, mover, distance).0.sound(mover),
        advanced(pos, desired, mover, distance).1 >= 0,
    decreases distance,
{
    if distance > 0 {
        let ahead = neighbour(pos.tile, pos.dir);
        if mover.admits(ahead) && distance >= TILE_UNITS - pos.offset {
            let landed = turned(GridPos { tile: ahead, offset: 0, ..pos }, desired, mover);
            law_travel_stays_in_the_maze(
                landed,
                desired,
                mover,
                distance - (TILE_UNITS - pos.offset),
            );
        }
        let start = turned(pos, desired, mover);
        if pos.offset == 0 && start != pos {
            let open = neighbour(start.tile, start.dir);
            if distance >= TILE_UNITS {
                let landed = turned(GridPos { tile: open, offset: 0, ..start }, desired, mover);
                law_travel_stays_in_the_maze(landed, desired, mover, distance - TILE_UNITS);
            }
        }
    }
}

/// Travelling `first` and then `second` is travelling their sum, from a position
/// whose heading is settled.
proof fn lemma_travel_in_two_parts(
    pos: GridPos,
    desired: Option<Dir>,
    mover: Mover,
    first: int,
    second: int,
)
    requires
        pos.in_tile(),
        pos.offset > 0 ==> mover.admits(neighbour(pos.tile, pos.dir)),
        pos.offset == 0 ==> turned(pos, desired, mover) == pos,
        first >= 0,
        second >= 0,
    ensures
        ({
            let whole = travel(pos, desired, mover, first + second);
            let half = travel(pos, desired, mover, first);
            let rest = travel(half.0, desired, mover, second);
            &&& whole.0 == rest.0
            &&& whole.1 == half.1 + rest.1
            &&& half.0.offset == 0 ==> turned(half.0, desired, mover) == half.0
        }),
    decreases first,
{
    let ahead = neighbour(pos.tile, pos.dir);
    let to_boundary = TILE_UNITS - pos.offset;
    if first > 0 && mover.admits(ahead) && first >= to_boundary {
        let landed = turned(GridPos { tile: ahead, offset: 0, ..pos }, desired, mover);
        lemma_travel_in_two_parts(landed, desired, mover, first - to_boundary, second);
        assert(first + second - to_boundary == first - to_boundary + second);
    }
}

/// The property that makes prediction work: the same input applied in one big
/// step and in two smaller ones lands in exactly the same place and crosses the
/// same number of boundaries, and so for any number of steps.
pub proof fn law_movement_is_step_size_independent(
    pos: GridPos,
    desired: Option<Dir>,
    mover: Mover,
    first: int,
    second: int,
)
    requires
        pos.in_tile(),
        pos.offset > 0 ==> mover.admits(neighbour(pos.tile, pos.dir)),
        first >= 0,
        second >= 0,
    ensures
        ({
            let whole = advanced(pos, desired, mover, first + second);
            let half = advanced(pos, desired, mover, first);
            let rest = advanced(half.0, desired, mover, second);
            &&& whole.0 == rest.0
            &&& whole.1 == half.1 + rest.1
        }),
{
    let start = if pos.offset == 0 {
        turned(pos, desired, mover)
    } else {
        pos
    };
    lemma_travel_in_two_parts(start, desired, mover, first, second);
}

/// A full tile's worth of distance moves exactly one tile when the way is open,
/// and anything less stays in the tile.
pub proof fn law_a_tile_of_distance_is_a_tile(tile: IVec2, dir: Dir, mover: Mover, distance: int)
    requires
        mover.admits(neighbour(tile, dir)),
        0 <= distance <= TILE_UNITS,
    ensures
        advanced(GridPos { tile, offset: 0, dir }, None, mover, distance) == (if distance
            == TILE_UNITS {
            (GridPos { tile: neighbour(tile, dir), offset: 0, dir }, 1int)
        } else {
            (GridPos { tile, offset: distance as i64, dir }, 0int)
        }),
{
    let pos = GridPos { tile, offset: 0, dir };
    if distance == TILE_UNITS {
        let landed = GridPos { tile: neighbour(tile, dir), ..pos };
        assert(turned(landed, None, mover) == landed);
        assert(travel(landed, None, mover, 0) == (landed, 0int));
    }
}

/// Walking into a closed tile parks the mover at the boundary of its own.
pub proof fn law_a_closed_way_parks_the_mover(pos: GridPos, mover: Mover, distance: int)
    requires
        pos.in_tile(),
        !mover.admits(neighbour(pos.tile, pos.dir)),
        distance > 0,
    ensures
        advanced(pos, None, mover, distance) == (GridPos { offset: 0, ..pos }, 0int),
{
}

/// How far a move led along its path: the boundaries crossed, and the progress
/// into the last tile against that into the first.
pub open spec fn path_length(from: GridPos, to: GridPos, crossed: int) -> int {
    crossed * TILE_UNITS + to.offset - from.offset
}

proof fn lemma_travel_covers_its_distance(
    pos: GridPos,
    desired: Option<Dir>,
    mover: Mover,
    distance: int,
)
    requires
        pos.in_tile(),
        pos.offset > 0 ==> mover.admits(neighbour(pos.tile, pos.dir)),
        distance >= 0,
    ensures
        ({
            let (end, crossed) = travel(pos, desired, mover, distance);
            let covered = path_length(pos, end, crossed);
            &&& crossed >= 0
            &&& end.in_tile()
            &&& 0 <= covered <= distance
            &&& covered < distance ==> end.offset == 0 && !mover.admits(
                neighbour(end.tile, end.dir),
            )
            &&& end.dir == pos.dir || desired == Some(end.dir)
            &&& crossed == 0 ==> end.dir == pos.dir && end.tile == pos.tile
        }),
    decreases distance,
{
    let ahead = neighbour(pos.tile, pos.dir);
    let to_boundary = TILE_UNITS - pos.offset;
    if distance > 0 && mover.admits(ahead) && distance >= to_boundary {
        let landed = turned(GridPos { tile: ahead, offset: 0, ..pos }, desired, mover);
        lemma_travel_covers_its_distance(landed, desired, mover, distance - to_boundary);
    }
}

/// A move goes as far as it is asked to, or until the way is closed: if it ends
/// short, then on a tile boundary in front of a tile the mover may not enter. Its
/// heading is the old one or the one asked for, and only changes on a boundary.
pub proof fn law_only_a_closed_way_shortens_a_move(
    pos: GridPos,
    desired: Option<Dir>,
    mover: Mover,
    distance: int,
)
    requires
        pos.in_tile(),
        pos.offset > 0 ==> mover.admits(neighbour(pos.tile, pos.dir)),
        distance >= 0,
    ensures
        ({
            let (end, crossed) = advanced(pos, desired, mover, distance);
            let covered = path_length(pos, end, crossed);
            &&& 0 <= covered <= distance
            &&& covered < distance ==> end.offset == 0 && !mover.admits(
                neighbour(end.tile, end.dir),
            )
            &&& end.dir == pos.dir || desired == Some(end.dir)
            &&& pos.offset > 0 && crossed == 0 ==> end.dir == pos.dir
            &&& crossed == 0 ==> end.tile == pos.tile
        }),
{
    let start = if pos.offset == 0 {
        turned(pos, desired, mover)
    } else {
        pos
    };
    lemma_travel_covers_its_distance(start, desired, mover, distance);
}

/// Nothing turns in the middle of a tile: without reaching a boundary the
/// heading and the tile stay what they were.
pub proof fn law_no_turn_in_the_middle_of_a_tile(
    pos: GridPos,
    desired: Option<Dir>,
    mover: Mover,
    distance: int,
)
    requires
        pos.in_tile(),
        pos.offset > 0,
        mover.admits(neighbour(pos.tile, pos.dir)),
        0 <= distance < TILE_UNITS - pos.offset,
    ensures
        advanced(pos, desired, mover, distance) == (
            GridPos { offset: (pos.offset + distance) as i64, ..pos },
            0int,
        ),
{
}

/// Reversing keeps the mover where it is on the board. Half way through the tunnel
/// seam it is named from the other side of it, a whole board's width away.
pub proof fn law_reverse_preserves_the_place(pos: GridPos)
    requires
        pos.in_tile(),
        on_board(pos.tile.x as int, pos.tile.y as int),
    ensures
        ({
            let (a, b) = (world_of(pos), world_of(reversed(pos)));
            let width = MAZE_W * TILE_UNITS;
            &&& b.y == a.y
            &&& b.x == a.x || b.x == a.x + width || b.x == a.x - width
            &&& pos.tile.y != TUNNEL_ROW || 0 <= pos.tile.x + pos.dir.spec_delta().x < MAZE_W
                ==> b == a
        }),
        reversed(pos).dir == pos.dir.spec_opposite(),
        pos.offset > 0 || reversed(pos).offset == 0,
        reversed(pos).in_tile(),
{
}

/// Reversing twice restores the position.
pub proof fn law_reversing_twice_changes_nothing(pos: GridPos)
    requires
        pos.in_tile(),
        on_board(pos.tile.x as int, pos.tile.y as int),
    ensures
        reversed(reversed(pos)) == pos,
{
    law_a_step_back_undoes_a_step(pos.tile, pos.dir);
}

/// Reversing never takes a mover out of a legitimate position.
pub proof fn law_reverse_stays_in_the_maze(pos: GridPos, mover: Mover)
    requires
        pos.sound(mover),
    ensures
        reversed(pos).sound(mover),
{
    law_a_step_back_undoes_a_step(pos.tile, pos.dir);
}

/// The next tile lies one up, down, left or right; beyond either end of the tunnel
/// row it is the tile at the other end.
pub proof fn law_the_next_tile_lies_one_step_on(tile: IVec2, d: Dir)
    requires
        on_board(tile.x as int, tile.y as int),
    ensures
        ({
            let next = neighbour(tile, d);
            match d {
                Dir::Up => next.x == tile.x && next.y == tile.y - 1,
                Dir::Down => next.x == tile.x && next.y == tile.y + 1,
                Dir::Left => next.y == tile.y && next.x == (if tile.y == 14 && tile.x == 0 {
                    27
                } else {
                    tile.x - 1
                }),
                Dir::Right => next.y == tile.y && next.x == (if tile.y == 14 && tile.x == 27 {
                    0
                } else {
                    tile.x + 1
                }),
            }
        }),
{
}

/// The opposite of up is down, and of left it is right.
pub proof fn law_opposites()
    ensures
        Dir::Up.spec_opposite() == Dir::Down,
        Dir::Down.spec_opposite() == Dir::Up,
        Dir::Left.spec_opposite() == Dir::Right,
        Dir::Right.spec_opposite() == Dir::Left,
{
}

/// A move leg by leg. On a tile boundary the mover takes the way it wants if that
/// way is open, and otherwise keeps going; between two tiles it only goes straight
/// on. It stops in front of a closed tile, and the rest of its distance is lost.
pub proof fn law_a_move_goes_leg_by_leg(
    pos: GridPos,
    desired: Option<Dir>,
    mover: Mover,
    distance: int,
)
    requires
        pos.in_tile(),
        distance > 0,
    ensures
        ({
            let wanted = pos.offset == 0 && desired is Some && mover.admits(
                neighbour(pos.tile, desired->0),
            );
            let dir = if wanted {
                desired->0
            } else {
                pos.dir
            };
            let ahead = neighbour(pos.tile, dir);
            let left = 12_000_000 - pos.offset;
            let (end, crossed) = advanced(pos, desired, mover, distance);
            if !mover.admits(ahead) {
                end == (GridPos { tile: pos.tile, offset: 0, dir }) && crossed == 0
            } else if distance < left {
                &&& end.tile == pos.tile && end.dir == dir
                &&& end.offset == pos.offset + distance
                &&& crossed == 0
            } else if distance == left {
                &&& end.tile == ahead && end.offset == 0 && crossed == 1
                &&& end.dir == (if desired is Some && mover.admits(neighbour(ahead, desired->0)) {
                    desired->0
                } else {
                    dir
                })
            } else {
                let next = GridPos { tile: ahead, offset: 0, dir };
                let rest = advanced(next, desired, mover, distance - left);
                end == rest.0 && crossed == rest.1 + 1
            }
        }),
{
    let dir = if pos.offset == 0 {
        turned(pos, desired, mover).dir
    } else {
        pos.dir
    };
    let start = GridPos { dir, ..pos };
    let ahead = neighbour(pos.tile, dir);
    let left = 12_000_000 - pos.offset;
    assert(advanced(pos, desired, mover, distance) == travel(start, desired, mover, distance));
    if mover.admits(ahead) && distance >= left {
        let landed = turned(GridPos { tile: ahead, offset: 0, dir }, desired, mover);
        assert(travel(start, desired, mover, distance).0 == travel(
            landed,
            desired,
            mover,
            distance - left,
        ).0);
        if distance == left {
            assert(travel(landed, desired, mover, 0) == (landed, 0int));
        }
    }
}

/// A mover counts as being on the nearer of the two tiles it is between, and half
/// way it counts as being on the next one.
pub proof fn law_half_way_is_there(pos: GridPos)
    requires
        pos.in_tile(),
    ensures
        pos.offset < 6_000_000 ==> occupied(pos) == pos.tile,
        pos.offset >= 6_000_000 ==> occupied(pos) == neighbour(pos.tile, pos.dir),
{
}

} // verus!
