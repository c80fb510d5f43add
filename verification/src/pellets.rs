//! The pellet field and its continuous drip.
//!
//! The maze never empties. Pellets trickle back into tiles that were eaten,
//! which is what keeps the player who is behind from starving while the leader
//! farms an empty board.

use vstd::prelude::*;
use crate::grid::{chebyshev, IVec2, SECOND};
use crate::maze::{CELLS, MAZE, MAZE_H, MAZE_W};
#[allow(unused_imports)]
use crate::grid::tile_distance;
#[allow(unused_imports)]
use crate::maze::{
    all_corridors, cell_index, corridors_before, law_corridors_are_the_corridor_tiles,
    lemma_cell_index, lemma_landmarks, nth_tile, on_board, spawn_p0, tile_at,
};

verus! {

/// Pellets respawned per second.
pub const DRIP_PER_SEC: i64 = 3;

/// A drip never lands this close to a live runner, so nobody is fed for free.
pub const DRIP_MIN_DISTANCE: i32 = 4;

/// Attempts at a random tile before the field is searched in order.
pub const PICK_ATTEMPTS: u32 = 64;

#[derive(Debug, Clone, Copy, PartialEq, Eq, Structural)]
pub enum PelletKind {
    Normal,
    Power,
}

/// A small deterministic generator. The simulation needs reproducible
/// randomness and nothing more.
#[derive(Debug, Clone, Copy, PartialEq, Eq, Structural)]
pub struct Rng {
    pub state: u64,
}

/// One xorshift step.
pub open spec fn scrambled(x: u64) -> u64 {
    let a = x ^ (x >> 12);
    let b = a ^ (a << 25);
    b ^ (b >> 27)
}

/// The number a generator hands out on reaching a state.
pub open spec fn number_of(state: u64) -> u64 {
    state.wrapping_mul(0x2545_F491_4F6C_DD1D)
}

impl Rng {
    pub fn seeded(seed: u64) -> (rng: Rng)
        ensures
            rng.state == first_state(seed),
    {
        // Zero is a fixed point of xorshift, so shift it out of the way.
        Rng { state: seed ^ 0x9E37_79B9_7F4A_7C15 }
    }

    pub fn next_u64(&mut self) -> (value: u64)
        ensures
            final(self).state == scrambled(old(self).state),
            value == number_of(final(self).state),
    {
        let mut x: u64 = self.state;
        x = x ^ (x >> 12);
        x = x ^ (x << 25);
        x = x ^ (x >> 27);
        self.state = x;
        x.wrapping_mul(0x2545_F491_4F6C_DD1D)
    }

    /// Uniform in `[0, n)`. Returns 0 when `n` is 0.
    pub fn below(&mut self, n: usize) -> (value: usize)
        ensures
            n == 0 ==> value == 0 && *final(self) == *old(self),
            n > 0 ==> {
                &&& final(self).state == scrambled(old(self).state)
                &&& value as int == number_of(final(self).state) as int % n as int
                &&& value < n
            },
    {
        if n == 0 {
            return 0;
        }
        (self.next_u64() % n as u64) as usize
    }
}

/// The generator only stands still on zero, which no other state leads to: once
/// it moves, it keeps moving.
pub proof fn law_the_generator_never_stalls(x: u64)
    ensures
        scrambled(x) == 0 <==> x == 0,
{
    assert(({
        let a = x ^ (x >> 12);
        let b = a ^ (a << 25);
        b ^ (b >> 27)
    }) == 0 <==> x == 0) by (bit_vector);
}

/// The state a seed starts the generator in.
pub open spec fn first_state(seed: u64) -> u64 {
    seed ^ 0x9E37_79B9_7F4A_7C15
}

/// The state after `n` numbers were drawn.
pub open spec fn state_after(seed: u64, n: nat) -> u64
    decreases n,
{
    if n == 0 {
        first_state(seed)
    } else {
        scrambled(state_after(seed, (n - 1) as nat))
    }
}

/// The `n`-th number a seed hands out, counted from one.
pub open spec fn nth_number(seed: u64, n: nat) -> u64 {
    number_of(state_after(seed, n))
}

/// A step loses nothing: different states lead to different states.
proof fn lemma_scrambling_loses_nothing(x: u64, y: u64)
    requires
        scrambled(x) == scrambled(y),
    ensures
        x == y,
{
    let (a, c) = (x ^ (x >> 12), y ^ (y >> 12));
    let (b, d) = (a ^ (a << 25), c ^ (c << 25));
    assert(b ^ (b >> 27) == d ^ (d >> 27) ==> b == d) by (bit_vector);
    assert(a ^ (a << 25) == c ^ (c << 25) ==> a == c) by (bit_vector);
    assert(x ^ (x >> 12) == y ^ (y >> 12) ==> x == y) by (bit_vector);
}

/// The factor of the generator is odd, so it has an inverse: multiplying by that
/// gives the state back.
proof fn lemma_a_number_tells_its_state(x: u64)
    ensures
        (number_of(x) as int * 0x5907_1D96_D81E_CD35) % 0x1_0000_0000_0000_0000 == x as int,
{
    let (c, inv, m) = (
        0x2545_F491_4F6C_DD1Dint,
        0x5907_1D96_D81E_CD35int,
        0x1_0000_0000_0000_0000int,
    );
    assert(number_of(x) as int == (x as int * c) % m);
    vstd::arithmetic::div_mod::lemma_mul_mod_noop_left(x as int * c, inv, m);
    let k = 934_034_299_265_436_267int;
    assert(c * inv == k * m + 1);
    assert((x as int * c) * inv == m * (k * x) + x as int) by (nonlinear_arith)
        requires
            c * inv == k * m + 1,
    ;
    vstd::arithmetic::div_mod::lemma_fundamental_div_mod_converse_mod(
        (x as int * c) * inv,
        m,
        k * x,
        x as int,
    );
}

/// Different seeds hand out different numbers, at every step.
pub proof fn law_seeds_differ(seed: u64, other: u64, n: nat)
    requires
        seed != other,
    ensures
        state_after(seed, n) != state_after(other, n),
        nth_number(seed, n) != nth_number(other, n),
    decreases n,
{
    if n == 0 {
        assert(seed != other ==> seed ^ 0x9E37_79B9_7F4A_7C15 != other ^ 0x9E37_79B9_7F4A_7C15)
            by (bit_vector);
    } else {
        law_seeds_differ(seed, other, (n - 1) as nat);
        if state_after(seed, n) == state_after(other, n) {
            lemma_scrambling_loses_nothing(
                state_after(seed, (n - 1) as nat),
                state_after(other, (n - 1) as nat),
            );
        }
    }
    lemma_a_number_tells_its_state(state_after(seed, n));
    lemma_a_number_tells_its_state(state_after(other, n));
}

/// One seed hands out nothing but zeros; no other one ever hands out a zero.
pub proof fn law_one_seed_stands_still(seed: u64, n: nat)
    ensures
        nth_number(seed, n) == 0 <==> seed == 0x9E37_79B9_7F4A_7C15,
{
    let still = 0x9E37_79B9_7F4A_7C15u64;
    lemma_the_still_seed(n);
    if seed != still {
        law_seeds_differ(seed, still, n);
    }
}

proof fn lemma_the_still_seed(n: nat)
    ensures
        state_after(0x9E37_79B9_7F4A_7C15, n) == 0,
        nth_number(0x9E37_79B9_7F4A_7C15, n) == 0,
    decreases n,
{
    if n == 0 {
        assert(0x9E37_79B9_7F4A_7C15u64 ^ 0x9E37_79B9_7F4A_7C15u64 == 0) by (bit_vector);
    } else {
        lemma_the_still_seed((n - 1) as nat);
        law_the_generator_never_stalls(state_after(0x9E37_79B9_7F4A_7C15, (n - 1) as nat));
    }
}

/// What a field holds: one entry per board tile in row-major order, and the
/// fraction of a pellet the drip still owes, in parts of `SECOND`.
#[verifier::ext_equal]
pub struct FieldView {
    pub cells: Seq<Option<PelletKind>>,
    pub carry: int,
}

impl FieldView {
    /// One entry per tile.
    pub open spec fn wf(self) -> bool {
        self.cells.len() == CELLS
    }

    pub open spec fn at(self, tile: IVec2) -> Option<PelletKind> {
        if on_board(tile.x as int, tile.y as int) {
            self.cells[cell_index(tile)]
        } else {
            None
        }
    }

    pub open spec fn with(self, tile: IVec2, content: Option<PelletKind>) -> FieldView {
        if on_board(tile.x as int, tile.y as int) {
            FieldView { cells: self.cells.update(cell_index(tile), content), ..self }
        } else {
            self
        }
    }

    /// An empty tile at a distance from every player.
    pub open spec fn free(self, tile: IVec2, players: Seq<IVec2>) -> bool {
        &&& self.at(tile) is None
        &&& forall|i: int|
            0 <= i < players.len() ==> tile_distance(tile, #[trigger] players[i])
                >= DRIP_MIN_DISTANCE
    }

    /// Random attempts: the first free tile drawn, if any, and the generator
    /// state afterwards.
    pub open spec fn drawn(self, state: u64, players: Seq<IVec2>, attempts: nat) -> (
        Option<IVec2>,
        u64,
    )
        decreases attempts,
    {
        if attempts == 0 {
            (None, state)
        } else {
            let next = scrambled(state);
            let tile = all_corridors()[number_of(next) as int % all_corridors().len() as int];
            if self.free(tile, players) {
                (Some(tile), next)
            } else {
                self.drawn(next, players, (attempts - 1) as nat)
            }
        }
    }

    /// The first free tile among `count` corridor tiles from position `from` on,
    /// starting over at the end of the list.
    pub open spec fn found(self, players: Seq<IVec2>, from: int, count: nat) -> Option<IVec2>
        decreases count,
    {
        if count == 0 {
            None
        } else {
            let tile = all_corridors()[from % all_corridors().len() as int];
            if self.free(tile, players) {
                Some(tile)
            } else {
                self.found(players, from + 1, (count - 1) as nat)
            }
        }
    }

    /// A free corridor tile: drawn at random, or else the first one found from a
    /// random start.
    pub open spec fn picked(self, state: u64, players: Seq<IVec2>) -> (Option<IVec2>, u64) {
        let (tile, after) = self.drawn(state, players, PICK_ATTEMPTS as nat);
        if tile is Some {
            (tile, after)
        } else {
            let last = scrambled(after);
            let n = all_corridors().len();
            (self.found(players, number_of(last) as int % n as int, n), last)
        }
    }

    /// The pellets owed are placed one by one until less than one is owed or no
    /// tile is free: the field, the generator state and where they landed. A board
    /// without room runs up no debt: only the fraction is kept.
    pub open spec fn settled(self, state: u64, players: Seq<IVec2>) -> (
        FieldView,
        u64,
        Seq<(IVec2, PelletKind)>,
    )
        decreases self.carry,
    {
        if self.carry < SECOND {
            (self, state, Seq::empty())
        } else {
            let (tile, after) = self.picked(state, players);
            match tile {
                Some(t) => {
                    let owed = FieldView { carry: self.carry - SECOND, ..self };
                    let (field, last, rest) = owed.with(t, Some(PelletKind::Normal)).settled(
                        after,
                        players,
                    );
                    (field, last, seq![(t, PelletKind::Normal)] + rest)
                },
                None => (
                    FieldView { carry: self.carry % (SECOND as int), ..self },
                    after,
                    Seq::empty(),
                ),
            }
        }
    }

    /// The drip of `dt` time units.
    pub open spec fn dripped(self, state: u64, players: Seq<IVec2>, dt: int) -> (
        FieldView,
        u64,
        Seq<(IVec2, PelletKind)>,
    ) {
        FieldView { carry: self.carry + DRIP_PER_SEC * dt, ..self }.settled(state, players)
    }

    /// One power pellet, where there is room for it.
    pub open spec fn powered(self, state: u64, players: Seq<IVec2>) -> (
        FieldView,
        u64,
        Option<IVec2>,
    ) {
        let (tile, after) = self.picked(state, players);
        match tile {
            Some(t) => (self.with(t, Some(PelletKind::Power)), after, tile),
            None => (self, after, tile),
        }
    }
}

/// How many entries hold a pellet.
pub open spec fn held(cells: Seq<Option<PelletKind>>) -> nat
    decreases cells.len(),
{
    if cells.len() == 0 {
        0
    } else {
        held(cells.drop_last()) + (if cells.last() is Some {
            1nat
        } else {
            0nat
        })
    }
}

/// The field without a pellet.
pub open spec fn empty_field() -> FieldView {
    FieldView { cells: Seq::new(CELLS as nat, |k: int| None), carry: 0 }
}

/// What the opening field holds on its `k`-th tile.
pub open spec fn opening_cell(k: int) -> Option<PelletKind> {
    if tile_at(nth_tile(k).x as int, nth_tile(k).y as int).holds_pellets() {
        Some(PelletKind::Normal)
    } else {
        None
    }
}

/// The field with a normal pellet on every corridor tile.
pub open spec fn full_field() -> FieldView {
    FieldView { cells: Seq::new(CELLS as nat, |k: int| opening_cell(k)), carry: 0 }
}

/// Whether distances between this tile and any board tile can be measured.
pub open spec fn measurable(tile: IVec2) -> bool {
    tile.x >= 27 - i32::MAX && tile.y >= 30 - i32::MAX
}

/// The same for all of them.
pub open spec fn all_measurable(players: Seq<IVec2>) -> bool {
    forall|i: int| 0 <= i < players.len() ==> measurable(#[trigger] players[i])
}

/// Two bits per tile: nothing, a normal pellet or a power pellet.
pub open spec fn code_of(content: Option<PelletKind>) -> int {
    match content {
        None => 0,
        Some(PelletKind::Normal) => 1,
        Some(PelletKind::Power) => 2,
    }
}

/// What a two bit code stands for. The fourth code stands for nothing.
pub open spec fn content_of(code: int) -> Option<PelletKind> {
    if code == 1 {
        Some(PelletKind::Normal)
    } else if code == 2 {
        Some(PelletKind::Power)
    } else {
        None
    }
}

impl FieldView {
    /// The code of the `i`-th corridor tile; past the last one, the empty code.
    pub open spec fn code(self, i: int) -> int {
        if 0 <= i < all_corridors().len() {
            code_of(self.at(all_corridors()[i]))
        } else {
            0
        }
    }

    /// The field as bytes: four corridor tiles each, the first in the lowest
    /// bits.
    pub open spec fn bits(self) -> Seq<u8> {
        Seq::new(
            ((all_corridors().len() + 3) / 4) as nat,
            |b: int|
                (self.code(4 * b) + 4 * self.code(4 * b + 1) + 16 * self.code(4 * b + 2) + 64
                    * self.code(4 * b + 3)) as u8,
        )
    }
}

/// The code at position `i` of a byte string; past its end, the empty code.
pub open spec fn code_in(bits: Seq<u8>, i: int) -> int {
    if 0 <= i / 4 < bits.len() {
        let byte = bits[i / 4] as int;
        if i % 4 == 0 {
            byte % 4
        } else if i % 4 == 1 {
            byte / 4 % 4
        } else if i % 4 == 2 {
            byte / 16 % 4
        } else {
            byte / 64 % 4
        }
    } else {
        0
    }
}

/// The field a byte string stands for.
pub open spec fn restored(bits: Seq<u8>) -> FieldView {
    FieldView {
        cells: Seq::new(
            CELLS as nat,
            |k: int|
                if all_corridors().contains(nth_tile(k)) {
                    content_of(code_in(bits, all_corridors().index_of(nth_tile(k))))
                } else {
                    None
                },
        ),
        carry: 0,
    }
}

#[derive(Debug, Clone)]
pub struct PelletField {
    cells: Vec<Option<PelletKind>>,
    /// Fractional carry so a 3-per-second rate survives a 30Hz tick.
    drip_carry: i64,
    corridors: Vec<IVec2>,
}

impl View for PelletField {
    type V = FieldView;

    closed spec fn view(&self) -> FieldView {
        FieldView { cells: self.cells@, carry: self.drip_carry as int }
    }
}

fn index(tile: IVec2) -> (i: Option<usize>)
    ensures
        i is Some <==> on_board(tile.x as int, tile.y as int),
        i matches Some(k) ==> k == cell_index(tile) && k < CELLS,
{
    if tile.x < 0 || tile.y < 0 || tile.x >= MAZE_W as i32 || tile.y >= MAZE_H as i32 {
        return None;
    }
    Some(tile.y as usize * MAZE_W + tile.x as usize)
}

impl PelletField {
    /// The field covers the board and knows its corridors.
    pub closed spec fn wf(&self) -> bool {
        &&& self@.wf()
        &&& self.corridors@ == all_corridors()
    }

    /// What a well formed field promises about its contents.
    pub proof fn lemma_wf(&self)
        requires
            self.wf(),
        ensures
            self@.wf(),
            i64::MIN <= self@.carry <= i64::MAX,
    {
    }

    /// Every corridor tile seeded with a normal pellet.
    pub fn new_full() -> (field: PelletField)
        ensures
            field.wf(),
            field@ == full_field(),
    {
        let mut cells: Vec<Option<PelletKind>> = Vec::new();
        for k in 0..CELLS
            invariant
                cells@ == Seq::new(k as nat, |j: int| opening_cell(j)),
        {
            let t = IVec2::new((k % MAZE_W) as i32, (k / MAZE_W) as i32);
            assert(t == nth_tile(k as int));
            if MAZE.at(t).holds_pellets() {
                cells.push(Some(PelletKind::Normal));
            } else {
                cells.push(None);
            }
        }
        PelletField { cells, drip_carry: 0, corridors: MAZE.corridors() }
    }

    pub fn empty() -> (field: PelletField)
        ensures
            field.wf(),
            field@ == empty_field(),
    {
        let mut cells: Vec<Option<PelletKind>> = Vec::new();
        for k in 0..CELLS
            invariant
                cells@ == Seq::new(k as nat, |j: int| None::<PelletKind>),
        {
            cells.push(None);
        }
        PelletField { cells, drip_carry: 0, corridors: MAZE.corridors() }
    }

    pub fn at(&self, tile: IVec2) -> (content: Option<PelletKind>)
        requires
            self.wf(),
        ensures
            content == self@.at(tile),
    {
        match index(tile) {
            Some(i) => self.cells[i],
            None => None,
        }
    }

    /// Removes and returns whatever sits on the tile.
    pub fn take(&mut self, tile: IVec2) -> (content: Option<PelletKind>)
        requires
            old(self).wf(),
        ensures
            final(self).wf(),
            content == old(self)@.at(tile),
            final(self)@ == old(self)@.with(tile, None),
    {
        match index(tile) {
            Some(i) => {
                let content = self.cells[i];
                self.cells[i] = None;
                content
            },
            None => None,
        }
    }

    pub fn put(&mut self, tile: IVec2, kind: PelletKind)
        requires
            old(self).wf(),
        ensures
            final(self).wf(),
            final(self)@ == old(self)@.with(tile, Some(kind)),
    {
        if let Some(i) = index(tile) {
            self.cells[i] = Some(kind);
        }
    }

    pub fn count(&self) -> (n: usize)
        ensures
            n == held(self@.cells),
    {
        let mut n: usize = 0;
        for i in 0..self.cells.len()
            invariant
                n <= i,
                n == held(self.cells@.take(i as int)),
        {
            assert(self.cells@.take(i as int + 1).drop_last() =~= self.cells@.take(i as int));
            if self.cells[i].is_some() {
                n = n + 1;
            }
        }
        assert(self.cells@.take(self.cells@.len() as int) =~= self.cells@);
        n
    }

    /// Respawns pellets for `dt` time units. `players` are the tiles of every
    /// live runner; candidates near them are rejected.
    pub fn drip(&mut self, rng: &mut Rng, players: &[IVec2], dt: i64) -> (spawned: Vec<
        (IVec2, PelletKind),
    >)
        requires
            old(self).wf(),
            all_measurable(players@),
            i64::MIN <= old(self)@.carry + DRIP_PER_SEC * dt <= i64::MAX,
            i64::MIN <= DRIP_PER_SEC * dt <= i64::MAX,
        ensures
            final(self).wf(),
            (final(self)@, final(rng).state, spawned@) == old(self)@.dripped(
                old(rng).state,
                players@,
                dt as int,
            ),
    {
        self.drip_carry = self.drip_carry + DRIP_PER_SEC * dt;
        let mut spawned: Vec<(IVec2, PelletKind)> = Vec::new();
        let ghost whole = self@.settled(rng.state, players@);
        while self.drip_carry >= SECOND
            invariant
                self.wf(),
                all_measurable(players@),
                whole == old(self)@.dripped(old(rng).state, players@, dt as int),
                whole.0 == self@.settled(rng.state, players@).0,
                whole.1 == self@.settled(rng.state, players@).1,
                whole.2 == spawned@ + self@.settled(rng.state, players@).2,
            decreases self.drip_carry,
        {
            let ghost before = self@;
            match self.pick_free_tile(rng, players) {
                Some(tile) => {
                    let ghost sofar = spawned@;
                    self.drip_carry = self.drip_carry - SECOND;
                    self.put(tile, PelletKind::Normal);
                    spawned.push((tile, PelletKind::Normal));
                    proof {
                        let rest = self@.settled(rng.state, players@).2;
                        assert(sofar + (seq![(tile, PelletKind::Normal)] + rest) =~= spawned@
                            + rest);
                    }
                },
                // A full board is not an error, it just means nothing to drip.
                None => {
                    self.drip_carry = self.drip_carry % SECOND;
                    assert(spawned@ + Seq::<(IVec2, PelletKind)>::empty() =~= spawned@);
                    return spawned;
                },
            }
        }
        assert(spawned@ + Seq::<(IVec2, PelletKind)>::empty() =~= spawned@);
        spawned
    }

    /// Whether the fraction owed still fits its counter after `dt` time units.
    pub fn can_drip(&self, dt: i64) -> (fits: bool)
        requires
            0 <= dt <= 1_000_000_000,
        ensures
            fits == (self@.carry <= i64::MAX - DRIP_PER_SEC * dt),
    {
        self.drip_carry <= i64::MAX - DRIP_PER_SEC * dt
    }

    /// Places one power pellet. Returns where it landed.
    pub fn spawn_power(&mut self, rng: &mut Rng, players: &[IVec2]) -> (landed: Option<IVec2>)
        requires
            old(self).wf(),
            all_measurable(players@),
        ensures
            final(self).wf(),
            (final(self)@, final(rng).state, landed) == old(self)@.powered(
                old(rng).state,
                players@,
            ),
    {
        match self.pick_free_tile(rng, players) {
            Some(tile) => {
                self.put(tile, PelletKind::Power);
                Some(tile)
            },
            None => None,
        }
    }

    /// Rejection sampling over corridor tiles. Bounded attempts, then a linear
    /// scan so a nearly full board still terminates.
    fn pick_free_tile(&self, rng: &mut Rng, players: &[IVec2]) -> (tile: Option<IVec2>)
        requires
            self.wf(),
            all_measurable(players@),
        ensures
            (tile, final(rng).state) == self@.picked(old(rng).state, players@),
    {
        let n: usize = self.corridors.len();
        proof {
            lemma_there_are_corridors();
        }
        let mut attempts: u32 = PICK_ATTEMPTS;
        while attempts > 0
            invariant
                self.wf(),
                all_measurable(players@),
                n == self.corridors@.len(),
                n > 0,
                attempts <= PICK_ATTEMPTS,
                self@.drawn(old(rng).state, players@, PICK_ATTEMPTS as nat) == self@.drawn(
                    rng.state,
                    players@,
                    attempts as nat,
                ),
            decreases attempts,
        {
            let tile = self.corridors[rng.below(n)];
            proof {
                law_corridors_are_the_corridor_tiles();
                assert(all_corridors().contains(tile));
                assert(on_board(tile.x as int, tile.y as int));
            }
            if self.is_free_for_drip(tile, players) {
                return Some(tile);
            }
            attempts = attempts - 1;
        }
        let start: usize = rng.below(n);
        let mut k: usize = 0;
        while k < n
            invariant
                self.wf(),
                all_measurable(players@),
                n == self.corridors@.len(),
                start < n,
                k <= n,
                self@.found(players@, start as int, n as nat) == self@.found(
                    players@,
                    start as int + k,
                    (n - k) as nat,
                ),
                (self@.found(players@, start as int, n as nat), rng.state) == self@.picked(
                    old(rng).state,
                    players@,
                ),
            decreases n - k,
        {
            let at: usize = if k < n - start {
                start + k
            } else {
                k - (n - start)
            };
            proof {
                if k < n - start {
                    vstd::arithmetic::div_mod::lemma_small_mod((start + k) as nat, n as nat);
                } else {
                    vstd::arithmetic::div_mod::lemma_fundamental_div_mod_converse_mod(
                        start + k,
                        n as int,
                        1,
                        at as int,
                    );
                }
                assert((start + k) % n as int == at);
            }
            let tile = self.corridors[at];
            proof {
                law_corridors_are_the_corridor_tiles();
                assert(all_corridors().contains(tile));
                assert(on_board(tile.x as int, tile.y as int));
            }
            if self.is_free_for_drip(tile, players) {
                return Some(tile);
            }
            k = k + 1;
        }
        None
    }

    fn is_free_for_drip(&self, tile: IVec2, players: &[IVec2]) -> (free: bool)
        requires
            self.wf(),
            on_board(tile.x as int, tile.y as int),
            all_measurable(players@),
        ensures
            free == self@.free(tile, players@),
    {
        if self.at(tile).is_some() {
            return false;
        }
        for i in 0..players.len()
            invariant
                self@.at(tile) is None,
                on_board(tile.x as int, tile.y as int),
                all_measurable(players@),
                forall|j: int|
                    0 <= j < i ==> tile_distance(tile, #[trigger] players@[j]) >= DRIP_MIN_DISTANCE,
        {
            if chebyshev(tile, players[i]) < DRIP_MIN_DISTANCE {
                return false;
            }
        }
        true
    }

    /// The code of the `i`-th corridor tile.
    fn code_at(&self, i: usize) -> (code: u8)
        requires
            self.wf(),
        ensures
            code == self@.code(i as int),
            code <= 2,
    {
        if i >= self.corridors.len() {
            return 0;
        }
        match self.at(self.corridors[i]) {
            None => 0,
            Some(PelletKind::Normal) => 1,
            Some(PelletKind::Power) => 2,
        }
    }

    /// The whole field as two bits per corridor tile, for the initial sync.
    /// Order matches `MAZE.corridors()`, so the client can rebuild it without
    /// receiving coordinates.
    pub fn snapshot_bits(&self) -> (out: Vec<u8>)
        requires
            self.wf(),
        ensures
            out@ == self@.bits(),
    {
        proof {
            law_corridors_are_the_corridor_tiles();
        }
        let n: usize = (self.corridors.len() + 3) / 4;
        let mut out: Vec<u8> = Vec::new();
        for b in 0..n
            invariant
                self.wf(),
                n == self@.bits().len(),
                n <= CELLS,
                out@ == self@.bits().take(b as int),
        {
            let byte: u8 = self.code_at(4 * b) + 4 * self.code_at(4 * b + 1) + 16 * self.code_at(
                4 * b + 2,
            ) + 64 * self.code_at(4 * b + 3);
            out.push(byte);
        }
        out
    }

    /// Rebuilds a field from `snapshot_bits`.
    pub fn from_snapshot_bits(bits: &[u8]) -> (field: PelletField)
        ensures
            field.wf(),
            field@ == restored(bits@),
    {
        let mut field = PelletField::empty();
        let corridors = MAZE.corridors();
        proof {
            law_corridors_are_the_corridor_tiles();
        }
        for i in 0..corridors.len()
            invariant
                field.wf(),
                field@.carry == 0,
                corridors@ == all_corridors(),
                all_corridors().no_duplicates(),
                forall|t: IVec2|
                    all_corridors().contains(t) ==> on_board(t.x as int, t.y as int),
                forall|j: int|
                    0 <= j < i ==> field@.at(#[trigger] all_corridors()[j]) == content_of(
                        code_in(bits@, j),
                    ),
                forall|j: int|
                    i <= j < all_corridors().len() ==> field@.at(#[trigger] all_corridors()[j])
                        is None,
                forall|t: IVec2| !all_corridors().contains(t) ==> #[trigger] field@.at(t) is None,
        {
            let tile = corridors[i];
            let code: u8 = if i / 4 < bits.len() {
                let byte: u8 = bits[i / 4];
                match i % 4 {
                    0 => byte % 4,
                    1 => byte / 4 % 4,
                    2 => byte / 16 % 4,
                    _ => byte / 64 % 4,
                }
            } else {
                0
            };
            let ghost before = field@;
            assert(all_corridors().contains(tile));
            match code {
                1 => field.put(tile, PelletKind::Normal),
                2 => field.put(tile, PelletKind::Power),
                _ => {},
            }
            proof {
                assert forall|t: IVec2| t != tile implies #[trigger] field@.at(t) == before.at(
                    t,
                ) by {
                    lemma_with(before, tile, content_of(code as int), t);
                }
                lemma_with(before, tile, content_of(code as int), tile);
            }
        }
        proof {
            assert forall|k: int| 0 <= k < CELLS implies field@.cells[k] == restored(
                bits@,
            ).cells[k] by {
                let t = nth_tile(k);
                assert(cell_index(t) == k);
                assert(field@.at(t) == field@.cells[k]);
                if all_corridors().contains(t) {
                    let i = all_corridors().index_of(t);
                    assert(all_corridors()[i] == t);
                }
            }
            assert(field@.cells =~= restored(bits@).cells);
        }
        field
    }
}

/// Setting one tile sets that tile and leaves the others alone.
pub proof fn lemma_with(f: FieldView, tile: IVec2, content: Option<PelletKind>, other: IVec2)
    requires
        f.wf(),
    ensures
        f.with(tile, content).wf(),
        on_board(tile.x as int, tile.y as int) ==> f.with(tile, content).at(tile) == content,
        other != tile ==> f.with(tile, content).at(other) == f.at(other),
{
    if on_board(tile.x as int, tile.y as int) {
        lemma_cell_index(tile);
    }
    if on_board(other.x as int, other.y as int) {
        lemma_cell_index(other);
    }
}

proof fn lemma_there_are_corridors()
    ensures
        all_corridors().len() > 0,
{
    lemma_landmarks();
    law_corridors_are_the_corridor_tiles();
    let t = spawn_p0();
    assert(tile_at(t.x as int, t.y as int) is Corridor);
    assert(all_corridors().contains(t));
}

/// Taking a pellet empties the tile, taking twice does not resurrect it, and no
/// other tile changes. What is put on a tile is what is found there.
pub proof fn law_take_and_put(f: FieldView, tile: IVec2, kind: PelletKind, other: IVec2)
    requires
        f.wf(),
        on_board(tile.x as int, tile.y as int),
        other != tile,
    ensures
        f.with(tile, None).at(tile) is None,
        f.with(tile, None).with(tile, None) == f.with(tile, None),
        f.with(tile, Some(kind)).at(tile) == Some(kind),
        f.with(tile, None).at(other) == f.at(other),
        f.with(tile, Some(kind)).at(other) == f.at(other),
        f.with(tile, Some(kind)).with(tile, f.at(tile)) == f,
{
    lemma_with(f, tile, None, other);
    lemma_with(f, tile, Some(kind), other);
    lemma_cell_index(tile);
    assert(f.with(tile, None).with(tile, None) =~= f.with(tile, None));
    assert(f.with(tile, Some(kind)).with(tile, f.at(tile)) =~= f);
}

proof fn lemma_opening_count(k: nat)
    ensures
        held(Seq::new(k, |j: int| opening_cell(j))) == corridors_before(k).len(),
    decreases k,
{
    if k > 0 {
        lemma_opening_count((k - 1) as nat);
        let cells = Seq::new(k, |j: int| opening_cell(j));
        assert(cells.drop_last() =~= Seq::new((k - 1) as nat, |j: int| opening_cell(j)));
    }
}

/// The opening field has a normal pellet on every corridor tile and nothing
/// anywhere else, so it holds as many pellets as there are corridor tiles.
pub proof fn law_a_full_field_covers_the_corridors(tile: IVec2)
    ensures
        all_corridors().contains(tile) ==> full_field().at(tile) == Some(PelletKind::Normal),
        !all_corridors().contains(tile) ==> full_field().at(tile) is None,
        held(full_field().cells) == all_corridors().len(),
{
    lemma_opening_count(CELLS as nat);
    law_corridors_are_the_corridor_tiles();
    if on_board(tile.x as int, tile.y as int) {
        lemma_cell_index(tile);
        assert(tile_at(tile.x as int, tile.y as int) is Corridor <==> all_corridors().contains(
            tile,
        ));
    }
}

impl FieldView {
    /// Pellets lie on corridor tiles only.
    pub open spec fn on_corridors(self) -> bool {
        forall|t: IVec2| #[trigger] self.at(t) is Some ==> all_corridors().contains(t)
    }

    /// Whether some corridor tile is free.
    pub open spec fn has_room(self, players: Seq<IVec2>) -> bool {
        exists|i: int|
            0 <= i < all_corridors().len() && self.free(#[trigger] all_corridors()[i], players)
    }
}

proof fn lemma_drawn(f: FieldView, state: u64, players: Seq<IVec2>, attempts: nat)
    ensures
        f.drawn(state, players, attempts).0 matches Some(t) ==> all_corridors().contains(t)
            && f.free(t, players),
    decreases attempts,
{
    lemma_there_are_corridors();
    if attempts > 0 {
        let next = scrambled(state);
        let at = number_of(next) as int % all_corridors().len() as int;
        assert(0 <= at < all_corridors().len());
        assert(all_corridors().contains(all_corridors()[at]));
        lemma_drawn(f, next, players, (attempts - 1) as nat);
    }
}

proof fn lemma_found(f: FieldView, players: Seq<IVec2>, from: int, count: nat)
    ensures
        f.found(players, from, count) matches Some(t) ==> all_corridors().contains(t) && f.free(
            t,
            players,
        ),
        f.found(players, from, count) is None ==> forall|k: int|
            from <= k < from + count ==> !f.free(
                #[trigger] all_corridors()[k % all_corridors().len() as int],
                players,
            ),
    decreases count,
{
    lemma_there_are_corridors();
    if count > 0 {
        let n = all_corridors().len() as int;
        let at = from % n;
        assert(0 <= at < n);
        assert(all_corridors().contains(all_corridors()[at]));
        lemma_found(f, players, from + 1, (count - 1) as nat);
    }
}

/// The pick is a corridor tile that is empty and at a distance from every
/// player, and there is a pick whenever there is such a tile.
pub proof fn law_a_pick_is_a_free_corridor_tile(f: FieldView, state: u64, players: Seq<IVec2>)
    ensures
        f.picked(state, players).0 matches Some(t) ==> all_corridors().contains(t) && f.free(
            t,
            players,
        ),
        f.picked(state, players).0 is Some <==> f.has_room(players),
{
    let n = all_corridors().len();
    let (tile, after) = f.drawn(state, players, PICK_ATTEMPTS as nat);
    let start = number_of(scrambled(after)) as int % n as int;
    lemma_there_are_corridors();
    lemma_drawn(f, state, players, PICK_ATTEMPTS as nat);
    lemma_found(f, players, start, n);
    if let Some(t) = f.picked(state, players).0 {
        let i = choose|i: int| 0 <= i < n && all_corridors()[i] == t;
        assert(f.free(all_corridors()[i], players));
    } else {
        assert forall|i: int| 0 <= i < n implies !f.free(
            #[trigger] all_corridors()[i],
            players,
        ) by {
            let k = if i >= start {
                i
            } else {
                i + n
            };
            if i >= start {
                vstd::arithmetic::div_mod::lemma_small_mod(i as nat, n);
            } else {
                vstd::arithmetic::div_mod::lemma_fundamental_div_mod_converse_mod(
                    k,
                    n as int,
                    1,
                    i,
                );
            }
            assert(k % n as int == i);
            assert(!f.free(all_corridors()[k % n as int], players));
        }
    }
}

/// What a drip does to the field. Every pellet lands on a corridor tile that was
/// empty, at a distance from every player, no two on the same tile; nothing else
/// changes. It places no more than is owed, and fewer only when the board has no
/// room left.
#[verifier::spinoff_prover]
#[verifier::rlimit(40)]
pub proof fn law_drip_lands_on_free_tiles(f: FieldView, state: u64, players: Seq<IVec2>)
    requires
        f.wf(),
    ensures
        ({
            let (after, _, spawned) = f.settled(state, players);
            &&& after.wf()
            &&& forall|i: int|
                0 <= i < spawned.len() ==> {
                    let (t, kind) = #[trigger] spawned[i];
                    &&& kind is Normal
                    &&& all_corridors().contains(t)
                    &&& f.free(t, players)
                    &&& after.at(t) == Some(PelletKind::Normal)
                }
            &&& forall|i: int, j: int|
                0 <= i < j < spawned.len() ==> (#[trigger] spawned[i]).0 != (
                #[trigger] spawned[j]).0
            &&& forall|t: IVec2|
                #[trigger] after.at(t) == f.at(t) || exists|i: int|
                    0 <= i < spawned.len() && (#[trigger] spawned[i]).0 == t
            &&& f.carry >= 0 ==> spawned.len() * SECOND <= f.carry
            &&& f.carry - spawned.len() * SECOND >= SECOND ==> !after.has_room(players)
            &&& after.has_room(players) ==> after.carry == f.carry - spawned.len() * SECOND
            &&& f.on_corridors() ==> after.on_corridors()
        }),
    decreases f.carry,
{
    if f.carry >= SECOND {
        law_a_pick_is_a_free_corridor_tile(f, state, players);
        let owed = FieldView { carry: f.carry - SECOND, ..f };
        let (tile, next) = f.picked(state, players);
        match tile {
            Some(t) => {
                let one = owed.with(t, Some(PelletKind::Normal));
                let (after, last, rest) = one.settled(next, players);
                let spawned = f.settled(state, players).2;
                law_drip_lands_on_free_tiles(one, next, players);
                assert(spawned =~= seq![(t, PelletKind::Normal)] + rest);
                law_corridors_are_the_corridor_tiles();
                assert(on_board(t.x as int, t.y as int));
                assert forall|u: IVec2| #[trigger] one.at(u) == (if u == t {
                    Some(PelletKind::Normal)
                } else {
                    f.at(u)
                }) by {
                    lemma_with(owed, t, Some(PelletKind::Normal), u);
                }
                assert forall|i: int| 0 <= i < rest.len() implies (#[trigger] rest[i]).0 != t by {
                    assert(one.free(rest[i].0, players));
                }
                assert forall|i: int| 0 <= i < spawned.len() implies ({
                    let (u, kind) = #[trigger] spawned[i];
                    &&& kind is Normal
                    &&& all_corridors().contains(u)
                    &&& f.free(u, players)
                    &&& after.at(u) == Some(PelletKind::Normal)
                }) by {
                    if i > 0 {
                        assert(spawned[i] == rest[i - 1]);
                        assert(one.free(rest[i - 1].0, players));
                        assert(one.at(rest[i - 1].0) is None);
                    } else {
                        if after.at(t) != one.at(t) {
                            let k = choose|k: int|
                                0 <= k < rest.len() && (#[trigger] rest[k]).0 == t;
                            assert(one.free(rest[k].0, players));
                        }
                        assert(after.at(t) == one.at(t));
                    }
                }
                assert forall|i: int, j: int| 0 <= i < j < spawned.len() implies (
                #[trigger] spawned[i]).0 != (#[trigger] spawned[j]).0 by {
                    assert(spawned[j] == rest[j - 1]);
                    if i > 0 {
                        assert(spawned[i] == rest[i - 1]);
                    }
                }
                assert forall|u: IVec2|
                    #[trigger] after.at(u) == f.at(u) || exists|i: int|
                        0 <= i < spawned.len() && (#[trigger] spawned[i]).0 == u by {
                    if after.at(u) != f.at(u) {
                        if after.at(u) != one.at(u) {
                            let k = choose|k: int|
                                0 <= k < rest.len() && (#[trigger] rest[k]).0 == u;
                            assert(spawned[k + 1].0 == u);
                        } else {
                            assert(spawned[0].0 == u);
                        }
                    }
                }
            },
            None => {
                let after = f.settled(state, players).0;
                assert(forall|i: int|
                    0 <= i < all_corridors().len() ==> after.free(
                        #[trigger] all_corridors()[i],
                        players,
                    ) == f.free(all_corridors()[i], players));
                assert(forall|u: IVec2| #[trigger] after.at(u) == f.at(u));
            },
        }
    }
}

proof fn lemma_settling_leaves_the_fraction(f: FieldView, state: u64, players: Seq<IVec2>)
    requires
        f.carry >= 0,
    ensures
        f.settled(state, players).0.carry == f.carry % (SECOND as int),
    decreases f.carry,
{
    if f.carry >= SECOND {
        let (tile, next) = f.picked(state, players);
        if let Some(t) = tile {
            let one = FieldView { carry: f.carry - SECOND, ..f }.with(t, Some(PelletKind::Normal));
            assert(one.carry == f.carry - SECOND);
            lemma_settling_leaves_the_fraction(one, next, players);
            vstd::arithmetic::div_mod::lemma_mod_sub_multiples_vanish(f.carry, SECOND as int);
        }
    } else {
        vstd::arithmetic::div_mod::lemma_small_mod(f.carry as nat, SECOND as nat);
    }
}

/// Only a fraction of a pellet is carried over, room or not: what is left of the
/// time after its whole pellets.
pub proof fn law_only_a_fraction_is_carried_over(
    f: FieldView,
    state: u64,
    players: Seq<IVec2>,
    dt: int,
)
    requires
        f.carry >= 0,
        dt >= 0,
    ensures
        f.dripped(state, players, dt).0.carry == (f.carry + 3 * dt) % (SECOND as int),
        0 <= f.dripped(state, players, dt).0.carry < SECOND,
{
    let due = FieldView { carry: f.carry + DRIP_PER_SEC * dt, ..f };
    lemma_settling_leaves_the_fraction(due, state, players);
}

/// Three pellets a second, whatever the length of the steps: as long as there is
/// room, what was placed and what is still owed add up to the rate times the
/// time, to the last fraction.
pub proof fn law_the_drip_rate_is_three_per_second(
    f: FieldView,
    state: u64,
    players: Seq<IVec2>,
    dt: int,
)
    requires
        f.wf(),
        0 <= f.carry < SECOND,
        dt >= 0,
        f.dripped(state, players, dt).0.has_room(players),
    ensures
        ({
            let (after, _, spawned) = f.dripped(state, players, dt);
            &&& after.carry + spawned.len() * SECOND == f.carry + 3 * dt
            &&& 0 <= after.carry < SECOND
            &&& spawned.len() == (f.carry + 3 * dt) / (SECOND as int)
        }),
{
    let due = FieldView { carry: f.carry + DRIP_PER_SEC * dt, ..f };
    law_drip_lands_on_free_tiles(due, state, players);
    let spawned = due.settled(state, players).2;
    vstd::arithmetic::div_mod::lemma_fundamental_div_mod_converse(
        due.carry,
        SECOND as int,
        spawned.len() as int,
        due.carry - spawned.len() * SECOND,
    );
}

/// A power pellet lands on a free corridor tile, whenever there is one, and
/// changes nothing else.
pub proof fn law_a_power_pellet_lands_on_a_free_tile(
    f: FieldView,
    state: u64,
    players: Seq<IVec2>,
    other: IVec2,
)
    requires
        f.wf(),
    ensures
        ({
            let (after, _, landed) = f.powered(state, players);
            &&& landed is Some <==> f.has_room(players)
            &&& landed is None ==> after == f
            &&& landed matches Some(t) ==> {
                &&& all_corridors().contains(t)
                &&& f.free(t, players)
                &&& after.at(t) == Some(PelletKind::Power)
                &&& other != t ==> after.at(other) == f.at(other)
            }
        }),
{
    law_a_pick_is_a_free_corridor_tile(f, state, players);
    law_corridors_are_the_corridor_tiles();
    if let Some(t) = f.picked(state, players).0 {
        assert(on_board(t.x as int, t.y as int));
        lemma_with(f, t, Some(PelletKind::Power), other);
    }
}

/// The code at a corridor tile's position in the bytes of a field names what lies
/// on that tile.
proof fn lemma_code_in_bits(f: FieldView, i: int)
    requires
        0 <= i < all_corridors().len(),
    ensures
        content_of(code_in(f.bits(), i)) == f.at(all_corridors()[i]),
{
    let b = i / 4;
    let (c0, c1, c2, c3) = (f.code(4 * b), f.code(4 * b + 1), f.code(4 * b + 2), f.code(4 * b + 3));
    let byte = c0 + 4 * c1 + 16 * c2 + 64 * c3;
    assert(f.bits()[b] as int == byte);
    assert(byte % 4 == c0);
    assert(byte / 4 % 4 == c1);
    assert(byte / 16 % 4 == c2);
    assert(byte / 64 % 4 == c3);
    assert(f.code(i) == code_in(f.bits(), i));
}

/// Reading back the bytes of a field gives every corridor tile as it was, every
/// other tile empty, and no fraction owed. A field with pellets on corridors only is
/// read back whole.
pub proof fn law_snapshot_bits_round_trip(f: FieldView)
    requires
        f.wf(),
    ensures
        restored(f.bits()).wf(),
        restored(f.bits()).carry == 0,
        forall|t: IVec2|
            #[trigger] restored(f.bits()).at(t) == (if all_corridors().contains(t) {
                f.at(t)
            } else {
                None
            }),
        f.on_corridors() ==> restored(f.bits()) == (FieldView { carry: 0, ..f }),
{
    let back = restored(f.bits());
    assert forall|t: IVec2|
        #[trigger] back.at(t) == (if all_corridors().contains(t) {
            f.at(t)
        } else {
            None
        }) by {
        law_corridors_are_the_corridor_tiles();
        if on_board(t.x as int, t.y as int) {
            lemma_cell_index(t);
        }
        if all_corridors().contains(t) {
            let i = all_corridors().index_of(t);
            assert(all_corridors()[i] == t);
            lemma_code_in_bits(f, i);
        }
    }
    if f.on_corridors() {
        assert forall|k: int| 0 <= k < CELLS implies back.cells[k] == f.cells[k] by {
            let t = nth_tile(k);
            assert(cell_index(t) == k);
            assert(back.at(t) == back.cells[k]);
            assert(f.at(t) == f.cells[k]);
        }
        assert(back.cells =~= f.cells);
    }
}

/// Pellets lie on corridor tiles only: so does the opening field have it, and
/// whatever is taken, dripped or spawned keeps it so.
pub proof fn law_pellets_stay_on_corridors(
    f: FieldView,
    tile: IVec2,
    state: u64,
    players: Seq<IVec2>,
    dt: int,
)
    requires
        f.wf(),
        f.on_corridors(),
    ensures
        full_field().on_corridors(),
        empty_field().on_corridors(),
        f.with(tile, None).on_corridors(),
        f.dripped(state, players, dt).0.on_corridors(),
        f.powered(state, players).0.on_corridors(),
{
    assert forall|t: IVec2| #[trigger] full_field().at(t) is Some implies all_corridors().contains(
        t,
    ) by {
        law_a_full_field_covers_the_corridors(t);
    }
    assert forall|t: IVec2| #[trigger] empty_field().at(t) is None by {
        if on_board(t.x as int, t.y as int) {
            lemma_cell_index(t);
        }
    }
    assert forall|t: IVec2| #[trigger]
        f.with(tile, None).at(t) is Some implies all_corridors().contains(
        t,
    ) by {
        lemma_with(f, tile, None, t);
        assert(f.at(t) is Some);
    }
    let due = FieldView { carry: f.carry + DRIP_PER_SEC * dt, ..f };
    assert(forall|t: IVec2| #[trigger] due.at(t) == f.at(t));
    law_drip_lands_on_free_tiles(due, state, players);
    assert forall|t: IVec2| #[trigger]
        f.powered(state, players).0.at(t) is Some implies all_corridors().contains(t) by {
        law_a_power_pellet_lands_on_a_free_tile(f, state, players, t);
        if f.powered(state, players).2 != Some(t) {
            assert(f.at(t) is Some);
        }
    }
}

/// Four corridor tiles share a byte, in the order of the corridors, two bits each from
/// the lowest on: zero for nothing, one for a pellet, two for a power pellet.
pub proof fn law_four_tiles_share_a_byte(f: FieldView, b: int)
    requires
        0 <= b < f.bits().len(),
    ensures
        f.bits().len() == (all_corridors().len() + 3) / 4,
        forall|i: int|
            0 <= i < all_corridors().len() ==> #[trigger] f.code(i) == (match f.at(
                all_corridors()[i],
            ) {
                None => 0int,
                Some(PelletKind::Normal) => 1,
                Some(PelletKind::Power) => 2,
            }),
        forall|i: int| i >= all_corridors().len() ==> #[trigger] f.code(i) == 0,
        f.bits()[b] == f.code(4 * b) + 4 * f.code(4 * b + 1) + 16 * f.code(4 * b + 2) + 64 * f.code(
            4 * b + 3,
        ),
{
}

/// The tile that is picked is the first free one drawn: a draw moves the generator one
/// step on and takes its number as a place in the list of corridors.
pub proof fn law_the_first_free_draw_is_picked(f: FieldView, state: u64, players: Seq<IVec2>)
    ensures
        ({
            let next = scrambled(state);
            let tile = all_corridors()[number_of(next) as int % all_corridors().len() as int];
            &&& f.free(tile, players) ==> f.picked(state, players) == (Some(tile), next)
            &&& !f.free(tile, players) ==> forall|n: nat|
                n > 0 ==> #[trigger] f.drawn(state, players, n) == f.drawn(
                    next,
                    players,
                    (n - 1) as nat,
                )
        }),
{
}

/// A free tile is an empty one at least four columns or rows from everybody.
pub proof fn law_free_is_empty_and_at_a_distance(f: FieldView, tile: IVec2, players: Seq<IVec2>)
    ensures
        f.free(tile, players) <==> f.at(tile) is None && forall|i: int|
            0 <= i < players.len() ==> {
                let p = #[trigger] players[i];
                tile.x - p.x >= 4 || p.x - tile.x >= 4 || tile.y - p.y >= 4 || p.y - tile.y >= 4
            },
{
}

/// A pellet more or less on a tile is one more or less in the count.
pub proof fn law_every_pellet_counts_once(f: FieldView, tile: IVec2, content: Option<PelletKind>)
    requires
        f.wf(),
        on_board(tile.x as int, tile.y as int),
    ensures
        held(f.with(tile, content).cells) == held(f.cells) - (if f.at(tile) is Some {
            1int
        } else {
            0
        }) + (if content is Some {
            1int
        } else {
            0
        }),
        held(empty_field().cells) == 0,
{
    lemma_cell_index(tile);
    lemma_held_after_update(f.cells, cell_index(tile), content);
    lemma_nothing_held(CELLS as nat);
}

proof fn lemma_held_after_update(cells: Seq<Option<PelletKind>>, i: int, c: Option<PelletKind>)
    requires
        0 <= i < cells.len(),
    ensures
        held(cells.update(i, c)) == held(cells) - (if cells[i] is Some {
            1int
        } else {
            0
        }) + (if c is Some {
            1int
        } else {
            0
        }),
    decreases cells.len(),
{
    let after = cells.update(i, c);
    if i == cells.len() - 1 {
        assert(after.drop_last() =~= cells.drop_last());
    } else {
        assert(after.drop_last() =~= cells.drop_last().update(i, c));
        assert(after.last() == cells.last());
        lemma_held_after_update(cells.drop_last(), i, c);
    }
}

proof fn lemma_nothing_held(n: nat)
    ensures
        held(Seq::new(n, |k: int| None::<PelletKind>)) == 0,
    decreases n,
{
    if n > 0 {
        lemma_nothing_held((n - 1) as nat);
        let cells = Seq::new(n, |k: int| None::<PelletKind>);
        assert(cells.drop_last() =~= Seq::new((n - 1) as nat, |k: int| None::<PelletKind>));
    }
}

/// After sixty-four draws without a free tile, the list of corridors is searched in
/// order from a place drawn once more, round its end, and the first free tile counts.
pub proof fn law_the_search_goes_round_once(f: FieldView, state: u64, players: Seq<IVec2>)
    requires
        f.drawn(state, players, 64).0 is None,
    ensures
        ({
            let (n, last) = (all_corridors().len() as int, scrambled(
                f.drawn(state, players, 64).1,
            ));
            let from = number_of(last) as int % n;
            let (tile, after) = f.picked(state, players);
            &&& after == last
            &&& tile is None ==> forall|i: int|
                0 <= i < n ==> !#[trigger] f.free(all_corridors()[(from + i) % n], players)
            &&& tile matches Some(t) ==> exists|i: int|
                {
                    &&& 0 <= i < n
                    &&& #[trigger] f.free(all_corridors()[(from + i) % n], players)
                    &&& t == all_corridors()[(from + i) % n]
                    &&& forall|j: int|
                        0 <= j < i ==> !#[trigger] f.free(
                            all_corridors()[(from + j) % n],
                            players,
                        )
                }
        }),
{
    let (n, last) = (all_corridors().len() as int, scrambled(f.drawn(state, players, 64).1));
    let from = number_of(last) as int % n;
    let i = lemma_first_found(f, players, from, n as nat);
    if f.picked(state, players).0 is Some {
        assert(f.free(all_corridors()[(from + i) % n], players));
    }
}

proof fn lemma_first_found(f: FieldView, players: Seq<IVec2>, from: int, count: nat) -> (i: int)
    ensures
        ({
            let n = all_corridors().len() as int;
            match f.found(players, from, count) {
                None => forall|k: int|
                    0 <= k < count ==> !#[trigger] f.free(
                        all_corridors()[(from + k) % n],
                        players,
                    ),
                Some(t) => {
                    &&& 0 <= i < count
                    &&& f.free(all_corridors()[(from + i) % n], players)
                    &&& t == all_corridors()[(from + i) % n]
                    &&& forall|j: int|
                        0 <= j < i ==> !#[trigger] f.free(
                            all_corridors()[(from + j) % n],
                            players,
                        )
                },
            }
        }),
    decreases count,
{
    let n = all_corridors().len() as int;
    if count == 0 {
        0
    } else {
        let here = all_corridors()[from % n];
        assert(from + 0 == from);
        if f.free(here, players) {
            0
        } else {
            let k = lemma_first_found(f, players, from + 1, (count - 1) as nat);
            if f.found(players, from, count) is None {
                assert forall|j: int| 0 <= j < count implies !#[trigger] f.free(
                    all_corridors()[(from + j) % n],
                    players,
                ) by {
                    if j > 0 {
                        assert(from + 1 + (j - 1) == from + j);
                        assert(!f.free(all_corridors()[(from + 1 + (j - 1)) % n], players));
                    }
                }
            } else {
                assert(from + 1 + k == from + (k + 1));
                assert forall|j: int| 0 <= j < k + 1 implies !#[trigger] f.free(
                    all_corridors()[(from + j) % n],
                    players,
                ) by {
                    if j > 0 {
                        assert(from + 1 + (j - 1) == from + j);
                        assert(!f.free(all_corridors()[(from + 1 + (j - 1)) % n], players));
                    }
                }
            }
            k + 1
        }
    }
}

/// The generator shifts by twelve to the right, twenty-five to the left and
/// twenty-seven to the right again, each time mixing in what it had; a number is the
/// state times a constant, and a seed starts it mixed with another.
pub proof fn law_the_generator_step_by_step(x: u64, a: u64, b: u64)
    requires
        a == x ^ (x >> 12),
        b == a ^ (a << 25),
    ensures
        scrambled(x) == b ^ (b >> 27),
        number_of(x) == (x * 2_685_821_657_736_338_717) as int % 0x1_0000_0000_0000_0000,
        first_state(x) == x ^ 11_400_714_819_323_198_485,
{
}

/// Bytes are read two bits a tile, in the order of the corridors: one is a pellet, two
/// a power pellet, and anything else, or nothing, is an empty tile.
pub proof fn law_bytes_are_read_two_bits_a_tile(bits: Seq<u8>, tile: IVec2)
    requires
        all_corridors().contains(tile),
    ensures
        ({
            let i = all_corridors().index_of(tile);
            let byte = if i / 4 < bits.len() {
                bits[i / 4] as int
            } else {
                0
            };
            let code = if i % 4 == 0 {
                byte % 4
            } else if i % 4 == 1 {
                byte / 4 % 4
            } else if i % 4 == 2 {
                byte / 16 % 4
            } else {
                byte / 64
            };
            &&& all_corridors()[i] == tile
            &&& restored(bits).at(tile) == (if code == 1 {
                Some(PelletKind::Normal)
            } else if code == 2 {
                Some(PelletKind::Power)
            } else {
                None
            })
        }),
{
    law_corridors_are_the_corridor_tiles();
    lemma_cell_index(tile);
    let i = all_corridors().index_of(tile);
    assert(all_corridors()[i] == tile);
    assert(nth_tile(cell_index(tile)) == tile);
    assert(restored(bits).at(tile) == content_of(code_in(bits, i)));
}

} // verus!
