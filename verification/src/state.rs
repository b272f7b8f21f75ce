use vstd::prelude::*;
use vstd::utf8::encode_utf8;
use vivalaakam_neuro_neat::Organism;

use crate::constants::{direction, direction_vector, DIRECTION_COUNT};
use crate::rng::{phrase_state, xorshift, Rng};

verus! {

/// Largest number of cells a map may have: the walls take one byte per cell, and a quarter
/// of the address space keeps every coordinate computation of the game within `i64`.
pub const MAX_CELLS: u64 = 0x2000_0000_0000_0000;

/// Smallest map width a game is built with.
pub const MIN_WIDTH: usize = 20;

/// Smallest map height a game is built with.
pub const MIN_HEIGHT: usize = 12;

/// One participant: an agent (id 1 and up) or the human (id 0).
#[derive(Clone, Debug, PartialEq, Eq)]
pub struct Player {
    pub id: usize,
    pub x: usize,
    pub y: usize,
    pub direction: usize,
    pub alive: bool,
    pub kills: u64,
    pub tiles_walked: u64,
    pub born_turn: u64,
    pub died_turn: Option<u64>,
}

/// The state of one battle: the map, the players and the agents' brains.
pub struct Game {
    pub seed: String,
    pub generation: u64,
    pub width: usize,
    pub height: usize,
    pub player_count: usize,
    pub turn: u64,
    pub walls: Vec<bool>,
    pub players: Vec<Player>,
    pub brains: Vec<Organism>,
}

/// Why a game could not be built.
#[derive(Debug, PartialEq, Eq, Structural)]
pub enum BuildError {
    /// The number of brains differs from the number of players.
    BrainCount,
    /// The map has more cells than a game can hold.
    MapTooLarge,
    /// The generated map has fewer free cells than there are players.
    MapTooSmall,
}

/// Whether a cell lies on the outer ring of a `w` by `h` map.
pub open spec fn on_border(w: int, h: int, x: int, y: int) -> bool {
    x == 0 || y == 0 || x + 1 == w || y + 1 == h
}

/// The position of cell `(x, y)` in the row-major wall vector of a map `w` cells wide.
pub open spec fn cell_index(w: int, x: int, y: int) -> int {
    y * w + x
}

/// `x + d`, clamped to the range of `usize`.
pub open spec fn sat_add(x: int, d: int) -> int {
    if x + d < 0 {
        0
    } else if x + d > usize::MAX {
        usize::MAX as int
    } else {
        x + d
    }
}

/// How many `i` in `0..n` satisfy `p`.
pub open spec fn count_upto(n: int, p: spec_fn(int) -> bool) -> nat
    decreases n,
{
    if n <= 0 {
        0
    } else {
        count_upto(n - 1, p) + if p(n - 1) {
            1nat
        } else {
            0nat
        }
    }
}

/// A count never exceeds the range counted.
pub proof fn lemma_count_bound(n: int, p: spec_fn(int) -> bool)
    ensures
        count_upto(n, p) <= if n < 0 { 0 } else { n },
    decreases n,
{
    if n > 0 {
        lemma_count_bound(n - 1, p);
    }
}

/// Counting a weaker predicate gives at least as much.
pub proof fn lemma_count_mono(n: int, p: spec_fn(int) -> bool, q: spec_fn(int) -> bool)
    requires
        forall|i: int| 0 <= i < n && #[trigger] p(i) ==> q(i),
    ensures
        count_upto(n, p) <= count_upto(n, q),
    decreases n,
{
    if n > 0 {
        lemma_count_mono(n - 1, p, q);
    }
}

/// Counting two disjoint predicates separately adds up to counting either.
pub proof fn lemma_count_split(
    n: int,
    r: spec_fn(int) -> bool,
    p: spec_fn(int) -> bool,
    q: spec_fn(int) -> bool,
)
    requires
        forall|i: int| 0 <= i < n ==> (#[trigger] r(i) <==> (p(i) || q(i))),
        forall|i: int| 0 <= i < n ==> !(#[trigger] p(i) && q(i)),
    ensures
        count_upto(n, r) == count_upto(n, p) + count_upto(n, q),
    decreases n,
{
    if n > 0 {
        lemma_count_split(n - 1, r, p, q);
    }
}

/// Counting predicates that agree on the range gives the same count.
pub proof fn lemma_count_ext(n: int, p: spec_fn(int) -> bool, q: spec_fn(int) -> bool)
    requires
        forall|i: int| 0 <= i < n ==> (#[trigger] p(i) <==> q(i)),
    ensures
        count_upto(n, p) == count_upto(n, q),
    decreases n,
{
    if n > 0 {
        lemma_count_ext(n - 1, p, q);
    }
}

/// The number of players that have fallen.
pub open spec fn dead_count(ps: Seq<Player>) -> nat {
    count_upto(ps.len() as int, |i: int| !ps[i].alive)
}

/// No player has more kills than players have fallen.
pub open spec fn kills_bounded(ps: Seq<Player>) -> bool {
    forall|i: int| 0 <= i < ps.len() ==> (#[trigger] ps[i]).kills <= dead_count(ps)
}

/// Whether the players are laid out as the game keeps them: agent `k + 1` at position `k`,
/// and the human, if present, after all agents.
pub open spec fn players_layout(ps: Seq<Player>, n: int) -> bool {
    &&& ps.len() == n || ps.len() == n + 1
    &&& forall|k: int| 0 <= k < n ==> (#[trigger] ps[k]).id == k + 1
    &&& ps.len() == n + 1 ==> ps[n].id == 0
}

impl Game {
    /// Whether `(x, y)` lies on the map.
    pub open spec fn in_map(self, x: int, y: int) -> bool {
        0 <= x < self.width && 0 <= y < self.height
    }

    /// Whether the cell `(x, y)` holds a wall.
    pub open spec fn wall_at(self, x: int, y: int) -> bool {
        self.walls@[cell_index(self.width as int, x, y)]
    }

    /// The invariant that every operation of a game keeps: its board is well formed and it
    /// holds one brain per agent.
    pub open spec fn wf(self) -> bool {
        &&& self.board_ok()
        &&& self.brains@.len() == self.player_count
    }

    /// The invariant of the board: the field is well formed and walls close the outer ring.
    pub open spec fn board_ok(self) -> bool {
        &&& self.field_ok()
        &&& forall|x: int, y: int|
            #![trigger self.wall_at(x, y)]
            self.in_map(x, y) && on_border(self.width as int, self.height as int, x, y)
                ==> self.wall_at(x, y)
    }

    /// The invariant of the playing field: at least 3 by 3, a wall flag per cell, the players
    /// laid out agent by agent on open cells of the map, facing one of the eight headings, and
    /// no player with more kills than players have fallen.
    pub open spec fn field_ok(self) -> bool {
        &&& self.width >= 3
        &&& self.height >= 3
        &&& self.width * self.height <= MAX_CELLS
        &&& self.walls@.len() == self.width * self.height
        &&& players_layout(self.players@, self.player_count as int)
        &&& kills_bounded(self.players@)
        &&& forall|i: int|
            0 <= i < self.players@.len() ==> {
                let p = #[trigger] self.players@[i];
                &&& self.in_map(p.x as int, p.y as int)
                &&& !self.wall_at(p.x as int, p.y as int)
                &&& p.direction < DIRECTION_COUNT
            }
    }
}

/// Cell `(x, y)` of a map `w` wide sits at `y * w + x`, and that index is below `w * h`.
pub proof fn lemma_cell_index(w: int, h: int, x: int, y: int)
    requires
        0 <= x < w,
        0 <= y < h,
    ensures
        0 <= cell_index(w, x, y) < w * h,
        cell_index(w, x, y) / w == y,
        cell_index(w, x, y) % w == x,
{
    assert(y * w + x < w * h) by (nonlinear_arith)
        requires
            0 <= x < w,
            0 <= y < h,
    ;
    assert(0 <= y * w) by (nonlinear_arith)
        requires
            0 <= y,
            0 <= x < w,
    ;
    vstd::arithmetic::div_mod::lemma_fundamental_div_mod_converse(y * w + x, w, y, x);
}

// ---------------------------------------------------------------------------------------------
// The map and the starting positions, as a function of the seed.
// ---------------------------------------------------------------------------------------------

/// The map before any inner wall is drawn: walls exactly on the outer ring.
pub open spec fn border_walls(w: int, h: int) -> Seq<bool> {
    Seq::new((w * h) as nat, |i: int| on_border(w, h, i % w, i / w))
}

/// Draws `len` cells of a wall segment from `(x, y)` in steps of `(dx, dy)`; each step is
/// clamped at zero, and only cells strictly inside the outer ring are set.
pub open spec fn draw_segment(
    walls: Seq<bool>,
    w: int,
    h: int,
    x: int,
    y: int,
    dx: int,
    dy: int,
    len: nat,
) -> Seq<bool>
    decreases len,
{
    if len == 0 {
        walls
    } else {
        let next = if x > 0 && y > 0 && x + 1 < w && y + 1 < h {
            walls.update(cell_index(w, x, y), true)
        } else {
            walls
        };
        draw_segment(next, w, h, sat_add(x, dx), sat_add(y, dy), dx, dy, (len - 1) as nat)
    }
}

/// One inner wall segment: four draws give its start, heading and length (2 to 6 cells).
pub open spec fn scatter_one(walls: Seq<bool>, s: u64, w: int, h: int) -> (Seq<bool>, u64) {
    let s1 = xorshift(s);
    let x = 2 + (s1 as int) % (w - 5);
    let s2 = xorshift(s1);
    let y = 2 + (s2 as int) % (h - 5);
    let s3 = xorshift(s2);
    let d = (s3 as int) % 8;
    let s4 = xorshift(s3);
    let len = 2 + (s4 as int) % 5;
    (
        draw_segment(
            walls,
            w,
            h,
            x,
            y,
            direction_vector(d).0,
            direction_vector(d).1,
            len as nat,
        ),
        s4,
    )
}

/// `n` inner wall segments drawn one after the other.
pub open spec fn scatter(walls: Seq<bool>, s: u64, w: int, h: int, n: nat) -> (Seq<bool>, u64)
    decreases n,
{
    if n == 0 {
        (walls, s)
    } else {
        let prev = scatter(walls, s, w, h, (n - 1) as nat);
        scatter_one(prev.0, prev.1, w, h)
    }
}

/// The number of inner wall segments of a `w` by `h` map.
pub open spec fn segment_count(w: int, h: int) -> nat {
    ((w * h) / 55) as nat
}

/// The free cells of row `y` with `1 <= x < xend`, left to right.
pub open spec fn free_row(walls: Seq<bool>, w: int, y: int, xend: int) -> Seq<(usize, usize)>
    decreases xend,
{
    if xend <= 1 {
        Seq::empty()
    } else {
        let before = free_row(walls, w, y, xend - 1);
        if !walls[cell_index(w, xend - 1, y)] {
            before.push(((xend - 1) as usize, y as usize))
        } else {
            before
        }
    }
}

/// The free cells strictly inside the outer ring with `1 <= y < yend`, in row-major order.
pub open spec fn free_rows(walls: Seq<bool>, w: int, yend: int) -> Seq<(usize, usize)>
    decreases yend,
{
    if yend <= 1 {
        Seq::empty()
    } else {
        free_rows(walls, w, yend - 1) + free_row(walls, w, yend - 1, w - 1)
    }
}

/// The free cells strictly inside the outer ring, in row-major order.
pub open spec fn free_cells(walls: Seq<bool>, w: int, h: int) -> Seq<(usize, usize)> {
    free_rows(walls, w, h - 1)
}

/// Removes element `i`, moving the last element into its place.
pub open spec fn swap_remove<A>(s: Seq<A>, i: int) -> Seq<A> {
    s.update(i, s.last()).drop_last()
}

/// A freshly spawned agent.
pub open spec fn spawned(id: int, cell: (usize, usize), d: int) -> Player {
    Player {
        id: id as usize,
        x: cell.0,
        y: cell.1,
        direction: d as usize,
        alive: true,
        kills: 0,
        tiles_walked: 1,
        born_turn: 0,
        died_turn: None,
    }
}

/// Places agents 1 to `k`: each takes a drawn free cell (removed by swapping in the last one)
/// and a drawn heading. Gives the agents, the cells left and the generator state.
pub open spec fn placement(free: Seq<(usize, usize)>, s: u64, k: nat) -> (
    Seq<Player>,
    Seq<(usize, usize)>,
    u64,
)
    decreases k,
{
    if k == 0 {
        (Seq::empty(), free, s)
    } else {
        let prev = placement(free, s, (k - 1) as nat);
        let s2 = xorshift(prev.2);
        let pick = (s2 as int) % (prev.1.len() as int);
        let s3 = xorshift(s2);
        let d = (s3 as int) % 8;
        (prev.0.push(spawned(k as int, prev.1[pick], d)), swap_remove(prev.1, pick), s3)
    }
}

/// The walls of the map generated from a seed phrase and generation.
pub open spec fn generated_walls(seed: Seq<u8>, generation: u64, w: int, h: int) -> Seq<bool> {
    scatter(border_walls(w, h), phrase_state(seed, generation), w, h, segment_count(w, h)).0
}

/// The free cells of the generated map.
pub open spec fn generated_free(seed: Seq<u8>, generation: u64, w: int, h: int) -> Seq<
    (usize, usize),
> {
    free_cells(generated_walls(seed, generation, w, h), w, h)
}

/// The agents of a generated game, as they stand at turn 0.
pub open spec fn generated_players(
    seed: Seq<u8>,
    generation: u64,
    w: int,
    h: int,
    n: nat,
) -> Seq<Player> {
    let s = scatter(border_walls(w, h), phrase_state(seed, generation), w, h, segment_count(w, h)).1;
    placement(generated_free(seed, generation, w, h), s, n).0
}

/// Whether a `w` by `h` map can be held: it has at most `MAX_CELLS` cells, and its cell
/// count is a `usize`.
pub open spec fn cells_fit(w: int, h: int) -> bool {
    w * h <= MAX_CELLS && w * h <= usize::MAX
}

/// The larger of two sizes.
pub open spec fn max_size(a: usize, b: usize) -> usize {
    if a < b {
        b
    } else {
        a
    }
}

// ---------------------------------------------------------------------------------------------
// Facts about the generated map.
// ---------------------------------------------------------------------------------------------

proof fn lemma_draw_segment_keeps(
    walls: Seq<bool>,
    w: int,
    h: int,
    x: int,
    y: int,
    dx: int,
    dy: int,
    len: nat,
)
    requires
        walls.len() == w * h,
        x >= 0,
        y >= 0,
    ensures
        draw_segment(walls, w, h, x, y, dx, dy, len).len() == walls.len(),
        forall|i: int|
            0 <= i < walls.len() && walls[i] ==> #[trigger] draw_segment(
                walls,
                w,
                h,
                x,
                y,
                dx,
                dy,
                len,
            )[i],
    decreases len,
{
    if len > 0 {
        let next = if x > 0 && y > 0 && x + 1 < w && y + 1 < h {
            lemma_cell_index(w, h, x, y);
            walls.update(cell_index(w, x, y), true)
        } else {
            walls
        };
        lemma_draw_segment_keeps(next, w, h, sat_add(x, dx), sat_add(y, dy), dx, dy, (len - 1) as nat);
    }
}

proof fn lemma_scatter_keeps(walls: Seq<bool>, s: u64, w: int, h: int, n: nat)
    requires
        walls.len() == w * h,
        w >= 6,
        h >= 6,
    ensures
        scatter(walls, s, w, h, n).0.len() == walls.len(),
        forall|i: int| 0 <= i < walls.len() && walls[i] ==> #[trigger] scatter(walls, s, w, h, n).0[i],
    decreases n,
{
    if n > 0 {
        lemma_scatter_keeps(walls, s, w, h, (n - 1) as nat);
        let prev = scatter(walls, s, w, h, (n - 1) as nat);
        let s1 = xorshift(prev.1);
        let x = 2 + (s1 as int) % (w - 5);
        let s2 = xorshift(s1);
        let y = 2 + (s2 as int) % (h - 5);
        let s3 = xorshift(s2);
        let d = (s3 as int) % 8;
        let s4 = xorshift(s3);
        let len = 2 + (s4 as int) % 5;
        lemma_draw_segment_keeps(
            prev.0,
            w,
            h,
            x,
            y,
            direction_vector(d).0,
            direction_vector(d).1,
            len as nat,
        );
    }
}

/// Every free cell of a row is strictly inside the ring and not a wall.
proof fn lemma_free_row(walls: Seq<bool>, w: int, h: int, y: int, xend: int)
    requires
        1 <= y < h - 1,
        xend <= w - 1,
        w <= usize::MAX,
        h <= usize::MAX,
        walls.len() == w * h,
    ensures
        forall|k: int|
            0 <= k < free_row(walls, w, y, xend).len() ==> {
                let c = #[trigger] free_row(walls, w, y, xend)[k];
                &&& 1 <= c.0 < w - 1
                &&& c.1 == y
                &&& c.0 < xend
                &&& !walls[cell_index(w, c.0 as int, c.1 as int)]
            },
        forall|a: int, b: int|
            0 <= a < b < free_row(walls, w, y, xend).len() ==> (#[trigger] free_row(
                walls,
                w,
                y,
                xend,
            )[a]).0 < (#[trigger] free_row(walls, w, y, xend)[b]).0,
    decreases xend,
{
    if xend > 1 {
        lemma_free_row(walls, w, h, y, xend - 1);
        lemma_cell_index(w, h, xend - 1, y);
        let before = free_row(walls, w, y, xend - 1);
        if !walls[cell_index(w, xend - 1, y)] {
            assert(free_row(walls, w, y, xend) == before.push(((xend - 1) as usize, y as usize)));
        } else {
            assert(free_row(walls, w, y, xend) == before);
        }
    }
}

/// Every free cell is strictly inside the ring and not a wall, and no cell occurs twice.
proof fn lemma_free_rows(walls: Seq<bool>, w: int, h: int, yend: int)
    requires
        yend <= h - 1,
        w >= 3,
        w <= usize::MAX,
        h <= usize::MAX,
        walls.len() == w * h,
    ensures
        forall|k: int|
            0 <= k < free_rows(walls, w, yend).len() ==> {
                let c = #[trigger] free_rows(walls, w, yend)[k];
                &&& 1 <= c.0 < w - 1
                &&& 1 <= c.1 < yend
                &&& !walls[cell_index(w, c.0 as int, c.1 as int)]
            },
        forall|a: int, b: int|
            0 <= a < b < free_rows(walls, w, yend).len() ==> #[trigger] free_rows(
                walls,
                w,
                yend,
            )[a] != #[trigger] free_rows(walls, w, yend)[b],
    decreases yend,
{
    if yend > 1 {
        lemma_free_rows(walls, w, h, yend - 1);
        lemma_free_row(walls, w, h, yend - 1, w - 1);
        let first = free_rows(walls, w, yend - 1);
        let row = free_row(walls, w, yend - 1, w - 1);
        let all = first + row;
        assert(free_rows(walls, w, yend) == all);
        assert forall|k: int| 0 <= k < all.len() implies {
            let c = #[trigger] all[k];
            &&& 1 <= c.0 < w - 1
            &&& 1 <= c.1 < yend
            &&& !walls[cell_index(w, c.0 as int, c.1 as int)]
        } by {
            if k < first.len() {
                assert(all[k] == first[k]);
            } else {
                assert(all[k] == row[k - first.len()]);
            }
        }
        assert forall|a: int, b: int| 0 <= a < b < all.len() implies #[trigger] all[a]
            != #[trigger] all[b] by {
            if b < first.len() {
                assert(all[a] == first[a] && all[b] == first[b]);
            } else if a >= first.len() {
                assert(all[a] == row[a - first.len()] && all[b] == row[b - first.len()]);
            } else {
                assert(all[a] == first[a] && all[b] == row[b - first.len()]);
            }
        }
    }
}

/// The placement keeps each cell used once: the spawned agents stand on distinct cells taken
/// from `free`, none of them among the cells left.
proof fn lemma_placement(free: Seq<(usize, usize)>, s: u64, k: nat)
    requires
        k <= free.len(),
        free.len() <= usize::MAX,
        forall|a: int, b: int| 0 <= a < b < free.len() ==> #[trigger] free[a] != #[trigger] free[b],
    ensures
        placement(free, s, k).0.len() == k,
        placement(free, s, k).1.len() == free.len() - k,
        forall|i: int|
            0 <= i < k ==> {
                let p = #[trigger] placement(free, s, k).0[i];
                &&& p.id == i + 1
                &&& free.contains((p.x, p.y))
                &&& p.direction < 8
                &&& p.alive
                &&& p.kills == 0
                &&& p.tiles_walked == 1
                &&& p.born_turn == 0
                &&& p.died_turn is None
            },
        forall|i: int|
            0 <= i < placement(free, s, k).1.len() ==> free.contains(
                #[trigger] placement(free, s, k).1[i],
            ),
        forall|a: int, b: int|
            0 <= a < b < placement(free, s, k).1.len() ==> #[trigger] placement(free, s, k).1[a]
                != #[trigger] placement(free, s, k).1[b],
        forall|i: int, j: int|
            0 <= i < k && 0 <= j < placement(free, s, k).1.len() ==> {
                let p = #[trigger] placement(free, s, k).0[i];
                (p.x, p.y) != #[trigger] placement(free, s, k).1[j]
            },
        forall|i: int, j: int|
            0 <= i < j < k ==> {
                let p = #[trigger] placement(free, s, k).0[i];
                let q = #[trigger] placement(free, s, k).0[j];
                (p.x, p.y) != (q.x, q.y)
            },
    decreases k,
{
    if k > 0 {
        lemma_placement(free, s, (k - 1) as nat);
        let prev = placement(free, s, (k - 1) as nat);
        let s2 = xorshift(prev.2);
        let pick = (s2 as int) % (prev.1.len() as int);
        let cell = prev.1[pick];
        let rest = swap_remove(prev.1, pick);
        let now = placement(free, s, k);
        assert(now.1 == rest);
        assert(now.0 == prev.0.push(spawned(k as int, cell, (xorshift(s2) as int) % 8)));
        assert forall|i: int| 0 <= i < rest.len() implies free.contains(#[trigger] rest[i]) by {
            if i == pick {
                assert(rest[i] == prev.1[prev.1.len() - 1]);
            } else {
                assert(rest[i] == prev.1[i]);
            }
        }
        assert forall|a: int, b: int| 0 <= a < b < rest.len() implies #[trigger] rest[a]
            != #[trigger] rest[b] by {
            let last = prev.1.len() - 1;
            let ia = if a == pick { last } else { a };
            let ib = if b == pick { last } else { b };
            assert(rest[a] == prev.1[ia]);
            assert(rest[b] == prev.1[ib]);
            assert(ia != ib);
            if ia < ib {
                assert(prev.1[ia] != prev.1[ib]);
            } else {
                assert(prev.1[ib] != prev.1[ia]);
            }
        }
        assert forall|i: int, j: int| 0 <= i < k && 0 <= j < rest.len() implies {
            let p = #[trigger] now.0[i];
            (p.x, p.y) != #[trigger] rest[j]
        } by {
            let last = prev.1.len() - 1;
            let ij = if j == pick { last } else { j };
            assert(rest[j] == prev.1[ij]);
            if i < k - 1 {
                assert(now.0[i] == prev.0[i]);
            } else {
                assert((now.0[i].x, now.0[i].y) == prev.1[pick]);
                assert(ij != pick);
                if ij < pick {
                    assert(prev.1[ij] != prev.1[pick]);
                } else {
                    assert(prev.1[pick] != prev.1[ij]);
                }
            }
        }
        assert forall|i: int, j: int| 0 <= i < j < k implies {
            let p = #[trigger] now.0[i];
            let q = #[trigger] now.0[j];
            (p.x, p.y) != (q.x, q.y)
        } by {
            assert(now.0[i] == prev.0[i]);
            if j < k - 1 {
                assert(now.0[j] == prev.0[j]);
            } else {
                assert((now.0[j].x, now.0[j].y) == prev.1[pick]);
                assert((prev.0[i].x, prev.0[i].y) != prev.1[pick]);
            }
        }
        assert forall|i: int| 0 <= i < k implies {
            let p = #[trigger] now.0[i];
            &&& p.id == i + 1
            &&& free.contains((p.x, p.y))
            &&& p.direction < 8
            &&& p.alive
            &&& p.kills == 0
            &&& p.tiles_walked == 1
            &&& p.born_turn == 0
            &&& p.died_turn is None
        } by {
            if i < k - 1 {
                assert(now.0[i] == prev.0[i]);
            } else {
                assert(free.contains(prev.1[pick]));
            }
        }
    }
}

// ---------------------------------------------------------------------------------------------
// Executable construction.
// ---------------------------------------------------------------------------------------------

/// Moves coordinate `x` by `d` (one of -1, 0, 1), stopping at zero.
pub fn shift_coord(x: usize, d: i64) -> (r: usize)
    requires
        -1 <= d <= 1,
        x < usize::MAX,
    ensures
        r == sat_add(x as int, d as int),
{
    if d < 0 {
        if x == 0 {
            0
        } else {
            x - 1
        }
    } else if d > 0 {
        x + 1
    } else {
        x
    }
}

/// The wall vector with walls exactly on the outer ring.
fn border_layout(w: usize, h: usize) -> (walls: Vec<bool>)
    requires
        w >= 1,
        h >= 1,
        w * h <= usize::MAX,
    ensures
        walls@ == border_walls(w as int, h as int),
{
    let n = w * h;
    let mut walls: Vec<bool> = Vec::new();
    let mut x: usize = 0;
    let mut y: usize = 0;
    let mut i: usize = 0;
    while i < n
        invariant
            n == w * h,
            w >= 1,
            i <= n,
            x < w,
            i == y * w + x,
            walls@ =~= border_walls(w as int, h as int).take(i as int),
        decreases n - i,
    {
        assert(y < h) by (nonlinear_arith)
            requires
                i == y * w + x,
                i < n,
                n == w * h,
                x < w,
                w >= 1,
        ;
        proof {
            lemma_cell_index(w as int, h as int, x as int, y as int);
        }
        walls.push(x == 0 || y == 0 || x + 1 == w || y + 1 == h);
        x = x + 1;
        if x == w {
            assert((y + 1) * w == y * w + w) by (nonlinear_arith);
            x = 0;
            y = y + 1;
        }
        i = i + 1;
    }
    walls
}

/// Draws the inner wall segments onto the bordered map.
fn scatter_walls(walls: &mut Vec<bool>, rng: &mut Rng, w: usize, h: usize)
    requires
        w >= 6,
        h >= 6,
        w * h <= MAX_CELLS,
        old(walls)@.len() == w * h,
    ensures
        (final(walls)@, final(rng)@) == scatter(
            old(walls)@,
            old(rng)@,
            w as int,
            h as int,
            segment_count(w as int, h as int),
        ),
{
    let count = walls.len() / 55;
    let ghost start_walls = walls@;
    let ghost start_rng = rng@;
    let mut k: usize = 0;
    while k < count
        invariant
            k <= count,
            count == segment_count(w as int, h as int),
            w >= 6,
            h >= 6,
            w * h <= usize::MAX,
            walls@.len() == w * h,
            (walls@, rng@) == scatter(start_walls, start_rng, w as int, h as int, k as nat),
        decreases count - k,
    {
        let ghost before_walls = walls@;
        let ghost before_rng = rng@;
        let mut x = 2 + rng.range(w - 5);
        let mut y = 2 + rng.range(h - 5);
        let d = rng.range(DIRECTION_COUNT);
        let (dx, dy) = direction(d);
        let len = 2 + rng.range(5);
        let ghost x0 = x as int;
        let ghost y0 = y as int;
        let ghost seg_start = walls@;
        assert(w * 6 <= usize::MAX && h * 6 <= usize::MAX) by (nonlinear_arith)
            requires
                w * h <= usize::MAX,
                w >= 6,
                h >= 6,
        ;
        let mut j: usize = 0;
        while j < len
            invariant
                j <= len <= 6,
                w >= 6,
                h >= 6,
                w * h <= usize::MAX,
                w * 6 <= usize::MAX,
                h * 6 <= usize::MAX,
                walls@.len() == w * h,
                x <= x0 + j,
                y <= y0 + j,
                x0 < w,
                y0 < h,
                -1 <= dx <= 1,
                -1 <= dy <= 1,
                draw_segment(walls@, w as int, h as int, x as int, y as int, dx as int, dy as int, (len - j) as nat)
                    == draw_segment(seg_start, w as int, h as int, x0, y0, dx as int, dy as int, len as nat),
            decreases len - j,
        {
            if x > 0 && y > 0 && x + 1 < w && y + 1 < h {
                proof {
                    lemma_cell_index(w as int, h as int, x as int, y as int);
                }
                walls[y * w + x] = true;
            }
            x = shift_coord(x, dx);
            y = shift_coord(y, dy);
            j = j + 1;
        }
        proof {
            assert(scatter(start_walls, start_rng, w as int, h as int, (k + 1) as nat) == scatter_one(
                before_walls,
                before_rng,
                w as int,
                h as int,
            ));
            lemma_draw_segment_keeps(seg_start, w as int, h as int, x0, y0, dx as int, dy as int, len as nat);
        }
        k = k + 1;
    }
}

/// The free cells strictly inside the outer ring, in row-major order.
fn free_cell_list(walls: &Vec<bool>, w: usize, h: usize) -> (free: Vec<(usize, usize)>)
    requires
        w >= 3,
        h >= 3,
        w * h <= usize::MAX,
        walls@.len() == w * h,
    ensures
        free@ == free_cells(walls@, w as int, h as int),
{
    let mut free: Vec<(usize, usize)> = Vec::new();
    let mut y: usize = 1;
    while y < h - 1
        invariant
            1 <= y <= h - 1,
            w >= 3,
            h >= 3,
            w * h <= usize::MAX,
            walls@.len() == w * h,
            free@ == free_rows(walls@, w as int, y as int),
        decreases h - y,
    {
        let mut x: usize = 1;
        while x < w - 1
            invariant
                1 <= x <= w - 1,
                1 <= y < h - 1,
                w >= 3,
                h >= 3,
                w * h <= usize::MAX,
                walls@.len() == w * h,
                free@ == free_rows(walls@, w as int, y as int) + free_row(
                    walls@,
                    w as int,
                    y as int,
                    x as int,
                ),
            decreases w - x,
        {
            proof {
                lemma_cell_index(w as int, h as int, x as int, y as int);
            }
            if !walls[y * w + x] {
                free.push((x, y));
            }
            assert(free@ =~= free_rows(walls@, w as int, y as int) + free_row(
                walls@,
                w as int,
                y as int,
                x + 1,
            ));
            x = x + 1;
        }
        y = y + 1;
    }
    free
}

/// Places agents 1 to `n` on drawn free cells with drawn headings.
fn place_agents(free: &mut Vec<(usize, usize)>, rng: &mut Rng, n: usize) -> (players: Vec<Player>)
    requires
        old(free)@.len() >= n,
    ensures
        (players@, final(free)@, final(rng)@) == placement(old(free)@, old(rng)@, n as nat),
{
    let ghost start_free = free@;
    let ghost start_rng = rng@;
    let mut players: Vec<Player> = Vec::new();
    let mut k: usize = 0;
    while k < n
        invariant
            k <= n,
            start_free.len() >= n,
            (players@, free@, rng@) == placement(start_free, start_rng, k as nat),
            free@.len() == start_free.len() - k,
        decreases n - k,
    {
        proof {
            lemma_placement_len(start_free, start_rng, (k + 1) as nat);
        }
        let pick = rng.range(free.len());
        let cell = free.swap_remove(pick);
        let d = rng.range(DIRECTION_COUNT);
        players.push(
            Player {
                id: k + 1,
                x: cell.0,
                y: cell.1,
                direction: d,
                alive: true,
                kills: 0,
                tiles_walked: 1,
                born_turn: 0,
                died_turn: None,
            },
        );
        k = k + 1;
    }
    players
}

proof fn lemma_placement_len(free: Seq<(usize, usize)>, s: u64, k: nat)
    requires
        k <= free.len(),
    ensures
        placement(free, s, k).1.len() == free.len() - k,
        placement(free, s, k).0.len() == k,
    decreases k,
{
    if k > 0 {
        lemma_placement_len(free, s, (k - 1) as nat);
    }
}

impl Game {
    /// Builds a game: the map is at least 20 by 12 cells, generated from the seed phrase and
    /// generation, and one agent per brain is placed on it. Fails when the brains do not
    /// match the player count, when the map is too large to hold, or when the generated map
    /// has fewer free cells than there are players.
    pub fn build(
        seed: String,
        generation: u64,
        width: usize,
        height: usize,
        player_count: usize,
        brains: Vec<Organism>,
    ) -> (r: Result<Game, BuildError>)
        ensures
            r == Err::<Game, BuildError>(BuildError::BrainCount) <==> brains@.len() != player_count,
            r == Err::<Game, BuildError>(BuildError::MapTooLarge) <==> brains@.len() == player_count
                && !cells_fit(max_size(width, MIN_WIDTH) as int, max_size(height, MIN_HEIGHT) as int),
            r == Err::<Game, BuildError>(BuildError::MapTooSmall) <==> brains@.len() == player_count
                && cells_fit(max_size(width, MIN_WIDTH) as int, max_size(height, MIN_HEIGHT) as int)
                && generated_free(
                encode_utf8(seed@),
                generation,
                max_size(width, MIN_WIDTH) as int,
                max_size(height, MIN_HEIGHT) as int,
            ).len() < player_count,
            r matches Ok(game) ==> {
                &&& game.wf()
                &&& game.seed@ == seed@
                &&& game.generation == generation
                &&& game.width == max_size(width, MIN_WIDTH)
                &&& game.height == max_size(height, MIN_HEIGHT)
                &&& game.player_count == player_count
                &&& game.turn == 0
                &&& game.brains@ == brains@
                &&& game.walls@ == generated_walls(
                    encode_utf8(seed@),
                    generation,
                    game.width as int,
                    game.height as int,
                )
                &&& game.players@ == generated_players(
                    encode_utf8(seed@),
                    generation,
                    game.width as int,
                    game.height as int,
                    player_count as nat,
                )
            },
    {
        if brains.len() != player_count {
            return Err(BuildError::BrainCount);
        }
        let w = if width < MIN_WIDTH { MIN_WIDTH } else { width };
        let h = if height < MIN_HEIGHT { MIN_HEIGHT } else { height };
        let cells = w.checked_mul(h);
        match cells {
            None => {
                return Err(BuildError::MapTooLarge);
            },
            Some(c) => {
                if c as u64 > MAX_CELLS {
                    return Err(BuildError::MapTooLarge);
                }
            },
        }
        let mut rng = Rng::from_phrase(seed.as_str(), generation);
        let mut walls = border_layout(w, h);
        let ghost s0 = rng@;
        proof {
            lemma_scatter_keeps(border_walls(w as int, h as int), s0, w as int, h as int, segment_count(w as int, h as int));
        }
        scatter_walls(&mut walls, &mut rng, w, h);
        let mut free = free_cell_list(&walls, w, h);
        proof {
            lemma_free_rows(walls@, w as int, h as int, h - 1);
        }
        let free_len = free.len();
        if free.len() < player_count {
            return Err(BuildError::MapTooSmall);
        }
        let ghost free0 = free@;
        let ghost s1 = rng@;
        let players = place_agents(&mut free, &mut rng, player_count);
        proof {
            lemma_placement(free0, s1, player_count as nat);
            lemma_scatter_keeps(border_walls(w as int, h as int), s0, w as int, h as int, segment_count(w as int, h as int));
            assert forall|x: int, y: int|
                0 <= x < w && 0 <= y < h && on_border(w as int, h as int, x, y) implies
                    walls@[cell_index(w as int, x, y)] by {
                lemma_cell_index(w as int, h as int, x, y);
                assert(border_walls(w as int, h as int)[cell_index(w as int, x, y)]);
            }
            assert forall|i: int| 0 <= i < players@.len() implies {
                let p = #[trigger] players@[i];
                &&& 0 <= p.x < w && 0 <= p.y < h
                &&& !walls@[cell_index(w as int, p.x as int, p.y as int)]
                &&& p.direction < DIRECTION_COUNT
            } by {
                let p = players@[i];
                assert(placement(free0, s1, player_count as nat).0[i] == p);
                assert(free0.contains((p.x, p.y)));
                let k = choose|k: int| 0 <= k < free0.len() && free0[k] == (p.x, p.y);
                assert(free_rows(walls@, w as int, h - 1)[k] == (p.x, p.y));
            }
        }
        let game = Game {
            seed,
            generation,
            width: w,
            height: h,
            player_count,
            turn: 0,
            walls,
            players,
            brains,
        };
        assert(game.wf());
        Ok(game)
    }

    /// Builds a game as `build` does, for inputs on which it succeeds.
    pub fn with_brains(
        seed: String,
        generation: u64,
        width: usize,
        height: usize,
        player_count: usize,
        brains: Vec<Organism>,
    ) -> (game: Game)
        requires
            brains@.len() == player_count,
            cells_fit(max_size(width, MIN_WIDTH) as int, max_size(height, MIN_HEIGHT) as int),
            generated_free(
                encode_utf8(seed@),
                generation,
                max_size(width, MIN_WIDTH) as int,
                max_size(height, MIN_HEIGHT) as int,
            ).len() >= player_count,
        ensures
            game.wf(),
            game.seed@ == seed@,
            game.generation == generation,
            game.width == max_size(width, MIN_WIDTH),
            game.height == max_size(height, MIN_HEIGHT),
            game.player_count == player_count,
            game.turn == 0,
            game.brains@ == brains@,
            game.walls@ == generated_walls(
                encode_utf8(seed@),
                generation,
                game.width as int,
                game.height as int,
            ),
            game.players@ == generated_players(
                encode_utf8(seed@),
                generation,
                game.width as int,
                game.height as int,
                player_count as nat,
            ),
    {
        match Game::build(seed, generation, width, height, player_count, brains) {
            Ok(game) => game,
            Err(BuildError::BrainCount) => vstd::pervasive::unreached(),
            Err(BuildError::MapTooLarge) => vstd::pervasive::unreached(),
            Err(BuildError::MapTooSmall) => vstd::pervasive::unreached(),
        }
    }
}

/// Two battles generated from the same seed phrase and generation, on maps of the same size
/// and with the same number of agents, have the same walls and the same agents in the same
/// places.
pub proof fn same_seed_same_battle(a: Game, b: Game)
    requires
        a.seed@ == b.seed@,
        a.generation == b.generation,
        a.width == b.width,
        a.height == b.height,
        a.player_count == b.player_count,
        a.walls@ == generated_walls(encode_utf8(a.seed@), a.generation, a.width as int, a.height as int),
        b.walls@ == generated_walls(encode_utf8(b.seed@), b.generation, b.width as int, b.height as int),
        a.players@ == generated_players(
            encode_utf8(a.seed@),
            a.generation,
            a.width as int,
            a.height as int,
            a.player_count as nat,
        ),
        b.players@ == generated_players(
            encode_utf8(b.seed@),
            b.generation,
            b.width as int,
            b.height as int,
            b.player_count as nat,
        ),
    ensures
        a.walls@ == b.walls@,
        a.players@ == b.players@,
{
}

/// The last turn a player took part in: its death turn, or the current turn while alive.
pub open spec fn end_turn(turn: u64, p: Player) -> int {
    match p.died_turn {
        Some(t) => t as int,
        None => turn as int,
    }
}

/// A player's score: turns survived, ten points per kill, and the tiles walked.
pub open spec fn score_value(turn: u64, p: Player) -> int {
    (end_turn(turn, p) - p.born_turn) + p.kills * 10 + p.tiles_walked
}

/// The number of living agents (players other than the human) in `ps`.
pub open spec fn alive_agents(ps: Seq<Player>) -> nat
    decreases ps.len(),
{
    if ps.len() == 0 {
        0
    } else {
        alive_agents(ps.drop_last()) + if ps.last().alive && ps.last().id > 0 {
            1nat
        } else {
            0nat
        }
    }
}

/// Counting living agents never exceeds the number of players.
pub proof fn lemma_alive_agents_bound(ps: Seq<Player>)
    ensures
        alive_agents(ps) <= ps.len(),
    decreases ps.len(),
{
    if ps.len() > 0 {
        lemma_alive_agents_bound(ps.drop_last());
    }
}

impl Game {
    /// The position of cell `(x, y)` in the wall vector.
    pub fn index(&self, x: usize, y: usize) -> (r: usize)
        requires
            cell_index(self.width as int, x as int, y as int) <= usize::MAX,
        ensures
            r == cell_index(self.width as int, x as int, y as int),
    {
        assert(y * self.width <= usize::MAX) by (nonlinear_arith)
            requires
                y * self.width + x <= usize::MAX,
        ;
        y * self.width + x
    }

    /// Whether cell `(x, y)` holds a wall.
    pub fn is_wall(&self, x: usize, y: usize) -> (r: bool)
        requires
            0 <= cell_index(self.width as int, x as int, y as int) < self.walls@.len(),
        ensures
            r == self.wall_at(x as int, y as int),
    {
        let n = self.walls.len();
        self.walls[self.index(x, y)]
    }

    /// The player's score: turns survived (to its death, or to now), plus ten per kill,
    /// plus tiles walked.
    pub fn score(&self, player: &Player) -> (r: u64)
        requires
            end_turn(self.turn, *player) >= player.born_turn,
            score_value(self.turn, *player) <= u64::MAX,
        ensures
            r == score_value(self.turn, *player),
    {
        let last = match player.died_turn {
            Some(t) => t,
            None => self.turn,
        };
        (last - player.born_turn) + player.kills * 10 + player.tiles_walked
    }

    /// Counts one more tile walked for the player at `player_index`, if there is one.
    pub fn record_step(&mut self, player_index: usize)
        requires
            player_index < old(self).players@.len() ==> old(self).players@[player_index as int].tiles_walked
                < u64::MAX,
        ensures
            player_index < old(self).players@.len() ==> final(self).players@ == old(
                self,
            ).players@.update(
                player_index as int,
                Player {
                    tiles_walked: (old(self).players@[player_index as int].tiles_walked + 1) as u64,
                    ..old(self).players@[player_index as int]
                },
            ),
            player_index >= old(self).players@.len() ==> final(self).players@ == old(self).players@,
            final(self).seed == old(self).seed,
            final(self).generation == old(self).generation,
            final(self).width == old(self).width,
            final(self).height == old(self).height,
            final(self).player_count == old(self).player_count,
            final(self).turn == old(self).turn,
            final(self).walls@ == old(self).walls@,
            final(self).brains@ == old(self).brains@,
    {
        if player_index < self.players.len() {
            let tiles = self.players[player_index].tiles_walked + 1;
            self.players[player_index].tiles_walked = tiles;
        }
    }

    /// The number of agents still alive.
    pub fn alive_agent_count(&self) -> (r: usize)
        ensures
            r == alive_agents(self.players@),
    {
        let mut count: usize = 0;
        let mut i: usize = 0;
        while i < self.players.len()
            invariant
                i <= self.players@.len(),
                count == alive_agents(self.players@.take(i as int)),
            decreases self.players@.len() - i,
        {
            proof {
                assert(self.players@.take(i + 1).drop_last() =~= self.players@.take(i as int));
                lemma_alive_agents_bound(self.players@.take(i as int));
            }
            if self.players[i].alive && self.players[i].id > 0 {
                count = count + 1;
            }
            i = i + 1;
        }
        assert(self.players@.take(i as int) =~= self.players@);
        count
    }
}

/// A generated game starts its agents on distinct cells that are free and strictly inside the
/// outer ring, agent `k` at position `k - 1`, each alive, facing one of the eight headings,
/// with no kills, one tile walked and born at turn 0.
pub proof fn generated_agents_start_apart(seed: Seq<u8>, generation: u64, w: int, h: int, n: nat)
    requires
        w >= 6,
        h >= 6,
        cells_fit(w, h),
        n <= generated_free(seed, generation, w, h).len(),
    ensures
        generated_players(seed, generation, w, h, n).len() == n,
        forall|i: int|
            0 <= i < n ==> {
                let p = #[trigger] generated_players(seed, generation, w, h, n)[i];
                let walls = generated_walls(seed, generation, w, h);
                &&& p.id == i + 1
                &&& 1 <= p.x < w - 1
                &&& 1 <= p.y < h - 1
                &&& !walls[cell_index(w, p.x as int, p.y as int)]
                &&& p.direction < 8
                &&& p.alive
                &&& p.kills == 0
                &&& p.tiles_walked == 1
                &&& p.born_turn == 0
                &&& p.died_turn is None
            },
        forall|i: int, j: int|
            0 <= i < j < n ==> {
                let p = #[trigger] generated_players(seed, generation, w, h, n)[i];
                let q = #[trigger] generated_players(seed, generation, w, h, n)[j];
                (p.x, p.y) != (q.x, q.y)
            },
{
    let s0 = phrase_state(seed, generation);
    let sc = scatter(border_walls(w, h), s0, w, h, segment_count(w, h));
    let walls = sc.0;
    assert(w <= usize::MAX && h <= usize::MAX) by (nonlinear_arith)
        requires
            w * h <= usize::MAX,
            w >= 6,
            h >= 6,
    ;
    lemma_scatter_keeps(border_walls(w, h), s0, w, h, segment_count(w, h));
    lemma_free_rows(walls, w, h, h - 1);
    let free = free_cells(walls, w, h);
    assert(free.len() <= usize::MAX) by {
        lemma_free_cells_len(walls, w, h);
    }
    lemma_placement(free, sc.1, n);
    let ps = placement(free, sc.1, n).0;
    assert forall|i: int| 0 <= i < n implies {
        let p = #[trigger] ps[i];
        &&& 1 <= p.x < w - 1
        &&& 1 <= p.y < h - 1
        &&& !walls[cell_index(w, p.x as int, p.y as int)]
    } by {
        let p = ps[i];
        assert(free.contains((p.x, p.y)));
        let k = choose|k: int| 0 <= k < free.len() && free[k] == (p.x, p.y);
        assert(free_rows(walls, w, h - 1)[k] == (p.x, p.y));
    }
}

/// There are no more free cells than cells.
proof fn lemma_free_cells_len(walls: Seq<bool>, w: int, h: int)
    requires
        w >= 3,
        h >= 3,
        w * h <= usize::MAX,
        walls.len() == w * h,
    ensures
        free_cells(walls, w, h).len() <= w * h,
{
    lemma_free_rows_len(walls, w, h, h - 1);
    assert((h - 1) * w <= w * h) by (nonlinear_arith)
        requires
            h >= 3,
            w >= 3,
    ;
}

proof fn lemma_free_row_len(walls: Seq<bool>, w: int, y: int, xend: int)
    ensures
        free_row(walls, w, y, xend).len() <= if xend < 0 { 0 } else { xend },
    decreases xend,
{
    if xend > 1 {
        lemma_free_row_len(walls, w, y, xend - 1);
    }
}

proof fn lemma_free_rows_len(walls: Seq<bool>, w: int, h: int, yend: int)
    requires
        w >= 3,
    ensures
        free_rows(walls, w, yend).len() <= if yend < 0 { 0 } else { yend * w },
    decreases yend,
{
    if yend > 1 {
        lemma_free_rows_len(walls, w, h, yend - 1);
        lemma_free_row_len(walls, w, yend - 1, w - 1);
        assert((yend - 1) * w + w == yend * w) by (nonlinear_arith);
    }
}

} // verus!
