use vstd::prelude::*;

use crate::constants::direction_vector;
use crate::rng::{phrase_state, xorshift};
use crate::selection::capacity_of;
use crate::state::{
    border_walls, cell_index, cells_fit, draw_segment, free_row, free_rows, generated_free,
    lemma_cell_index, max_size, on_border, scatter, segment_count, MIN_HEIGHT, MIN_WIDTH,
};

verus! {

/// The walls of row `y` with `1 <= x < xend`.
pub open spec fn wall_row(walls: Seq<bool>, w: int, y: int, xend: int) -> nat
    decreases xend,
{
    if xend <= 1 {
        0
    } else {
        wall_row(walls, w, y, xend - 1) + if walls[cell_index(w, xend - 1, y)] {
            1nat
        } else {
            0nat
        }
    }
}

/// The walls strictly inside the outer ring with `1 <= y < yend`.
pub open spec fn wall_rows(walls: Seq<bool>, w: int, yend: int) -> nat
    decreases yend,
{
    if yend <= 1 {
        0
    } else {
        wall_rows(walls, w, yend - 1) + wall_row(walls, w, yend - 1, w - 1)
    }
}

/// Every cell of a row is either free or a wall.
proof fn lemma_row_split(walls: Seq<bool>, w: int, y: int, xend: int)
    requires
        xend >= 1,
    ensures
        free_row(walls, w, y, xend).len() + wall_row(walls, w, y, xend) == xend - 1,
    decreases xend,
{
    if xend > 1 {
        lemma_row_split(walls, w, y, xend - 1);
    }
}

/// Every inner cell is either free or a wall.
proof fn lemma_rows_split(walls: Seq<bool>, w: int, yend: int)
    requires
        yend >= 1,
        w >= 2,
    ensures
        free_rows(walls, w, yend).len() + wall_rows(walls, w, yend) == (yend - 1) * (w - 2),
    decreases yend,
{
    if yend > 1 {
        lemma_rows_split(walls, w, yend - 1);
        lemma_row_split(walls, w, yend - 1, w - 1);
        assert(free_rows(walls, w, yend) == free_rows(walls, w, yend - 1) + free_row(
            walls,
            w,
            yend - 1,
            w - 1,
        ));
        assert((yend - 1) * (w - 2) == (yend - 2) * (w - 2) + (w - 2)) by (nonlinear_arith);
    } else {
        assert((yend - 1) * (w - 2) == 0) by (nonlinear_arith)
            requires
                yend == 1,
        ;
    }
}

/// Setting one inner cell adds at most one wall to its row, and none to the other rows.
proof fn lemma_row_update(walls: Seq<bool>, w: int, h: int, y: int, xend: int, x0: int, y0: int)
    requires
        walls.len() == w * h,
        0 <= x0 < w,
        0 <= y0 < h,
        0 <= y < h,
        xend <= w,
    ensures
        wall_row(walls.update(cell_index(w, x0, y0), true), w, y, xend) <= wall_row(walls, w, y, xend)
            + if y == y0 {
            1int
        } else {
            0int
        },
        y != y0 ==> wall_row(walls.update(cell_index(w, x0, y0), true), w, y, xend) == wall_row(
            walls,
            w,
            y,
            xend,
        ),
        y == y0 && xend <= x0 ==> wall_row(walls.update(cell_index(w, x0, y0), true), w, y, xend)
            == wall_row(walls, w, y, xend),
    decreases xend,
{
    let c = cell_index(w, x0, y0);
    lemma_cell_index(w, h, x0, y0);
    if xend > 1 {
        lemma_row_update(walls, w, h, y, xend - 1, x0, y0);
        let x = xend - 1;
        lemma_cell_index(w, h, x, y);
        if !(x == x0 && y == y0) {
            assert(cell_index(w, x, y) != c) by {
                if cell_index(w, x, y) == c {
                    assert(cell_index(w, x, y) / w == y && cell_index(w, x, y) % w == x);
                }
            }
        }
    }
}

/// Setting one inner cell adds at most one inner wall.
proof fn lemma_rows_update(walls: Seq<bool>, w: int, h: int, yend: int, x0: int, y0: int)
    requires
        walls.len() == w * h,
        0 <= x0 < w,
        0 <= y0 < h,
        yend <= h,
        w >= 2,
    ensures
        wall_rows(walls.update(cell_index(w, x0, y0), true), w, yend) <= wall_rows(walls, w, yend)
            + 1,
        yend <= y0 ==> wall_rows(walls.update(cell_index(w, x0, y0), true), w, yend) == wall_rows(
            walls,
            w,
            yend,
        ),
    decreases yend,
{
    if yend > 1 {
        lemma_rows_update(walls, w, h, yend - 1, x0, y0);
        lemma_row_update(walls, w, h, yend - 1, w - 1, x0, y0);
    }
}

/// Drawing a segment of `len` cells adds at most `len` inner walls and keeps the map's size.
proof fn lemma_segment_walls(
    walls: Seq<bool>,
    w: int,
    h: int,
    x: int,
    y: int,
    dx: int,
    dy: int,
    len: nat,
)
    requires
        walls.len() == w * h,
        w >= 3,
        h >= 3,
    ensures
        draw_segment(walls, w, h, x, y, dx, dy, len).len() == walls.len(),
        wall_rows(draw_segment(walls, w, h, x, y, dx, dy, len), w, h - 1) <= wall_rows(walls, w, h - 1)
            + len,
    decreases len,
{
    if len > 0 {
        let next = if x > 0 && y > 0 && x + 1 < w && y + 1 < h {
            walls.update(cell_index(w, x, y), true)
        } else {
            walls
        };
        if x > 0 && y > 0 && x + 1 < w && y + 1 < h {
            lemma_cell_index(w, h, x, y);
            lemma_rows_update(walls, w, h, h - 1, x, y);
        }
        lemma_segment_walls(
            next,
            w,
            h,
            crate::state::sat_add(x, dx),
            crate::state::sat_add(y, dy),
            dx,
            dy,
            (len - 1) as nat,
        );
    }
}

/// Drawing `n` segments adds at most six inner walls each and keeps the map's size.
proof fn lemma_scatter_walls(walls: Seq<bool>, s: u64, w: int, h: int, n: nat)
    requires
        walls.len() == w * h,
        w >= 6,
        h >= 6,
    ensures
        scatter(walls, s, w, h, n).0.len() == walls.len(),
        wall_rows(scatter(walls, s, w, h, n).0, w, h - 1) <= wall_rows(walls, w, h - 1) + 6 * n,
    decreases n,
{
    if n > 0 {
        lemma_scatter_walls(walls, s, w, h, (n - 1) as nat);
        let prev = scatter(walls, s, w, h, (n - 1) as nat);
        let s1 = xorshift(prev.1);
        let x = 2 + (s1 as int) % (w - 5);
        let s2 = xorshift(s1);
        let y = 2 + (s2 as int) % (h - 5);
        let s3 = xorshift(s2);
        let d = (s3 as int) % 8;
        let s4 = xorshift(s3);
        let len = 2 + (s4 as int) % 5;
        lemma_segment_walls(
            prev.0,
            w,
            h,
            x,
            y,
            direction_vector(d).0,
            direction_vector(d).1,
            len as nat,
        );
    }
}

/// The bare ring has no inner walls.
proof fn lemma_border_rows(w: int, h: int, yend: int)
    requires
        w >= 3,
        h >= 3,
        yend <= h - 1,
    ensures
        wall_rows(border_walls(w, h), w, yend) == 0,
    decreases yend,
{
    if yend > 1 {
        lemma_border_rows(w, h, yend - 1);
        lemma_border_row(w, h, yend - 1, w - 1);
    }
}

proof fn lemma_border_row(w: int, h: int, y: int, xend: int)
    requires
        w >= 3,
        1 <= y < h - 1,
        xend <= w - 1,
    ensures
        wall_row(border_walls(w, h), w, y, xend) == 0,
    decreases xend,
{
    if xend > 1 {
        lemma_border_row(w, h, y, xend - 1);
        let x = xend - 1;
        lemma_cell_index(w, h, x, y);
        let i = cell_index(w, x, y);
        assert(border_walls(w, h)[i] == on_border(w, h, i % w, i / w));
    }
}

/// A map of at least 20 by 12 cells with no more players than half its inner cells always
/// has a free cell for each of them: its inner walls are at most six per segment drawn, and
/// there is one segment per 55 cells.
pub proof fn agents_fit_generated_map(seed: Seq<u8>, generation: u64, width: usize, height: usize, n: nat)
    requires
        n <= capacity_of(width, height),
        cells_fit(max_size(width, MIN_WIDTH) as int, max_size(height, MIN_HEIGHT) as int),
    ensures
        generated_free(
            seed,
            generation,
            max_size(width, MIN_WIDTH) as int,
            max_size(height, MIN_HEIGHT) as int,
        ).len() >= n,
{
    let w = max_size(width, MIN_WIDTH) as int;
    let h = max_size(height, MIN_HEIGHT) as int;
    let b = border_walls(w, h);
    let q = segment_count(w, h);
    assert(w * h >= 0) by (nonlinear_arith)
        requires
            w >= 20,
            h >= 12,
    ;
    assert(b.len() == w * h);
    lemma_scatter_walls(b, phrase_state(seed, generation), w, h, q);
    lemma_border_rows(w, h, h - 1);
    let walls = scatter(b, phrase_state(seed, generation), w, h, q).0;
    lemma_rows_split(walls, w, h - 1);
    assert(wall_rows(walls, w, h - 1) <= 6 * q);
    let inner = (h - 2) * (w - 2);
    assert(inner - 6 * q >= inner / 2) by (nonlinear_arith)
        requires
            w >= 20,
            h >= 12,
            inner == (h - 2) * (w - 2),
            q == (w * h) / 55,
    {
        assert(55 * q <= w * h);
        assert(55 * inner >= 12 * (w * h)) by (nonlinear_arith)
            requires
                w >= 20,
                h >= 12,
                inner == (h - 2) * (w - 2),
        {
            assert(43 * (w * h) >= 110 * w + 110 * h) by (nonlinear_arith)
                requires
                    w >= 20,
                    h >= 12,
            ;
        }
    }
    assert(capacity_of(width, height) == inner / 2) by (nonlinear_arith)
        requires
            inner == (h - 2) * (w - 2),
            capacity_of(width, height) == (w - 2) * (h - 2) / 2,
    ;
}

/// Players that the command line accepts for a map (at most half the cells inside its ring)
/// always fit the map a game builds from it, whatever the seed and generation, so building
/// the game does not run out of free cells.
pub proof fn accepted_players_fit(seed: Seq<u8>, generation: u64, width: usize, height: usize, players: nat)
    requires
        width >= 8,
        height >= 8,
        players <= (width - 2) * (height - 2) / 2,
        cells_fit(max_size(width, MIN_WIDTH) as int, max_size(height, MIN_HEIGHT) as int),
    ensures
        generated_free(
            seed,
            generation,
            max_size(width, MIN_WIDTH) as int,
            max_size(height, MIN_HEIGHT) as int,
        ).len() >= players,
{
    let w = max_size(width, MIN_WIDTH) as int;
    let h = max_size(height, MIN_HEIGHT) as int;
    assert((width - 2) * (height - 2) <= (w - 2) * (h - 2)) by (nonlinear_arith)
        requires
            w >= width >= 8,
            h >= height >= 8,
    ;
    assert((width - 2) * (height - 2) / 2 <= (w - 2) * (h - 2) / 2) by (nonlinear_arith)
        requires
            (width - 2) * (height - 2) <= (w - 2) * (h - 2),
            (width - 2) * (height - 2) >= 0,
    ;
    agents_fit_generated_map(seed, generation, width, height, players);
}

} // verus!
