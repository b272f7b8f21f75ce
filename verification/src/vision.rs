use vstd::prelude::*;

use crate::constants::{direction, direction_vector, DIRECTION_COUNT, VISION_DEPTH, VISION_WINDOW};
use crate::state::{cell_index, lemma_cell_index, Game, Player, MAX_CELLS};

verus! {

/// The absolute value of an integer.
pub open spec fn abs(v: int) -> int {
    if v < 0 {
        -v
    } else {
        v
    }
}

/// The sign of an integer: -1, 0 or 1.
pub open spec fn sign(v: int) -> int {
    if v < 0 {
        -1
    } else if v > 0 {
        1
    } else {
        0
    }
}

/// The position and error term of the line walk from `(fx, fy)` to `(tx, ty)` after `k` steps.
/// Each step moves along x when twice the error is at least `-|ty - fy|`, and along y when
/// it is at most `|tx - fx|`.
pub open spec fn line_state(fx: int, fy: int, tx: int, ty: int, k: nat) -> (int, int, int)
    decreases k,
{
    let a = abs(tx - fx);
    let b = abs(ty - fy);
    if k == 0 {
        (fx, fy, a - b)
    } else {
        let s = line_state(fx, fy, tx, ty, (k - 1) as nat);
        let e2 = 2 * s.2;
        let (x1, e1) = if e2 >= -b {
            (s.0 + sign(tx - fx), s.2 - b)
        } else {
            (s.0, s.2)
        };
        let (y1, e3) = if e2 <= a {
            (s.1 + sign(ty - fy), e1 + a)
        } else {
            (s.1, e1)
        };
        (x1, y1, e3)
    }
}

/// Whether the line walk reaches the target within its first `k` steps (before step `k`).
pub open spec fn line_reached_before(fx: int, fy: int, tx: int, ty: int, k: nat) -> bool {
    exists|j: nat|
        j < k && {
            let s = #[trigger] line_state(fx, fy, tx, ty, j);
            s.0 == tx && s.1 == ty
        }
}

/// Whether no cell strictly between `(fx, fy)` and `(tx, ty)` on the line walk holds a wall.
pub open spec fn line_clear(g: Game, fx: int, fy: int, tx: int, ty: int) -> bool {
    forall|k: nat|
        #![trigger line_state(fx, fy, tx, ty, k)]
        k >= 1 && !line_reached_before(fx, fy, tx, ty, k) && !(line_state(fx, fy, tx, ty, k).0
            == tx && line_state(fx, fy, tx, ty, k).1 == ty) ==> !g.wall_at(
            line_state(fx, fy, tx, ty, k).0,
            line_state(fx, fy, tx, ty, k).1,
        )
}

/// Whether a player at `(px, py)` facing heading `d` sees cell `(x, y)`: it lies strictly in
/// front (positive dot product with the heading), within the 90 degree cone around the
/// heading, and the line to it is clear of walls.
pub open spec fn sees(g: Game, px: int, py: int, d: int, x: int, y: int) -> bool {
    let (dx, dy) = direction_vector(d);
    let rx = x - px;
    let ry = y - py;
    let dot = rx * dx + ry * dy;
    let cross = rx * dy - ry * dx;
    dot > 0 && abs(cross) <= dot && line_clear(g, px, py, x, y)
}

/// The rows of the window a player scans: `py - depth` (clamped at 0) to `py + depth`
/// (clamped at the last row); likewise for columns.
pub open spec fn window_low(p: int, depth: int) -> int {
    if p >= depth {
        p - depth
    } else {
        0
    }
}

/// The last row or column of the window, clamped to the map.
pub open spec fn window_high(p: int, depth: int, size: int) -> int {
    if p + depth < size - 1 {
        p + depth
    } else {
        size - 1
    }
}

/// Whether the player sees cell `(x, y)` within `depth` cells in both axes.
pub open spec fn in_view(g: Game, p: Player, depth: int, x: int, y: int) -> bool {
    &&& window_low(p.x as int, depth) <= x <= window_high(p.x as int, depth, g.width as int)
    &&& window_low(p.y as int, depth) <= y <= window_high(p.y as int, depth, g.height as int)
    &&& sees(g, p.x as int, p.y as int, p.direction as int, x, y)
}

/// The visible cells of row `y` with column below `xend`, left to right.
pub open spec fn view_row(g: Game, p: Player, depth: int, y: int, xend: int) -> Seq<(usize, usize)>
    decreases xend - window_low(p.x as int, depth),
{
    if xend <= window_low(p.x as int, depth) {
        Seq::empty()
    } else {
        let before = view_row(g, p, depth, y, xend - 1);
        if sees(g, p.x as int, p.y as int, p.direction as int, xend - 1, y) {
            before.push(((xend - 1) as usize, y as usize))
        } else {
            before
        }
    }
}

/// The visible cells of the window's rows below `yend`, in row-major order.
pub open spec fn view_rows(g: Game, p: Player, depth: int, yend: int) -> Seq<(usize, usize)>
    decreases yend - window_low(p.y as int, depth),
{
    if yend <= window_low(p.y as int, depth) {
        Seq::empty()
    } else {
        view_rows(g, p, depth, yend - 1) + view_row(
            g,
            p,
            depth,
            yend - 1,
            window_high(p.x as int, depth, g.width as int) + 1,
        )
    }
}

/// The cells a player sees within `depth`, in row-major order.
pub open spec fn view_cells(g: Game, p: Player, depth: int) -> Seq<(usize, usize)> {
    view_rows(g, p, depth, window_high(p.y as int, depth, g.height as int) + 1)
}

/// What an agent's observation records about one cell of its window.
#[derive(Clone, Copy, Debug, PartialEq, Eq, Structural)]
pub enum Sight {
    /// Off the map, or not visible.
    Hidden,
    /// A visible wall.
    Wall,
    /// A visible cell where another living player stands.
    Player,
    /// A visible empty cell.
    Open,
}

/// Whether a living player other than `id` stands on `(x, y)`.
pub open spec fn other_player_at(ps: Seq<Player>, id: usize, x: int, y: int) -> bool {
    exists|i: int|
        0 <= i < ps.len() && {
            let q = #[trigger] ps[i];
            q.alive && q.id != id && q.x == x && q.y == y
        }
}

/// The observation of one cell of the window.
pub open spec fn sight_of(g: Game, p: Player, x: int, y: int) -> Sight {
    if !g.in_map(x, y) || !sees(g, p.x as int, p.y as int, p.direction as int, x, y) {
        Sight::Hidden
    } else if g.wall_at(x, y) {
        Sight::Wall
    } else if other_player_at(g.players@, p.id, x, y) {
        Sight::Player
    } else {
        Sight::Open
    }
}

/// The observed window, row by row: entry `k` describes the cell at offset
/// `(k % 13 - 6, k / 13 - 6)` from the player.
pub open spec fn sight_window(g: Game, p: Player) -> Seq<Sight> {
    Seq::new(
        (VISION_WINDOW * VISION_WINDOW) as nat,
        |k: int|
            sight_of(
                g,
                p,
                p.x + k % (VISION_WINDOW as int) - VISION_DEPTH,
                p.y + k / (VISION_WINDOW as int) - VISION_DEPTH,
            ),
    )
}

/// What a game must satisfy for line walks on it.
pub open spec fn map_ok(g: Game) -> bool {
    &&& g.width * g.height <= MAX_CELLS
    &&& g.walls@.len() == g.width * g.height
}

proof fn lemma_line_step(fx: int, fy: int, tx: int, ty: int, k: nat, i: int, j: int)
    requires
        ({
            let a = abs(tx - fx);
            let b = abs(ty - fy);
            let s = line_state(fx, fy, tx, ty, k);
            &&& 0 <= i <= a
            &&& 0 <= j <= b
            &&& s.0 == fx + sign(tx - fx) * i
            &&& s.1 == fy + sign(ty - fy) * j
            &&& s.2 == a - b + a * j - b * i
            &&& !(s.0 == tx && s.1 == ty)
        }),
    ensures
        ({
            let a = abs(tx - fx);
            let b = abs(ty - fy);
            let s = line_state(fx, fy, tx, ty, k);
            let t = line_state(fx, fy, tx, ty, k + 1);
            let e2 = 2 * s.2;
            let i1 = if e2 >= -b { i + 1 } else { i };
            let j1 = if e2 <= a { j + 1 } else { j };
            &&& 0 <= i1 <= a
            &&& 0 <= j1 <= b
            &&& i1 + j1 > i + j
            &&& t.0 == fx + sign(tx - fx) * i1
            &&& t.1 == fy + sign(ty - fy) * j1
            &&& t.2 == a - b + a * j1 - b * i1
        }),
{
    let a = abs(tx - fx);
    let b = abs(ty - fy);
    let s = line_state(fx, fy, tx, ty, k);
    let e2 = 2 * s.2;
    lemma_sign_abs(tx - fx);
    lemma_sign_abs(ty - fy);
    if i == a {
        // The walk is at the target column, so it has not reached the target row.
        assert(j < b) by {
            if j == b {
                assert(s.0 == tx && s.1 == ty);
            }
        }
        assert(s.2 <= -b) by (nonlinear_arith)
            requires
                s.2 == a - b + a * j - b * i,
                i == a,
                0 <= j < b,
                a >= 0,
        ;
    }
    if j == b {
        assert(i < a) by {
            if i == a {
                assert(s.0 == tx && s.1 == ty);
            }
        }
        assert(s.2 >= a) by (nonlinear_arith)
            requires
                s.2 == a - b + a * j - b * i,
                j == b,
                0 <= i < a,
                b >= 0,
        ;
    }
    assert(a * (j + 1) == a * j + a) by (nonlinear_arith);
    assert(b * (i + 1) == b * i + b) by (nonlinear_arith);
    assert(sign(tx - fx) * (i + 1) == sign(tx - fx) * i + sign(tx - fx)) by (nonlinear_arith);
    assert(sign(ty - fy) * (j + 1) == sign(ty - fy) * j + sign(ty - fy)) by (nonlinear_arith);
}

proof fn lemma_sign_abs(v: int)
    ensures
        sign(v) * abs(v) == v,
{
    if v < 0 {
        assert(-1 * -v == v) by (nonlinear_arith);
    } else if v > 0 {
        assert(1 * v == v);
    }
}

/// Bounds of the error term of a line walk on a map.
proof fn lemma_line_error_bound(a: int, b: int, i: int, j: int, w: int, h: int)
    requires
        0 <= a < w,
        0 <= b < h,
        0 <= i <= a,
        0 <= j <= b,
        w * h <= MAX_CELLS,
    ensures
        -(MAX_CELLS as int) <= a - b + a * j - b * i <= MAX_CELLS,
{
    assert(a + a * j <= w * h) by (nonlinear_arith)
        requires
            0 <= a < w,
            0 <= j <= b < h,
    ;
    assert(b + b * i <= w * h) by (nonlinear_arith)
        requires
            0 <= b < h,
            0 <= i <= a < w,
    ;
    assert(a * j >= 0 && b * i >= 0) by (nonlinear_arith)
        requires
            a >= 0,
            b >= 0,
            i >= 0,
            j >= 0,
    ;
}

fn sign_i64(v: i64) -> (r: i64)
    ensures
        r == sign(v as int),
{
    if v < 0 {
        -1
    } else if v > 0 {
        1
    } else {
        0
    }
}

fn abs_i64(v: i64) -> (r: i64)
    requires
        v > i64::MIN,
    ensures
        r == abs(v as int),
{
    if v < 0 {
        -v
    } else {
        v
    }
}

impl Game {
    /// Whether the straight line from `from` to `to` is free of walls strictly between them.
    pub fn has_line_of_sight(&self, from: (usize, usize), to: (usize, usize)) -> (r: bool)
        requires
            map_ok(*self),
            self.in_map(from.0 as int, from.1 as int),
            self.in_map(to.0 as int, to.1 as int),
        ensures
            r == line_clear(*self, from.0 as int, from.1 as int, to.0 as int, to.1 as int),
    {
        proof {
            assert(self.width <= MAX_CELLS && self.height <= MAX_CELLS) by (nonlinear_arith)
                requires
                    self.width * self.height <= MAX_CELLS,
                    from.0 < self.width,
                    from.1 < self.height,
            ;
        }
        let ghost fx = from.0 as int;
        let ghost fy = from.1 as int;
        let ghost tx = to.0 as int;
        let ghost ty = to.1 as int;
        let mut x = from.0 as i64;
        let mut y = from.1 as i64;
        let end_x = to.0 as i64;
        let end_y = to.1 as i64;
        let dx = abs_i64(end_x - x);
        let dy = -abs_i64(end_y - y);
        let step_x = sign_i64(end_x - x);
        let step_y = sign_i64(end_y - y);
        let mut error = dx + dy;
        let ghost mut i: int = 0;
        let ghost mut j: int = 0;
        let ghost mut k: nat = 0;
        let ghost a = abs(tx - fx);
        let ghost b = abs(ty - fy);
        while x != end_x || y != end_y
            invariant
                map_ok(*self),
                fx == from.0 as int,
                fy == from.1 as int,
                tx == to.0 as int,
                ty == to.1 as int,
                0 <= fx < self.width,
                0 <= fy < self.height,
                0 <= tx < self.width,
                0 <= ty < self.height,
                self.width <= MAX_CELLS,
                self.height <= MAX_CELLS,
                end_x == tx,
                end_y == ty,
                dx == a,
                dy == -b,
                a == abs(tx - fx),
                b == abs(ty - fy),
                step_x == sign(tx - fx),
                step_y == sign(ty - fy),
                0 <= i <= a,
                0 <= j <= b,
                x == fx + sign(tx - fx) * i,
                y == fy + sign(ty - fy) * j,
                error == a - b + a * j - b * i,
                line_state(fx, fy, tx, ty, k) == (x as int, y as int, error as int),
                !line_reached_before(fx, fy, tx, ty, k),
                forall|m: nat|
                    #![trigger line_state(fx, fy, tx, ty, m)]
                    1 <= m <= k && !(line_state(fx, fy, tx, ty, m).0 == tx && line_state(
                        fx,
                        fy,
                        tx,
                        ty,
                        m,
                    ).1 == ty) ==> !self.wall_at(
                        line_state(fx, fy, tx, ty, m).0,
                        line_state(fx, fy, tx, ty, m).1,
                    ),
            decreases (a - i) + (b - j),
        {
            proof {
                lemma_line_step(fx, fy, tx, ty, k, i, j);
                lemma_line_error_bound(a, b, i, j, self.width as int, self.height as int);
            }
            let twice_error = error * 2;
            let ghost e2 = twice_error as int;
            if twice_error >= dy {
                error = error + dy;
                x = x + step_x;
                proof {
                    i = i + 1;
                }
            }
            if twice_error <= dx {
                error = error + dx;
                y = y + step_y;
                proof {
                    j = j + 1;
                }
            }
            proof {
                assert(!line_reached_before(fx, fy, tx, ty, k + 1)) by {
                    if line_reached_before(fx, fy, tx, ty, k + 1) {
                        let m = choose|m: nat|
                            m < k + 1 && {
                                let s = #[trigger] line_state(fx, fy, tx, ty, m);
                                s.0 == tx && s.1 == ty
                            };
                        if m < k {
                            assert(line_reached_before(fx, fy, tx, ty, k));
                        }
                    }
                }
                k = k + 1;
                assert(0 <= x < self.width) by (nonlinear_arith)
                    requires
                        x == fx + sign(tx - fx) * i,
                        0 <= i <= a,
                        a == abs(tx - fx),
                        0 <= fx < self.width,
                        0 <= tx < self.width,
                ;
                assert(0 <= y < self.height) by (nonlinear_arith)
                    requires
                        y == fy + sign(ty - fy) * j,
                        0 <= j <= b,
                        b == abs(ty - fy),
                        0 <= fy < self.height,
                        0 <= ty < self.height,
                ;
                lemma_cell_index(self.width as int, self.height as int, x as int, y as int);
            }
            if (x != end_x || y != end_y) && self.is_wall(x as usize, y as usize) {
                proof {
                    let s = line_state(fx, fy, tx, ty, k);
                    assert(s.0 == x && s.1 == y);
                    assert(k >= 1);
                    assert(!(s.0 == tx && s.1 == ty));
                    assert(self.wall_at(s.0, s.1));
                    assert(!line_clear(*self, fx, fy, tx, ty));
                }
                return false;
            }
        }
        proof {
            assert forall|m: nat|
                #![trigger line_state(fx, fy, tx, ty, m)]
                m >= 1 && !line_reached_before(fx, fy, tx, ty, m) && !(line_state(fx, fy, tx, ty, m).0
                    == tx && line_state(fx, fy, tx, ty, m).1 == ty) implies !self.wall_at(
                line_state(fx, fy, tx, ty, m).0,
                line_state(fx, fy, tx, ty, m).1,
            ) by {
                if m > k {
                    assert(line_reached_before(fx, fy, tx, ty, m)) by {
                        assert(line_state(fx, fy, tx, ty, k).0 == tx);
                    }
                }
            }
        }
        true
    }
}

proof fn lemma_unit_mul(v: int, u: int)
    requires
        -1 <= u <= 1,
    ensures
        abs(v * u) <= abs(v),
        u == 1 ==> v * u == v,
        u == -1 ==> v * u == -v,
        u == 0 ==> v * u == 0,
{
    if u == 1 {
        assert(v * 1 == v);
    } else if u == -1 {
        assert(v * -1 == -v) by (nonlinear_arith);
    } else {
        assert(v * 0 == 0);
    }
}

impl Game {
    /// Whether a player at `(px, py)` facing heading `d` sees cell `(x, y)`.
    pub fn sees_cell(&self, px: usize, py: usize, d: usize, x: usize, y: usize) -> (r: bool)
        requires
            map_ok(*self),
            self.in_map(px as int, py as int),
            self.in_map(x as int, y as int),
            d < DIRECTION_COUNT,
        ensures
            r == sees(*self, px as int, py as int, d as int, x as int, y as int),
    {
        proof {
            assert(self.width <= MAX_CELLS && self.height <= MAX_CELLS) by (nonlinear_arith)
                requires
                    self.width * self.height <= MAX_CELLS,
                    px < self.width,
                    py < self.height,
            ;
        }
        let (dx, dy) = direction(d);
        let rx = x as i64 - px as i64;
        let ry = y as i64 - py as i64;
        proof {
            lemma_unit_mul(rx as int, dx as int);
            lemma_unit_mul(ry as int, dy as int);
            lemma_unit_mul(rx as int, dy as int);
            lemma_unit_mul(ry as int, dx as int);
        }
        let dot = rx * dx + ry * dy;
        let cross = rx * dy - ry * dx;
        let cross_abs = if cross < 0 { -cross } else { cross };
        dot > 0 && cross_abs <= dot && self.has_line_of_sight((px, py), (x, y))
    }

    /// The cells the player sees within `depth` cells along each axis, in row-major order:
    /// strictly in front of it, within the 90 degree cone around its heading, and with a
    /// clear line to them.
    pub fn visible_cells(&self, player: &Player, depth: usize) -> (r: Vec<(usize, usize)>)
        requires
            map_ok(*self),
            self.in_map(player.x as int, player.y as int),
            player.direction < DIRECTION_COUNT,
            player.x + depth <= usize::MAX,
            player.y + depth <= usize::MAX,
        ensures
            r@ == view_cells(*self, *player, depth as int),
    {
        let ylo = if player.y >= depth { player.y - depth } else { 0 };
        let yhi = if player.y + depth < self.height - 1 { player.y + depth } else { self.height - 1 };
        let xlo = if player.x >= depth { player.x - depth } else { 0 };
        let xhi = if player.x + depth < self.width - 1 { player.x + depth } else { self.width - 1 };
        let mut cells: Vec<(usize, usize)> = Vec::new();
        let mut y = ylo;
        while y <= yhi
            invariant
                map_ok(*self),
                self.in_map(player.x as int, player.y as int),
                player.direction < DIRECTION_COUNT,
                ylo == window_low(player.y as int, depth as int),
                yhi == window_high(player.y as int, depth as int, self.height as int),
                xlo == window_low(player.x as int, depth as int),
                xhi == window_high(player.x as int, depth as int, self.width as int),
                ylo <= y <= yhi + 1,
                yhi < self.height,
                xhi < self.width,
                cells@ == view_rows(*self, *player, depth as int, y as int),
            decreases yhi + 1 - y,
        {
            let mut x = xlo;
            while x <= xhi
                invariant
                    map_ok(*self),
                    self.in_map(player.x as int, player.y as int),
                    player.direction < DIRECTION_COUNT,
                    ylo == window_low(player.y as int, depth as int),
                    yhi == window_high(player.y as int, depth as int, self.height as int),
                    xlo == window_low(player.x as int, depth as int),
                    xhi == window_high(player.x as int, depth as int, self.width as int),
                    ylo <= y <= yhi,
                    yhi < self.height,
                    xhi < self.width,
                    xlo <= x <= xhi + 1,
                    cells@ == view_rows(*self, *player, depth as int, y as int) + view_row(
                        *self,
                        *player,
                        depth as int,
                        y as int,
                        x as int,
                    ),
                decreases xhi + 1 - x,
            {
                if self.sees_cell(player.x, player.y, player.direction, x, y) {
                    cells.push((x, y));
                }
                assert(cells@ =~= view_rows(*self, *player, depth as int, y as int) + view_row(
                    *self,
                    *player,
                    depth as int,
                    y as int,
                    x + 1,
                ));
                x = x + 1;
            }
            y = y + 1;
        }
        cells
    }
}

proof fn lemma_view_row_members(g: Game, p: Player, depth: int, y: int, xend: int)
    requires
        0 <= y <= usize::MAX,
        xend <= usize::MAX + 1,
    ensures
        forall|c: (usize, usize)|
            #[trigger] view_row(g, p, depth, y, xend).contains(c) <==> (c.1 == y && window_low(
                p.x as int,
                depth,
            ) <= c.0 < xend && sees(g, p.x as int, p.y as int, p.direction as int, c.0 as int, y)),
    decreases xend - window_low(p.x as int, depth),
{
    if xend > window_low(p.x as int, depth) {
        lemma_view_row_members(g, p, depth, y, xend - 1);
        let before = view_row(g, p, depth, y, xend - 1);
        let c0 = ((xend - 1) as usize, y as usize);
        if !sees(g, p.x as int, p.y as int, p.direction as int, xend - 1, y) {
            assert(view_row(g, p, depth, y, xend) == before);
        } else {
            assert(view_row(g, p, depth, y, xend) == before.push(c0));
            assert forall|c: (usize, usize)| #[trigger] before.push(c0).contains(c) <==> (
            before.contains(c) || c == c0) by {
                if before.push(c0).contains(c) {
                    let k = choose|k: int| 0 <= k < before.push(c0).len() && before.push(c0)[k] == c;
                    if k < before.len() {
                        assert(before[k] == c);
                    }
                }
                if c == c0 {
                    assert(before.push(c0)[before.len() as int] == c);
                }
                if before.contains(c) {
                    let k = choose|k: int| 0 <= k < before.len() && before[k] == c;
                    assert(before.push(c0)[k] == c);
                }
            }
        }
    }
}

proof fn lemma_view_rows_members(g: Game, p: Player, depth: int, yend: int)
    requires
        yend <= usize::MAX + 1,
        window_high(p.x as int, depth, g.width as int) + 1 <= usize::MAX + 1,
    ensures
        forall|c: (usize, usize)|
            #[trigger] view_rows(g, p, depth, yend).contains(c) <==> (window_low(p.y as int, depth)
                <= c.1 < yend && window_low(p.x as int, depth) <= c.0 <= window_high(
                p.x as int,
                depth,
                g.width as int,
            ) && sees(g, p.x as int, p.y as int, p.direction as int, c.0 as int, c.1 as int)),
    decreases yend - window_low(p.y as int, depth),
{
    if yend > window_low(p.y as int, depth) {
        lemma_view_rows_members(g, p, depth, yend - 1);
        assert(view_rows(g, p, depth, yend) == view_rows(g, p, depth, yend - 1) + view_row(
            g,
            p,
            depth,
            yend - 1,
            window_high(p.x as int, depth, g.width as int) + 1,
        ));
        let xend = window_high(p.x as int, depth, g.width as int) + 1;
        lemma_view_row_members(g, p, depth, yend - 1, xend);
        let first = view_rows(g, p, depth, yend - 1);
        let row = view_row(g, p, depth, yend - 1, xend);
        assert forall|c: (usize, usize)| #[trigger] (first + row).contains(c) <==> (
        first.contains(c) || row.contains(c)) by {
            if (first + row).contains(c) {
                let k = choose|k: int| 0 <= k < (first + row).len() && (first + row)[k] == c;
                if k < first.len() {
                    assert(first[k] == c);
                } else {
                    assert(row[k - first.len()] == c);
                }
            }
            if first.contains(c) {
                let k = choose|k: int| 0 <= k < first.len() && first[k] == c;
                assert((first + row)[k] == c);
            }
            if row.contains(c) {
                let k = choose|k: int| 0 <= k < row.len() && row[k] == c;
                assert((first + row)[k + first.len()] == c);
            }
        }
    }
}

/// `visible_cells` lists exactly the cells the player has in view: a cell is listed if and
/// only if it lies within `depth` of the player along both axes and the player sees it.
pub proof fn visible_cells_are_in_view(g: Game, p: Player, depth: int, x: int, y: int)
    requires
        0 <= x <= usize::MAX,
        0 <= y <= usize::MAX,
        g.width >= 1,
        g.height >= 1,
    ensures
        view_cells(g, p, depth).contains((x as usize, y as usize)) <==> in_view(g, p, depth, x, y),
{
    lemma_view_rows_members(g, p, depth, window_high(p.y as int, depth, g.height as int) + 1);
}

/// A player sees only within a quarter turn's cone around its heading: for every cell it
/// sees, at offset `(rx, ry)` from it, the offset points ahead (`rx * dx + ry * dy > 0` for
/// the heading `(dx, dy)`) and lies within 45 degrees of the heading
/// (`|rx * dy - ry * dx| <= rx * dx + ry * dy`).
pub proof fn seen_cells_lie_in_the_cone(g: Game, px: int, py: int, d: int, x: int, y: int)
    requires
        sees(g, px, py, d, x, y),
    ensures
        ({
            let (dx, dy) = direction_vector(d);
            let rx = x - px;
            let ry = y - py;
            &&& rx * dx + ry * dy > 0
            &&& -(rx * dx + ry * dy) <= rx * dy - ry * dx <= rx * dx + ry * dy
        }),
{
}

/// The cells that `visible_cells` lists all lie in the player's cone of sight, within 45
/// degrees of its heading.
pub proof fn listed_cells_lie_in_the_cone(g: Game, p: Player, depth: int, x: int, y: int)
    requires
        0 <= x <= usize::MAX,
        0 <= y <= usize::MAX,
        g.width >= 1,
        g.height >= 1,
        view_cells(g, p, depth).contains((x as usize, y as usize)),
    ensures
        ({
            let (dx, dy) = direction_vector(p.direction as int);
            let rx = x - p.x;
            let ry = y - p.y;
            &&& rx * dx + ry * dy > 0
            &&& -(rx * dx + ry * dy) <= rx * dy - ry * dx <= rx * dx + ry * dy
        }),
{
    visible_cells_are_in_view(g, p, depth, x, y);
    seen_cells_lie_in_the_cone(g, p.x as int, p.y as int, p.direction as int, x, y);
}

/// The observation window and `visible_cells` agree: entry `k` of the window, for the cell
/// at offset `(k % 13 - 6, k / 13 - 6)` from the player, is anything but `Hidden` exactly
/// when that cell is on the map and among the cells the player sees within the vision depth.
/// A shown cell is `Wall` exactly when it holds a wall; `Player` only where another living
/// player stands; `Open` only where neither a wall nor another living player is.
pub proof fn window_shows_only_visible_cells(g: Game, p: Player, k: int)
    requires
        0 <= k < VISION_WINDOW * VISION_WINDOW,
        g.width >= 1,
        g.height >= 1,
    ensures
        ({
            let x = p.x + k % (VISION_WINDOW as int) - VISION_DEPTH;
            let y = p.y + k / (VISION_WINDOW as int) - VISION_DEPTH;
            let s = sight_window(g, p)[k];
            &&& (s != Sight::Hidden <==> g.in_map(x, y) && view_cells(
                g,
                p,
                VISION_DEPTH as int,
            ).contains((x as usize, y as usize)))
            &&& (s == Sight::Wall <==> s != Sight::Hidden && g.wall_at(x, y))
            &&& (s == Sight::Player ==> other_player_at(g.players@, p.id, x, y))
            &&& (s == Sight::Open ==> !g.wall_at(x, y) && !other_player_at(g.players@, p.id, x, y))
        }),
{
    let x = p.x + k % (VISION_WINDOW as int) - VISION_DEPTH;
    let y = p.y + k / (VISION_WINDOW as int) - VISION_DEPTH;
    assert(sight_window(g, p)[k] == sight_of(g, p, x, y));
    if g.in_map(x, y) {
        visible_cells_are_in_view(g, p, VISION_DEPTH as int, x, y);
    }
}

impl Game {
    /// Whether a living player other than `id` stands on `(x, y)`.
    pub fn other_player_on(&self, id: usize, x: usize, y: usize) -> (r: bool)
        ensures
            r == other_player_at(self.players@, id, x as int, y as int),
    {
        let mut i: usize = 0;
        while i < self.players.len()
            invariant
                i <= self.players@.len(),
                forall|j: int|
                    0 <= j < i ==> {
                        let q = #[trigger] self.players@[j];
                        !(q.alive && q.id != id && q.x == x && q.y == y)
                    },
            decreases self.players@.len() - i,
        {
            let q = &self.players[i];
            if q.alive && q.id != id && q.x == x && q.y == y {
                return true;
            }
            i = i + 1;
        }
        false
    }

    /// What the player observes of the 13 by 13 window centred on it, row by row: hidden
    /// (off the map or not visible), a wall, another living player, or an open cell.
    pub fn observation_window(&self, player: &Player) -> (r: Vec<Sight>)
        requires
            map_ok(*self),
            self.in_map(player.x as int, player.y as int),
            player.direction < DIRECTION_COUNT,
        ensures
            r@ == sight_window(*self, *player),
    {
        proof {
            assert(self.width <= MAX_CELLS && self.height <= MAX_CELLS) by (nonlinear_arith)
                requires
                    self.width * self.height <= MAX_CELLS,
                    player.x < self.width,
                    player.y < self.height,
            ;
        }
        let n: i64 = VISION_DEPTH as i64;
        let ghost target = sight_window(*self, *player);
        let mut sights: Vec<Sight> = Vec::new();
        let mut ry: i64 = -n;
        while ry <= n
            invariant
                map_ok(*self),
                self.in_map(player.x as int, player.y as int),
                player.direction < DIRECTION_COUNT,
                self.width <= MAX_CELLS,
                self.height <= MAX_CELLS,
                n == 6,
                -n <= ry <= n + 1,
                target == sight_window(*self, *player),
                sights@ == target.take((ry + n) * 13),
            decreases n + 1 - ry,
        {
            let mut rx: i64 = -n;
            while rx <= n
                invariant
                    map_ok(*self),
                    self.in_map(player.x as int, player.y as int),
                    player.direction < DIRECTION_COUNT,
                    self.width <= MAX_CELLS,
                    self.height <= MAX_CELLS,
                    n == 6,
                    -n <= ry <= n,
                    -n <= rx <= n + 1,
                    target == sight_window(*self, *player),
                    sights@ == target.take((ry + n) * 13 + rx + n),
                decreases n + 1 - rx,
            {
                let x = player.x as i64 + rx;
                let y = player.y as i64 + ry;
                let ghost k = (ry + n) * 13 + rx + n;
                proof {
                    vstd::arithmetic::div_mod::lemma_fundamental_div_mod_converse(
                        k,
                        13,
                        ry + n,
                        rx + n,
                    );
                }
                let sight = if x < 0 || y < 0 || x >= self.width as i64 || y >= self.height as i64 {
                    Sight::Hidden
                } else if !self.sees_cell(
                    player.x,
                    player.y,
                    player.direction,
                    x as usize,
                    y as usize,
                ) {
                    Sight::Hidden
                } else {
                    proof {
                        lemma_cell_index(self.width as int, self.height as int, x as int, y as int);
                    }
                    if self.is_wall(x as usize, y as usize) {
                        Sight::Wall
                    } else if self.other_player_on(player.id, x as usize, y as usize) {
                        Sight::Player
                    } else {
                        Sight::Open
                    }
                };
                assert(sight == target[k]);
                sights.push(sight);
                assert(sights@ =~= target.take(k + 1));
                rx = rx + 1;
            }
            ry = ry + 1;
        }
        assert(target.take(169) =~= target);
        sights
    }
}

/// What a player sees depends on the map alone, not on where the other players stand.
pub proof fn lemma_view_same_map(g1: Game, g2: Game, p: Player, depth: int, x: int, y: int)
    requires
        g1.width == g2.width,
        g1.height == g2.height,
        g1.walls@ == g2.walls@,
    ensures
        in_view(g1, p, depth, x, y) == in_view(g2, p, depth, x, y),
        sees(g1, p.x as int, p.y as int, p.direction as int, x, y) == sees(
            g2,
            p.x as int,
            p.y as int,
            p.direction as int,
            x,
            y,
        ),
{
    assert forall|a: int, b: int| g1.wall_at(a, b) == g2.wall_at(a, b) by {}
    assert(line_clear(g1, p.x as int, p.y as int, x, y) == line_clear(g2, p.x as int, p.y as int, x, y));
}

impl Game {
    /// Whether the player has cell `(x, y)` in view within `depth` cells along each axis.
    pub fn in_view_cell(&self, p: &Player, depth: usize, x: usize, y: usize) -> (r: bool)
        requires
            map_ok(*self),
            self.in_map(p.x as int, p.y as int),
            self.in_map(x as int, y as int),
            p.direction < DIRECTION_COUNT,
            p.x + depth <= usize::MAX,
            p.y + depth <= usize::MAX,
        ensures
            r == in_view(*self, *p, depth as int, x as int, y as int),
    {
        let ylo = if p.y >= depth { p.y - depth } else { 0 };
        let yhi = if p.y + depth < self.height - 1 { p.y + depth } else { self.height - 1 };
        let xlo = if p.x >= depth { p.x - depth } else { 0 };
        let xhi = if p.x + depth < self.width - 1 { p.x + depth } else { self.width - 1 };
        xlo <= x && x <= xhi && ylo <= y && y <= yhi && self.sees_cell(p.x, p.y, p.direction, x, y)
    }
}

/// Until it reaches its target, the line walk has made `i` steps along x and `j` along y,
/// at least one per step taken.
proof fn lemma_line_walk(fx: int, fy: int, tx: int, ty: int, k: nat) -> (ij: (int, int))
    requires
        !line_reached_before(fx, fy, tx, ty, k),
    ensures
        ({
            let a = abs(tx - fx);
            let b = abs(ty - fy);
            let s = line_state(fx, fy, tx, ty, k);
            &&& 0 <= ij.0 <= a
            &&& 0 <= ij.1 <= b
            &&& ij.0 + ij.1 >= k
            &&& s.0 == fx + sign(tx - fx) * ij.0
            &&& s.1 == fy + sign(ty - fy) * ij.1
            &&& s.2 == a - b + a * ij.1 - b * ij.0
        }),
    decreases k,
{
    if k == 0 {
        (0, 0)
    } else {
        let m = (k - 1) as nat;
        if line_reached_before(fx, fy, tx, ty, m) {
            let j = choose|j: nat|
                j < m && {
                    let s = #[trigger] line_state(fx, fy, tx, ty, j);
                    s.0 == tx && s.1 == ty
                };
            assert(line_state(fx, fy, tx, ty, j).0 == tx);
        }
        let ij = lemma_line_walk(fx, fy, tx, ty, m);
        let st = line_state(fx, fy, tx, ty, m);
        if st.0 == tx && st.1 == ty {
            assert(line_reached_before(fx, fy, tx, ty, k));
        }
        lemma_line_step(fx, fy, tx, ty, m, ij.0, ij.1);
        let a = abs(tx - fx);
        let b = abs(ty - fy);
        let e2 = 2 * st.2;
        let i1 = if e2 >= -b { ij.0 + 1 } else { ij.0 };
        let j1 = if e2 <= a { ij.1 + 1 } else { ij.1 };
        (i1, j1)
    }
}

/// A line walk that has taken a step and not yet reached its target has left its start.
proof fn lemma_line_leaves_start(fx: int, fy: int, tx: int, ty: int, k: nat)
    requires
        k >= 1,
        !line_reached_before(fx, fy, tx, ty, k),
    ensures
        !(line_state(fx, fy, tx, ty, k).0 == fx && line_state(fx, fy, tx, ty, k).1 == fy),
{
    let ij = lemma_line_walk(fx, fy, tx, ty, k);
    lemma_sign_abs(tx - fx);
    lemma_sign_abs(ty - fy);
    if ij.0 > 0 {
        assert(tx - fx != 0);
        assert(sign(tx - fx) * ij.0 != 0) by (nonlinear_arith)
            requires
                ij.0 > 0,
                sign(tx - fx) == 1 || sign(tx - fx) == -1,
        ;
    } else {
        assert(ij.1 > 0);
        assert(ty - fy != 0);
        assert(sign(ty - fy) * ij.1 != 0) by (nonlinear_arith)
            requires
                ij.1 > 0,
                sign(ty - fy) == 1 || sign(ty - fy) == -1,
        ;
    }
}

/// Whether a line is clear does not depend on the walls at its two ends: only the cells
/// strictly between them count.
pub proof fn line_clear_ignores_ends(g1: Game, g2: Game, fx: int, fy: int, tx: int, ty: int)
    requires
        forall|x: int, y: int|
            !(x == fx && y == fy) && !(x == tx && y == ty) ==> #[trigger] g1.wall_at(x, y)
                == g2.wall_at(x, y),
    ensures
        line_clear(g1, fx, fy, tx, ty) == line_clear(g2, fx, fy, tx, ty),
{
    assert forall|k: nat|
        k >= 1 && !line_reached_before(fx, fy, tx, ty, k) && !(line_state(fx, fy, tx, ty, k).0
            == tx && line_state(fx, fy, tx, ty, k).1 == ty) implies g1.wall_at(
        line_state(fx, fy, tx, ty, k).0,
        line_state(fx, fy, tx, ty, k).1,
    ) == g2.wall_at(line_state(fx, fy, tx, ty, k).0, line_state(fx, fy, tx, ty, k).1) by {
        lemma_line_leaves_start(fx, fy, tx, ty, k);
    }
}

/// A cell sees itself and its eight neighbours along a clear line: nothing lies between them.
pub proof fn line_clear_to_neighbours(g: Game, fx: int, fy: int, tx: int, ty: int)
    requires
        abs(tx - fx) <= 1,
        abs(ty - fy) <= 1,
    ensures
        line_clear(g, fx, fy, tx, ty),
{
    let s0 = line_state(fx, fy, tx, ty, 0);
    let s1 = line_state(fx, fy, tx, ty, 1);
    if fx == tx && fy == ty {
        assert forall|k: nat| k >= 1 implies line_reached_before(fx, fy, tx, ty, k) by {
            assert(line_state(fx, fy, tx, ty, 0).0 == tx);
        }
    } else {
        assert(s1.0 == tx && s1.1 == ty);
        assert forall|k: nat| k >= 2 implies line_reached_before(fx, fy, tx, ty, k) by {
            assert(line_state(fx, fy, tx, ty, 1).0 == tx);
        }
    }
}

} // verus!
