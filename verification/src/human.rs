use std::collections::HashSet;
use vstd::prelude::*;

use crate::constants::{direction, direction_vector, DIRECTION_COUNT, VISION_DEPTH};
use crate::state::{
    cell_index, count_upto, dead_count, kills_bounded, lemma_count_bound, lemma_count_ext,
    lemma_count_mono, lemma_count_split, lemma_cell_index, on_border, players_layout, sat_add,
    Game, Player, MAX_CELLS,
};
use crate::vision::{in_view, map_ok};

verus! {

/// Whether the game has a human player.
pub open spec fn has_human(g: Game) -> bool {
    exists|i: int| 0 <= i < g.players@.len() && (#[trigger] g.players@[i]).id == 0
}

/// The position of the living human, if there is one.
pub open spec fn living_human(g: Game) -> Option<int> {
    let n = g.player_count as int;
    if g.players@.len() == n + 1 && g.players@[n].alive {
        Some(n)
    } else {
        None
    }
}

/// Whether any player, living or fallen, stands on `(x, y)`.
pub open spec fn anyone_at(ps: Seq<Player>, x: int, y: int) -> bool {
    exists|i: int|
        0 <= i < ps.len() && {
            let q = #[trigger] ps[i];
            q.x == x && q.y == y
        }
}

/// Whether a living player stands on `(x, y)`.
pub open spec fn living_at(ps: Seq<Player>, x: int, y: int) -> bool {
    exists|i: int|
        0 <= i < ps.len() && {
            let q = #[trigger] ps[i];
            q.alive && q.x == x && q.y == y
        }
}

/// Whether the human may appear on `(x, y)`: strictly inside the ring, no wall, nobody there.
pub open spec fn spawn_ok(g: Game, x: int, y: int) -> bool {
    &&& 1 <= x < g.width - 1
    &&& 1 <= y < g.height - 1
    &&& !g.wall_at(x, y)
    &&& !anyone_at(g.players@, x, y)
}

/// The distance of `(x, y)` from the map's centre, in steps along each axis.
pub open spec fn centre_distance(g: Game, x: int, y: int) -> int {
    let cx = (g.width / 2) as int;
    let cy = (g.height / 2) as int;
    (if x < cx { cx - x } else { x - cx }) + (if y < cy { cy - y } else { y - cy })
}

/// Whether `(x, y)` comes no later than `(a, b)` in row-major order.
pub open spec fn scan_before_eq(x: int, y: int, a: int, b: int) -> bool {
    y < b || (y == b && x <= a)
}

/// Whether `(x, y)` is where the human appears: the allowed cell closest to the centre,
/// the first in row-major order among equally close ones.
pub open spec fn human_spawn(g: Game, x: int, y: int) -> bool {
    &&& spawn_ok(g, x, y)
    &&& forall|a: int, b: int|
        #![trigger spawn_ok(g, a, b)]
        spawn_ok(g, a, b) ==> centre_distance(g, x, y) < centre_distance(g, a, b) || (
        centre_distance(g, x, y) == centre_distance(g, a, b) && scan_before_eq(x, y, a, b))
}

/// Whether the human has somewhere to appear.
pub open spec fn spawn_exists(g: Game) -> bool {
    exists|x: int, y: int| #[trigger] spawn_ok(g, x, y)
}

/// The human as it appears at `(x, y)` on turn `turn`.
pub open spec fn new_human(x: int, y: int, turn: u64) -> Player {
    Player {
        id: 0,
        x: x as usize,
        y: y as usize,
        direction: 0,
        alive: true,
        kills: 0,
        tiles_walked: 1,
        born_turn: turn,
        died_turn: None,
    }
}

/// The offset a human move adds to the human's position: `forward` steps along its heading
/// and `side` steps to its right.
pub open spec fn human_offset(d: int, forward: int, side: int) -> (int, int) {
    let (dx, dy) = direction_vector(d);
    (dx * forward + (-dy) * side, dy * forward + dx * side)
}

/// Whether computing a move's offset stays within `isize`.
pub open spec fn offset_fits(d: int, forward: int, side: int) -> bool {
    let (dx, dy) = direction_vector(d);
    &&& isize::MIN <= dx * forward <= isize::MAX
    &&& isize::MIN <= (-dy) * side <= isize::MAX
    &&& isize::MIN <= dy * forward <= isize::MAX
    &&& isize::MIN <= dx * side <= isize::MAX
    &&& isize::MIN <= human_offset(d, forward, side).0 <= isize::MAX
    &&& isize::MIN <= human_offset(d, forward, side).1 <= isize::MAX
}

/// The cell a human move aims at.
pub open spec fn human_target(p: Player, forward: int, side: int) -> (int, int) {
    let off = human_offset(p.direction as int, forward, side);
    (sat_add(p.x as int, off.0), sat_add(p.y as int, off.1))
}

/// Whether a living agent at position `q` is in the living human's view.
pub open spec fn human_victim(g: Game, q: int) -> bool {
    let h = g.players@[g.player_count as int];
    let p = g.players@[q];
    &&& 0 <= q < g.player_count
    &&& p.alive
    &&& in_view(g, h, VISION_DEPTH as int, p.x as int, p.y as int)
}

/// The agents the living human shoots, in increasing order of id.
pub open spec fn victim_ids(g: Game, n: int) -> Seq<usize>
    decreases n,
{
    if n <= 0 {
        Seq::empty()
    } else {
        let before = victim_ids(g, n - 1);
        if human_victim(g, n - 1) {
            before.push(n as usize)
        } else {
            before
        }
    }
}

/// Adds `off` to `x`, clamped to the range of `usize`.
pub fn saturating_offset(x: usize, off: isize) -> (r: usize)
    ensures
        r == sat_add(x as int, off as int),
{
    if off >= 0 {
        let up = off as usize;
        if x > usize::MAX - up {
            usize::MAX
        } else {
            x + up
        }
    } else {
        let down = (-(off + 1)) as usize + 1;
        if down > x {
            0
        } else {
            x - down
        }
    }
}

proof fn lemma_dead_push(ps: Seq<Player>, p: Player)
    requires
        p.alive,
    ensures
        dead_count(ps.push(p)) == dead_count(ps),
{
    let qs = ps.push(p);
    lemma_count_ext(ps.len() as int, |i: int| !qs[i].alive, |i: int| !ps[i].alive);
}

proof fn lemma_dead_same(ps: Seq<Player>, qs: Seq<Player>)
    requires
        ps.len() == qs.len(),
        forall|i: int| 0 <= i < ps.len() ==> (#[trigger] ps[i]).alive == qs[i].alive,
    ensures
        dead_count(ps) == dead_count(qs),
{
    lemma_count_ext(ps.len() as int, |i: int| !ps[i].alive, |i: int| !qs[i].alive);
}

impl Game {
    /// The cell where the human would appear, if there is one.
    pub fn human_spawn_cell(&self) -> (r: Option<(usize, usize)>)
        requires
            self.wf(),
        ensures
            r matches Some(c) ==> human_spawn(*self, c.0 as int, c.1 as int),
            r is None ==> !spawn_exists(*self),
    {
        let cells = self.walls.len();
        proof {
            assert(self.width * 3 <= cells && self.height * 3 <= cells) by (nonlinear_arith)
                requires
                    self.width * self.height == cells,
                    self.width >= 3,
                    self.height >= 3,
            ;
        }
        let occupied = self.occupied_cells();
        let cx = self.width / 2;
        let cy = self.height / 2;
        let mut best: Option<(usize, usize, usize)> = None;
        let mut y: usize = 1;
        while y < self.height - 1
            invariant
                self.wf(),
                self.walls@.len() <= usize::MAX,
                self.width * 3 <= usize::MAX,
                forall|k: usize|
                    #[trigger] occupied@.contains(k) <==> exists|j: int|
                        0 <= j < self.players@.len() && k == cell_index(
                            self.width as int,
                            (#[trigger] self.players@[j]).x as int,
                            self.players@[j].y as int,
                        ),
                self.height * 3 <= usize::MAX,
                cx == self.width / 2,
                cy == self.height / 2,
                1 <= y <= self.height - 1,
                match best {
                    Some(b) => {
                        &&& spawn_ok(*self, b.0 as int, b.1 as int)
                        &&& b.1 < y
                        &&& b.2 == centre_distance(*self, b.0 as int, b.1 as int)
                        &&& forall|a: int, c: int|
                            #![trigger spawn_ok(*self, a, c)]
                            spawn_ok(*self, a, c) && c < y ==> b.2 < centre_distance(*self, a, c)
                                || (b.2 == centre_distance(*self, a, c) && scan_before_eq(
                                b.0 as int,
                                b.1 as int,
                                a,
                                c,
                            ))
                    },
                    None => forall|a: int, c: int|
                        #![trigger spawn_ok(*self, a, c)]
                        spawn_ok(*self, a, c) ==> c >= y,
                },
            decreases self.height - y,
        {
            let mut x: usize = 1;
            while x < self.width - 1
                invariant
                    self.wf(),
                    self.walls@.len() <= usize::MAX,
                    self.width * 3 <= usize::MAX,
                    forall|k: usize|
                        #[trigger] occupied@.contains(k) <==> exists|j: int|
                            0 <= j < self.players@.len() && k == cell_index(
                                self.width as int,
                                (#[trigger] self.players@[j]).x as int,
                                self.players@[j].y as int,
                            ),
                    self.height * 3 <= usize::MAX,
                    cx == self.width / 2,
                    cy == self.height / 2,
                    1 <= y < self.height - 1,
                    1 <= x <= self.width - 1,
                    match best {
                        Some(b) => {
                            &&& spawn_ok(*self, b.0 as int, b.1 as int)
                            &&& (b.1 < y || (b.1 == y && b.0 < x))
                            &&& b.2 == centre_distance(*self, b.0 as int, b.1 as int)
                            &&& forall|a: int, c: int|
                                #![trigger spawn_ok(*self, a, c)]
                                spawn_ok(*self, a, c) && (c < y || (c == y && a < x)) ==> b.2
                                    < centre_distance(*self, a, c) || (b.2 == centre_distance(
                                    *self,
                                    a,
                                    c,
                                ) && scan_before_eq(b.0 as int, b.1 as int, a, c))
                        },
                        None => forall|a: int, c: int|
                            #![trigger spawn_ok(*self, a, c)]
                            spawn_ok(*self, a, c) ==> (c > y || (c == y && a >= x)),
                    },
                decreases self.width - x,
            {
                proof {
                    lemma_cell_index(self.width as int, self.height as int, x as int, y as int);
                }
                let at = self.index(x, y);
                proof {
                    broadcast use vstd::std_specs::hash::group_hash_axioms;

                    if occupied@.contains(at) {
                        let j = choose|j: int|
                            0 <= j < self.players@.len() && at == cell_index(
                                self.width as int,
                                (#[trigger] self.players@[j]).x as int,
                                self.players@[j].y as int,
                            );
                        let q = self.players@[j];
                        lemma_cell_index(self.width as int, self.height as int, q.x as int, q.y as int);
                        assert(q.x == x && q.y == y);
                    }
                    if anyone_at(self.players@, x as int, y as int) {
                        let j = choose|j: int|
                            0 <= j < self.players@.len() && {
                                let q = #[trigger] self.players@[j];
                                q.x == x && q.y == y
                            };
                        assert(occupied@.contains(at));
                    }
                }
                let free = !self.is_wall(x, y) && !occupied.contains(&at);
                assert(free == spawn_ok(*self, x as int, y as int));
                if free {
                    let dx = if x < cx { cx - x } else { x - cx };
                    let dy = if y < cy { cy - y } else { y - cy };
                    let d = dx + dy;
                    match best {
                        None => {
                            best = Some((x, y, d));
                        },
                        Some(b) => {
                            if d < b.2 {
                                best = Some((x, y, d));
                            }
                        },
                    }
                }
                x = x + 1;
            }
            y = y + 1;
        }
        match best {
            Some(b) => Some((b.0, b.1)),
            None => None,
        }
    }

    /// The cells that players, living or fallen, stand on, each by its row-major index.
    pub fn occupied_cells(&self) -> (r: HashSet<usize>)
        requires
            self.wf(),
        ensures
            forall|k: usize|
                #[trigger] r@.contains(k) <==> exists|j: int|
                    0 <= j < self.players@.len() && k == cell_index(
                        self.width as int,
                        (#[trigger] self.players@[j]).x as int,
                        self.players@[j].y as int,
                    ),
    {
        let mut cells: HashSet<usize> = HashSet::new();
        let count = self.walls.len();
        let mut i: usize = 0;
        while i < self.players.len()
            invariant
                self.wf(),
                self.walls@.len() == count,
                i <= self.players@.len(),
                forall|k: usize|
                    #[trigger] cells@.contains(k) <==> exists|j: int|
                        0 <= j < i && k == cell_index(
                            self.width as int,
                            (#[trigger] self.players@[j]).x as int,
                            self.players@[j].y as int,
                        ),
            decreases self.players@.len() - i,
        {
            proof {
                broadcast use vstd::std_specs::hash::group_hash_axioms;

                let p = self.players@[i as int];
                lemma_cell_index(self.width as int, self.height as int, p.x as int, p.y as int);
            }
            let at = self.index(self.players[i].x, self.players[i].y);
            cells.insert(at);
            assert forall|k: usize|
                #[trigger] cells@.contains(k) <==> exists|j: int|
                    0 <= j < i + 1 && k == cell_index(
                        self.width as int,
                        (#[trigger] self.players@[j]).x as int,
                        self.players@[j].y as int,
                    ) by {
                if k == at {
                    assert(self.players@[i as int] == self.players@[i as int]);
                }
            }
            i = i + 1;
        }
        cells
    }

    /// Whether a living player stands on `(x, y)`.
    pub fn living_on(&self, x: usize, y: usize) -> (r: bool)
        ensures
            r == living_at(self.players@, x as int, y as int),
    {
        let mut i: usize = 0;
        while i < self.players.len()
            invariant
                i <= self.players@.len(),
                forall|j: int|
                    0 <= j < i ==> {
                        let q = #[trigger] self.players@[j];
                        !(q.alive && q.x == x && q.y == y)
                    },
            decreases self.players@.len() - i,
        {
            if self.players[i].alive && self.players[i].x == x && self.players[i].y == y {
                return true;
            }
            i = i + 1;
        }
        false
    }

    /// Whether the game has a human player.
    pub fn human_present(&self) -> (r: bool)
        ensures
            r == has_human(*self),
    {
        let mut i: usize = 0;
        while i < self.players.len()
            invariant
                i <= self.players@.len(),
                forall|j: int| 0 <= j < i ==> (#[trigger] self.players@[j]).id != 0,
            decreases self.players@.len() - i,
        {
            if self.players[i].id == 0 {
                assert(self.players@[i as int].id == 0);
                return true;
            }
            i = i + 1;
        }
        false
    }

    /// Adds the human player (id 0) on the free cell closest to the centre, facing north,
    /// unless there already is a human. Returns whether it was added.
    pub fn add_human(&mut self) -> (r: bool)
        requires
            old(self).wf(),
            !has_human(*old(self)) ==> spawn_exists(*old(self)),
        ensures
            final(self).wf(),
            r == !has_human(*old(self)),
            !r ==> *final(self) == *old(self),
            r ==> exists|x: int, y: int|
                #[trigger] human_spawn(*old(self), x, y) && final(self).players@ == old(
                    self,
                ).players@.push(new_human(x, y, old(self).turn)),
            final(self).seed == old(self).seed,
            final(self).generation == old(self).generation,
            final(self).width == old(self).width,
            final(self).height == old(self).height,
            final(self).player_count == old(self).player_count,
            final(self).turn == old(self).turn,
            final(self).walls@ == old(self).walls@,
            final(self).brains@ == old(self).brains@,
    {
        if self.human_present() {
            return false;
        }
        let ghost g = *self;
        assert(!has_human(*old(self)));
        assert(spawn_exists(*self));
        let cell = self.human_spawn_cell();
        match cell {
            None => {
                assert(false);
                false
            },
            Some(c) => {
                let human = Player {
                    id: 0,
                    x: c.0,
                    y: c.1,
                    direction: 0,
                    alive: true,
                    kills: 0,
                    tiles_walked: 1,
                    born_turn: self.turn,
                    died_turn: None,
                };
                self.players.push(human);
                proof {
                    let n = g.player_count as int;
                    if g.players@.len() == n + 1 {
                        assert(g.players@[n].id == 0);
                    }
                    lemma_dead_push(g.players@, human);
                    assert(human_spawn(g, c.0 as int, c.1 as int));
                    assert(self.players@ == g.players@.push(new_human(c.0 as int, c.1 as int, g.turn)));
                    assert forall|j: int| 0 <= j < self.players@.len() implies {
                        let p = #[trigger] self.players@[j];
                        &&& self.in_map(p.x as int, p.y as int)
                        &&& !self.wall_at(p.x as int, p.y as int)
                        &&& p.direction < DIRECTION_COUNT
                    } by {
                        if j < g.players@.len() {
                            assert(self.players@[j] == g.players@[j]);
                        }
                    }
                    assert(kills_bounded(self.players@)) by {
                        assert forall|j: int| 0 <= j < self.players@.len() implies (
                        #[trigger] self.players@[j]).kills <= dead_count(self.players@) by {
                            if j < g.players@.len() {
                                assert(self.players@[j] == g.players@[j]);
                            }
                        }
                    }
                    assert(players_layout(self.players@, n)) by {
                        assert forall|k: int| 0 <= k < n implies (#[trigger] self.players@[k]).id
                            == k + 1 by {
                            assert(self.players@[k] == g.players@[k]);
                        }
                        if self.players@.len() == n + 1 {
                            assert(self.players@[n] == human);
                        }
                    }
                    assert(self.width >= 3 && self.height >= 3);
                    assert(self.width * self.height <= MAX_CELLS);
                    assert(self.walls@.len() == self.width * self.height);
                    assert forall|x: int, y: int|
                        #![trigger self.wall_at(x, y)]
                        self.in_map(x, y) && on_border(self.width as int, self.height as int, x, y)
                            implies self.wall_at(x, y) by {
                        assert(g.wall_at(x, y));
                    }
                    assert(self.brains@.len() == self.player_count);
                    assert(players_layout(self.players@, self.player_count as int));
                    assert(kills_bounded(self.players@));
                    assert(self.wf());
                }
                true
            },
        }
    }
}

/// The players after the living human (at position `player_count`) tries to move `forward`
/// steps along its heading and `side` steps to its right: it steps onto the target cell, one
/// tile walked, unless a wall or a living player is there.
pub open spec fn human_moved(g: Game, forward: int, side: int) -> Seq<Player> {
    let i = g.player_count as int;
    let p = g.players@[i];
    let t = human_target(p, forward, side);
    if !g.wall_at(t.0, t.1) && !living_at(g.players@, t.0, t.1) {
        g.players@.update(
            i,
            Player { x: t.0 as usize, y: t.1 as usize, tiles_walked: (p.tiles_walked + 1) as u64, ..p },
        )
    } else {
        g.players@
    }
}

/// Whether the living human, if any, aims its move at a cell of the map.
pub open spec fn human_stays_on_map(g: Game, forward: int, side: int) -> bool {
    living_human(g) matches Some(i) ==> {
        let t = human_target(g.players@[i], forward, side);
        g.in_map(t.0, t.1)
    }
}

/// The players after the living human turns one step clockwise or counter-clockwise.
pub open spec fn human_turned(g: Game, clockwise: bool) -> Seq<Player> {
    let i = g.player_count as int;
    let p = g.players@[i];
    g.players@.update(
        i,
        Player {
            direction: ((p.direction + if clockwise {
                1int
            } else {
                7int
            }) % 8) as usize,
            ..p
        },
    )
}

/// The players after the living human shoots.
pub open spec fn after_human_shot(g: Game) -> Seq<Player> {
    let n = g.player_count as int;
    let h = g.players@[n];
    Seq::new(
        g.players@.len(),
        |k: int|
            if k < n && human_victim(g, k) {
                Player { alive: false, died_turn: Some((g.turn + 1) as u64), ..g.players@[k] }
            } else if k == n {
                Player { kills: (h.kills + count_upto(n, |q: int| human_victim(g, q))) as u64, ..h }
            } else {
                g.players@[k]
            },
    )
}

/// Whether a game keeps the map, size and brains of another.
pub open spec fn same_frame(a: Game, b: Game) -> bool {
    &&& a.seed == b.seed
    &&& a.generation == b.generation
    &&& a.width == b.width
    &&& a.height == b.height
    &&& a.player_count == b.player_count
    &&& a.walls@ == b.walls@
    &&& a.brains@ == b.brains@
}

/// A game with the map of a well-formed game and players that stand on it keeps the invariant.
proof fn lemma_wf_new_players(g: Game, h: Game)
    requires
        g.wf(),
        same_frame(h, g),
        players_layout(h.players@, h.player_count as int),
        kills_bounded(h.players@),
        forall|i: int|
            0 <= i < h.players@.len() ==> {
                let p = #[trigger] h.players@[i];
                &&& h.in_map(p.x as int, p.y as int)
                &&& !h.wall_at(p.x as int, p.y as int)
                &&& p.direction < DIRECTION_COUNT
            },
    ensures
        h.wf(),
{
    assert forall|x: int, y: int|
        #![trigger h.wall_at(x, y)]
        h.in_map(x, y) && on_border(h.width as int, h.height as int, x, y) implies h.wall_at(x, y) by {
        assert(g.wall_at(x, y));
    }
}

impl Game {
    /// Moves the living human `forward` steps along its heading and `side` steps to its
    /// right, if the target cell is neither a wall nor taken by a living player; the turn
    /// passes either way. Does nothing without a living human. The wall flag is read at the
    /// target's row-major index, which must fall within the map (`human_move_fits` tells);
    /// past the right edge that index belongs to a cell of a later row, and when that cell is
    /// free the human steps off the map. The game stays well formed when the target lies on
    /// the map, as it always does for a single step on a board closed by walls.
    pub fn move_human(&mut self, forward: isize, side: isize)
        requires
            old(self).wf(),
            living_human(*old(self)) matches Some(i) ==> {
                let p = old(self).players@[i];
                let t = human_target(p, forward as int, side as int);
                &&& offset_fits(p.direction as int, forward as int, side as int)
                &&& cell_index(old(self).width as int, t.0, t.1) < old(self).walls@.len()
                &&& old(self).turn < u64::MAX
                &&& p.tiles_walked < u64::MAX
            },
        ensures
            human_stays_on_map(*old(self), forward as int, side as int) ==> final(self).wf(),
            same_frame(*final(self), *old(self)),
            living_human(*old(self)) is None ==> *final(self) == *old(self),
            living_human(*old(self)) is Some ==> {
                &&& final(self).turn == old(self).turn + 1
                &&& final(self).players@ == human_moved(*old(self), forward as int, side as int)
            },
    {
        let n = self.player_count;
        if !(self.players.len() > n && self.players[n].alive) {
            return;
        }
        let ghost g = *self;
        let (dx, dy) = direction(self.players[n].direction);
        let dxi = dx as isize;
        let dyi = dy as isize;
        let off_x = dxi * forward + (-dyi) * side;
        let off_y = dyi * forward + dxi * side;
        let tx = saturating_offset(self.players[n].x, off_x);
        let ty = saturating_offset(self.players[n].y, off_y);
        proof {
            assert(0 <= (ty as int) * (self.width as int)) by (nonlinear_arith);
        }
        if !self.is_wall(tx, ty) && !self.living_on(tx, ty) {
            self.players[n].x = tx;
            self.players[n].y = ty;
            let tiles = self.players[n].tiles_walked + 1;
            self.players[n].tiles_walked = tiles;
        }
        self.turn = self.turn + 1;
        proof {
            if g.in_map(tx as int, ty as int) {
                lemma_dead_same(self.players@, g.players@);
                assert forall|i: int| 0 <= i < self.players@.len() implies (
                #[trigger] self.players@[i]).kills <= dead_count(self.players@) by {
                    assert(g.players@[i].kills <= dead_count(g.players@));
                }
                assert forall|k: int| 0 <= k < n implies (#[trigger] self.players@[k]).id == k + 1 by {
                    assert(g.players@[k].id == k + 1);
                }
                assert forall|i: int| 0 <= i < self.players@.len() implies {
                    let p = #[trigger] self.players@[i];
                    &&& self.in_map(p.x as int, p.y as int)
                    &&& !self.wall_at(p.x as int, p.y as int)
                    &&& p.direction < DIRECTION_COUNT
                } by {
                    if i != n {
                        assert(self.players@[i] == g.players@[i]);
                    }
                }
                lemma_wf_new_players(g, *self);
            }
        }
    }

    /// Whether a move of the living human `forward` steps along its heading and `side` steps
    /// to its right can be played: the offset fits in `isize`, the target's row-major index
    /// falls within the map, and the turn and the human's step count can still grow. Holds
    /// when there is no living human, as the move then does nothing.
    pub fn human_move_fits(&self, forward: isize, side: isize) -> (r: bool)
        requires
            self.wf(),
        ensures
            r == (living_human(*self) matches Some(i) ==> {
                let p = self.players@[i];
                let t = human_target(p, forward as int, side as int);
                &&& offset_fits(p.direction as int, forward as int, side as int)
                &&& cell_index(self.width as int, t.0, t.1) < self.walls@.len()
                &&& self.turn < u64::MAX
                &&& p.tiles_walked < u64::MAX
            }),
    {
        let n = self.player_count;
        if !(self.players.len() > n && self.players[n].alive) {
            return true;
        }
        let p = &self.players[n];
        let (dx, dy) = direction(p.direction);
        let dxi = dx as isize;
        let dyi = dy as isize;
        let a = dxi.checked_mul(forward);
        let b = (-dyi).checked_mul(side);
        let c = dyi.checked_mul(forward);
        let d = dxi.checked_mul(side);
        match (a, b, c, d) {
            (Some(a), Some(b), Some(c), Some(d)) => {
                match (a.checked_add(b), c.checked_add(d)) {
                    (Some(ox), Some(oy)) => {
                        let tx = saturating_offset(p.x, ox);
                        let ty = saturating_offset(p.y, oy);
                        proof {
                            assert(0 <= (ty as int) * (self.width as int)) by (nonlinear_arith);
                        }
                        let cells = self.walls.len();
                        let inside = match ty.checked_mul(self.width) {
                            Some(row) => match row.checked_add(tx) {
                                Some(at) => at < cells,
                                None => false,
                            },
                            None => false,
                        };
                        inside && self.turn < u64::MAX && p.tiles_walked < u64::MAX
                    },
                    _ => false,
                }
            },
            _ => false,
        }
    }

    /// Turns the living human one step clockwise or counter-clockwise; the turn passes.
    /// Does nothing without a living human.
    pub fn turn_human(&mut self, clockwise: bool)
        requires
            old(self).wf(),
            living_human(*old(self)) is Some ==> old(self).turn < u64::MAX,
        ensures
            final(self).wf(),
            same_frame(*final(self), *old(self)),
            living_human(*old(self)) is None ==> *final(self) == *old(self),
            living_human(*old(self)) is Some ==> {
                &&& final(self).turn == old(self).turn + 1
                &&& final(self).players@ == human_turned(*old(self), clockwise)
            },
    {
        let n = self.player_count;
        if !(self.players.len() > n && self.players[n].alive) {
            return;
        }
        let ghost g = *self;
        let step = if clockwise { 1 } else { DIRECTION_COUNT - 1 };
        let d = (self.players[n].direction + step) % DIRECTION_COUNT;
        self.players[n].direction = d;
        self.turn = self.turn + 1;
        proof {
            lemma_dead_same(self.players@, g.players@);
            assert forall|i: int| 0 <= i < self.players@.len() implies (
            #[trigger] self.players@[i]).kills <= dead_count(self.players@) by {
                assert(g.players@[i].kills <= dead_count(g.players@));
            }
            assert forall|k: int| 0 <= k < n implies (#[trigger] self.players@[k]).id == k + 1 by {
                assert(g.players@[k].id == k + 1);
            }
            assert forall|i: int| 0 <= i < self.players@.len() implies {
                let p = #[trigger] self.players@[i];
                &&& self.in_map(p.x as int, p.y as int)
                &&& !self.wall_at(p.x as int, p.y as int)
                &&& p.direction < DIRECTION_COUNT
            } by {
                assert(g.players@[i].x == self.players@[i].x);
            }
            lemma_wf_new_players(g, *self);
        }
    }

    /// The living human shoots: every living agent in its view falls this turn and counts as
    /// a kill of the human; the turn passes. Does nothing without a living human.
    pub fn shoot_human(&mut self)
        requires
            old(self).wf(),
            living_human(*old(self)) is Some ==> old(self).turn < u64::MAX,
        ensures
            final(self).wf(),
            same_frame(*final(self), *old(self)),
            living_human(*old(self)) is None ==> *final(self) == *old(self),
            living_human(*old(self)) is Some ==> {
                &&& final(self).turn == old(self).turn + 1
                &&& final(self).players@ == after_human_shot(*old(self))
            },
    {
        let n = self.player_count;
        if !(self.players.len() > n && self.players[n].alive) {
            return;
        }
        let ghost g = *self;
        let cells = self.walls.len();
        proof {
            assert(self.width * 3 <= cells && self.height * 3 <= cells) by (nonlinear_arith)
                requires
                    self.width * self.height == cells,
                    self.width >= 3,
                    self.height >= 3,
            ;
            assert(self.players@[n as int].x < self.width);
        }
        let mut victims: Vec<bool> = Vec::new();
        let mut count: u64 = 0;
        let mut q: usize = 0;
        while q < n
            invariant
                g == *self,
                g.wf(),
                n == g.player_count,
                g.players@.len() == n + 1,
                g.width * 3 <= usize::MAX,
                g.height * 3 <= usize::MAX,
                q <= n,
                victims@.len() == q,
                forall|k: int| 0 <= k < q ==> #[trigger] victims@[k] == human_victim(g, k),
                count == count_upto(q as int, |k: int| human_victim(g, k)),
                count <= q,
            decreases n - q,
        {
            let v = self.players[q].alive && self.in_view_cell(
                &self.players[n],
                VISION_DEPTH,
                self.players[q].x,
                self.players[q].y,
            );
            victims.push(v);
            if v {
                count = count + 1;
            }
            q = q + 1;
        }
        let ghost vc = |k: int| human_victim(g, k);
        proof {
            // The human's kills stay within the fallen.
            let len = g.players@.len() as int;
            let fin = after_human_shot(g);
            let was = |i: int| !g.players@[i].alive;
            let hq = |i: int| i < n && human_victim(g, i);
            let now = |i: int| !fin[i].alive;
            lemma_count_split(len, now, was, hq);
            lemma_count_prefix_h(n as int, len, hq);
            lemma_count_ext(n as int, hq, vc);
            assert(dead_count(fin) == count_upto(len, now));
            assert(dead_count(g.players@) == count_upto(len, was));
            lemma_count_bound(len, now);
        }
        let turn = self.turn;
        let mut k: usize = 0;
        while k < n
            invariant
                g.wf(),
                n == g.player_count,
                g.players@.len() == n + 1,
                k <= n,
                victims@.len() == n,
                forall|j: int| 0 <= j < n ==> #[trigger] victims@[j] == human_victim(g, j),
                turn == g.turn,
                g.turn < u64::MAX,
                same_frame(*self, g),
                self.turn == g.turn,
                self.players@.len() == g.players@.len(),
                forall|j: int|
                    0 <= j < self.players@.len() ==> #[trigger] self.players@[j] == if j < k {
                        after_human_shot(g)[j]
                    } else {
                        g.players@[j]
                    },
            decreases n - k,
        {
            if victims[k] {
                self.players[k].alive = false;
                self.players[k].died_turn = Some(turn + 1);
            }
            k = k + 1;
        }
        proof {
            assert(count == count_upto(n as int, vc));
            assert(g.players@[n as int].kills <= dead_count(g.players@));
        }
        let kills = self.players[n].kills + count;
        self.players[n].kills = kills;
        self.turn = self.turn + 1;
        proof {
            let fin = after_human_shot(g);
            assert(self.players@ =~= fin);
            assert forall|i: int| 0 <= i < self.players@.len() implies (
            #[trigger] self.players@[i]).kills <= dead_count(self.players@) by {
                assert(g.players@[i].kills <= dead_count(g.players@));
            }
            assert forall|j: int| 0 <= j < n implies (#[trigger] self.players@[j]).id == j + 1 by {
                assert(g.players@[j].id == j + 1);
            }
            assert forall|i: int| 0 <= i < self.players@.len() implies {
                let p = #[trigger] self.players@[i];
                &&& self.in_map(p.x as int, p.y as int)
                &&& !self.wall_at(p.x as int, p.y as int)
                &&& p.direction < DIRECTION_COUNT
            } by {
                assert(g.players@[i].x == self.players@[i].x);
            }
            lemma_wf_new_players(g, *self);
        }
    }
}

proof fn lemma_count_prefix_h(m: int, n: int, p: spec_fn(int) -> bool)
    requires
        m <= n,
        forall|i: int| m <= i < n ==> !#[trigger] p(i),
    ensures
        count_upto(m, p) == count_upto(n, p),
    decreases n - m,
{
    if m < n {
        lemma_count_prefix_h(m, n - 1, p);
    }
}

/// Counting up to one more index counts that index at least once.
proof fn lemma_count_includes(n: int, k: int)
    requires
        0 <= k < n,
    ensures
        count_upto(n, |i: int| i == k) >= 1,
{
    let me = |i: int| i == k;
    assert(count_upto(k + 1, me) == count_upto(k, me) + 1);
    lemma_count_at_least(k + 1, n, me);
}

/// A longer range counts at least as much.
proof fn lemma_count_at_least(m: int, n: int, p: spec_fn(int) -> bool)
    requires
        m <= n,
    ensures
        count_upto(m, p) <= count_upto(n, p),
    decreases n - m,
{
    if m < n {
        lemma_count_at_least(m, n - 1, p);
    }
}

/// Every agent the human's shot fells counts: the human gains exactly one kill for each
/// agent that was alive before the shot and has fallen after it, and those are exactly the
/// living agents in the human's view.
pub proof fn human_shot_gains_one_kill_per_fallen_agent(g: Game)
    requires
        g.wf(),
        living_human(g) is Some,
    ensures
        ({
            let n = g.player_count as int;
            let h = g.players@[n];
            let fin = after_human_shot(g);
            &&& fin[n].kills == h.kills + count_upto(
                n,
                |q: int| g.players@[q].alive && !fin[q].alive,
            )
            &&& forall|q: int|
                0 <= q < n ==> ((g.players@[q].alive && !(#[trigger] fin[q]).alive) <==> (
                g.players@[q].alive && in_view(
                    g,
                    h,
                    VISION_DEPTH as int,
                    g.players@[q].x as int,
                    g.players@[q].y as int,
                )))
        }),
{
    let n = g.player_count as int;
    let len = g.players@.len() as int;
    let fin = after_human_shot(g);
    let vc = |q: int| human_victim(g, q);
    let fell = |q: int| g.players@[q].alive && !fin[q].alive;
    lemma_count_ext(n, vc, fell);
    // The kills stay in range: the fallen, the victims and the human are different players.
    let was = |i: int| !g.players@[i].alive;
    let hq = |i: int| i < n && human_victim(g, i);
    let either = |i: int| was(i) || hq(i);
    let me = |i: int| i == n;
    let more = |i: int| either(i) || me(i);
    lemma_count_split(len, either, was, hq);
    lemma_count_split(len, more, either, me);
    lemma_count_bound(len, more);
    lemma_count_includes(len, n);
    lemma_count_prefix_h(n, len, hq);
    lemma_count_ext(n, hq, vc);
    assert(g.players@[n].kills <= dead_count(g.players@));
    assert(dead_count(g.players@) == count_upto(len, was));
    assert(fin[n].kills == g.players@[n].kills + count_upto(n, vc));
}

/// Turning the human one way and then back restores every player as it was.
pub proof fn human_turn_back_restores(g: Game, h: Game, clockwise: bool)
    requires
        g.wf(),
        living_human(g) is Some,
        h.player_count == g.player_count,
        h.players@ == human_turned(g, clockwise),
    ensures
        human_turned(h, !clockwise) == g.players@,
{
    let n = g.player_count as int;
    let p = g.players@[n];
    assert(p.direction < DIRECTION_COUNT);
    assert(human_turned(h, !clockwise) =~= g.players@);
}

/// The human's moves, turns and shots bring no fallen player back: a move or a turn changes
/// no one's state of life, and a shot only fells.
pub proof fn human_actions_revive_nobody(g: Game, forward: int, side: int, clockwise: bool, k: int)
    requires
        g.wf(),
        living_human(g) is Some,
        0 <= k < g.players@.len(),
    ensures
        human_moved(g, forward, side)[k].alive == g.players@[k].alive,
        human_turned(g, clockwise)[k].alive == g.players@[k].alive,
        after_human_shot(g)[k].alive ==> g.players@[k].alive,
{
}

} // verus!
