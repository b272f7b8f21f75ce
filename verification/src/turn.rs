use vstd::prelude::*;
use vstd::string::StrSliceExecFns;

use crate::constants::{direction, direction_vector, ACTION_COUNT, DIRECTION_COUNT, VISION_DEPTH};
use crate::state::{
    cell_index, count_upto, dead_count, kills_bounded, lemma_cell_index, lemma_count_bound,
    lemma_count_ext, lemma_count_mono, lemma_count_split, on_border, players_layout, sat_add,
    shift_coord, Game, Player, MAX_CELLS,
};
use crate::vision::{in_view, lemma_view_same_map, map_ok, sees, window_high, window_low};

verus! {

/// What an agent does in a turn.
#[derive(Clone, Copy, Debug, PartialEq, Eq, Structural)]
pub enum Action {
    /// Turn 45 degrees counter-clockwise.
    Left,
    /// Turn 45 degrees clockwise.
    Right,
    /// Step one cell along the heading.
    Forward,
    /// Shoot every agent in view.
    Shoot,
    /// Do nothing.
    Wait,
}

/// The action an action name stands for; any name but the four actions means waiting.
pub open spec fn action_of_name(name: Seq<char>) -> Action {
    if name == "left"@ {
        Action::Left
    } else if name == "right"@ {
        Action::Right
    } else if name == "forward"@ {
        Action::Forward
    } else if name == "shoot"@ {
        Action::Shoot
    } else {
        Action::Wait
    }
}

/// Whether two strings hold the same characters.
pub fn str_equal(a: &str, b: &str) -> (r: bool)
    ensures
        r == (a@ == b@),
{
    let n = a.unicode_len();
    if n != b.unicode_len() {
        return false;
    }
    let mut i: usize = 0;
    while i < n
        invariant
            n == a@.len(),
            n == b@.len(),
            i <= n,
            forall|j: int| 0 <= j < i ==> a@[j] == b@[j],
        decreases n - i,
    {
        if a.get_char(i) != b.get_char(i) {
            return false;
        }
        i = i + 1;
    }
    assert(a@ =~= b@);
    true
}

/// The action an action name stands for.
pub fn action_named(name: &str) -> (r: Action)
    ensures
        r == action_of_name(name@),
{
    if str_equal(name, "left") {
        Action::Left
    } else if str_equal(name, "right") {
        Action::Right
    } else if str_equal(name, "forward") {
        Action::Forward
    } else if str_equal(name, "shoot") {
        Action::Shoot
    } else {
        Action::Wait
    }
}

/// The action an agent's network output `k` stands for: left, right, forward, shoot, wait.
pub open spec fn output_action(k: int) -> Action {
    if k == 0 {
        Action::Left
    } else if k == 1 {
        Action::Right
    } else if k == 2 {
        Action::Forward
    } else if k == 3 {
        Action::Shoot
    } else {
        Action::Wait
    }
}

/// The name of the action of network output `k`.
pub fn output_name(k: usize) -> (r: &'static str)
    requires
        k < ACTION_COUNT,
    ensures
        action_of_name(r@) == output_action(k as int),
{
    proof {
        reveal_strlit("left");
        reveal_strlit("right");
        reveal_strlit("forward");
        reveal_strlit("shoot");
        reveal_strlit("wait");
    }
    if k == 0 {
        "left"
    } else if k == 1 {
        assert("right"@[0] != "left"@[0]);
        "right"
    } else if k == 2 {
        assert("forward"@[0] != "left"@[0] && "forward"@[0] != "right"@[0]);
        "forward"
    } else if k == 3 {
        assert("shoot"@[0] != "right"@[0]);
        assert("shoot"@ != "left"@ && "shoot"@ != "right"@ && "shoot"@ != "forward"@);
        "shoot"
    } else {
        assert("wait"@[0] != "left"@[0]);
        assert("wait"@ != "left"@ && "wait"@ != "right"@ && "wait"@ != "forward"@ && "wait"@
            != "shoot"@);
        "wait"
    }
}

/// The action of agent `k + 1`: its name's action, or waiting when no name is given.
pub open spec fn agent_action(names: Seq<&str>, k: int) -> Action {
    if 0 <= k < names.len() {
        action_of_name(names[k]@)
    } else {
        Action::Wait
    }
}

/// The heading after an action: left and right turn a living player by one step.
pub open spec fn turned(p: Player, a: Action) -> usize {
    if !p.alive {
        p.direction
    } else {
        match a {
            Action::Left => ((p.direction + DIRECTION_COUNT - 1) % (DIRECTION_COUNT as int)) as usize,
            Action::Right => ((p.direction + 1) % (DIRECTION_COUNT as int)) as usize,
            _ => p.direction,
        }
    }
}

/// The cell one step ahead of a player.
pub open spec fn ahead(p: Player) -> (int, int) {
    let (dx, dy) = direction_vector(p.direction as int);
    (sat_add(p.x as int, dx), sat_add(p.y as int, dy))
}

/// The cell agent `k + 1` asks to move to: the cell ahead, when it is alive, moves forward
/// and that cell is not a wall.
pub open spec fn proposal(g: Game, names: Seq<&str>, k: int) -> Option<(int, int)> {
    let p = g.players@[k];
    if p.alive && agent_action(names, k) == Action::Forward && !g.wall_at(ahead(p).0, ahead(p).1) {
        Some(ahead(p))
    } else {
        None
    }
}

/// Whether a living player stands on cell `c`.
pub open spec fn occupied(ps: Seq<Player>, c: (int, int)) -> bool {
    exists|i: int|
        0 <= i < ps.len() && {
            let q = #[trigger] ps[i];
            q.alive && q.x == c.0 && q.y == c.1
        }
}

/// How many agents ask to move to cell `c`.
pub open spec fn claims(g: Game, names: Seq<&str>, c: (int, int)) -> nat {
    count_upto(g.player_count as int, |j: int| proposal(g, names, j) == Some(c))
}

/// Whether agent `k + 1` moves: it asks for a cell no other agent asks for, and which no
/// living player occupied when the turn began.
pub open spec fn moves(g: Game, names: Seq<&str>, k: int) -> bool {
    match proposal(g, names, k) {
        Some(c) => claims(g, names, c) == 1 && !occupied(g.players@, c),
        None => false,
    }
}

/// Agent `k + 1` after turning and moving.
pub open spec fn after_move(g: Game, names: Seq<&str>, k: int) -> Player {
    let p = g.players@[k];
    let m = moves(g, names, k);
    Player {
        direction: turned(p, agent_action(names, k)),
        x: if m {
            ahead(p).0 as usize
        } else {
            p.x
        },
        y: if m {
            ahead(p).1 as usize
        } else {
            p.y
        },
        tiles_walked: if m {
            (p.tiles_walked + 1) as u64
        } else {
            p.tiles_walked
        },
        ..p
    }
}

/// The players after every agent has turned and moved; the human stays as it was.
pub open spec fn moved_players(g: Game, names: Seq<&str>) -> Seq<Player> {
    Seq::new(
        g.players@.len(),
        |k: int|
            if k < g.player_count {
                after_move(g, names, k)
            } else {
                g.players@[k]
            },
    )
}

/// Whether agent `s + 1` shoots this turn and agent `q + 1`, another living agent, is in its
/// view once everyone has moved.
pub open spec fn targets(g: Game, names: Seq<&str>, s: int, q: int) -> bool {
    let ps = moved_players(g, names);
    &&& 0 <= s < g.player_count
    &&& 0 <= q < g.player_count
    &&& s != q
    &&& ps[s].alive
    &&& agent_action(names, s) == Action::Shoot
    &&& ps[q].alive
    &&& in_view(g, ps[s], VISION_DEPTH as int, ps[q].x as int, ps[q].y as int)
}

/// Whether agent `q + 1` is shot this turn.
pub open spec fn is_hit(g: Game, names: Seq<&str>, q: int) -> bool {
    exists|s: int| 0 <= s < g.player_count && #[trigger] targets(g, names, s, q)
}

/// How many agents agent `s + 1` shoots this turn.
pub open spec fn gain(g: Game, names: Seq<&str>, s: int) -> nat {
    count_upto(g.player_count as int, |q: int| targets(g, names, s, q))
}

/// Agent `k + 1` at the end of the turn.
pub open spec fn after_turn(g: Game, names: Seq<&str>, k: int) -> Player {
    let p = moved_players(g, names)[k];
    let h = is_hit(g, names, k);
    Player {
        alive: p.alive && !h,
        died_turn: if h {
            Some((g.turn + 1) as u64)
        } else {
            p.died_turn
        },
        kills: (p.kills + gain(g, names, k)) as u64,
        ..p
    }
}

/// The players at the end of the turn; the human stays as it was.
pub open spec fn turn_players(g: Game, names: Seq<&str>) -> Seq<Player> {
    Seq::new(
        g.players@.len(),
        |k: int|
            if k < g.player_count {
                after_turn(g, names, k)
            } else {
                g.players@[k]
            },
    )
}

/// The ids of the agents shot this turn among agents `1..=n`, in increasing order.
pub open spec fn hit_ids(g: Game, names: Seq<&str>, n: int) -> Seq<usize>
    decreases n,
{
    if n <= 0 {
        Seq::empty()
    } else {
        let before = hit_ids(g, names, n - 1);
        if is_hit(g, names, n - 1) {
            before.push(n as usize)
        } else {
            before
        }
    }
}

/// Counting over a longer range gives at least as much.
proof fn lemma_count_prefix(m: int, n: int, p: spec_fn(int) -> bool)
    requires
        m <= n,
    ensures
        count_upto(m, p) <= count_upto(n, p),
    decreases n - m,
{
    if m < n {
        lemma_count_prefix(m, n - 1, p);
    }
}

/// Whether every living agent that steps forward this turn looks at a cell of the map.
pub open spec fn steps_on_map(g: Game, names: Seq<&str>) -> bool {
    forall|k: int|
        0 <= k < g.player_count && g.players@[k].alive && #[trigger] agent_action(names, k)
            == Action::Forward ==> g.in_map(ahead(g.players@[k]).0, ahead(g.players@[k]).1)
}

/// On a board closed by walls every step forward looks at a cell of the map: a player stands
/// on an open cell, so strictly inside the ring.
pub proof fn ring_keeps_steps_on_map(g: Game, names: Seq<&str>)
    requires
        g.board_ok(),
    ensures
        steps_on_map(g, names),
{
    assert forall|k: int|
        0 <= k < g.player_count && g.players@[k].alive && #[trigger] agent_action(names, k)
            == Action::Forward implies g.in_map(ahead(g.players@[k]).0, ahead(g.players@[k]).1) by {
        let p = g.players@[k];
        if on_border(g.width as int, g.height as int, p.x as int, p.y as int) {
            assert(g.wall_at(p.x as int, p.y as int));
        }
    }
}

/// The cell ahead of an agent stepping forward lies on the map.
proof fn lemma_ahead_on_map(g: Game, names: Seq<&str>, k: int)
    requires
        steps_on_map(g, names),
        0 <= k < g.player_count,
        g.players@[k].alive,
        agent_action(names, k) == Action::Forward,
    ensures
        g.in_map(ahead(g.players@[k]).0, ahead(g.players@[k]).1),
{
}

/// Once everyone has moved, every player still stands on an open cell of the map, facing one
/// of the eight headings.
proof fn lemma_moved_on_map(g: Game, names: Seq<&str>, k: int)
    requires
        g.field_ok(),
        steps_on_map(g, names),
        0 <= k < g.players@.len(),
    ensures
        g.in_map(moved_players(g, names)[k].x as int, moved_players(g, names)[k].y as int),
        !g.wall_at(moved_players(g, names)[k].x as int, moved_players(g, names)[k].y as int),
        moved_players(g, names)[k].direction < DIRECTION_COUNT,
{
    let p = g.players@[k];
    if k < g.player_count {
        assert(moved_players(g, names)[k] == after_move(g, names, k));
        if moves(g, names, k) {
            assert(proposal(g, names, k) is Some);
            lemma_ahead_on_map(g, names, k);
        }
    } else {
        assert(moved_players(g, names)[k] == p);
    }
}

/// The turn keeps every player's kills within the number of fallen players: an agent's kills
/// this turn are agents that fall this turn, and only living agents fall.
proof fn lemma_turn_kills(g: Game, names: Seq<&str>)
    requires
        g.field_ok(),
    ensures
        forall|k: int|
            0 <= k < g.player_count ==> g.players@[k].kills + #[trigger] gain(g, names, k)
                <= dead_count(turn_players(g, names)),
        dead_count(g.players@) <= dead_count(turn_players(g, names)),
        dead_count(turn_players(g, names)) <= g.players@.len(),
{
    let n = g.player_count as int;
    let len = g.players@.len() as int;
    let fin = turn_players(g, names);
    let hq = |q: int| q < n && is_hit(g, names, q);
    let was = |i: int| !g.players@[i].alive;
    let now = |i: int| !fin[i].alive;
    assert forall|i: int| 0 <= i < len implies (#[trigger] now(i) <==> (was(i) || hq(i))) by {
        if i < n {
            assert(moved_players(g, names)[i].alive == g.players@[i].alive);
        }
    }
    assert forall|i: int| 0 <= i < len implies !(#[trigger] was(i) && hq(i)) by {
        if i < n && is_hit(g, names, i) {
            let s = choose|s: int| 0 <= s < n && #[trigger] targets(g, names, s, i);
            assert(moved_players(g, names)[i].alive == g.players@[i].alive);
        }
    }
    lemma_count_split(len, now, was, hq);
    assert(dead_count(fin) == count_upto(len, now));
    assert(dead_count(g.players@) == count_upto(len, was));
    lemma_count_prefix(n, len, hq);
    lemma_count_bound(len, now);
    assert forall|k: int| 0 <= k < n implies g.players@[k].kills + #[trigger] gain(g, names, k)
        <= dead_count(fin) by {
        let tk = |q: int| targets(g, names, k, q);
        assert forall|q: int| 0 <= q < n && #[trigger] tk(q) implies hq(q) by {
            assert(targets(g, names, k, q));
        }
        lemma_count_mono(n, tk, hq);
        assert(g.players@[k].kills <= dead_count(g.players@));
    }
}

/// `hit_ids` lists exactly the agents shot, each once, in increasing order of id.
proof fn lemma_hit_ids(g: Game, names: Seq<&str>, n: int)
    requires
        0 <= n <= usize::MAX,
    ensures
        forall|i: int|
            0 <= i < hit_ids(g, names, n).len() ==> {
                let id = #[trigger] hit_ids(g, names, n)[i];
                1 <= id <= n && is_hit(g, names, id - 1)
            },
    decreases n,
{
    if n > 0 {
        lemma_hit_ids(g, names, n - 1);
        let before = hit_ids(g, names, n - 1);
        if is_hit(g, names, n - 1) {
            assert(hit_ids(g, names, n) == before.push(n as usize));
        } else {
            assert(hit_ids(g, names, n) == before);
        }
    }
}

impl Game {
    /// Whether every living agent that would step forward with these actions looks at a cell of
    /// the map (always so on a board closed by walls).
    pub fn steps_fit(&self, actions: &[&str]) -> (r: bool)
        requires
            self.field_ok(),
        ensures
            r == steps_on_map(*self, actions@),
    {
        let cells = self.walls.len();
        proof {
            assert(self.width * 3 <= cells && self.height * 3 <= cells) by (nonlinear_arith)
                requires
                    self.width * self.height == cells,
                    self.width >= 3,
                    self.height >= 3,
            ;
        }
        let n = self.player_count;
        let mut k: usize = 0;
        while k < n
            invariant
                k <= n,
                n == self.player_count,
                self.field_ok(),
                self.width * 3 <= cells,
                self.height * 3 <= cells,
                forall|j: int|
                    0 <= j < k && self.players@[j].alive && #[trigger] agent_action(actions@, j)
                        == Action::Forward ==> self.in_map(
                        ahead(self.players@[j]).0,
                        ahead(self.players@[j]).1,
                    ),
            decreases n - k,
        {
            let p = &self.players[k];
            let a = if k < actions.len() {
                action_named(actions[k])
            } else {
                Action::Wait
            };
            assert(a == agent_action(actions@, k as int));
            if p.alive && a == Action::Forward {
                let (dx, dy) = direction(p.direction);
                let tx = shift_coord(p.x, dx);
                let ty = shift_coord(p.y, dy);
                if !(tx < self.width && ty < self.height) {
                    assert(agent_action(actions@, k as int) == Action::Forward);
                    assert(ahead(self.players@[k as int]) == (tx as int, ty as int));
                    return false;
                }
            }
            k = k + 1;
        }
        true
    }
}

impl Game {
    /// Plays one turn with the given action per agent (`actions[k]` for agent `k + 1`; a
    /// missing or unknown name means waiting). Agents first turn and ask to step forward;
    /// an agent moves only when no other agent asks for the same cell and no living player
    /// stood there. Then every living agent that shoots hits every other living agent in its
    /// view. Returns the ids of the agents hit, in increasing order. The board needs no walls
    /// on its edge, but every agent stepping forward must look at a cell of the map
    /// (`steps_fit` tells; a board closed by walls always gives this): past the edge the wall
    /// flag read would belong to another row or to no cell at all.
    pub fn apply_turn(&mut self, actions: &[&str]) -> (hits: Vec<usize>)
        requires
            old(self).field_ok(),
            steps_on_map(*old(self), actions@),
            old(self).turn < u64::MAX,
            forall|k: int|
                0 <= k < old(self).player_count ==> (#[trigger] old(self).players@[k]).tiles_walked
                    < u64::MAX,
        ensures
            final(self).field_ok(),
            old(self).board_ok() ==> final(self).board_ok(),
            old(self).wf() ==> final(self).wf(),
            final(self).players@ == turn_players(*old(self), actions@),
            final(self).turn == old(self).turn + 1,
            hits@ == hit_ids(*old(self), actions@, old(self).player_count as int),
            final(self).seed == old(self).seed,
            final(self).generation == old(self).generation,
            final(self).width == old(self).width,
            final(self).height == old(self).height,
            final(self).player_count == old(self).player_count,
            final(self).walls@ == old(self).walls@,
            final(self).brains@ == old(self).brains@,
    {
        let ghost g = *self;
        let ghost names = actions@;
        let n = self.player_count;
        let plen = self.players.len();
        let cells = self.walls.len();
        proof {
            assert(n <= self.players@.len());
            assert(self.height * 3 <= cells && self.width * 3 <= cells) by (nonlinear_arith)
                requires
                    self.width * self.height == cells,
                    self.width >= 3,
                    self.height >= 3,
            ;
            assert(self.width <= MAX_CELLS && self.height <= MAX_CELLS) by (nonlinear_arith)
                requires
                    self.width * self.height <= MAX_CELLS,
                    self.width >= 3,
                    self.height >= 3,
            ;
        }
        // The action of every agent.
        let mut acts: Vec<Action> = Vec::new();
        let mut k: usize = 0;
        while k < n
            invariant
                k <= n,
                names == actions@,
                acts@.len() == k,
                forall|j: int| 0 <= j < k ==> #[trigger] acts@[j] == agent_action(names, j),
            decreases n - k,
        {
            let a = if k < actions.len() {
                action_named(actions[k])
            } else {
                Action::Wait
            };
            acts.push(a);
            k = k + 1;
        }
        // The cell every agent asks for.
        let mut proposed: Vec<Option<(usize, usize)>> = Vec::new();
        k = 0;
        while k < n
            invariant
                k <= n,
                g == *self,
                g.field_ok(),
                steps_on_map(g, names),
                n == g.player_count,
                acts@.len() == n,
                forall|j: int| 0 <= j < n ==> #[trigger] acts@[j] == agent_action(names, j),
                proposed@.len() == k,
                forall|j: int|
                    0 <= j < k ==> match #[trigger] proposed@[j] {
                        Some(c) => proposal(g, names, j) == Some((c.0 as int, c.1 as int)),
                        None => proposal(g, names, j) is None,
                    },
            decreases n - k,
        {
            let p = &self.players[k];
            let ghost pp = g.players@[k as int];
            let want = if p.alive && acts[k] == Action::Forward {
                proof {
                    lemma_ahead_on_map(g, names, k as int);
                }
                let (dx, dy) = direction(p.direction);
                let tx = shift_coord(p.x, dx);
                let ty = shift_coord(p.y, dy);
                proof {
                    lemma_cell_index(g.width as int, g.height as int, tx as int, ty as int);
                }
                if !self.is_wall(tx, ty) {
                    Some((tx, ty))
                } else {
                    None
                }
            } else {
                None
            };
            proposed.push(want);
            k = k + 1;
        }
        // Which agents move.
        let mut moving: Vec<bool> = Vec::new();
        k = 0;
        while k < n
            invariant
                k <= n,
                g == *self,
                g.field_ok(),
                steps_on_map(g, names),
                n == g.player_count,
                proposed@.len() == n,
                forall|j: int|
                    0 <= j < n ==> match #[trigger] proposed@[j] {
                        Some(c) => proposal(g, names, j) == Some((c.0 as int, c.1 as int)),
                        None => proposal(g, names, j) is None,
                    },
                moving@.len() == k,
                forall|j: int| 0 <= j < k ==> #[trigger] moving@[j] == moves(g, names, j),
            decreases n - k,
        {
            let m = match proposed[k] {
                None => false,
                Some(c) => {
                    let ghost ci = (c.0 as int, c.1 as int);
                    let ghost pred = |i: int| proposal(g, names, i) == Some(ci);
                    let mut count: usize = 0;
                    let mut j: usize = 0;
                    while j < n
                        invariant
                            j <= n,
                            n == g.player_count,
                            proposed@.len() == n,
                            forall|i: int|
                                0 <= i < n ==> match #[trigger] proposed@[i] {
                                    Some(c) => proposal(g, names, i) == Some(
                                        (c.0 as int, c.1 as int),
                                    ),
                                    None => proposal(g, names, i) is None,
                                },
                            pred == (|i: int| proposal(g, names, i) == Some(ci)),
                            ci == (c.0 as int, c.1 as int),
                            count == count_upto(j as int, pred),
                            count <= j,
                        decreases n - j,
                    {
                        let same = match proposed[j] {
                            Some(o) => o.0 == c.0 && o.1 == c.1,
                            None => false,
                        };
                        assert(same == pred(j as int));
                        if same {
                            count = count + 1;
                        }
                        j = j + 1;
                    }
                    let mut taken = false;
                    let mut i: usize = 0;
                    while i < self.players.len()
                        invariant
                            i <= self.players@.len(),
                            g == *self,
                            !taken ==> forall|t: int|
                                0 <= t < i ==> {
                                    let q = #[trigger] self.players@[t];
                                    !(q.alive && q.x == ci.0 && q.y == ci.1)
                                },
                            taken ==> occupied(g.players@, ci),
                            ci == (c.0 as int, c.1 as int),
                        decreases self.players@.len() - i,
                    {
                        let q = &self.players[i];
                        if q.alive && q.x == c.0 && q.y == c.1 {
                            taken = true;
                        }
                        i = i + 1;
                    }
                    assert(claims(g, names, ci) == count);
                    count == 1 && !taken
                },
            };
            moving.push(m);
            k = k + 1;
        }
        // Agents turn and move.
        k = 0;
        while k < n
            invariant
                k <= n,
                n == g.player_count,
                g.field_ok(),
                steps_on_map(g, names),
                acts@.len() == n,
                forall|j: int| 0 <= j < n ==> #[trigger] acts@[j] == agent_action(names, j),
                proposed@.len() == n,
                forall|j: int|
                    0 <= j < n ==> match #[trigger] proposed@[j] {
                        Some(c) => proposal(g, names, j) == Some((c.0 as int, c.1 as int)),
                        None => proposal(g, names, j) is None,
                    },
                moving@.len() == n,
                forall|j: int| 0 <= j < n ==> #[trigger] moving@[j] == moves(g, names, j),
                forall|j: int|
                    0 <= j < n ==> (#[trigger] g.players@[j]).tiles_walked < u64::MAX,
                self.players@.len() == g.players@.len(),
                forall|j: int|
                    0 <= j < self.players@.len() ==> #[trigger] self.players@[j] == if j < k {
                        after_move(g, names, j)
                    } else {
                        g.players@[j]
                    },
                self.seed == g.seed,
                self.generation == g.generation,
                self.width == g.width,
                self.height == g.height,
                self.player_count == g.player_count,
                self.turn == g.turn,
                self.walls@ == g.walls@,
                self.brains@ == g.brains@,
            decreases n - k,
        {
            let ghost pp = g.players@[k as int];
            let a = acts[k];
            let old_dir = self.players[k].direction;
            let alive = self.players[k].alive;
            let new_dir = if !alive {
                old_dir
            } else {
                match a {
                    Action::Left => (old_dir + DIRECTION_COUNT - 1) % DIRECTION_COUNT,
                    Action::Right => (old_dir + 1) % DIRECTION_COUNT,
                    _ => old_dir,
                }
            };
            self.players[k].direction = new_dir;
            if moving[k] {
                proof {
                    lemma_moved_on_map(g, names, k as int);
                }
                match proposed[k] {
                    Some(c) => {
                        self.players[k].x = c.0;
                        self.players[k].y = c.1;
                    },
                    None => {},
                }
                let tiles = self.players[k].tiles_walked + 1;
                self.players[k].tiles_walked = tiles;
            }
            assert(self.players@[k as int] == after_move(g, names, k as int));
            k = k + 1;
        }
        assert(self.players@ =~= moved_players(g, names));
        // Agents shoot.
        let ghost moved = self.players@;
        let mut hit: Vec<bool> = Vec::new();
        let mut gains: Vec<u64> = Vec::new();
        k = 0;
        while k < n
            invariant
                k <= n,
                hit@.len() == k,
                gains@.len() == k,
                forall|j: int| 0 <= j < k ==> !(#[trigger] hit@[j]),
                forall|j: int| 0 <= j < k ==> #[trigger] gains@[j] == 0,
            decreases n - k,
        {
            hit.push(false);
            gains.push(0);
            k = k + 1;
        }
        let mut s: usize = 0;
        while s < n
            invariant
                s <= n,
                n == g.player_count,
                g.field_ok(),
                steps_on_map(g, names),
                moved == moved_players(g, names),
                self.players@ == moved,
                self.width == g.width,
                self.height == g.height,
                self.walls@ == g.walls@,
                self.width <= MAX_CELLS,
                self.height <= MAX_CELLS,
                self.height * 3 <= usize::MAX,
                self.width * 3 <= usize::MAX,
                acts@.len() == n,
                forall|j: int| 0 <= j < n ==> #[trigger] acts@[j] == agent_action(names, j),
                hit@.len() == n,
                gains@.len() == n,
                forall|q: int|
                    0 <= q < n ==> (#[trigger] hit@[q] <==> exists|t: int|
                        0 <= t < s && #[trigger] targets(g, names, t, q)),
                forall|t: int| 0 <= t < s ==> #[trigger] gains@[t] == gain(g, names, t),
                forall|t: int| s <= t < n ==> #[trigger] gains@[t] == 0,
            decreases n - s,
        {
            let ghost ps = moved;
            assert(ps[s as int] == after_move(g, names, s as int));
            proof {
                lemma_moved_on_map(g, names, s as int);
            }
            if self.players[s].alive && acts[s] == Action::Shoot {
                let mut q: usize = 0;
                while q < n
                    invariant
                        q <= n,
                        s < n,
                        n == g.player_count,
                        g.field_ok(),
                steps_on_map(g, names),
                        moved == moved_players(g, names),
                        self.players@ == moved,
                        self.width == g.width,
                        self.height == g.height,
                        self.walls@ == g.walls@,
                        self.width <= MAX_CELLS,
                        self.height <= MAX_CELLS,
                        self.height * 3 <= usize::MAX,
                        self.width * 3 <= usize::MAX,
                        moved[s as int].alive,
                        agent_action(names, s as int) == Action::Shoot,
                        hit@.len() == n,
                        gains@.len() == n,
                        forall|r: int|
                            0 <= r < n ==> (#[trigger] hit@[r] <==> (exists|t: int|
                                0 <= t < s && #[trigger] targets(g, names, t, r)) || (r < q
                                && targets(g, names, s as int, r))),
                        forall|t: int| 0 <= t < s ==> #[trigger] gains@[t] == gain(g, names, t),
                        forall|t: int| s < t < n ==> #[trigger] gains@[t] == 0,
                        gains@[s as int] == count_upto(q as int, |r: int| targets(g, names, s as int, r)),
                        gains@[s as int] <= q,
                    decreases n - q,
                {
                    let ghost tq = targets(g, names, s as int, q as int);
                    let shoot = if q != s && self.players[q].alive {
                        proof {
                            lemma_moved_on_map(g, names, q as int);
                            lemma_moved_on_map(g, names, s as int);
                            assert(moved[q as int] == after_move(g, names, q as int));
                            assert(moved[s as int] == after_move(g, names, s as int));
                            lemma_view_same_map(
                                *self,
                                g,
                                moved[s as int],
                                VISION_DEPTH as int,
                                moved[q as int].x as int,
                                moved[q as int].y as int,
                            );
                        }
                        self.in_view_cell(
                            &self.players[s],
                            VISION_DEPTH,
                            self.players[q].x,
                            self.players[q].y,
                        )
                    } else {
                        false
                    };
                    assert(shoot == tq);
                    if shoot {
                        hit.set(q, true);
                        let more = gains[s] + 1;
                        gains.set(s, more);
                    }
                    q = q + 1;
                }
                assert(gains@[s as int] == gain(g, names, s as int));
            } else {
                assert forall|r: int| 0 <= r < n implies !targets(g, names, s as int, r) by {}
                assert(count_upto(n as int, |r: int| targets(g, names, s as int, r)) == 0) by {
                    lemma_count_ext(
                        n as int,
                        |r: int| targets(g, names, s as int, r),
                        |r: int| false,
                    );
                    lemma_count_zero(n as int);
                }
            }
            s = s + 1;
        }
        // Shot agents fall; shooters are credited.
        proof {
            lemma_turn_kills(g, names);
            lemma_hit_ids(g, names, n as int);
        }
        let mut ids: Vec<usize> = Vec::new();
        k = 0;
        while k < n
            invariant
                k <= n,
                n == g.player_count,
                g.field_ok(),
                steps_on_map(g, names),
                g.turn < u64::MAX,
                hit@.len() == n,
                gains@.len() == n,
                forall|q: int| 0 <= q < n ==> (#[trigger] hit@[q] <==> is_hit(g, names, q)),
                forall|t: int| 0 <= t < n ==> #[trigger] gains@[t] == gain(g, names, t),
                self.turn == g.turn,
                self.players@.len() == g.players@.len(),
                forall|j: int|
                    0 <= j < self.players@.len() ==> #[trigger] self.players@[j] == if j < k {
                        after_turn(g, names, j)
                    } else {
                        moved[j]
                    },
                moved == moved_players(g, names),
                forall|t: int|
                    0 <= t < n ==> g.players@[t].kills + #[trigger] gain(g, names, t) <= dead_count(
                        turn_players(g, names),
                    ),
                dead_count(turn_players(g, names)) <= g.players@.len(),
                g.players@.len() <= usize::MAX,
                ids@ == hit_ids(g, names, k as int),
                self.seed == g.seed,
                self.generation == g.generation,
                self.width == g.width,
                self.height == g.height,
                self.player_count == g.player_count,
                self.walls@ == g.walls@,
                self.brains@ == g.brains@,
            decreases n - k,
        {
            assert(moved[k as int] == after_move(g, names, k as int));
            if hit[k] {
                self.players[k].alive = false;
                self.players[k].died_turn = Some(self.turn + 1);
                ids.push(k + 1);
            }
            let ghost bound = dead_count(turn_players(g, names));
            assert(self.players@[k as int].kills + gains@[k as int] <= bound);
            let kills = self.players[k].kills + gains[k];
            self.players[k].kills = kills;
            assert(self.players@[k as int] == after_turn(g, names, k as int));
            k = k + 1;
        }
        self.turn = self.turn + 1;
        proof {
            assert(self.width >= 3 && self.height >= 3);
            assert(self.walls@.len() == self.width * self.height);
            assert(self.players@ =~= turn_players(g, names));
            assert forall|i: int| 0 <= i < self.players@.len() implies (
            #[trigger] self.players@[i]).kills <= dead_count(self.players@) by {
                if i >= n {
                    assert(self.players@[i] == g.players@[i]);
                    assert(g.players@[i].kills <= dead_count(g.players@));
                }
            }
            assert forall|i: int| 0 <= i < self.players@.len() implies {
                let p = #[trigger] self.players@[i];
                &&& self.in_map(p.x as int, p.y as int)
                &&& !self.wall_at(p.x as int, p.y as int)
                &&& p.direction < DIRECTION_COUNT
            } by {
                if i < n {
                    lemma_moved_on_map(g, names, i);
                    assert(self.players@[i] == after_turn(g, names, i));
                    assert(moved[i] == after_move(g, names, i));
                } else {
                    assert(self.players@[i] == g.players@[i]);
                }
            }
            assert(players_layout(self.players@, n as int)) by {
                assert forall|j: int| 0 <= j < n implies (#[trigger] self.players@[j]).id == j + 1 by {
                    assert(self.players@[j] == after_turn(g, names, j));
                    assert(moved[j] == after_move(g, names, j));
                }
                if self.players@.len() == n + 1 {
                    assert(self.players@[n as int] == g.players@[n as int]);
                }
            }
            if g.board_ok() {
                assert forall|x: int, y: int|
                    #![trigger self.wall_at(x, y)]
                    self.in_map(x, y) && on_border(self.width as int, self.height as int, x, y)
                        implies self.wall_at(x, y) by {
                    assert(g.wall_at(x, y));
                }
            }
            assert(kills_bounded(self.players@));
        }
        ids
    }
}

/// A count of a predicate that never holds is zero.
proof fn lemma_count_zero(n: int)
    ensures
        count_upto(n, |r: int| false) == 0,
    decreases n,
{
    if n > 0 {
        lemma_count_zero(n - 1);
    }
}

/// A turn lists each agent it fells once, in increasing order of id, so no more ids than
/// there are agents.
pub proof fn turn_hits_listed_once(g: Game, names: Seq<&str>)
    requires
        g.player_count <= usize::MAX,
    ensures
        hit_ids(g, names, g.player_count as int).len() <= g.player_count,
        forall|i: int, j: int|
            #![trigger hit_ids(g, names, g.player_count as int)[i], hit_ids(g, names, g.player_count as int)[j]]
            0 <= i < j < hit_ids(g, names, g.player_count as int).len() ==> hit_ids(
                g,
                names,
                g.player_count as int,
            )[i] < hit_ids(g, names, g.player_count as int)[j],
        forall|i: int|
            0 <= i < hit_ids(g, names, g.player_count as int).len() ==> {
                let id = #[trigger] hit_ids(g, names, g.player_count as int)[i];
                1 <= id <= g.player_count && is_hit(g, names, id - 1)
            },
{
    lemma_hits_increasing(g, names, g.player_count as int);
    lemma_hit_ids(g, names, g.player_count as int);
}

proof fn lemma_hits_increasing(g: Game, names: Seq<&str>, n: int)
    requires
        0 <= n <= usize::MAX,
    ensures
        hit_ids(g, names, n).len() <= n,
        forall|i: int, j: int|
            #![trigger hit_ids(g, names, n)[i], hit_ids(g, names, n)[j]]
            0 <= i < j < hit_ids(g, names, n).len() ==> hit_ids(g, names, n)[i] < hit_ids(
                g,
                names,
                n,
            )[j],
    decreases n,
{
    if n > 0 {
        lemma_hits_increasing(g, names, n - 1);
        lemma_hit_ids(g, names, n - 1);
        let before = hit_ids(g, names, n - 1);
        if is_hit(g, names, n - 1) {
            let after = before.push(n as usize);
            assert(hit_ids(g, names, n) == after);
            assert forall|i: int, j: int| 0 <= i < j < after.len() implies #[trigger] after[i]
                < #[trigger] after[j] by {
                if j == before.len() {
                    assert(before[i] <= n - 1);
                } else {
                    assert(before[i] < before[j]);
                }
            }
        }
    }
}

/// An agent shot in a turn falls at the end of it.
pub proof fn hit_agents_fall(g: Game, names: Seq<&str>, k: int)
    requires
        0 <= k < g.player_count,
        g.player_count <= g.players@.len(),
        is_hit(g, names, k),
    ensures
        !turn_players(g, names)[k].alive,
        turn_players(g, names)[k].died_turn == Some((g.turn + 1) as u64),
{
    assert(turn_players(g, names)[k] == after_turn(g, names, k));
}

/// Counting over a longer range adds nothing when the predicate fails on the extra part.
proof fn lemma_count_tail_false(m: int, n: int, p: spec_fn(int) -> bool)
    requires
        m <= n,
        forall|i: int| m <= i < n ==> !#[trigger] p(i),
    ensures
        count_upto(m, p) == count_upto(n, p),
    decreases n - m,
{
    if m < n {
        lemma_count_tail_false(m, n - 1, p);
    }
}

/// Every shot counts: at the end of a turn, agent `s + 1` has gained one kill for each other
/// living agent in its view (after everyone has moved) when it shoots, and none when it does
/// not shoot or has fallen; each of those agents falls.
pub proof fn shooters_gain_one_kill_per_agent_shot(g: Game, names: Seq<&str>, s: int)
    requires
        g.field_ok(),
        0 <= s < g.player_count,
    ensures
        ({
            let ps = moved_players(g, names);
            let shot = |q: int|
                {
                    &&& agent_action(names, s) == Action::Shoot
                    &&& ps[s].alive
                    &&& q != s
                    &&& ps[q].alive
                    &&& in_view(g, ps[s], VISION_DEPTH as int, ps[q].x as int, ps[q].y as int)
                };
            &&& turn_players(g, names)[s].kills == g.players@[s].kills + count_upto(
                g.player_count as int,
                shot,
            )
            &&& forall|q: int|
                0 <= q < g.player_count && #[trigger] shot(q) ==> !turn_players(g, names)[q].alive
        }),
{
    let n = g.player_count as int;
    let len = g.players@.len() as int;
    let ps = moved_players(g, names);
    let shot = |q: int|
        {
            &&& agent_action(names, s) == Action::Shoot
            &&& ps[s].alive
            &&& q != s
            &&& ps[q].alive
            &&& in_view(g, ps[s], VISION_DEPTH as int, ps[q].x as int, ps[q].y as int)
        };
    let t = |q: int| targets(g, names, s, q);
    lemma_count_ext(n, t, shot);
    assert(turn_players(g, names)[s] == after_turn(g, names, s));
    assert(ps[s] == after_move(g, names, s));
    // The kills stay in range: the fallen and the agents shot are different players.
    let was = |i: int| !g.players@[i].alive;
    let either = |i: int| was(i) || t(i);
    assert forall|i: int| 0 <= i < len implies !(#[trigger] was(i) && t(i)) by {
        if t(i) {
            assert(ps[i] == after_move(g, names, i));
        }
    }
    lemma_count_split(len, either, was, t);
    lemma_count_bound(len, either);
    lemma_count_tail_false(n, len, t);
    assert(g.players@[s].kills <= dead_count(g.players@));
    assert(dead_count(g.players@) == count_upto(len, was));
    assert(ps[s].kills == g.players@[s].kills);
    assert(gain(g, names, s) == count_upto(n, shot));
    if ps[s].alive {
        // The shooter itself is neither fallen nor shot, so at most `len - 1` players are.
        let me = |i: int| i == s;
        let more = |i: int| either(i) || me(i);
        lemma_count_split(len, more, either, me);
        lemma_count_bound(len, more);
        lemma_count_prefix(s + 1, len, me);
        assert(count_upto(s + 1, me) == count_upto(s, me) + 1);
        assert(count_upto(n, shot) + g.players@[s].kills <= n);
    } else {
        assert forall|q: int| 0 <= q < n implies !#[trigger] shot(q) by {}
        lemma_count_tail_false(0, n, shot);
    }
    assert(turn_players(g, names)[s].kills == g.players@[s].kills + count_upto(n, shot));
    assert forall|q: int| 0 <= q < n && #[trigger] shot(q) implies !turn_players(g, names)[q].alive by {
        assert(targets(g, names, s, q));
        hit_agents_fall(g, names, q);
    }
}

/// A turn leaves a fallen player exactly as it was: it neither turns, moves, shoots nor
/// falls again.
pub proof fn fallen_players_unchanged(g: Game, names: Seq<&str>, k: int)
    requires
        0 <= k < g.players@.len(),
        !g.players@[k].alive,
    ensures
        turn_players(g, names)[k] == g.players@[k],
{
    let n = g.player_count as int;
    if k < n {
        let ms = moved_players(g, names);
        assert(ms[k] == after_move(g, names, k));
        assert(!moves(g, names, k));
        assert(ms[k] == g.players@[k]);
        assert(!is_hit(g, names, k));
        let f = |q: int| targets(g, names, k, q);
        assert forall|q: int| 0 <= q < n implies (#[trigger] f(q) <==> false) by {}
        lemma_count_ext(n, f, |r: int| false);
        lemma_count_zero(n);
        assert(gain(g, names, k) == 0);
        assert(turn_players(g, names)[k] == after_turn(g, names, k));
    }
}

/// Action lists that agree on every agent's action move the agents alike.
proof fn lemma_same_moves(g: Game, a: Seq<&str>, b: Seq<&str>)
    requires
        forall|k: int| 0 <= k < g.player_count ==> #[trigger] agent_action(a, k) == agent_action(b, k),
    ensures
        moved_players(g, a) == moved_players(g, b),
        forall|k: int| 0 <= k < g.player_count ==> #[trigger] proposal(g, a, k) == proposal(g, b, k),
{
    let n = g.player_count as int;
    assert forall|k: int| 0 <= k < n implies #[trigger] proposal(g, a, k) == proposal(g, b, k) by {
        assert(agent_action(a, k) == agent_action(b, k));
    }
    assert forall|c: (int, int)| #[trigger] claims(g, a, c) == claims(g, b, c) by {
        let fa = |j: int| proposal(g, a, j) == Some(c);
        let fb = |j: int| proposal(g, b, j) == Some(c);
        assert forall|j: int| 0 <= j < n implies (#[trigger] fa(j) <==> fb(j)) by {
            assert(proposal(g, a, j) == proposal(g, b, j));
        }
        lemma_count_ext(n, fa, fb);
    }
    assert forall|k: int| 0 <= k < n implies #[trigger] after_move(g, a, k) == after_move(g, b, k) by {
        assert(agent_action(a, k) == agent_action(b, k));
        assert(proposal(g, a, k) == proposal(g, b, k));
        match proposal(g, a, k) {
            Some(c) => {
                assert(claims(g, a, c) == claims(g, b, c));
            },
            None => {},
        }
        assert(moves(g, a, k) == moves(g, b, k));
    }
    assert(moved_players(g, a) =~= moved_players(g, b));
}

/// Action lists that agree on every agent's action fell the same agents.
proof fn lemma_same_hits(g: Game, a: Seq<&str>, b: Seq<&str>, m: int)
    requires
        forall|k: int| 0 <= k < g.player_count ==> #[trigger] agent_action(a, k) == agent_action(b, k),
        forall|q: int| 0 <= q < g.player_count ==> #[trigger] is_hit(g, a, q) == is_hit(g, b, q),
        m <= g.player_count,
    ensures
        hit_ids(g, a, m) == hit_ids(g, b, m),
    decreases m,
{
    if m > 0 {
        lemma_same_hits(g, a, b, m - 1);
        assert(is_hit(g, a, m - 1) == is_hit(g, b, m - 1));
    }
}

/// Two action lists that give every agent the same action (a missing or unknown name counts
/// as waiting) play the same turn: the same players come out, and the same agents are hit.
pub proof fn same_actions_same_turn(g: Game, a: Seq<&str>, b: Seq<&str>)
    requires
        forall|k: int| 0 <= k < g.player_count ==> #[trigger] agent_action(a, k) == agent_action(b, k),
    ensures
        turn_players(g, a) == turn_players(g, b),
        hit_ids(g, a, g.player_count as int) == hit_ids(g, b, g.player_count as int),
{
    let n = g.player_count as int;
    lemma_same_moves(g, a, b);
    assert forall|s: int, q: int| #[trigger] targets(g, a, s, q) == targets(g, b, s, q) by {
        if 0 <= s < n {
            assert(agent_action(a, s) == agent_action(b, s));
        }
    }
    assert forall|q: int| 0 <= q < n implies #[trigger] is_hit(g, a, q) == is_hit(g, b, q) by {
        if is_hit(g, a, q) {
            let s = choose|s: int| 0 <= s < n && #[trigger] targets(g, a, s, q);
            assert(targets(g, b, s, q));
        }
        if is_hit(g, b, q) {
            let s = choose|s: int| 0 <= s < n && #[trigger] targets(g, b, s, q);
            assert(targets(g, a, s, q));
        }
    }
    assert forall|k: int| 0 <= k < n implies #[trigger] after_turn(g, a, k) == after_turn(g, b, k) by {
        let fa = |q: int| targets(g, a, k, q);
        let fb = |q: int| targets(g, b, k, q);
        assert forall|q: int| 0 <= q < n implies (#[trigger] fa(q) <==> fb(q)) by {
            assert(targets(g, a, k, q) == targets(g, b, k, q));
        }
        lemma_count_ext(n, fa, fb);
        assert(gain(g, a, k) == gain(g, b, k));
        assert(is_hit(g, a, k) == is_hit(g, b, k));
    }
    assert(turn_players(g, a) =~= turn_players(g, b));
    lemma_same_hits(g, a, b, n);
}

/// The name of an action.
pub open spec fn action_name(a: Action) -> &'static str {
    match a {
        Action::Left => "left",
        Action::Right => "right",
        Action::Forward => "forward",
        Action::Shoot => "shoot",
        Action::Wait => "wait",
    }
}

/// The action list as the agents read it: one name per agent, a missing or unknown name
/// written out as `wait`.
pub open spec fn decoded_names(names: Seq<&str>, n: nat) -> Seq<&'static str> {
    Seq::new(n, |k: int| action_name(agent_action(names, k)))
}

/// Each name stands for the action it is the name of.
proof fn lemma_action_name(a: Action)
    ensures
        action_of_name(action_name(a)@) == a,
{
    reveal_strlit("left");
    reveal_strlit("right");
    reveal_strlit("forward");
    reveal_strlit("shoot");
    reveal_strlit("wait");
    assert("right"@[0] != "left"@[0]);
    assert("forward"@[0] != "left"@[0] && "forward"@[0] != "right"@[0]);
    assert("shoot"@[0] != "right"@[0]);
    assert("wait"@[0] != "left"@[0]);
}

/// Missing and unknown action names play as waiting: a turn with any action list is the turn
/// with one name per agent, `wait` written out where a name was missing or unknown.
pub proof fn missing_actions_wait(g: Game, names: Seq<&str>)
    ensures
        turn_players(g, names) == turn_players(g, decoded_names(names, g.player_count as nat)),
        hit_ids(g, names, g.player_count as int) == hit_ids(
            g,
            decoded_names(names, g.player_count as nat),
            g.player_count as int,
        ),
{
    let d = decoded_names(names, g.player_count as nat);
    assert forall|k: int| 0 <= k < g.player_count implies #[trigger] agent_action(names, k)
        == agent_action(d, k) by {
        lemma_action_name(agent_action(names, k));
    }
    same_actions_same_turn(g, names, d);
}

} // verus!
