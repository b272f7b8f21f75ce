use vstd::prelude::*;
use vstd::string::StrSliceExecFns;
use vstd::string::StringExecFns;

use crate::constants::{DIRECTION_COUNT, VISION_DEPTH};
use crate::session::AutoRun;
use crate::state::{cell_index, end_turn, lemma_cell_index, score_value, Game, Player, MAX_CELLS};
use crate::text::{decimal, push_decimal};
use crate::vision::in_view;

verus! {

/// Whether entry `i` stands above entry `j`: a higher score, or an equal score and a smaller
/// key.
pub open spec fn stands_above(scores: Seq<u64>, keys: Seq<usize>, i: int, j: int) -> bool {
    scores[i] > scores[j] || (scores[i] == scores[j] && keys[i] < keys[j])
}

/// Whether no two keys are equal.
pub open spec fn keys_distinct(keys: Seq<usize>) -> bool {
    forall|i: int, j: int|
        #![trigger keys[i], keys[j]]
        0 <= i < keys.len() && 0 <= j < keys.len() && i != j ==> keys[i] != keys[j]
}

/// Whether `order` lists every entry once, from the one standing highest down.
pub open spec fn is_standing(scores: Seq<u64>, keys: Seq<usize>, order: Seq<usize>) -> bool {
    &&& order.len() == scores.len()
    &&& forall|a: int| 0 <= a < order.len() ==> #[trigger] order[a] < scores.len()
    &&& forall|a: int, b: int|
        0 <= a < b < order.len() ==> stands_above(
            scores,
            keys,
            #[trigger] order[a] as int,
            #[trigger] order[b] as int,
        )
    &&& forall|i: int| 0 <= i < scores.len() ==> #[trigger] order.contains(i as usize)
}

/// Two standings of the same entries agree on their first `k` places.
proof fn lemma_standings_agree(scores: Seq<u64>, keys: Seq<usize>, a: Seq<usize>, b: Seq<usize>, k: int)
    requires
        keys.len() == scores.len(),
        keys_distinct(keys),
        is_standing(scores, keys, a),
        is_standing(scores, keys, b),
        0 <= k <= a.len(),
    ensures
        forall|j: int| 0 <= j < k ==> #[trigger] a[j] == b[j],
    decreases k,
{
    if k > 0 {
        let m = k - 1;
        lemma_standings_agree(scores, keys, a, b, m);
        let x = a[m];
        let y = b[m];
        if x != y {
            assert(y < scores.len() && x < scores.len());
            assert(a.contains((y as int) as usize));
            let c = choose|c: int| 0 <= c < a.len() && a[c] == y;
            assert(b.contains((x as int) as usize));
            let d = choose|d: int| 0 <= d < b.len() && b[d] == x;
            if c < m {
                assert(b[c] == y);
                assert(stands_above(scores, keys, b[c] as int, b[m] as int));
            }
            if d < m {
                assert(a[d] == x);
                assert(stands_above(scores, keys, a[d] as int, a[m] as int));
            }
            assert(stands_above(scores, keys, a[m] as int, a[c] as int));
            assert(stands_above(scores, keys, b[m] as int, b[d] as int));
        }
    }
}

/// With distinct keys the entries have exactly one standing.
pub proof fn standing_is_unique(scores: Seq<u64>, keys: Seq<usize>, a: Seq<usize>, b: Seq<usize>)
    requires
        keys.len() == scores.len(),
        keys_distinct(keys),
        is_standing(scores, keys, a),
        is_standing(scores, keys, b),
    ensures
        a == b,
{
    lemma_standings_agree(scores, keys, a, b, a.len() as int);
    assert(a =~= b);
}

/// Orders the entries from the highest score down, equal scores by increasing key.
pub fn rank_by_score_and_key(scores: &Vec<u64>, keys: &Vec<usize>) -> (r: Vec<usize>)
    requires
        keys@.len() == scores@.len(),
        keys_distinct(keys@),
    ensures
        is_standing(scores@, keys@, r@),
{
    let mut order: Vec<usize> = Vec::new();
    let mut i: usize = 0;
    while i < scores.len()
        invariant
            i <= scores@.len(),
            keys@.len() == scores@.len(),
            keys_distinct(keys@),
            order@.len() == i,
            forall|a: int| 0 <= a < order@.len() ==> #[trigger] order@[a] < i,
            forall|a: int, b: int|
                0 <= a < b < order@.len() ==> stands_above(
                    scores@,
                    keys@,
                    #[trigger] order@[a] as int,
                    #[trigger] order@[b] as int,
                ),
            forall|k: int| 0 <= k < i ==> #[trigger] order@.contains(k as usize),
        decreases scores@.len() - i,
    {
        let s = scores[i];
        let key = keys[i];
        let mut p: usize = 0;
        while p < order.len() && (scores[order[p]] > s || (scores[order[p]] == s && keys[order[p]]
            < key))
            invariant
                p <= order@.len(),
                i < scores@.len(),
                keys@.len() == scores@.len(),
                s == scores@[i as int],
                key == keys@[i as int],
                forall|a: int| 0 <= a < order@.len() ==> #[trigger] order@[a] < i,
                forall|a: int|
                    0 <= a < p ==> stands_above(scores@, keys@, #[trigger] order@[a] as int, i as int),
            decreases order@.len() - p,
        {
            p = p + 1;
        }
        let ghost before = order@;
        proof {
            assert forall|b: int| p <= b < before.len() implies stands_above(
                scores@,
                keys@,
                i as int,
                #[trigger] before[b] as int,
            ) by {
                let q = before[p as int] as int;
                assert(keys@[q] != keys@[i as int]);
                assert(stands_above(scores@, keys@, i as int, q));
                if b > p {
                    assert(stands_above(scores@, keys@, q, before[b] as int));
                }
            }
        }
        order.insert(p, i);
        proof {
            let now = order@;
            assert(now == before.insert(p as int, i));
            assert forall|a: int| 0 <= a < now.len() implies #[trigger] now[a] < i + 1 by {
                if a < p {
                    assert(now[a] == before[a]);
                } else if a > p {
                    assert(now[a] == before[a - 1]);
                }
            }
            assert forall|a: int, b: int| 0 <= a < b < now.len() implies stands_above(
                scores@,
                keys@,
                #[trigger] now[a] as int,
                #[trigger] now[b] as int,
            ) by {
                if b < p {
                    assert(now[a] == before[a] && now[b] == before[b]);
                } else if b == p {
                    assert(now[a] == before[a]);
                } else if a < p {
                    assert(now[a] == before[a] && now[b] == before[b - 1]);
                } else if a == p {
                    assert(now[b] == before[b - 1]);
                } else {
                    assert(now[a] == before[a - 1] && now[b] == before[b - 1]);
                }
            }
            assert forall|k: int| 0 <= k < i + 1 implies #[trigger] now.contains(k as usize) by {
                if k == i {
                    assert(now[p as int] == i);
                } else {
                    assert(before.contains(k as usize));
                    let a = choose|a: int| 0 <= a < before.len() && before[a] == k as usize;
                    if a < p {
                        assert(now[a] == before[a]);
                    } else {
                        assert(now[a + 1] == before[a]);
                    }
                }
            }
        }
        i = i + 1;
    }
    order
}

/// The scores of all players, in the order they are kept.
pub open spec fn player_scores(g: Game) -> Seq<u64> {
    Seq::new(g.players@.len(), |k: int| score_value(g.turn, g.players@[k]) as u64)
}

/// The ids of all players, in the order they are kept.
pub open spec fn player_ids(g: Game) -> Seq<usize> {
    Seq::new(g.players@.len(), |k: int| g.players@[k].id)
}

/// Whether every player's score can be counted: it does not start before the player was born
/// and fits in 64 bits.
pub open spec fn scores_fit(g: Game) -> bool {
    forall|k: int|
        0 <= k < g.players@.len() ==> {
            let p = #[trigger] g.players@[k];
            &&& end_turn(g.turn, p) >= p.born_turn
            &&& score_value(g.turn, p) <= u64::MAX
        }
}

impl Game {
    /// Whether every player's score can be counted.
    pub fn scores_countable(&self) -> (r: bool)
        ensures
            r == scores_fit(*self),
    {
        let mut k: usize = 0;
        while k < self.players.len()
            invariant
                k <= self.players@.len(),
                forall|j: int|
                    0 <= j < k ==> {
                        let p = #[trigger] self.players@[j];
                        &&& end_turn(self.turn, p) >= p.born_turn
                        &&& score_value(self.turn, p) <= u64::MAX
                    },
            decreases self.players@.len() - k,
        {
            let p = &self.players[k];
            let last = match p.died_turn {
                Some(t) => t,
                None => self.turn,
            };
            if last < p.born_turn {
                return false;
            }
            let total = match p.kills.checked_mul(10) {
                Some(kp) => match (last - p.born_turn).checked_add(kp) {
                    Some(t) => t.checked_add(p.tiles_walked),
                    None => None,
                },
                None => None,
            };
            if total.is_none() {
                return false;
            }
            k = k + 1;
        }
        true
    }
}

impl Game {
    /// The positions of all players for the leaderboard: the highest score first, equal
    /// scores by increasing id (the human, id 0, before the agents).
    pub fn leaderboard(&self) -> (r: Vec<usize>)
        requires
            self.wf(),
            scores_fit(*self),
        ensures
            keys_distinct(player_ids(*self)),
            is_standing(player_scores(*self), player_ids(*self), r@),
    {
        let mut scores: Vec<u64> = Vec::new();
        let mut ids: Vec<usize> = Vec::new();
        let mut k: usize = 0;
        while k < self.players.len()
            invariant
                k <= self.players@.len(),
                scores_fit(*self),
                scores@ == player_scores(*self).take(k as int),
                ids@ == player_ids(*self).take(k as int),
            decreases self.players@.len() - k,
        {
            let p = &self.players[k];
            scores.push(self.score(p));
            ids.push(p.id);
            proof {
                assert(scores@ =~= player_scores(*self).take(k + 1));
                assert(ids@ =~= player_ids(*self).take(k + 1));
            }
            k = k + 1;
        }
        proof {
            assert(scores@ =~= player_scores(*self));
            assert(ids@ =~= player_ids(*self));
            let n = self.player_count as int;
            assert forall|i: int, j: int|
                0 <= i < ids@.len() && 0 <= j < ids@.len() && i != j implies #[trigger] ids@[i]
                != #[trigger] ids@[j] by {
                assert(ids@[i] == self.players@[i].id && ids@[j] == self.players@[j].id);
                if i < n {
                    assert(self.players@[i].id == i + 1);
                }
                if j < n {
                    assert(self.players@[j].id == j + 1);
                }
            }
        }
        rank_by_score_and_key(&scores, &ids)
    }
}

/// Two decimal digits at least.
pub open spec fn two_digits(n: nat) -> Seq<char> {
    if n < 10 {
        seq!['0'] + decimal(n)
    } else {
        decimal(n)
    }
}

/// The name a player goes by on the leaderboard: `#` and the lineage serial of its brain,
/// `#` and its id in two digits when the brain has no serial, and `#00` for the human.
pub open spec fn tag_text(serial: Option<u64>, id: usize) -> Seq<char> {
    if id == 0 {
        seq!['#', '0', '0']
    } else {
        match serial {
            Some(s) => seq!['#'] + decimal(s as nat),
            None => seq!['#'] + two_digits(id as nat),
        }
    }
}

/// A text fitted to six characters: cut to five and an ellipsis when longer, padded with
/// spaces when shorter.
pub open spec fn fit_six(t: Seq<char>) -> Seq<char> {
    if t.len() > 6 {
        t.take(5) + seq!['\u{2026}']
    } else {
        t + Seq::new((6 - t.len()) as nat, |i: int| ' ')
    }
}

/// The leaderboard tag of a player, six characters wide.
pub fn leaderboard_tag(serial: Option<u64>, id: usize) -> (r: String)
    ensures
        r@ == fit_six(tag_text(serial, id)),
{
    let mut tag = String::from_str("#");
    proof {
        reveal_strlit("#");
    }
    if id == 0 {
        tag.append("00");
        proof {
            reveal_strlit("00");
        }
    } else {
        match serial {
            Some(s) => push_decimal(&mut tag, s),
            None => {
                if id < 10 {
                    tag.append("0");
                    proof {
                        reveal_strlit("0");
                        assert(seq!['#'] + two_digits(id as nat) =~= seq!['#'] + seq!['0'] + decimal(
                            id as nat,
                        ));
                    }
                }
                push_decimal(&mut tag, id as u64);
            },
        }
    }
    assert(tag@ =~= tag_text(serial, id));
    let len = tag.unicode_len();
    if len > 6 {
        let head = tag.as_str().substring_char(0, 5);
        let mut cut = String::from_str(head);
        cut.append("\u{2026}");
        proof {
            reveal_strlit("\u{2026}");
            assert(cut@ =~= fit_six(tag_text(serial, id)));
        }
        cut
    } else {
        let mut k: usize = len;
        while k < 6
            invariant
                len <= k <= 6,
                len == tag_text(serial, id).len(),
                tag@ =~= tag_text(serial, id) + Seq::new((k - len) as nat, |i: int| ' '),
            decreases 6 - k,
        {
            tag.append(" ");
            proof {
                reveal_strlit(" ");
            }
            k = k + 1;
        }
        tag
    }
}

/// What the automatic run shows in the status line.
#[derive(Clone, Copy, Debug, PartialEq, Eq, Structural)]
pub enum AutoStatus {
    /// No step limit: Enter plays one turn.
    Manual,
    /// A step limit, not armed yet: Enter starts the run.
    Ready,
    /// Running.
    Running,
    /// Armed and paused: Enter resumes.
    Paused,
}

impl AutoRun {
    /// The state of the automatic run, as the status line names it.
    pub fn status(&self) -> (r: AutoStatus)
        ensures
            r == (if self.max_step is None {
                AutoStatus::Manual
            } else if !self.armed {
                AutoStatus::Ready
            } else if self.running {
                AutoStatus::Running
            } else {
                AutoStatus::Paused
            }),
    {
        if self.max_step.is_none() {
            AutoStatus::Manual
        } else if !self.armed {
            AutoStatus::Ready
        } else if self.running {
            AutoStatus::Running
        } else {
            AutoStatus::Paused
        }
    }
}

/// What a map cell shows on the board.
#[derive(Clone, Copy, Debug, PartialEq, Eq, Structural)]
pub enum Tile {
    /// A wall.
    Wall,
    /// An open cell that some living player has in view.
    Seen,
    /// An open cell nobody living sees.
    Dark,
}

/// Whether some living player has `(x, y)` in view.
pub open spec fn seen_by_living(g: Game, x: int, y: int) -> bool {
    exists|i: int|
        0 <= i < g.players@.len() && (#[trigger] g.players@[i]).alive && in_view(
            g,
            g.players@[i],
            VISION_DEPTH as int,
            x,
            y,
        )
}

/// What cell `(x, y)` shows.
pub open spec fn tile_of(g: Game, x: int, y: int) -> Tile {
    if g.wall_at(x, y) {
        Tile::Wall
    } else if seen_by_living(g, x, y) {
        Tile::Seen
    } else {
        Tile::Dark
    }
}

impl Game {
    /// Whether some living player has `(x, y)` in view.
    pub fn seen_by_anyone(&self, x: usize, y: usize) -> (r: bool)
        requires
            self.wf(),
            self.in_map(x as int, y as int),
        ensures
            r == seen_by_living(*self, x as int, y as int),
    {
        let cells = self.walls.len();
        proof {
            assert(self.width * 3 <= cells && self.height * 3 <= cells) by (nonlinear_arith)
                requires
                    self.width * self.height == cells,
                    self.height >= 3,
                    self.width >= 3,
            ;
        }
        let mut i: usize = 0;
        while i < self.players.len()
            invariant
                self.wf(),
                self.in_map(x as int, y as int),
                self.width * 3 <= cells,
                self.height * 3 <= cells,
                i <= self.players@.len(),
                forall|j: int|
                    0 <= j < i ==> !((#[trigger] self.players@[j]).alive && in_view(
                        *self,
                        self.players@[j],
                        VISION_DEPTH as int,
                        x as int,
                        y as int,
                    )),
            decreases self.players@.len() - i,
        {
            let p = &self.players[i];
            proof {
                assert(self.in_map(p.x as int, p.y as int) && p.direction < DIRECTION_COUNT);
                assert(self.width <= MAX_CELLS && self.height <= MAX_CELLS) by (nonlinear_arith)
                    requires
                        self.width * self.height <= MAX_CELLS,
                        self.width >= 3,
                        self.height >= 3,
                ;
            }
            if p.alive && self.in_view_cell(p, VISION_DEPTH, x, y) {
                return true;
            }
            i = i + 1;
        }
        false
    }

    /// What every cell of the map shows, row by row.
    pub fn tiles(&self) -> (r: Vec<Tile>)
        requires
            self.wf(),
        ensures
            r@.len() == self.width * self.height,
            forall|x: int, y: int|
                self.in_map(x, y) ==> #[trigger] r@[cell_index(self.width as int, x, y)]
                    == tile_of(*self, x, y),
    {
        let mut out: Vec<Tile> = Vec::new();
        let mut y: usize = 0;
        while y < self.height
            invariant
                self.wf(),
                y <= self.height,
                out@.len() == y * self.width,
                forall|a: int, b: int|
                    0 <= a < self.width && 0 <= b < y ==> #[trigger] out@[cell_index(
                        self.width as int,
                        a,
                        b,
                    )] == tile_of(*self, a, b),
            decreases self.height - y,
        {
            let mut x: usize = 0;
            while x < self.width
                invariant
                    self.wf(),
                    y < self.height,
                    x <= self.width,
                    out@.len() == y * self.width + x,
                    forall|a: int, b: int|
                        (0 <= a < self.width && 0 <= b < y) || (0 <= a < x && b == y) ==> #[trigger] out@[cell_index(
                            self.width as int,
                            a,
                            b,
                        )] == tile_of(*self, a, b),
                decreases self.width - x,
            {
                proof {
                    lemma_cell_index(self.width as int, self.height as int, x as int, y as int);
                }
                let t = if self.is_wall(x, y) {
                    Tile::Wall
                } else if self.seen_by_anyone(x, y) {
                    Tile::Seen
                } else {
                    Tile::Dark
                };
                let ghost before = out@;
                out.push(t);
                proof {
                    assert forall|a: int, b: int|
                        (0 <= a < self.width && 0 <= b < y) || (0 <= a < x + 1 && b == y) implies #[trigger] out@[cell_index(
                            self.width as int,
                            a,
                            b,
                        )] == tile_of(*self, a, b) by {
                        lemma_cell_index(self.width as int, self.height as int, a, b);
                        if !(a == x && b == y) {
                            assert(cell_index(self.width as int, a, b) < before.len()) by (nonlinear_arith)
                                requires
                                    (0 <= a < self.width && 0 <= b < y) || (0 <= a < x && b == y),
                                    before.len() == y * self.width + x,
                                    cell_index(self.width as int, a, b) == b * self.width + a,
                            ;
                        }
                    }
                }
                x = x + 1;
            }
            proof {
                assert((y + 1) * self.width == y * self.width + self.width) by (nonlinear_arith);
            }
            y = y + 1;
        }
        proof {
            assert(self.height * self.width == self.width * self.height) by (nonlinear_arith);
        }
        out
    }
}

} // verus!
