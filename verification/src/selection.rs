use vstd::prelude::*;
use vstd::string::StringExecFns;
use vivalaakam_neuro_neat::Organism;

use crate::brain::{bred_child_of, breed_next_generation, breeding_plan};
use crate::neat::organism_identifier;
use crate::text::decimal;
use crate::state::{max_size, score_value, end_turn, Game, MIN_HEIGHT, MIN_WIDTH};

verus! {

/// The number of agents a map built `width` by `height` takes in one trial: half the cells
/// strictly inside its outer ring (the map being at least 20 by 12).
pub open spec fn capacity_of(width: usize, height: usize) -> int {
    let w = max_size(width, MIN_WIDTH) as int;
    let h = max_size(height, MIN_HEIGHT) as int;
    (w - 2) * (h - 2) / 2
}

impl Game {
    /// The number of agents a map built `width` by `height` takes: half the cells strictly
    /// inside its outer ring. This is the bound the command line accepts for the number of
    /// players, so a map of that size takes a whole tournament group. (Maps carry no treats in
    /// this game; a cell is a wall or open.)
    pub fn spawn_cell_count(width: usize, height: usize) -> (r: usize)
        requires
            (max_size(width, MIN_WIDTH) - 2) * (max_size(height, MIN_HEIGHT) - 2) <= usize::MAX,
        ensures
            r == capacity_of(width, height),
    {
        let w = if width < MIN_WIDTH { MIN_WIDTH } else { width };
        let h = if height < MIN_HEIGHT { MIN_HEIGHT } else { height };
        (w - 2) * (h - 2) / 2
    }

    /// The score of every agent, agent 1 first.
    pub fn agent_scores(&self) -> (r: Vec<u64>)
        requires
            self.players@.len() >= self.player_count,
            forall|k: int|
                0 <= k < self.player_count ==> {
                    let p = #[trigger] self.players@[k];
                    &&& end_turn(self.turn, p) >= p.born_turn
                    &&& score_value(self.turn, p) <= u64::MAX
                },
        ensures
            r@.len() == self.player_count,
            forall|k: int|
                0 <= k < self.player_count ==> #[trigger] r@[k] == score_value(
                    self.turn,
                    self.players@[k],
                ),
    {
        let mut scores: Vec<u64> = Vec::new();
        let mut k: usize = 0;
        while k < self.player_count
            invariant
                k <= self.player_count,
                self.players@.len() >= self.player_count,
                forall|j: int|
                    0 <= j < self.player_count ==> {
                        let p = #[trigger] self.players@[j];
                        &&& end_turn(self.turn, p) >= p.born_turn
                        &&& score_value(self.turn, p) <= u64::MAX
                    },
                scores@.len() == k,
                forall|j: int|
                    0 <= j < k ==> #[trigger] scores@[j] == score_value(self.turn, self.players@[j]),
            decreases self.player_count - k,
        {
            let s = self.score(&self.players[k]);
            scores.push(s);
            k = k + 1;
        }
        scores
    }
}

/// The number of agents one trial map takes.
pub fn map_capacity(width: usize, height: usize) -> (r: usize)
    requires
        (max_size(width, MIN_WIDTH) - 2) * (max_size(height, MIN_HEIGHT) - 2) <= usize::MAX,
    ensures
        r == capacity_of(width, height),
{
    Game::spawn_cell_count(width, height)
}

/// How a tournament splits its contenders: groups of as many agents as the trial map takes
/// (at least one), and the number of groups needed for all contenders.
pub fn trial_groups(contenders: usize, width: usize, height: usize) -> (r: (usize, usize))
    requires
        (max_size(width, MIN_WIDTH) - 2) * (max_size(height, MIN_HEIGHT) - 2) <= usize::MAX,
    ensures
        r.0 == if capacity_of(width, height) < 1 {
            1
        } else {
            capacity_of(width, height)
        },
        r.1 * r.0 >= contenders,
        r.1 == 0 || (r.1 - 1) * r.0 < contenders,
{
    let capacity = map_capacity(width, height);
    let size = if capacity < 1 { 1 } else { capacity };
    let q = contenders / size;
    let count = if contenders % size == 0 {
        q
    } else {
        assert(q < usize::MAX) by (nonlinear_arith)
            requires
                size >= 2,
                q == contenders / size,
                contenders <= usize::MAX,
        ;
        q + 1
    };
    proof {
        vstd::arithmetic::div_mod::lemma_fundamental_div_mod(contenders as int, size as int);
        assert(count * size >= contenders && (count == 0 || (count - 1) * size < contenders)) by (nonlinear_arith)
            requires
                size >= 1,
                count == q + if contenders % size == 0 { 0int } else { 1int },
                contenders == size * q + contenders % size,
                0 <= contenders % size < size,
        ;
    }
    (size, count)
}

/// The seed phrase of the trial map: the seed and `:best-trial`.
pub fn trial_map_seed(seed: &str) -> (r: String)
    ensures
        r@ == seed@ + ":best-trial"@,
{
    let mut text = String::from_str(seed);
    text.append(":best-trial");
    text
}

/// Whether position `i` ranks before position `j`: a higher score, or an equal score and an
/// earlier position.
pub open spec fn ranks_before(scores: Seq<u64>, i: int, j: int) -> bool {
    scores[i] > scores[j] || (scores[i] == scores[j] && i < j)
}

/// Whether `order` lists every position of `scores` once, best first.
pub open spec fn is_ranking(scores: Seq<u64>, order: Seq<usize>) -> bool {
    &&& order.len() == scores.len()
    &&& forall|a: int| 0 <= a < order.len() ==> #[trigger] order[a] < scores.len()
    &&& forall|a: int, b: int|
        0 <= a < b < order.len() ==> ranks_before(scores, #[trigger] order[a] as int, #[trigger] order[b] as int)
    &&& forall|i: int| 0 <= i < scores.len() ==> #[trigger] order.contains(i as usize)
}

/// The ranking of `scores`: the one order that lists every position once, best first.
pub open spec fn ranking(scores: Seq<u64>) -> Seq<usize> {
    choose|order: Seq<usize>| is_ranking(scores, order)
}

/// Two rankings of the same scores agree on their first `k` places.
proof fn lemma_rankings_agree(scores: Seq<u64>, a: Seq<usize>, b: Seq<usize>, k: int)
    requires
        is_ranking(scores, a),
        is_ranking(scores, b),
        0 <= k <= a.len(),
    ensures
        forall|j: int| 0 <= j < k ==> #[trigger] a[j] == b[j],
    decreases k,
{
    if k > 0 {
        let m = k - 1;
        lemma_rankings_agree(scores, a, b, m);
        let x = a[m];
        let y = b[m];
        if x != y {
            assert(y < scores.len() && x < scores.len());
            assert(a.contains((y as int) as usize));
            let c = choose|c: int| 0 <= c < a.len() && a[c] == y;
            assert(b.contains((x as int) as usize));
            let d = choose|d: int| 0 <= d < b.len() && b[d] == x;
            if c < m {
                assert(b[c] == y);
                assert(ranks_before(scores, b[c] as int, b[m] as int));
            }
            if d < m {
                assert(a[d] == x);
                assert(ranks_before(scores, a[d] as int, a[m] as int));
            }
            assert(ranks_before(scores, a[m] as int, a[c] as int));
            assert(ranks_before(scores, b[m] as int, b[d] as int));
        }
    }
}

/// The scores have exactly one ranking: ordering by score, ties by position, leaves no
/// choice.
pub proof fn ranking_is_unique(scores: Seq<u64>, a: Seq<usize>, b: Seq<usize>)
    requires
        is_ranking(scores, a),
        is_ranking(scores, b),
    ensures
        a == b,
{
    lemma_rankings_agree(scores, a, b, a.len() as int);
    assert(a =~= b);
}

/// Orders the positions of `scores` from the highest score to the lowest, keeping equal
/// scores in the order they come.
pub fn rank_by_score(scores: &Vec<u64>) -> (r: Vec<usize>)
    ensures
        is_ranking(scores@, r@),
        r@ == ranking(scores@),
{
    let mut order: Vec<usize> = Vec::new();
    let mut i: usize = 0;
    while i < scores.len()
        invariant
            i <= scores@.len(),
            order@.len() == i,
            forall|a: int| 0 <= a < order@.len() ==> #[trigger] order@[a] < i,
            forall|a: int, b: int|
                0 <= a < b < order@.len() ==> ranks_before(
                    scores@,
                    #[trigger] order@[a] as int,
                    #[trigger] order@[b] as int,
                ),
            forall|k: int| 0 <= k < i ==> #[trigger] order@.contains(k as usize),
        decreases scores@.len() - i,
    {
        let s = scores[i];
        let mut p: usize = 0;
        while p < order.len() && scores[order[p]] >= s
            invariant
                p <= order@.len(),
                i < scores@.len(),
                s == scores@[i as int],
                forall|a: int| 0 <= a < order@.len() ==> #[trigger] order@[a] < i,
                forall|a: int| 0 <= a < p ==> scores@[#[trigger] order@[a] as int] >= s,
            decreases order@.len() - p,
        {
            p = p + 1;
        }
        let ghost before = order@;
        proof {
            assert forall|b: int| p <= b < before.len() implies scores@[#[trigger] before[b] as int]
                < s by {
                assert(scores@[before[p as int] as int] < s);
                if b > p {
                    assert(ranks_before(scores@, before[p as int] as int, before[b] as int));
                }
            }
        }
        order.insert(p, i);
        proof {
            let now = order@;
            assert(now == before.insert(p as int, i));
            assert forall|a: int| 0 <= a < now.len() implies #[trigger] now[a] < i + 1 by {
                if a < p {
                    assert(now[a] == before[a]);
                } else if a > p {
                    assert(now[a] == before[a - 1]);
                }
            }
            assert forall|a: int, b: int| 0 <= a < b < now.len() implies ranks_before(
                scores@,
                #[trigger] now[a] as int,
                #[trigger] now[b] as int,
            ) by {
                if b < p {
                    assert(now[a] == before[a] && now[b] == before[b]);
                } else if b == p {
                    assert(now[a] == before[a]);
                } else if a < p {
                    assert(now[a] == before[a] && now[b] == before[b - 1]);
                } else if a == p {
                    assert(now[b] == before[b - 1]);
                } else {
                    assert(now[a] == before[a - 1] && now[b] == before[b - 1]);
                }
            }
            assert forall|k: int| 0 <= k < i + 1 implies #[trigger] now.contains(k as usize) by {
                if k == i {
                    assert(now[p as int] == i);
                } else {
                    assert(before.contains(k as usize));
                    let a = choose|a: int| 0 <= a < before.len() && before[a] == k as usize;
                    if a < p {
                        assert(now[a] == before[a]);
                    } else {
                        assert(now[a + 1] == before[a]);
                    }
                }
            }
        }
        i = i + 1;
    }
    proof {
        assert(is_ranking(scores@, order@));
        ranking_is_unique(scores@, order@, ranking(scores@));
    }
    order
}

/// The positions of the `count` best scores (all of them when there are fewer), best first.
pub fn select_top(scores: &Vec<u64>, count: usize) -> (r: Vec<usize>)
    ensures
        r@ == ranking(scores@).take(
            if count < scores@.len() {
                count as int
            } else {
                scores@.len() as int
            },
        ),
{
    let mut order = rank_by_score(scores);
    if count < order.len() {
        order.truncate(count);
    }
    order
}

/// The first `target` organisms, padding `selected` with children bred from it (one at a
/// time, each from the organisms gathered so far) when it holds fewer. Gives `None`, touching
/// nothing, when `selected` is empty.
pub fn pad_survivors(
    seed: &str,
    generation: u64,
    target: usize,
    selected: Vec<Organism>,
    lineage_serial: &mut u64,
) -> (r: Option<Vec<Organism>>)
    requires
        selected@.len() < target ==> *old(lineage_serial) + (target - selected@.len()) <= u64::MAX,
    ensures
        selected@.len() == 0 <==> r is None,
        r is None ==> *final(lineage_serial) == *old(lineage_serial) + target,
        r matches Some(v) ==> {
            &&& v@.len() == target
            &&& selected@.len() >= target ==> v@ == selected@.take(target as int)
            &&& selected@.len() < target ==> {
                &&& v@.take(selected@.len() as int) == selected@
                &&& *final(lineage_serial) == *old(lineage_serial) + (target - selected@.len())
                &&& forall|k: int|
                    selected@.len() <= k < target ==> {
                        &&& organism_identifier(#[trigger] v@[k]) == Some(
                            decimal((*old(lineage_serial) + (k - selected@.len())) as nat),
                        )
                        &&& bred_child_of(
                            v@[k],
                            v@[breeding_plan(seed@, generation, k as nat, 1nat)[0].0 as int],
                            v@[breeding_plan(seed@, generation, k as nat, 1nat)[0].1 as int],
                        )
                    }
            }
            &&& selected@.len() >= target ==> *final(lineage_serial) == *old(lineage_serial)
        },
{
    if selected.len() == 0 {
        *lineage_serial = *lineage_serial + target as u64;
        return None;
    }
    let ghost start = *lineage_serial;
    let ghost given = selected@;
    let mut gathered = selected;
    while gathered.len() < target
        invariant
            given.len() > 0,
            given.len() <= gathered@.len(),
            gathered@.take(given.len() as int) == given,
            gathered@.len() <= target || gathered@.len() == given.len(),
            given.len() < target ==> start + (target - given.len()) <= u64::MAX,
            *lineage_serial == start + (gathered@.len() - given.len()),
            forall|k: int|
                given.len() <= k < gathered@.len() ==> organism_identifier(#[trigger] gathered@[k])
                    == Some(decimal((start + (k - given.len())) as nat)),
            forall|k: int|
                given.len() <= k < gathered@.len() ==> {
                    &&& breeding_plan(seed@, generation, k as nat, 1nat)[0].0 < k
                    &&& breeding_plan(seed@, generation, k as nat, 1nat)[0].1 < k
                    &&& bred_child_of(
                        #[trigger] gathered@[k],
                        gathered@[breeding_plan(seed@, generation, k as nat, 1nat)[0].0 as int],
                        gathered@[breeding_plan(seed@, generation, k as nat, 1nat)[0].1 as int],
                    )
                },
        decreases target - gathered@.len(),
    {
        let extra = breed_next_generation(seed, generation, 1, gathered.as_slice(), lineage_serial);
        match extra {
            Some(mut children) => {
                let ghost before = gathered@;
                let ghost kids = children@;
                gathered.append(&mut children);
                assert(gathered@.take(given.len() as int) =~= given) by {
                    assert(before.take(given.len() as int) == given);
                }
                assert forall|k: int|
                    given.len() <= k < gathered@.len() implies organism_identifier(
                        #[trigger] gathered@[k],
                    ) == Some(decimal((start + (k - given.len())) as nat)) by {
                    if k < before.len() {
                        assert(gathered@[k] == before[k]);
                    } else {
                        assert(gathered@[k] == kids[0]);
                    }
                }
                assert forall|k: int| given.len() <= k < gathered@.len() implies {
                    &&& breeding_plan(seed@, generation, k as nat, 1nat)[0].0 < k
                    &&& breeding_plan(seed@, generation, k as nat, 1nat)[0].1 < k
                    &&& bred_child_of(
                        #[trigger] gathered@[k],
                        gathered@[breeding_plan(seed@, generation, k as nat, 1nat)[0].0 as int],
                        gathered@[breeding_plan(seed@, generation, k as nat, 1nat)[0].1 as int],
                    )
                } by {
                    let idx = breeding_plan(seed@, generation, k as nat, 1nat)[0].0 as int;
                    let jdx = breeding_plan(seed@, generation, k as nat, 1nat)[0].1 as int;
                    if k < before.len() {
                        assert(gathered@[k] == before[k]);
                        assert(gathered@[idx] == before[idx]);
                        assert(gathered@[jdx] == before[jdx]);
                    } else {
                        assert(k == before.len());
                        assert(gathered@[k] == kids[0]);
                        assert(bred_child_of(kids[0], before[idx], before[jdx]));
                        assert(gathered@[idx] == before[idx]);
                        assert(gathered@[jdx] == before[jdx]);
                    }
                }
            },
            None => {},
        }
    }
    if gathered.len() > target {
        gathered.truncate(target);
    }
    proof {
        if given.len() >= target {
            assert(gathered@ =~= given.take(target as int));
        }
    }
    Some(gathered)
}

} // verus!
