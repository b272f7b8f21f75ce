use vstd::prelude::*;

use crate::human::{after_human_shot, human_moved, human_spawn, human_turned, living_at, living_human, new_human};
use crate::state::{
    cells_fit, count_upto, generated_agents_start_apart, generated_free, generated_players, Game,
    Player,
};
use crate::turn::{after_move, after_turn, claims, moved_players, moves, occupied, proposal, turn_players};

verus! {

/// No two living players stand on the same cell.
pub open spec fn living_apart(ps: Seq<Player>) -> bool {
    forall|i: int, j: int|
        #![trigger ps[i], ps[j]]
        0 <= i < ps.len() && 0 <= j < ps.len() && i != j && ps[i].alive && ps[j].alive ==> (
        ps[i].x != ps[j].x || ps[i].y != ps[j].y)
}

/// A predicate that holds at two places of a range counts at least two there.
proof fn lemma_count_two(n: int, p: spec_fn(int) -> bool, i: int, j: int)
    requires
        0 <= i < n,
        0 <= j < n,
        i != j,
        p(i),
        p(j),
    ensures
        count_upto(n, p) >= 2,
    decreases n,
{
    if i == n - 1 {
        lemma_count_one(n - 1, p, j);
    } else if j == n - 1 {
        lemma_count_one(n - 1, p, i);
    } else {
        lemma_count_two(n - 1, p, i, j);
    }
}

/// A predicate that holds somewhere in a range counts at least one there.
proof fn lemma_count_one(n: int, p: spec_fn(int) -> bool, i: int)
    requires
        0 <= i < n,
        p(i),
    ensures
        count_upto(n, p) >= 1,
    decreases n,
{
    if i < n - 1 {
        lemma_count_one(n - 1, p, i);
    }
}

/// Players that keep their places, some of them falling, stay apart if they were.
proof fn lemma_apart_fewer(ps: Seq<Player>, qs: Seq<Player>)
    requires
        living_apart(ps),
        qs.len() == ps.len(),
        forall|k: int|
            0 <= k < qs.len() ==> {
                let q = #[trigger] qs[k];
                &&& q.x == ps[k].x
                &&& q.y == ps[k].y
                &&& q.alive ==> ps[k].alive
            },
    ensures
        living_apart(qs),
{
    assert forall|i: int, j: int|
        0 <= i < qs.len() && 0 <= j < qs.len() && i != j && qs[i].alive && qs[j].alive implies (
        qs[i].x != qs[j].x || qs[i].y != qs[j].y) by {
        assert(ps[i].alive && ps[j].alive);
    }
}

/// Two living players stand apart once everyone has moved.
proof fn lemma_moved_apart(g: Game, names: Seq<&str>, i: int, j: int)
    requires
        g.board_ok(),
        living_apart(g.players@),
        0 <= i < g.players@.len(),
        0 <= j < g.players@.len(),
        i != j,
        g.players@[i].alive,
        g.players@[j].alive,
    ensures
        moved_players(g, names)[i].x != moved_players(g, names)[j].x || moved_players(g, names)[i].y
            != moved_players(g, names)[j].y,
{
    let n = g.player_count as int;
    let ps = g.players@;
    let ms = moved_players(g, names);
    let mi = i < n && moves(g, names, i);
    let mj = j < n && moves(g, names, j);
    assert(ms[i] == if i < n {
        after_move(g, names, i)
    } else {
        ps[i]
    });
    assert(ms[j] == if j < n {
        after_move(g, names, j)
    } else {
        ps[j]
    });
    if !mi && !mj {
        assert(ms[i].x == ps[i].x && ms[i].y == ps[i].y);
        assert(ms[j].x == ps[j].x && ms[j].y == ps[j].y);
    } else if mi && !mj {
        let c = proposal(g, names, i)->0;
        assert(ms[j].x == ps[j].x && ms[j].y == ps[j].y);
        if ms[i].x == ms[j].x && ms[i].y == ms[j].y {
            assert(ps[j].alive && ps[j].x == c.0 && ps[j].y == c.1);
            assert(occupied(ps, c));
        }
    } else if !mi && mj {
        let c = proposal(g, names, j)->0;
        assert(ms[i].x == ps[i].x && ms[i].y == ps[i].y);
        if ms[i].x == ms[j].x && ms[i].y == ms[j].y {
            assert(ps[i].alive && ps[i].x == c.0 && ps[i].y == c.1);
            assert(occupied(ps, c));
        }
    } else {
        let ci = proposal(g, names, i)->0;
        let cj = proposal(g, names, j)->0;
        if ms[i].x == ms[j].x && ms[i].y == ms[j].y {
            assert(ci == cj);
            let f = |k: int| proposal(g, names, k) == Some(ci);
            lemma_count_two(n, f, i, j);
            assert(claims(g, names, ci) == count_upto(n, f));
        }
    }
}

/// A turn keeps living players apart: an agent steps only onto a cell that no living player
/// held and that no other agent asked for, and the fallen do not come back.
pub proof fn turn_keeps_living_apart(g: Game, names: Seq<&str>)
    requires
        g.board_ok(),
        living_apart(g.players@),
    ensures
        living_apart(turn_players(g, names)),
{
    let n = g.player_count as int;
    let ps = turn_players(g, names);
    let ms = moved_players(g, names);
    assert forall|k: int| 0 <= k < ps.len() implies {
        &&& (#[trigger] ps[k]).x == ms[k].x
        &&& ps[k].y == ms[k].y
        &&& ps[k].alive ==> g.players@[k].alive
    } by {
        if k < n {
            assert(ps[k] == after_turn(g, names, k));
            assert(ms[k] == after_move(g, names, k));
        } else {
            assert(ps[k] == g.players@[k]);
            assert(ms[k] == g.players@[k]);
        }
    }
    assert forall|i: int, j: int|
        0 <= i < ps.len() && 0 <= j < ps.len() && i != j && ps[i].alive && ps[j].alive implies (
        ps[i].x != ps[j].x || ps[i].y != ps[j].y) by {
        lemma_moved_apart(g, names, i, j);
    }
}

/// The human appears apart from every player, living or fallen.
pub proof fn human_arrival_keeps_living_apart(g: Game, x: int, y: int)
    requires
        living_apart(g.players@),
        human_spawn(g, x, y),
    ensures
        living_apart(g.players@.push(new_human(x, y, g.turn))),
{
    let ps = g.players@;
    let qs = ps.push(new_human(x, y, g.turn));
    assert forall|i: int, j: int|
        0 <= i < qs.len() && 0 <= j < qs.len() && i != j && qs[i].alive && qs[j].alive implies (
        qs[i].x != qs[j].x || qs[i].y != qs[j].y) by {
        if i == ps.len() {
            assert(qs[j] == ps[j]);
        } else if j == ps.len() {
            assert(qs[i] == ps[i]);
        } else {
            assert(qs[i] == ps[i] && qs[j] == ps[j]);
        }
    }
}

/// A human move keeps living players apart: the human steps only onto a cell no living
/// player holds.
pub proof fn human_move_keeps_living_apart(g: Game, forward: int, side: int)
    requires
        g.wf(),
        living_apart(g.players@),
        living_human(g) is Some,
    ensures
        living_apart(human_moved(g, forward, side)),
{
    let ps = g.players@;
    let qs = human_moved(g, forward, side);
    let n = g.player_count as int;
    if qs != ps {
        assert forall|i: int, j: int|
            0 <= i < qs.len() && 0 <= j < qs.len() && i != j && qs[i].alive && qs[j].alive
                implies (qs[i].x != qs[j].x || qs[i].y != qs[j].y) by {
            if i == n {
                assert(qs[j] == ps[j]);
                if qs[i].x == qs[j].x && qs[i].y == qs[j].y {
                    assert(living_at(ps, qs[i].x as int, qs[i].y as int));
                }
            } else if j == n {
                assert(qs[i] == ps[i]);
                if qs[i].x == qs[j].x && qs[i].y == qs[j].y {
                    assert(living_at(ps, qs[j].x as int, qs[j].y as int));
                }
            } else {
                assert(qs[i] == ps[i] && qs[j] == ps[j]);
            }
        }
    }
}

/// Turning the human moves nobody.
pub proof fn human_turn_keeps_living_apart(g: Game, clockwise: bool)
    requires
        g.wf(),
        living_apart(g.players@),
        living_human(g) is Some,
    ensures
        living_apart(human_turned(g, clockwise)),
{
    lemma_apart_fewer(g.players@, human_turned(g, clockwise));
}

/// The human's shot moves nobody; it only fells agents.
pub proof fn human_shot_keeps_living_apart(g: Game)
    requires
        g.wf(),
        living_apart(g.players@),
        living_human(g) is Some,
    ensures
        living_apart(after_human_shot(g)),
{
    lemma_apart_fewer(g.players@, after_human_shot(g));
}

/// A generated game starts with its agents apart.
pub proof fn generated_players_live_apart(seed: Seq<u8>, generation: u64, w: int, h: int, n: nat)
    requires
        w >= 6,
        h >= 6,
        cells_fit(w, h),
        n <= generated_free(seed, generation, w, h).len(),
    ensures
        living_apart(generated_players(seed, generation, w, h, n)),
{
    generated_agents_start_apart(seed, generation, w, h, n);
}

} // verus!
