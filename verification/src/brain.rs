use vstd::prelude::*;
use vstd::string::StringExecFns;
use vstd::utf8::encode_utf8;
use vivalaakam_neuro_neat::Organism;

use crate::constants::{ACTION_COUNT, OBSERVATION_SIZE};
use crate::lineage::assign_serial;
use crate::neat::{
    all_node_ids, bred_by, bred_child, connection_targets, connection_targets_of, copied_child,
    genome_json_of, genome_topology, input_ids_of, input_node_ids, mutation_safe, node_ids_of, organism_identifier,
    starts_with, topology_of, DEFAULT_NODE_MAX,
};
use crate::rng::{phrase_state, xorshift, xorshift_n, Rng};
use crate::text::{decimal, push_decimal};

verus! {

/// Number of nodes of a fresh brain: one per input and one per action.
pub const BRAIN_NODES: usize = 184;

/// Number of connections of a fresh brain: every input to every action.
pub const BRAIN_CONNECTIONS: usize = 895;

/// Position of the first node record in a genome's weight vector (after the topology header).
pub const WEIGHTS_HEADER: usize = 6;

/// Width of one node or connection record in a genome's weight vector.
pub const WEIGHTS_RECORD: usize = 4;

/// The seed phrase of agent `id`'s fresh brain.
pub open spec fn agent_phrase_text(seed: Seq<char>, id: nat) -> Seq<char> {
    seed + ":agent:"@ + decimal(id)
}

/// The seed phrase of a generation's breeding draws.
pub open spec fn breed_phrase_text(seed: Seq<char>) -> Seq<char> {
    seed + ":breed"@
}

/// Where draw `k` of a fresh brain goes in its weight vector: the bias of each node, then the
/// weight of each connection.
pub open spec fn weight_slot(k: int) -> int {
    if k < BRAIN_NODES {
        WEIGHTS_HEADER + k * WEIGHTS_RECORD + 1
    } else {
        WEIGHTS_HEADER + BRAIN_NODES * WEIGHTS_RECORD + (k - BRAIN_NODES) * WEIGHTS_RECORD + 2
    }
}

/// The weight slots of a fresh brain and the raw draws that set them, from generator state
/// `s`: the `k`-th slot gets the `k + 1`-th draw.
pub open spec fn weight_plan(s: u64) -> Seq<(usize, u64)> {
    Seq::new(
        (BRAIN_NODES + BRAIN_CONNECTIONS) as nat,
        |k: int| (weight_slot(k) as usize, xorshift_n(s, (k + 1) as nat)),
    )
}

/// The parent pairs of a generation's children, from generator state `s`: child `k` takes
/// the `2k + 1`-th and `2k + 2`-th draws, each reduced modulo the number of parents.
pub open spec fn breed_plan(s: u64, parents: nat, children: nat) -> Seq<(usize, usize)> {
    Seq::new(
        children,
        |k: int|
            (
                ((xorshift_n(s, (2 * k + 1) as nat) as int) % (parents as int)) as usize,
                ((xorshift_n(s, (2 * k + 2) as nat) as int) % (parents as int)) as usize,
            ),
    )
}

/// One more step after `n` steps is `n + 1` steps.
pub proof fn lemma_xorshift_n_step(s: u64, n: nat)
    ensures
        xorshift_n(s, n + 1) == xorshift(xorshift_n(s, n)),
    decreases n,
{
    if n > 0 {
        lemma_xorshift_n_step(xorshift(s), (n - 1) as nat);
    } else {
        assert(xorshift_n(xorshift(s), 0) == xorshift(s));
    }
}

/// The seed phrase of agent `id`'s fresh brain: the seed, `:agent:` and the id in decimal.
pub fn agent_phrase(seed: &str, id: usize) -> (r: String)
    ensures
        r@ == agent_phrase_text(seed@, id as nat),
{
    let mut phrase = String::from_str(seed);
    phrase.append(":agent:");
    push_decimal(&mut phrase, id as u64);
    phrase
}

/// The seed phrase of a generation's breeding draws: the seed and `:breed`.
pub fn breed_phrase(seed: &str) -> (r: String)
    ensures
        r@ == breed_phrase_text(seed@),
{
    let mut phrase = String::from_str(seed);
    phrase.append(":breed");
    phrase
}

/// The weight slots of agent `id`'s fresh brain and the raw draws that set them. A draw `v`
/// becomes the weight `v / u64::MAX * 2 - 1`.
pub fn weight_draws(seed: &str, generation: u64, id: usize) -> (r: Vec<(usize, u64)>)
    ensures
        r@ == weight_plan(phrase_state(encode_utf8(agent_phrase_text(seed@, id as nat)), generation)),
{
    let phrase = agent_phrase(seed, id);
    let mut rng = Rng::from_phrase(phrase.as_str(), generation);
    let ghost s0 = rng@;
    let total = BRAIN_NODES + BRAIN_CONNECTIONS;
    let mut draws: Vec<(usize, u64)> = Vec::new();
    let mut k: usize = 0;
    while k < total
        invariant
            total == BRAIN_NODES + BRAIN_CONNECTIONS,
            k <= total,
            rng@ == xorshift_n(s0, k as nat),
            draws@ =~= weight_plan(s0).take(k as int),
        decreases total - k,
    {
        proof {
            lemma_xorshift_n_step(s0, k as nat);
        }
        let slot = if k < BRAIN_NODES {
            WEIGHTS_HEADER + k * WEIGHTS_RECORD + 1
        } else {
            WEIGHTS_HEADER + BRAIN_NODES * WEIGHTS_RECORD + (k - BRAIN_NODES) * WEIGHTS_RECORD + 2
        };
        let v = rng.next();
        draws.push((slot, v));
        k = k + 1;
    }
    draws
}

/// The parent pairs of a generation's `children` children drawn among `parent_count`
/// parents, from the seed phrase `seed:breed` and the generation.
pub fn breeding_pairs(seed: &str, generation: u64, children: usize, parent_count: usize) -> (r: Vec<
    (usize, usize),
>)
    requires
        parent_count > 0,
    ensures
        r@ == breed_plan(
            phrase_state(encode_utf8(breed_phrase_text(seed@)), generation),
            parent_count as nat,
            children as nat,
        ),
{
    let phrase = breed_phrase(seed);
    let mut rng = Rng::from_phrase(phrase.as_str(), generation);
    let ghost s0 = rng@;
    let mut pairs: Vec<(usize, usize)> = Vec::new();
    let mut k: usize = 0;
    while k < children
        invariant
            parent_count > 0,
            k <= children,
            rng@ == xorshift_n(s0, (2 * k) as nat),
            pairs@ =~= breed_plan(s0, parent_count as nat, children as nat).take(k as int),
        decreases children - k,
    {
        proof {
            lemma_xorshift_n_step(s0, (2 * k) as nat);
            lemma_xorshift_n_step(s0, (2 * k + 1) as nat);
        }
        let a = rng.range(parent_count);
        let b = rng.range(parent_count);
        pairs.push((a, b));
        k = k + 1;
    }
    pairs
}

/// Whether the crate can mutate the organism's genome without panicking (`mutation_safe`).
pub fn genome_mutable(o: &Organism) -> (r: bool)
    ensures
        r == mutation_safe(*o),
{
    let inputs = input_ids_of(o);
    let topology = topology_of(o);
    let nodes = node_ids_of(o);
    let targets = connection_targets_of(o);
    let fits = topology[4] >= DEFAULT_NODE_MAX || (topology[2] < DEFAULT_NODE_MAX && topology[3]
        < DEFAULT_NODE_MAX - topology[2]);
    if inputs.len() == 0 || !fits {
        return false;
    }
    let mut k: usize = 0;
    while k < targets.len()
        invariant
            k <= targets@.len(),
            targets@ == connection_targets(*o),
            nodes@ == all_node_ids(*o),
            input_node_ids(*o).len() > 0,
            genome_topology(*o)[4] >= DEFAULT_NODE_MAX || genome_topology(*o)[2]
                + genome_topology(*o)[3] < DEFAULT_NODE_MAX,
            forall|j: int| 0 <= j < k ==> !(#[trigger] all_node_ids(*o).contains(targets@[j])),
        decreases targets@.len() - k,
    {
        let t = targets[k];
        let mut i: usize = 0;
        while i < nodes.len()
            invariant
                i <= nodes@.len(),
                k < targets@.len(),
                t == targets@[k as int],
                targets@ == connection_targets(*o),
                nodes@ == all_node_ids(*o),
                input_node_ids(*o).len() > 0,
                genome_topology(*o)[4] >= DEFAULT_NODE_MAX || genome_topology(*o)[2]
                    + genome_topology(*o)[3] < DEFAULT_NODE_MAX,
                forall|m: int| 0 <= m < i ==> nodes@[m] != t,
            decreases nodes@.len() - i,
        {
            if nodes[i] == t {
                assert(all_node_ids(*o).contains(connection_targets(*o)[k as int]));
                return true;
            }
            i = i + 1;
        }
        assert(!all_node_ids(*o).contains(t));
        k = k + 1;
    }
    false
}

/// The parent pairs a generation's `children` children are bred from, among `parents`
/// parents: the draws of `breeding_pairs`.
pub open spec fn breeding_plan(seed: Seq<char>, generation: u64, parents: nat, children: nat) -> Seq<
    (usize, usize),
> {
    breed_plan(phrase_state(encode_utf8(breed_phrase_text(seed)), generation), parents, children)
}

/// Whether `child` is bred from `parent`: it has the parent's input nodes, and the parent's
/// nodes and connection targets come first in its own.
pub open spec fn bred_from(child: Organism, parent: Organism) -> bool {
    &&& input_node_ids(child) == input_node_ids(parent)
    &&& starts_with(all_node_ids(child), all_node_ids(parent))
    &&& starts_with(connection_targets(child), connection_targets(parent))
}

/// Whether `child` is what breeding gives of `parent` with `partner`: an outcome of mutating
/// the parent with the partner (`bred_by`) when the crate can mutate the parent without
/// panicking, and a copy of the parent's genome (same nodes, connections and JSON text)
/// otherwise; either way bred from the parent.
pub open spec fn bred_child_of(child: Organism, parent: Organism, partner: Organism) -> bool {
    &&& bred_from(child, parent)
    &&& mutation_safe(parent) ==> bred_by(parent, partner, child)
    &&& !mutation_safe(parent) ==> all_node_ids(child) == all_node_ids(parent)
        && connection_targets(child) == connection_targets(parent) && genome_json_of(child)
        == genome_json_of(parent)
}

/// Whether `children` are bred from `parents` by the plan of `seed` and `generation`: child `k`
/// from parent `plan[k].0` with parent `plan[k].1` as partner (copied when the crate could not
/// mutate that parent without panicking), carrying lineage serial `first + k`.
pub open spec fn bred_generation(
    children: Seq<Organism>,
    parents: Seq<Organism>,
    seed: Seq<char>,
    generation: u64,
    first: u64,
) -> bool {
    forall|k: int|
        0 <= k < children.len() ==> {
            let pair = breeding_plan(seed, generation, parents.len(), children.len())[k];
            &&& bred_child_of(#[trigger] children[k], parents[pair.0 as int], parents[pair.1 as int])
            &&& organism_identifier(children[k]) == Some(decimal((first + k) as nat))
        }
}

/// Breeds `player_count` children from the parents: child `k` comes from parent `plan[k].0`
/// mutated with parent `plan[k].1` as partner, the pairs drawn by `breeding_pairs` (the
/// parent's genome is copied when the crate could not mutate it without panicking), and
/// child `k` gets lineage serial `*lineage_serial + k`. With no parents there is nothing to
/// breed from: it gives `None` and sets aside the same `player_count` serials for fresh brains,
/// which the caller makes (`assign_serials`).
pub fn breed_next_generation(
    seed: &str,
    generation: u64,
    player_count: usize,
    parents: &[Organism],
    lineage_serial: &mut u64,
) -> (r: Option<Vec<Organism>>)
    requires
        *old(lineage_serial) + player_count <= u64::MAX,
    ensures
        parents@.len() == 0 <==> r is None,
        *final(lineage_serial) == *old(lineage_serial) + player_count,
        r matches Some(children) ==> {
            &&& children@.len() == player_count
            &&& bred_generation(children@, parents@, seed@, generation, *old(lineage_serial))
        },
{
    if parents.len() == 0 {
        *lineage_serial = *lineage_serial + player_count as u64;
        return None;
    }
    let pairs = breeding_pairs(seed, generation, player_count, parents.len());
    let ghost plan = breeding_plan(seed@, generation, parents@.len(), player_count as nat);
    let mut children: Vec<Organism> = Vec::new();
    let ghost start = *lineage_serial;
    let mut k: usize = 0;
    while k < player_count
        invariant
            k <= player_count,
            pairs@ == plan,
            plan == breeding_plan(seed@, generation, parents@.len(), player_count as nat),
            pairs@.len() == player_count,
            forall|j: int|
                0 <= j < player_count ==> (#[trigger] pairs@[j]).0 < parents@.len() && pairs@[j].1
                    < parents@.len(),
            children@.len() == k,
            *lineage_serial == start + k,
            start + player_count <= u64::MAX,
            forall|j: int|
                0 <= j < k ==> {
                    &&& bred_child_of(
                        #[trigger] children@[j],
                        parents@[plan[j].0 as int],
                        parents@[plan[j].1 as int],
                    )
                    &&& organism_identifier(children@[j]) == Some(decimal((start + j) as nat))
                },
        decreases player_count - k,
    {
        let (a, b) = pairs[k];
        let mut child = if genome_mutable(&parents[a]) {
            bred_child(&parents[a], &parents[b])
        } else {
            copied_child(&parents[a])
        };
        proof {
            assert(starts_with(all_node_ids(child), all_node_ids(parents@[a as int])) && starts_with(
                connection_targets(child),
                connection_targets(parents@[a as int]),
            )) by {
                if all_node_ids(child) == all_node_ids(parents@[a as int]) {
                    assert(all_node_ids(child).take(all_node_ids(child).len() as int) =~= all_node_ids(child));
                }
                if connection_targets(child) == connection_targets(parents@[a as int]) {
                    assert(connection_targets(child).take(connection_targets(child).len() as int)
                        =~= connection_targets(child));
                }
            }
        }
        assign_serial(&mut child, lineage_serial);
        children.push(child);
        k = k + 1;
    }
    Some(children)
}

} // verus!
