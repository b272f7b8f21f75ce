use vstd::prelude::*;
use vivalaakam_neuro_neat::{Config, Organism};

verus! {

/// A NEAT organism: a genome with its network and an optional identifier. The game carries
/// organisms around as opaque values.
#[verifier::external_type_specification]
#[verifier::external_body]
pub struct ExOrganism(vivalaakam_neuro_neat::Organism);

/// The node limit of the crate's default mutation parameters (`Config::default`).
pub const DEFAULT_NODE_MAX: usize = 1000;

/// What `Genome::get_topology` gives for the organism's genome: network type, version, the
/// genome's recorded input and output counts, its number of nodes and of connections.
pub uninterp spec fn genome_topology(o: Organism) -> Seq<usize>;

/// What `Genome::get_input_node_ids` gives for the organism's genome: the ids of its input
/// nodes.
pub uninterp spec fn input_node_ids(o: Organism) -> Seq<u32>;

/// What `Genome::get_all_node_ids` gives for the organism's genome: the ids of all its nodes.
pub uninterp spec fn all_node_ids(o: Organism) -> Seq<u32>;

/// The target node of each connection of the organism's genome, as `Genome::get_connections`
/// lists them.
pub uninterp spec fn connection_targets(o: Organism) -> Seq<u32>;

/// Calls `Genome::get_topology` on the organism's genome; the crate's source always gives six
/// numbers.
#[verifier::external_body]
pub(crate) fn topology_of(o: &Organism) -> (r: Vec<usize>)
    ensures
        r@ == genome_topology(*o),
        r@.len() == 6,
{
    o.genome.get_topology()
}

/// Calls `Genome::get_input_node_ids` on the organism's genome.
#[verifier::external_body]
pub(crate) fn input_ids_of(o: &Organism) -> (r: Vec<u32>)
    ensures
        r@ == input_node_ids(*o),
{
    o.genome.get_input_node_ids()
}

/// Calls `Genome::get_all_node_ids` on the organism's genome.
#[verifier::external_body]
pub(crate) fn node_ids_of(o: &Organism) -> (r: Vec<u32>)
    ensures
        r@ == all_node_ids(*o),
{
    o.genome.get_all_node_ids()
}

/// Calls `Genome::get_connections` on the organism's genome and hands out each connection's
/// target node (`Connection::get_to`).
#[verifier::external_body]
pub(crate) fn connection_targets_of(o: &Organism) -> (r: Vec<u32>)
    ensures
        r@ == connection_targets(*o),
{
    o.genome.get_connections().iter().map(|c| c.get_to()).collect()
}

/// Whether `Genome::mutate` runs on the organism's genome, with the default parameters, for
/// every outcome of its random draws: it has an input node (the node bias, activation and
/// enabled steps draw among input nodes and others), some connection leads to one of its nodes
/// (the connection steps draw among connections, and among those leading to a node), and a
/// genome below the node limit records fewer inputs and outputs than the limit (adding a node
/// draws an id between them). Crossover and the other steps only add nodes and connections,
/// so the genome the later steps see keeps these properties.
pub open spec fn mutation_safe(o: Organism) -> bool {
    let t = genome_topology(o);
    &&& input_node_ids(o).len() > 0
    &&& exists|k: int|
        0 <= k < connection_targets(o).len() && #[trigger] all_node_ids(o).contains(
            connection_targets(o)[k],
        )
    &&& (t[4] >= DEFAULT_NODE_MAX || t[2] + t[3] < DEFAULT_NODE_MAX)
}

/// Whether `s` begins with the entries of `prefix`, in order.
pub open spec fn starts_with<A>(s: Seq<A>, prefix: Seq<A>) -> bool {
    prefix.len() <= s.len() && s.take(prefix.len() as int) == prefix
}

/// Whether `r` is an outcome of breeding `a` with `b` as partner: of `Genome::mutate` on
/// `a`'s genome with `b`'s genome as crossover partner and the default parameters, then
/// `Organism::new`; the organism's identifier aside.
pub uninterp spec fn bred_by(a: Organism, b: Organism, r: Organism) -> bool;

/// Breeds a child organism: calls `Genome::mutate` on `a`'s genome with `b`'s genome as
/// crossover partner and the crate's default parameters (`Config::default`: node limit 1000,
/// connection limit 10000, positive weight and bias ranges, five weight rounds), then
/// `Organism::new` on the result (on a `Genome::clone` of `a`'s genome should the crate report
/// an error, which its source never does). The mutation draws from the thread's random number
/// generator; what holds of every outcome, by the crate's source: every step keeps the
/// genome's nodes and connections in place and only appends hidden nodes and connections, so
/// the child has `a`'s input nodes, and `a`'s nodes and connection targets come first in its
/// own; a new organism has no identifier. The result is an outcome of breeding `a` with `b`
/// (`bred_by`); nothing claims that two calls breed alike. The random steps panic on some
/// genomes; `mutation_safe` leaves those out.
#[verifier::external_body]
pub(crate) fn bred_child(a: &Organism, b: &Organism) -> (r: Organism)
    requires
        mutation_safe(*a),
    ensures
        bred_by(*a, *b, r),
        organism_identifier(r) is None,
        input_node_ids(r) == input_node_ids(*a),
        starts_with(all_node_ids(r), all_node_ids(*a)),
        starts_with(connection_targets(r), connection_targets(*a)),
{
    let genome = match a.genome.mutate(Some(&b.genome), &Config::default()) {
        Ok(g) => g,
        Err(_) => a.genome.clone(),
    };
    Organism::new(genome)
}

/// A copy of an organism without its identifier: calls `Organism::new` on a `Genome::clone`
/// of its genome. The copy has the same genome, so the same nodes, connections and JSON
/// text, and no identifier.
#[verifier::external_body]
pub(crate) fn copied_child(a: &Organism) -> (r: Organism)
    ensures
        organism_identifier(r) is None,
        genome_json_of(r) == genome_json_of(*a),
        input_node_ids(r) == input_node_ids(*a),
        all_node_ids(r) == all_node_ids(*a),
        connection_targets(r) == connection_targets(*a),
{
    Organism::new(a.genome.clone())
}

/// The JSON text of the organism's genome (`Organism::as_json`).
pub uninterp spec fn genome_json_of(o: Organism) -> Seq<char>;

/// Calls `Organism::as_json`: the JSON text of the organism's genome.
#[verifier::external_body]
pub(crate) fn genome_json(o: &Organism) -> (r: String)
    ensures
        r@ == genome_json_of(*o),
{
    o.as_json()
}

/// The identifier an organism holds: the field that `Organism::get_id` reads and
/// `Organism::set_id` writes.
pub uninterp spec fn organism_identifier(o: Organism) -> Option<Seq<char>>;

/// Calls `Organism::get_id` and copies the identifier: the organism's identifier, if it has
/// one.
#[verifier::external_body]
pub(crate) fn organism_id(o: &Organism) -> (r: Option<String>)
    ensures
        match r {
            Some(id) => organism_identifier(*o) == Some(id@),
            None => organism_identifier(*o) is None,
        },
{
    o.get_id().cloned()
}

/// Calls `Organism::set_id`, which stores `id` as the organism's identifier; the crate's
/// source changes nothing else, so the genome, and with it its nodes, connections and JSON
/// text, stays as it was.
#[verifier::external_body]
pub(crate) fn set_organism_id(o: &mut Organism, id: String)
    ensures
        organism_identifier(*final(o)) == Some(id@),
        input_node_ids(*final(o)) == input_node_ids(*old(o)),
        all_node_ids(*final(o)) == all_node_ids(*old(o)),
        connection_targets(*final(o)) == connection_targets(*old(o)),
        genome_topology(*final(o)) == genome_topology(*old(o)),
        genome_json_of(*final(o)) == genome_json_of(*old(o)),
        forall|a: Organism, b: Organism| #[trigger] bred_by(a, b, *final(o)) == bred_by(a, b, *old(o)),
{
    o.set_id(id)
}

} // verus!
