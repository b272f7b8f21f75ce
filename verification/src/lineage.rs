use vstd::prelude::*;
use vivalaakam_neuro_neat::Organism;

use crate::neat::{
    all_node_ids, bred_by, connection_targets, genome_json_of, genome_topology, input_node_ids,
    organism_id, organism_identifier, set_organism_id,
};
use crate::text::{decimal, parse_decimal, parse_decimal_roundtrip, parse_unsigned, push_decimal};

verus! {

/// What a lineage identifier denotes: a serial number, when it parses as one.
pub open spec fn serial_of(id: Seq<char>) -> Option<u64> {
    match parse_unsigned(id, u64::MAX as nat) {
        Some(v) => Some(v as u64),
        None => None,
    }
}

/// Parses a lineage identifier as a serial number.
pub fn parse_serial(id: &str) -> (r: Option<u64>)
    ensures
        r == serial_of(id@),
{
    parse_decimal(id, u64::MAX)
}

/// The identifier text of a serial number: its decimal digits.
pub fn serial_text(serial: u64) -> (r: String)
    ensures
        r@ == decimal(serial as nat),
{
    let mut text = String::new();
    push_decimal(&mut text, serial);
    text
}

/// The serial an identifier gives: the serial it parses as, when there is an identifier.
pub open spec fn serial_in(id: Option<Seq<char>>) -> Option<u64> {
    match id {
        Some(text) => serial_of(text),
        None => None,
    }
}

/// The serial number stored in an organism's identifier, if it has one that parses.
pub fn organism_serial(organism: &Organism) -> (r: Option<u64>)
    ensures
        r == serial_in(organism_identifier(*organism)),
{
    match organism_id(organism) {
        Some(id) => parse_serial(id.as_str()),
        None => None,
    }
}

/// Assigns the next lineage serial to the organism, advances the counter, and returns the
/// serial.
pub fn assign_serial(organism: &mut Organism, next: &mut u64) -> (r: u64)
    requires
        *old(next) < u64::MAX,
    ensures
        r == *old(next),
        *final(next) == *old(next) + 1,
        organism_identifier(*final(organism)) == Some(decimal(r as nat)),
        input_node_ids(*final(organism)) == input_node_ids(*old(organism)),
        all_node_ids(*final(organism)) == all_node_ids(*old(organism)),
        connection_targets(*final(organism)) == connection_targets(*old(organism)),
        genome_topology(*final(organism)) == genome_topology(*old(organism)),
        genome_json_of(*final(organism)) == genome_json_of(*old(organism)),
        forall|a: Organism, b: Organism|
            #[trigger] bred_by(a, b, *final(organism)) == bred_by(a, b, *old(organism)),
{
    let serial = *next;
    *next = *next + 1;
    set_organism_id(organism, serial_text(serial));
    serial
}

/// Assigns the next lineage serial to the organism unless it already has an identifier.
pub fn tag_if_missing(organism: &mut Organism, next: &mut u64)
    requires
        *old(next) < u64::MAX,
    ensures
        organism_identifier(*old(organism)) is Some ==> *final(organism) == *old(organism)
            && *final(next) == *old(next),
        organism_identifier(*old(organism)) is None ==> organism_identifier(*final(organism))
            == Some(decimal(*old(next) as nat)) && *final(next) == *old(next) + 1,
{
    if organism_id(organism).is_none() {
        assign_serial(organism, next);
    }
}

/// Gives fresh brains their lineage serials: brain `k` gets serial `first + k`, and keeps its
/// genome.
pub fn assign_serials(brains: Vec<Organism>, first: u64) -> (r: Vec<Organism>)
    requires
        first + brains@.len() <= u64::MAX,
    ensures
        r@.len() == brains@.len(),
        forall|k: int|
            0 <= k < brains@.len() ==> {
                &&& organism_identifier(#[trigger] r@[k]) == Some(decimal((first + k) as nat))
                &&& input_node_ids(r@[k]) == input_node_ids(brains@[k])
                &&& all_node_ids(r@[k]) == all_node_ids(brains@[k])
                &&& connection_targets(r@[k]) == connection_targets(brains@[k])
                &&& genome_json_of(r@[k]) == genome_json_of(brains@[k])
            },
{
    let ghost given = brains@;
    let mut rest = brains;
    let mut out: Vec<Organism> = Vec::new();
    let mut next = first;
    while rest.len() > 0
        invariant
            out@.len() + rest@.len() == given.len(),
            rest@ == given.skip(out@.len() as int),
            next == first + out@.len(),
            first + given.len() <= u64::MAX,
            forall|k: int|
                0 <= k < out@.len() ==> {
                    &&& organism_identifier(#[trigger] out@[k]) == Some(decimal((first + k) as nat))
                    &&& input_node_ids(out@[k]) == input_node_ids(given[k])
                    &&& all_node_ids(out@[k]) == all_node_ids(given[k])
                    &&& connection_targets(out@[k]) == connection_targets(given[k])
                    &&& genome_json_of(out@[k]) == genome_json_of(given[k])
                },
        decreases rest@.len(),
    {
        let ghost n = out@.len() as int;
        let mut o = rest.remove(0);
        assert(o == given[n]);
        assert(rest@ =~= given.skip(n + 1));
        assign_serial(&mut o, &mut next);
        out.push(o);
    }
    out
}

/// A serial written as an organism's identifier reads back as the same serial.
pub proof fn serial_text_roundtrip(serial: u64)
    ensures
        serial_of(decimal(serial as nat)) == Some(serial),
{
    parse_decimal_roundtrip(serial as nat, u64::MAX as nat);
}

} // verus!
