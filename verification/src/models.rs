use std::collections::HashSet;
use vstd::prelude::*;
use vstd::string::StringExecFns;

use vivalaakam_neuro_neat::{Genome, Organism};

use crate::lineage::{organism_serial, parse_serial, serial_in, serial_of, serial_text};
use crate::neat::{all_node_ids, genome_json, genome_json_of, organism_identifier, set_organism_id};
use crate::selection::{rank_by_score, ranking};
use crate::state::{end_turn, score_value, Game};
use crate::text::{decimal, hex16, hex16_injective, push_decimal, push_hex16};

verus! {

/// The file of a saved model: `models/` and the sixteen hexadecimal digits of its weights
/// hash, then `.json`.
pub fn model_path(hash: u64) -> (r: String)
    ensures
        r@ == "models/"@ + hex16(hash) + ".json"@,
{
    let mut path = String::from_str("models/");
    push_hex16(&mut path, hash);
    path.append(".json");
    path
}

/// Different weight hashes give different model files.
pub proof fn model_paths_distinct(a: u64, b: u64)
    requires
        a != b,
    ensures
        "models/"@ + hex16(a) + ".json"@ != "models/"@ + hex16(b) + ".json"@,
{
    reveal_strlit("models/");
    reveal_strlit(".json");
    if "models/"@ + hex16(a) + ".json"@ == "models/"@ + hex16(b) + ".json"@ {
        assert(("models/"@ + hex16(a) + ".json"@).subrange(7, 23) =~= hex16(a));
        assert(("models/"@ + hex16(b) + ".json"@).subrange(7, 23) =~= hex16(b));
        hex16_injective(a, b);
    }
}

/// Whether agent `k + 1` is the best of generation: no agent scores more, and no agent with
/// a lower id scores as much.
pub open spec fn is_generation_best(g: Game, k: int) -> bool {
    &&& 0 <= k < g.player_count
    &&& forall|j: int|
        0 <= j < g.player_count ==> score_value(g.turn, #[trigger] g.players@[j]) < score_value(
            g.turn,
            g.players@[k],
        ) || (score_value(g.turn, g.players@[j]) == score_value(g.turn, g.players@[k]) && k <= j)
}

/// The position of the generation's best agent: the highest score, the lowest id among
/// equal scores. `None` when there are no agents.
pub fn generation_best(game: &Game) -> (r: Option<usize>)
    requires
        game.players@.len() >= game.player_count,
        forall|k: int|
            0 <= k < game.player_count ==> {
                let p = #[trigger] game.players@[k];
                &&& end_turn(game.turn, p) >= p.born_turn
                &&& score_value(game.turn, p) <= u64::MAX
            },
    ensures
        r is None <==> game.player_count == 0,
        r matches Some(k) ==> is_generation_best(*game, k as int),
{
    let n = game.player_count;
    if n == 0 {
        return None;
    }
    let mut best: usize = 0;
    let mut best_score = game.score(&game.players[0]);
    let mut k: usize = 1;
    while k < n
        invariant
            1 <= k <= n,
            best < k,
            game.players@.len() >= n,
            n == game.player_count,
            forall|j: int|
                0 <= j < n ==> {
                    let p = #[trigger] game.players@[j];
                    &&& end_turn(game.turn, p) >= p.born_turn
                    &&& score_value(game.turn, p) <= u64::MAX
                },
            best_score == score_value(game.turn, game.players@[best as int]),
            forall|j: int|
                0 <= j < k ==> score_value(game.turn, #[trigger] game.players@[j]) < best_score || (
                score_value(game.turn, game.players@[j]) == best_score && best <= j),
        decreases n - k,
    {
        let s = game.score(&game.players[k]);
        if s > best_score {
            best = k;
            best_score = s;
        }
        k = k + 1;
    }
    Some(best)
}

/// The largest lineage among `lineages`, ignoring the absent ones; 0 when there is none.
pub open spec fn max_lineage(lineages: Seq<Option<u64>>) -> u64
    decreases lineages.len(),
{
    if lineages.len() == 0 {
        0
    } else {
        let rest = max_lineage(lineages.drop_last());
        match lineages.last() {
            Some(v) => if v > rest {
                v
            } else {
                rest
            },
            None => rest,
        }
    }
}

/// The largest lineage recorded among saved models; 0 when there is none.
pub fn highest_lineage(lineages: &Vec<Option<u64>>) -> (r: u64)
    ensures
        r == max_lineage(lineages@),
{
    let mut best: u64 = 0;
    let mut i: usize = 0;
    while i < lineages.len()
        invariant
            i <= lineages@.len(),
            best == max_lineage(lineages@.take(i as int)),
        decreases lineages@.len() - i,
    {
        assert(lineages@.take(i + 1).drop_last() =~= lineages@.take(i as int));
        match lineages[i] {
            Some(v) => {
                if v > best {
                    best = v;
                }
            },
            None => {},
        }
        i = i + 1;
    }
    assert(lineages@.take(i as int) =~= lineages@);
    best
}

/// The first lineage serial to hand out after the largest one in use: one more, saturating.
pub fn first_free_serial(highest: u64) -> (r: u64)
    ensures
        r == if highest == u64::MAX {
            u64::MAX
        } else {
            (highest + 1) as u64
        },
        r >= 1,
{
    highest.saturating_add(1)
}

/// Whether entry `i` is the first with its hash.
pub open spec fn first_of_hash(entries: Seq<(u64, u64)>, i: int) -> bool {
    forall|j: int| 0 <= j < i ==> (#[trigger] entries[j]).1 != entries[i].1
}

/// The positions of the entries that are the first with their hash, in order.
pub open spec fn unique_positions(entries: Seq<(u64, u64)>, n: int) -> Seq<usize>
    decreases n,
{
    if n <= 0 {
        Seq::empty()
    } else {
        let before = unique_positions(entries, n - 1);
        if first_of_hash(entries, n - 1) {
            before.push((n - 1) as usize)
        } else {
            before
        }
    }
}

/// The scores of the entries that are the first with their hash, in order.
pub open spec fn unique_scores(entries: Seq<(u64, u64)>) -> Seq<u64> {
    unique_positions(entries, entries.len() as int).map_values(|i: usize| entries[i as int].0)
}

/// The entry positions that a ranking of the unique entries lists.
pub open spec fn ranked_positions(entries: Seq<(u64, u64)>, order: Seq<usize>) -> Seq<usize> {
    order.map_values(|o: usize| unique_positions(entries, entries.len() as int)[o as int])
}

/// Chooses which saved models to load from their `(score, weights hash)` pairs: the first
/// model of each hash, ordered from the highest score to the lowest, equal scores in file
/// order. Gives their positions.
pub fn select_models(entries: &Vec<(u64, u64)>) -> (r: Vec<usize>)
    ensures
        r@ == ranked_positions(entries@, ranking(unique_scores(entries@))),
{
    let mut kept: Vec<usize> = Vec::new();
    let mut scores: Vec<u64> = Vec::new();
    let mut seen: HashSet<u64> = HashSet::new();
    let mut i: usize = 0;
    while i < entries.len()
        invariant
            i <= entries@.len(),
            kept@ == unique_positions(entries@, i as int),
            scores@ == kept@.map_values(|k: usize| entries@[k as int].0),
            forall|a: int| 0 <= a < kept@.len() ==> #[trigger] kept@[a] < i,
            forall|h: u64|
                #[trigger] seen@.contains(h) <==> exists|t: int|
                    0 <= t < i && (#[trigger] entries@[t]).1 == h,
        decreases entries@.len() - i,
    {
        proof {
            broadcast use vstd::std_specs::hash::group_hash_axioms;
        }
        let h = entries[i].1;
        let fresh = seen.insert(h);
        assert(fresh == first_of_hash(entries@, i as int)) by {
            if !fresh {
                let t = choose|t: int| 0 <= t < i && (#[trigger] entries@[t]).1 == h;
                assert(entries@[t].1 == entries@[i as int].1);
            }
        }
        if fresh {
            kept.push(i);
            scores.push(entries[i].0);
        }
        assert(scores@ =~= kept@.map_values(|k: usize| entries@[k as int].0));
        assert forall|g: u64| #[trigger] seen@.contains(g) <==> exists|t: int|
            0 <= t < i + 1 && (#[trigger] entries@[t]).1 == g by {
            if g == h {
                assert(entries@[i as int].1 == g);
            }
        }
        i = i + 1;
    }
    let order = rank_by_score(&scores);
    let mut picked: Vec<usize> = Vec::new();
    let mut k: usize = 0;
    while k < order.len()
        invariant
            k <= order@.len(),
            order@.len() == kept@.len(),
            forall|a: int| 0 <= a < order@.len() ==> #[trigger] order@[a] < kept@.len(),
            picked@ =~= order@.take(k as int).map_values(|o: usize| kept@[o as int]),
        decreases order@.len() - k,
    {
        picked.push(kept[order[k]]);
        k = k + 1;
    }
    assert(order@.take(k as int) =~= order@);
    assert(scores@ == unique_scores(entries@));
    assert(picked@ == ranked_positions(entries@, order@));
    picked
}

// ---------------------------------------------------------------------------------------------
// Saved model files: JSON text with a genome, and optionally a score and a lineage.
// ---------------------------------------------------------------------------------------------

/// Whether the text parses as JSON (`serde_json::from_str` into `serde_json::Value`).
pub uninterp spec fn json_is_valid(text: Seq<char>) -> bool;

/// Whether the text parses as JSON with field `key` at the top (`Value::get`).
pub uninterp spec fn json_has_key(text: Seq<char>, key: Seq<char>) -> bool;

/// The top-level field `key` of the JSON text as an unsigned 64-bit number
/// (`Value::get`, then `Value::as_u64`).
pub uninterp spec fn json_u64_at(text: Seq<char>, key: Seq<char>) -> Option<u64>;

/// The top-level field `key` of the JSON text as a string (`Value::get`, then
/// `Value::as_str`).
pub uninterp spec fn json_str_at(text: Seq<char>, key: Seq<char>) -> Option<Seq<char>>;

/// Whether the top-level field `key` of the JSON text reads as a NEAT genome
/// (`serde_json::from_value` into `Genome`).
pub uninterp spec fn genome_at_parses(text: Seq<char>, key: Seq<char>) -> bool;

/// The node ids (`Genome::get_all_node_ids`) of the genome that the top-level field `key` of
/// the JSON text reads as.
pub uninterp spec fn genome_node_ids_at(text: Seq<char>, key: Seq<char>) -> Seq<u32>;

/// The JSON text (`Genome::as_json`) of the genome that the top-level field `key` of the JSON
/// text reads as.
pub uninterp spec fn genome_json_at(text: Seq<char>, key: Seq<char>) -> Seq<char>;

/// Whether the whole text reads as a NEAT genome (`serde_json::from_str` into `Genome`).
pub uninterp spec fn genome_text_parses(text: Seq<char>) -> bool;

/// The node ids of the genome that the whole text reads as.
pub uninterp spec fn genome_node_ids_in(text: Seq<char>) -> Seq<u32>;

/// The JSON text (`Genome::as_json`) of the genome that the whole text reads as.
pub uninterp spec fn genome_json_in(text: Seq<char>) -> Seq<char>;

/// The number of entries of the JSON text when it is an array (`Value::as_array`).
pub uninterp spec fn json_array_length(text: Seq<char>) -> Option<nat>;

/// Entry `i` of the JSON array text as an unsigned 64-bit number (`Value::get`, then
/// `Value::as_u64`).
pub uninterp spec fn json_u64_at_index(text: Seq<char>, i: nat) -> Option<u64>;

/// Whether entry `i` of the JSON array text is `null` (`Value::is_null`).
pub uninterp spec fn json_null_at_index(text: Seq<char>, i: nat) -> bool;

/// Whether entry `i` of the JSON array text reads as a NEAT genome.
pub uninterp spec fn genome_at_index_parses(text: Seq<char>, i: nat) -> bool;

/// The node ids of the genome that entry `i` of the JSON array text reads as.
pub uninterp spec fn genome_node_ids_at_index(text: Seq<char>, i: nat) -> Seq<u32>;

/// The JSON text (`Genome::as_json`) of the genome that entry `i` of the JSON array text
/// reads as.
pub uninterp spec fn genome_json_at_index(text: Seq<char>, i: nat) -> Seq<char>;

/// Calls `serde_json::from_str` into a `Value` and tells whether it succeeded.
#[verifier::external_body]
fn json_valid(text: &str) -> (r: bool)
    ensures
        r == json_is_valid(text@),
{
    serde_json::from_str::<serde_json::Value>(text).is_ok()
}

/// Calls `serde_json::from_str` into a `Value` and `Value::get` with `key`: whether the field
/// is there.
#[verifier::external_body]
fn json_has(text: &str, key: &str) -> (r: bool)
    ensures
        r == json_has_key(text@, key@),
{
    serde_json::from_str::<serde_json::Value>(text).ok().is_some_and(|v| v.get(key).is_some())
}

/// Calls `serde_json::from_str` into a `Value`, `Value::get` with `key` and `Value::as_u64`.
#[verifier::external_body]
fn json_u64(text: &str, key: &str) -> (r: Option<u64>)
    ensures
        r == json_u64_at(text@, key@),
{
    serde_json::from_str::<serde_json::Value>(text).ok().and_then(|v| v.get(key).and_then(|f| f.as_u64()))
}

/// Calls `serde_json::from_str` into a `Value`, `Value::get` with `key` and `Value::as_str`.
#[verifier::external_body]
fn json_str(text: &str, key: &str) -> (r: Option<String>)
    ensures
        match r {
            Some(s) => json_str_at(text@, key@) == Some(s@),
            None => json_str_at(text@, key@) is None,
        },
{
    serde_json::from_str::<serde_json::Value>(text).ok().and_then(
        |v| v.get(key).and_then(|f| f.as_str()).map(|f| f.to_string()),
    )
}

/// Calls `serde_json::from_str` into a `Value` and `Value::as_array`: the array's length.
#[verifier::external_body]
fn json_array_len(text: &str) -> (r: Option<usize>)
    ensures
        match r {
            Some(n) => json_array_length(text@) == Some(n as nat),
            None => json_array_length(text@) is None,
        },
{
    serde_json::from_str::<serde_json::Value>(text).ok().and_then(|v| v.as_array().map(|a| a.len()))
}

/// Calls `serde_json::from_str` into a `Value`, `Value::get` with index `i` and
/// `Value::as_u64`.
#[verifier::external_body]
fn json_index_u64(text: &str, i: usize) -> (r: Option<u64>)
    ensures
        r == json_u64_at_index(text@, i as nat),
{
    serde_json::from_str::<serde_json::Value>(text).ok().and_then(|v| v.get(i).and_then(|f| f.as_u64()))
}

/// Calls `serde_json::from_str` into a `Value`, `Value::get` with index `i` and
/// `Value::is_null`.
#[verifier::external_body]
fn json_index_null(text: &str, i: usize) -> (r: bool)
    ensures
        r == json_null_at_index(text@, i as nat),
{
    serde_json::from_str::<serde_json::Value>(text).ok().is_some_and(|v| v.get(i).is_some_and(|f| f.is_null()))
}

/// Reads the genome in field `key` of the JSON text (`serde_json::from_str` into a `Value`,
/// `Value::get`, `serde_json::from_value` into a `Genome`) and makes an organism of it
/// (`Organism::new`, which keeps the genome as read and gives no identifier).
#[verifier::external_body]
fn organism_at(text: &str, key: &str) -> (r: Option<Organism>)
    ensures
        r is Some == genome_at_parses(text@, key@),
        r matches Some(o) ==> all_node_ids(o) == genome_node_ids_at(text@, key@)
            && genome_json_of(o) == genome_json_at(text@, key@) && organism_identifier(o) is None,
{
    serde_json::from_str::<serde_json::Value>(text).ok().and_then(
        |v| v.get(key).and_then(|f| serde_json::from_value::<Genome>(f.clone()).ok()),
    ).map(Organism::new)
}

/// Reads the genome in entry `i` of the JSON array text and makes an organism of it
/// (`Organism::new`, which keeps the genome as read and gives no identifier).
#[verifier::external_body]
fn organism_at_index(text: &str, i: usize) -> (r: Option<Organism>)
    ensures
        r is Some == genome_at_index_parses(text@, i as nat),
        r matches Some(o) ==> all_node_ids(o) == genome_node_ids_at_index(text@, i as nat)
            && genome_json_of(o) == genome_json_at_index(text@, i as nat) && organism_identifier(o)
            is None,
{
    serde_json::from_str::<serde_json::Value>(text).ok().and_then(
        |v| v.get(i).and_then(|f| serde_json::from_value::<Genome>(f.clone()).ok()),
    ).map(Organism::new)
}

/// Reads the whole text as a genome (`serde_json::from_str` into a `Genome`) and makes an
/// organism of it (`Organism::new`, which keeps the genome as read and gives no identifier).
#[verifier::external_body]
fn organism_from_text(text: &str) -> (r: Option<Organism>)
    ensures
        r is Some == genome_text_parses(text@),
        r matches Some(o) ==> all_node_ids(o) == genome_node_ids_in(text@) && genome_json_of(o)
            == genome_json_in(text@) && organism_identifier(o) is None,
{
    serde_json::from_str::<Genome>(text).ok().map(Organism::new)
}

/// The lineage a saved model records: its `lineage` field as a number, or else as decimal
/// text.
pub open spec fn lineage_in(text: Seq<char>) -> Option<u64> {
    match json_u64_at(text, "lineage"@) {
        Some(v) => Some(v),
        None => match json_str_at(text, "lineage"@) {
            Some(s) => serial_of(s),
            None => None,
        },
    }
}

/// Whether entry `i` of a saved model array is an optional number: `null` or a number.
pub open spec fn optional_number_at(text: Seq<char>, i: nat) -> bool {
    json_null_at_index(text, i) || json_u64_at_index(text, i) is Some
}

/// Whether the text is a saved model written as an array: exactly a score, a lineage (each
/// `null` or a number) and a genome.
pub open spec fn saved_as_array(text: Seq<char>) -> bool {
    &&& json_array_length(text) == Some(3nat)
    &&& optional_number_at(text, 0)
    &&& optional_number_at(text, 1)
    &&& genome_at_index_parses(text, 2)
}

/// The score a saved model records: entry 0 of the array form, or the `score` field of a
/// text with a `genome` field; 0 when missing or not a number, and 0 for a bare genome.
pub open spec fn score_in(text: Seq<char>) -> u64 {
    if saved_as_array(text) {
        match json_u64_at_index(text, 0) {
            Some(v) => v,
            None => 0,
        }
    } else if json_has_key(text, "genome"@) {
        match json_u64_at(text, "score"@) {
            Some(v) => v,
            None => 0,
        }
    } else {
        0
    }
}

/// Whether a saved model reads: the text is JSON, and it is the array form, or its `genome`
/// field reads as a genome, or, without such a field, the whole text does.
pub open spec fn model_readable(text: Seq<char>) -> bool {
    &&& json_is_valid(text)
    &&& (saved_as_array(text) || if json_has_key(text, "genome"@) {
        genome_at_parses(text, "genome"@)
    } else {
        genome_text_parses(text)
    })
}

/// The node ids of the genome a saved model holds, by the form it is written in.
pub open spec fn saved_node_ids(text: Seq<char>) -> Seq<u32> {
    if saved_as_array(text) {
        genome_node_ids_at_index(text, 2)
    } else if json_has_key(text, "genome"@) {
        genome_node_ids_at(text, "genome"@)
    } else {
        genome_node_ids_in(text)
    }
}

/// The JSON text of the genome a saved model holds, by the form it is written in.
pub open spec fn saved_genome_json(text: Seq<char>) -> Seq<char> {
    if saved_as_array(text) {
        genome_json_at_index(text, 2)
    } else if json_has_key(text, "genome"@) {
        genome_json_at(text, "genome"@)
    } else {
        genome_json_in(text)
    }
}

/// The lineage a saved model records.
pub fn saved_lineage(text: &str) -> (r: Option<u64>)
    ensures
        r == lineage_in(text@),
{
    match json_u64(text, "lineage") {
        Some(v) => Some(v),
        None => match json_str(text, "lineage") {
            Some(s) => parse_serial(s.as_str()),
            None => None,
        },
    }
}

/// Whether the text is a saved model written as an array.
fn is_saved_array(text: &str) -> (r: bool)
    ensures
        r == saved_as_array(text@),
{
    match json_array_len(text) {
        Some(n) => n == 3 && (json_index_null(text, 0) || json_index_u64(text, 0).is_some()) && (
        json_index_null(text, 1) || json_index_u64(text, 1).is_some()) && organism_at_index(
            text,
            2,
        ).is_some(),
        None => false,
    }
}

/// The score a saved model records.
pub fn saved_score(text: &str) -> (r: u64)
    ensures
        r == score_in(text@),
{
    if is_saved_array(text) {
        match json_index_u64(text, 0) {
            Some(v) => v,
            None => 0,
        }
    } else if json_has(text, "genome") {
        match json_u64(text, "score") {
            Some(v) => v,
            None => 0,
        }
    } else {
        0
    }
}

/// Reads a saved model: its score and an organism with its genome, identified by its lineage
/// when it records one. `None` when the text does not read as a model.
pub fn saved_organism(text: &str) -> (r: Option<(u64, Organism)>)
    ensures
        r is Some <==> model_readable(text@),
        r matches Some((score, o)) ==> {
            &&& score == score_in(text@)
            &&& all_node_ids(o) == saved_node_ids(text@)
            &&& genome_json_of(o) == saved_genome_json(text@)
            &&& organism_identifier(o) == match lineage_in(text@) {
                Some(l) => Some(decimal(l as nat)),
                None => None,
            }
        },
{
    if !json_valid(text) {
        return None;
    }
    let read = if is_saved_array(text) {
        organism_at_index(text, 2)
    } else if json_has(text, "genome") {
        organism_at(text, "genome")
    } else {
        organism_from_text(text)
    };
    match read {
        None => None,
        Some(organism) => {
            let mut organism = organism;
            match saved_lineage(text) {
                Some(l) => set_organism_id(&mut organism, serial_text(l)),
                None => {},
            }
            Some((saved_score(text), organism))
        },
    }
}

/// The lineage each saved model records, in order.
pub open spec fn recorded_lineages(texts: Seq<String>) -> Seq<Option<u64>> {
    Seq::new(texts.len(), |i: int| json_u64_at(texts[i]@, "lineage"@))
}

/// The largest lineage number the saved models record; 0 when none does.
pub fn max_saved_lineage(texts: &Vec<String>) -> (r: u64)
    ensures
        r == max_lineage(recorded_lineages(texts@)),
{
    let mut lineages: Vec<Option<u64>> = Vec::new();
    let mut i: usize = 0;
    while i < texts.len()
        invariant
            i <= texts@.len(),
            lineages@ == recorded_lineages(texts@).take(i as int),
        decreases texts@.len() - i,
    {
        lineages.push(json_u64(texts[i].as_str(), "lineage"));
        proof {
            assert(lineages@ =~= recorded_lineages(texts@).take(i + 1));
        }
        i = i + 1;
    }
    assert(lineages@ =~= recorded_lineages(texts@));
    highest_lineage(&lineages)
}

/// The text of `s` quoted as Rust's `Debug` formatting writes a string.
pub uninterp spec fn debug_quoted(s: Seq<char>) -> Seq<char>;

/// Formats the string with `{:?}` (`Debug` for `str`): quoted, with escapes.
#[verifier::external_body]
fn quoted(s: &str) -> (r: String)
    ensures
        r@ == debug_quoted(s@),
{
    format!("{:?}", s)
}

/// The text of a saved model file: the seed, generation, lineage, player id, score, treats
/// (none in this game), tiles walked, kills, the weights hash as sixteen hexadecimal digits,
/// and the genome's JSON, one field per line.
pub open spec fn model_file(
    seed: Seq<char>,
    generation: u64,
    lineage: u64,
    player_id: usize,
    score: u64,
    tiles_walked: u64,
    kills: u64,
    hash: u64,
    genome: Seq<char>,
) -> Seq<char> {
    "{\n  \"seed\": "@ + debug_quoted(seed) + ",\n  \"generation\": "@ + decimal(generation as nat)
        + ",\n  \"lineage\": "@ + decimal(lineage as nat) + ",\n  \"player_id\": "@ + decimal(
        player_id as nat,
    ) + ",\n  \"score\": "@ + decimal(score as nat) + ",\n  \"treats\": 0,\n  \"tiles_walked\": "@
        + decimal(tiles_walked as nat) + ",\n  \"kills\": "@ + decimal(kills as nat)
        + ",\n  \"weights_hash\": \""@ + hex16(hash) + "\",\n  \"genome\": "@ + genome + "\n}"@
}

impl Game {
    /// The model file of the agent at position `best`, whose genome's weights hash to `hash`:
    /// its lineage serial (0 without one), id, score, tiles walked and kills, and its genome.
    pub fn model_file_text(&self, best: usize, hash: u64) -> (r: String)
        requires
            best < self.player_count,
            self.players@.len() >= self.player_count,
            self.brains@.len() == self.player_count,
            end_turn(self.turn, self.players@[best as int]) >= self.players@[best as int].born_turn,
            score_value(self.turn, self.players@[best as int]) <= u64::MAX,
        ensures
            r@ == model_file(
                self.seed@,
                self.generation,
                match serial_in(organism_identifier(self.brains@[best as int])) {
                    Some(v) => v,
                    None => 0,
                },
                self.players@[best as int].id,
                score_value(self.turn, self.players@[best as int]) as u64,
                self.players@[best as int].tiles_walked,
                self.players@[best as int].kills,
                hash,
                genome_json_of(self.brains@[best as int]),
            ),
    {
        let player = &self.players[best];
        let brain = &self.brains[best];
        let lineage = match organism_serial(brain) {
            Some(v) => v,
            None => 0,
        };
        let mut text = String::from_str("{\n  \"seed\": ");
        text.append(quoted(self.seed.as_str()).as_str());
        text.append(",\n  \"generation\": ");
        push_decimal(&mut text, self.generation);
        text.append(",\n  \"lineage\": ");
        push_decimal(&mut text, lineage);
        text.append(",\n  \"player_id\": ");
        push_decimal(&mut text, player.id as u64);
        text.append(",\n  \"score\": ");
        push_decimal(&mut text, self.score(player));
        text.append(",\n  \"treats\": 0,\n  \"tiles_walked\": ");
        push_decimal(&mut text, player.tiles_walked);
        text.append(",\n  \"kills\": ");
        push_decimal(&mut text, player.kills);
        text.append(",\n  \"weights_hash\": \"");
        push_hex16(&mut text, hash);
        text.append("\",\n  \"genome\": ");
        text.append(genome_json(brain).as_str());
        text.append("\n}");
        text
    }
}

} // verus!
