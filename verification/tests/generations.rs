use battle_royal::brain::{
    genome_mutable,
    agent_phrase, breed_next_generation, breed_phrase, breeding_pairs, weight_draws, BRAIN_CONNECTIONS,
    BRAIN_NODES,
};
use battle_royal::lineage::{assign_serial, assign_serials, organism_serial, tag_if_missing};
use battle_royal::models::{
    generation_best, max_saved_lineage, saved_lineage, saved_organism, saved_score, select_models,
};
use battle_royal::rng::Rng;
use battle_royal::selection::{
    map_capacity, pad_survivors, rank_by_score, select_top, trial_groups, trial_map_seed,
};
use battle_royal::session::{Advance, AutoRun, Battle};
use battle_royal::state::{BuildError, Game};
use vivalaakam_neuro_neat::{Config, Genome, Organism};

fn brains(n: usize) -> Vec<Organism> {
    let config = Config::default();
    (0..n)
        .map(|_| Organism::new(Genome::generate_genome(2, 1, Vec::new(), None, &config).unwrap()))
        .collect()
}

fn battle(breed_lineage: bool, max_generation: Option<u64>, players: usize) -> Battle {
    Battle {
        game: Game::with_brains("gen seed".into(), 0, 20, 12, players, brains(players)),
        seed: "gen seed".to_string(),
        generation: 0,
        paused: false,
        dirty: false,
        max_generation,
        breed_lineage,
        lineage_serial: 1,
    }
}

#[test]
fn phrases_of_brains_and_breeding() {
    assert_eq!(agent_phrase("s", 3), "s:agent:3");
    assert_eq!(agent_phrase("battle-royal", 0), "battle-royal:agent:0");
    assert_eq!(breed_phrase("s"), "s:breed");
    assert_eq!(trial_map_seed("s"), "s:best-trial");
}

#[test]
fn weight_draws_fill_biases_then_weights() {
    let draws = weight_draws("s", 4, 3);
    assert_eq!(draws.len(), BRAIN_NODES + BRAIN_CONNECTIONS);
    assert_eq!(draws[0].0, 7);
    assert_eq!(draws[1].0, 11);
    assert_eq!(draws[BRAIN_NODES - 1].0, 6 + (BRAIN_NODES - 1) * 4 + 1);
    assert_eq!(draws[BRAIN_NODES].0, 6 + BRAIN_NODES * 4 + 2);
    assert_eq!(draws[BRAIN_NODES + 1].0, 6 + BRAIN_NODES * 4 + 6);
    let mut rng = Rng::from_phrase("s:agent:3", 4);
    for (_, v) in &draws {
        assert_eq!(*v, rng.next());
    }
}

#[test]
fn breeding_pairs_follow_the_breed_phrase() {
    let pairs = breeding_pairs("s", 2, 5, 3);
    assert_eq!(pairs.len(), 5);
    let mut rng = Rng::from_phrase("s:breed", 2);
    for (a, b) in pairs {
        assert_eq!(a, rng.range(3));
        assert_eq!(b, rng.range(3));
    }
}

#[test]
fn breeding_tags_each_child() {
    let parents = brains(3);
    let mut serial = 10u64;
    let children = breed_next_generation("s", 1, 4, &parents, &mut serial).unwrap();
    assert_eq!(children.len(), 4);
    assert_eq!(serial, 14);
    for (k, child) in children.iter().enumerate() {
        assert_eq!(organism_serial(child), Some(10 + k as u64));
    }
    let mut serial = 10u64;
    assert!(breed_next_generation("s", 1, 4, &[], &mut serial).is_none());
    assert_eq!(serial, 14);
}

#[test]
fn serials_are_assigned_once() {
    let mut organisms = brains(2);
    assert_eq!(organism_serial(&organisms[0]), None);
    let mut next = 5u64;
    assert_eq!(assign_serial(&mut organisms[0], &mut next), 5);
    assert_eq!(next, 6);
    assert_eq!(organism_serial(&organisms[0]), Some(5));
    assert_eq!(organisms[0].get_id().map(|s| s.as_str()), Some("5"));
    tag_if_missing(&mut organisms[0], &mut next);
    assert_eq!(next, 6);
    tag_if_missing(&mut organisms[1], &mut next);
    assert_eq!(next, 7);
    assert_eq!(organism_serial(&organisms[1]), Some(6));
}

#[test]
fn ranking_orders_by_score_then_position() {
    assert_eq!(rank_by_score(&vec![3, 7, 7, 1]), vec![1, 2, 0, 3]);
    assert_eq!(rank_by_score(&vec![]), Vec::<usize>::new());
    assert_eq!(select_top(&vec![3, 7, 7, 1], 2), vec![1, 2]);
    assert_eq!(select_top(&vec![3, 7], 5), vec![1, 0]);
}

#[test]
fn map_capacity_is_half_the_inside() {
    assert_eq!(map_capacity(50, 30), 672);
    assert_eq!(map_capacity(5, 5), 90);
    assert_eq!(Game::spawn_cell_count(20, 12), 90);
}

#[test]
fn saved_models_keep_first_of_each_hash_best_first() {
    assert_eq!(select_models(&vec![(5, 1), (9, 2), (7, 1), (9, 3)]), vec![1, 3, 0]);
    assert_eq!(select_models(&vec![]), Vec::<usize>::new());
}

#[test]
fn padding_survivors() {
    let mut serial = 7u64;
    assert!(pad_survivors("s", 0, 3, Vec::new(), &mut serial).is_none());
    assert_eq!(serial, 10);
    let mut serial = 1u64;
    let padded = pad_survivors("s", 0, 1, brains(2), &mut serial).unwrap();
    assert_eq!(padded.len(), 1);
    assert_eq!(serial, 1);
    let padded = pad_survivors("s", 0, 4, brains(2), &mut serial).unwrap();
    assert_eq!(padded.len(), 4);
    assert_eq!(serial, 3);
    assert_eq!(organism_serial(&padded[0]), None);
    assert_eq!(organism_serial(&padded[2]), Some(1));
    assert_eq!(organism_serial(&padded[3]), Some(2));
}

#[test]
fn generation_best_prefers_score_then_lowest_id() {
    let mut game = Game::with_brains("best".into(), 0, 20, 12, 3, brains(3));
    assert_eq!(generation_best(&game), Some(0));
    game.players[2].kills = 1;
    assert_eq!(generation_best(&game), Some(2));
    game.players[1].tiles_walked = 11;
    assert_eq!(generation_best(&game), Some(1));
    let empty = Game::with_brains("best".into(), 0, 20, 12, 0, Vec::new());
    assert_eq!(generation_best(&empty), None);
}

#[test]
fn enter_arms_then_pauses_and_resumes() {
    let mut idle = AutoRun::new(None);
    assert!(!idle.configured());
    assert!(!idle.press_enter());
    assert!(!idle.armed);
    let mut auto = AutoRun::new(Some(3));
    assert!(auto.configured());
    assert!(!auto.ticking(false));
    auto.turns_this_generation = 2;
    assert!(auto.press_enter());
    assert!(auto.armed && auto.running);
    assert_eq!(auto.turns_this_generation, 0);
    assert!(auto.ticking(false));
    assert!(!auto.ticking(true));
    assert!(auto.press_enter());
    assert!(auto.armed && !auto.running);
    assert!(!auto.ticking(false));
    assert!(auto.press_enter());
    assert!(auto.running);
}

#[test]
fn generation_ends_at_step_limit_or_last_agent() {
    let mut auto = AutoRun::new(Some(3));
    auto.press_enter();
    assert!(!auto.finish_turn(5));
    assert!(!auto.finish_turn(5));
    assert!(auto.finish_turn(5));
    assert_eq!(auto.turns_this_generation, 0);
    assert!(!auto.finish_turn(2));
    assert!(auto.finish_turn(1));
    assert_eq!(auto.turns_this_generation, 0);
}

#[test]
fn escape_toggles_pause() {
    let mut b = battle(false, None, 2);
    b.toggle_pause();
    assert!(b.paused && b.dirty);
    b.toggle_pause();
    assert!(!b.paused);
}

#[test]
fn advancing_past_the_limit_finishes() {
    let mut b = battle(true, Some(1), 2);
    assert_eq!(b.advance_generation(), Advance::Finished);
    assert_eq!(b.generation, 1);
    assert_eq!(b.game.generation, 0);
    assert_eq!(b.lineage_serial, 1);
}

#[test]
fn advancing_without_lineage_asks_for_fresh_brains() {
    let mut b = battle(false, Some(5), 2);
    assert_eq!(b.advance_generation(), Advance::FreshBrains { lineage: false });
    assert_eq!(b.generation, 1);
    assert_eq!(b.game.generation, 0);
    let mut empty = battle(true, None, 0);
    assert_eq!(empty.advance_generation(), Advance::FreshBrains { lineage: true });
}

#[test]
fn advancing_with_lineage_breeds_the_next_game() {
    let mut b = battle(true, None, 3);
    assert_eq!(b.advance_generation(), Advance::Bred);
    assert_eq!(b.generation, 1);
    assert_eq!(b.game.generation, 1);
    assert_eq!(b.game.turn, 0);
    assert_eq!(b.game.brains.len(), 3);
    assert_eq!(b.lineage_serial, 4);
    let fresh = Game::with_brains("gen seed".into(), 1, 20, 12, 3, brains(3));
    assert_eq!(b.game.walls, fresh.walls);
    assert_eq!(b.game.players, fresh.players);
    assert_eq!(organism_serial(&b.game.brains[0]), Some(1));
}

#[test]
fn advancing_onto_a_crowded_map_fails() {
    let mut b = battle(true, None, 169);
    assert_eq!(b.advance_generation(), Advance::Failed(BuildError::MapTooSmall));
    assert_eq!(b.generation, 1);
    assert_eq!(b.game.generation, 0);
    assert_eq!(b.lineage_serial, 170);
}

#[test]
fn mutation_safety_of_genomes() {
    assert!(genome_mutable(&brains(1)[0]));
    assert!(!genome_mutable(&Organism::default()));
}

#[test]
fn breeding_from_unmutable_parents_keeps_their_genomes() {
    let parents = vec![Organism::default(), Organism::default()];
    let mut serial = 3u64;
    let children = breed_next_generation("s", 1, 3, &parents, &mut serial).unwrap();
    assert_eq!(children.len(), 3);
    assert_eq!(serial, 6);
    for (k, child) in children.iter().enumerate() {
        assert_eq!(organism_serial(child), Some(3 + k as u64));
        assert_eq!(child.as_json(), parents[0].as_json());
    }
}

#[test]
fn bred_battle_tags_children_in_order() {
    let mut b = battle(true, None, 3);
    b.lineage_serial = 40;
    assert_eq!(b.advance_generation(), Advance::Bred);
    for k in 0..3 {
        assert_eq!(organism_serial(&b.game.brains[k]), Some(40 + k as u64));
    }
}

#[test]
fn trial_groups_cover_contenders() {
    assert_eq!(trial_groups(0, 20, 12), (90, 0));
    assert_eq!(trial_groups(90, 20, 12), (90, 1));
    assert_eq!(trial_groups(91, 20, 12), (90, 2));
    assert_eq!(trial_groups(500, 50, 30), (672, 1));
}

#[test]
fn battle_takes_commands_unless_paused_or_modified() {
    let mut b = battle(false, None, 2);
    assert!(b.takes_commands(false));
    assert!(!b.takes_commands(true));
    b.toggle_pause();
    assert!(!b.takes_commands(false));
}

#[test]
fn saved_models_read_score_lineage_and_genome() {
    let genome = Genome::generate_genome(2, 1, Vec::new(), None, &Config::default()).unwrap();
    let g = genome.as_json();
    let full = format!("{{\"score\": 12, \"lineage\": 7, \"genome\": {g}}}");
    let text_lineage = format!("{{\"score\": \"x\", \"lineage\": \"9\", \"genome\": {g}}}");
    let bare = g.clone();
    assert_eq!(saved_lineage(&full), Some(7));
    assert_eq!(saved_lineage(&text_lineage), Some(9));
    assert_eq!(saved_lineage(&bare), None);
    assert_eq!(saved_score(&full), 12);
    assert_eq!(saved_score(&text_lineage), 0);
    assert_eq!(saved_score(&bare), 0);
    let (score, organism) = saved_organism(&full).unwrap();
    assert_eq!(score, 12);
    assert_eq!(organism_serial(&organism), Some(7));
    assert_eq!(organism.as_json(), g);
    let (score, organism) = saved_organism(&bare).unwrap();
    assert_eq!(score, 0);
    assert_eq!(organism_serial(&organism), None);
    assert_eq!(organism.as_json(), g);
    assert!(saved_organism("not json").is_none());
    assert!(saved_organism("{\"genome\": 5}").is_none());
    assert_eq!(max_saved_lineage(&vec![full, text_lineage, bare, "{\"lineage\": 3}".to_string()]), 7);
    assert_eq!(max_saved_lineage(&vec![]), 0);
}

#[test]
fn children_keep_their_parents_inputs_and_nodes() {
    let config = Config::default();
    let parents: Vec<Organism> = (1..4)
        .map(|i| Organism::new(Genome::generate_genome(i, 2, Vec::new(), None, &config).unwrap()))
        .collect();
    let pairs = breeding_pairs("kin", 5, 6, parents.len());
    let mut serial = 0u64;
    let children = breed_next_generation("kin", 5, 6, &parents, &mut serial).unwrap();
    for (k, child) in children.iter().enumerate() {
        let parent = &parents[pairs[k].0];
        assert_eq!(child.genome.get_input_node_ids(), parent.genome.get_input_node_ids());
        let ids = child.genome.get_all_node_ids();
        let parent_ids = parent.genome.get_all_node_ids();
        assert_eq!(&ids[..parent_ids.len()], &parent_ids[..]);
    }
}

#[test]
fn fresh_brains_get_consecutive_serials() {
    use_assign_serials();
}

fn use_assign_serials() {
    let tagged = assign_serials(brains(3), 20);
    assert_eq!(tagged.len(), 3);
    for (k, brain) in tagged.iter().enumerate() {
        assert_eq!(organism_serial(brain), Some(20 + k as u64));
    }
}

#[test]
fn saved_model_array_form() {
    let genome = Genome::generate_genome(2, 1, Vec::new(), None, &Config::default()).unwrap();
    let g = genome.as_json();
    let text = format!("[5, null, {g}]");
    assert_eq!(saved_score(&text), 5);
    let (score, organism) = saved_organism(&text).unwrap();
    assert_eq!(score, 5);
    assert_eq!(organism_serial(&organism), None);
    assert_eq!(organism.genome.get_all_node_ids(), genome.get_all_node_ids());
    assert_eq!(organism.as_json(), g);
    assert!(saved_organism(&format!("[5, \"x\", {g}]")).is_none());
    assert!(saved_organism(&format!("[5, null]")).is_none());
    let (_, organism) = saved_organism(&format!("{{\"genome\": {g}}}")).unwrap();
    assert_eq!(organism.genome.get_all_node_ids(), genome.get_all_node_ids());
}

#[test]
fn trial_turn_limit_defaults() {
    let mut launch = battle_royal::launch::Launch::defaults();
    assert_eq!(launch.trial_turn_limit(), 20000);
    launch.max_step = Some(7);
    assert_eq!(launch.trial_turn_limit(), 7);
}

#[test]
fn model_file_text_lists_the_fields() {
    let mut game = Game::with_brains("say \"hi\"".into(), 4, 20, 12, 2, brains(2));
    game.players[1].kills = 3;
    let mut serial = 9u64;
    assign_serial(&mut game.brains[1], &mut serial);
    let text = game.model_file_text(1, 0xab);
    let expected = format!(
        "{{\n  \"seed\": {:?},\n  \"generation\": 4,\n  \"lineage\": 9,\n  \"player_id\": 2,\n  \"score\": 31,\n  \"treats\": 0,\n  \"tiles_walked\": 1,\n  \"kills\": 3,\n  \"weights_hash\": \"00000000000000ab\",\n  \"genome\": {}\n}}",
        "say \"hi\"",
        game.brains[1].as_json()
    );
    assert_eq!(text, expected);
    let plain = game.model_file_text(0, 1);
    assert!(plain.contains("\"lineage\": 0,"));
}
