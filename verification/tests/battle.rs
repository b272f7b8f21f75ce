use battle_royal::constants::{DEFAULT_PLAYER_COUNT, OBSERVATION_SIZE, VISION_DEPTH, VISION_WINDOW};
use battle_royal::state::{BuildError, Game, Player};
use battle_royal::turn::{action_named, output_name, str_equal, Action};
use battle_royal::vision::Sight;
use vivalaakam_neuro_neat::{Config, Genome, Organism};

fn brains(n: usize) -> Vec<Organism> {
    let config = Config::default();
    (0..n)
        .map(|_| Organism::new(Genome::generate_genome(2, 1, Vec::new(), None, &config).unwrap()))
        .collect()
}

fn agent(id: usize, x: usize, y: usize, direction: usize) -> Player {
    Player {
        id,
        x,
        y,
        direction,
        alive: true,
        kills: 0,
        tiles_walked: 1,
        born_turn: 0,
        died_turn: None,
    }
}

/// An 8 by 8 arena walled only on its outer ring.
fn arena(players: Vec<Player>) -> Game {
    let (w, h) = (8usize, 8usize);
    let mut walls = vec![false; w * h];
    for y in 0..h {
        for x in 0..w {
            if x == 0 || y == 0 || x + 1 == w || y + 1 == h {
                walls[y * w + x] = true;
            }
        }
    }
    let count = players.iter().filter(|p| p.id > 0).count();
    Game {
        seed: "arena".to_string(),
        generation: 0,
        width: w,
        height: h,
        player_count: count,
        turn: 0,
        walls,
        players,
        brains: brains(count),
    }
}

#[test]
fn same_seed_builds_same_battle() {
    let a = Game::with_brains("replay phrase".into(), 3, 50, 24, DEFAULT_PLAYER_COUNT, brains(32));
    let b = Game::with_brains("replay phrase".into(), 3, 50, 24, DEFAULT_PLAYER_COUNT, brains(32));
    assert_eq!(a.walls, b.walls);
    assert_eq!(a.players, b.players);
    assert_eq!(a.players.len(), 32);
    assert_eq!((a.players[0].x, a.players[0].y, a.players[0].direction), (20, 17, 4));
    assert_eq!((a.players[1].x, a.players[1].y, a.players[1].direction), (21, 11, 1));
    assert_eq!((a.players[2].x, a.players[2].y, a.players[2].direction), (18, 4, 0));
}

#[test]
fn small_request_builds_minimum_map() {
    let game = Game::build("t".into(), 0, 5, 5, 2, brains(2)).unwrap();
    assert_eq!(game.width, 20);
    assert_eq!(game.height, 12);
    assert_eq!(game.walls.len(), 240);
    assert_eq!(game.walls.iter().filter(|w| **w).count(), 71);
    assert_eq!(game.players, vec![
        Player { id: 1, x: 18, y: 7, direction: 5, ..agent(1, 0, 0, 0) },
        Player { id: 2, x: 1, y: 10, direction: 6, ..agent(2, 0, 0, 0) },
    ]);
    assert_eq!(game.turn, 0);
    assert_eq!(game.brains.len(), 2);
}

#[test]
fn built_game_has_walled_ring_and_spread_agents() {
    let game = Game::build("ring".into(), 1, 30, 20, 16, brains(16)).unwrap();
    for x in 0..game.width {
        assert!(game.is_wall(x, 0) && game.is_wall(x, game.height - 1));
    }
    for y in 0..game.height {
        assert!(game.is_wall(0, y) && game.is_wall(game.width - 1, y));
    }
    for (k, p) in game.players.iter().enumerate() {
        assert_eq!(p.id, k + 1);
        assert!(!game.is_wall(p.x, p.y));
        for q in &game.players[k + 1..] {
            assert!((p.x, p.y) != (q.x, q.y));
        }
    }
}

#[test]
fn build_rejects_wrong_brain_count() {
    assert!(matches!(Game::build("t".into(), 0, 20, 12, 3, brains(2)), Err(BuildError::BrainCount)));
}

#[test]
fn build_rejects_oversized_map() {
    assert!(matches!(
        Game::build("t".into(), 0, usize::MAX, 20, 0, Vec::new()),
        Err(BuildError::MapTooLarge)
    ));
}

#[test]
fn build_rejects_crowded_map() {
    assert!(matches!(Game::build("t".into(), 0, 20, 12, 170, brains(170)), Err(BuildError::MapTooSmall)));
    assert!(Game::build("t".into(), 0, 20, 12, 169, brains(169)).is_ok());
}

#[test]
fn observation_window_covers_thirteen_by_thirteen() {
    let game = Game::with_brains("replay phrase".into(), 3, 50, 24, DEFAULT_PLAYER_COUNT, brains(32));
    let window = game.observation_window(&game.players[0]);
    assert_eq!(window.len(), VISION_WINDOW * VISION_WINDOW);
    assert_eq!(window.len() + 10, OBSERVATION_SIZE);
}

#[test]
fn observation_window_in_arena() {
    let game = arena(vec![agent(1, 3, 3, 2), agent(2, 5, 3, 0)]);
    let window = game.observation_window(&game.players[0]);
    let at = |dx: i64, dy: i64| window[((dy + 6) * 13 + dx + 6) as usize];
    assert_eq!(at(0, 0), Sight::Hidden);
    assert_eq!(at(-1, 0), Sight::Hidden);
    assert_eq!(at(1, 0), Sight::Open);
    assert_eq!(at(2, 0), Sight::Player);
    assert_eq!(at(4, 0), Sight::Wall);
    assert_eq!(at(5, 0), Sight::Hidden);
}

#[test]
fn score_counts_survival_kills_and_steps() {
    let mut game = arena(vec![agent(1, 3, 3, 2)]);
    game.turn = 12;
    let mut p = agent(1, 3, 3, 2);
    p.kills = 2;
    p.tiles_walked = 5;
    p.born_turn = 2;
    assert_eq!(game.score(&p), 10 + 20 + 5);
    p.died_turn = Some(7);
    assert_eq!(game.score(&p), 5 + 20 + 5);
    game.record_step(0);
    assert_eq!(game.players[0].tiles_walked, 2);
    game.record_step(9);
    assert_eq!(game.index(3, 2), 19);
}

#[test]
fn alive_agent_count_skips_human_and_fallen() {
    let mut fallen = agent(2, 5, 5, 0);
    fallen.alive = false;
    let game = arena(vec![agent(1, 3, 3, 2), fallen, agent(0, 4, 4, 0)]);
    assert_eq!(game.alive_agent_count(), 1);
}

#[test]
fn action_names() {
    assert_eq!(action_named("left"), Action::Left);
    assert_eq!(action_named("right"), Action::Right);
    assert_eq!(action_named("forward"), Action::Forward);
    assert_eq!(action_named("shoot"), Action::Shoot);
    assert_eq!(action_named("wait"), Action::Wait);
    assert_eq!(action_named("jump"), Action::Wait);
    assert!(str_equal("abc", "abc"));
    assert!(!str_equal("abc", "abd"));
}

#[test]
fn shooting_agent_fells_agent_in_view() {
    let mut game = arena(vec![agent(1, 2, 3, 2), agent(2, 5, 3, 0)]);
    let hits = game.apply_turn(&["shoot", "wait"]);
    assert_eq!(hits, vec![2]);
    assert_eq!(game.turn, 1);
    assert!(game.players[0].alive);
    assert!(!game.players[1].alive);
    assert_eq!(game.players[1].died_turn, Some(1));
    assert_eq!(game.players[0].kills, 1);
    assert_eq!(game.alive_agent_count(), 1);
    let again = game.apply_turn(&["shoot"]);
    assert!(again.is_empty());
    assert_eq!(game.players[1], Player { alive: false, died_turn: Some(1), ..agent(2, 5, 3, 0) });
}

#[test]
fn agents_turn_and_step() {
    let mut game = arena(vec![agent(1, 2, 2, 2), agent(2, 5, 5, 0), agent(3, 4, 4, 4)]);
    let hits = game.apply_turn(&["forward", "left", "right"]);
    assert!(hits.is_empty());
    assert_eq!((game.players[0].x, game.players[0].y), (3, 2));
    assert_eq!(game.players[0].tiles_walked, 2);
    assert_eq!(game.players[1].direction, 7);
    assert_eq!(game.players[2].direction, 5);
}

#[test]
fn clashing_steps_are_both_refused() {
    let mut game = arena(vec![agent(1, 2, 3, 2), agent(2, 4, 3, 6)]);
    game.apply_turn(&["forward", "forward"]);
    assert_eq!((game.players[0].x, game.players[0].y), (2, 3));
    assert_eq!((game.players[1].x, game.players[1].y), (4, 3));
}

#[test]
fn step_into_wall_or_player_is_refused() {
    let mut game = arena(vec![agent(1, 1, 1, 0), agent(2, 3, 3, 2), agent(3, 4, 3, 0)]);
    game.apply_turn(&["forward", "forward", "wait"]);
    assert_eq!((game.players[0].x, game.players[0].y), (1, 1));
    assert_eq!((game.players[1].x, game.players[1].y), (3, 3));
}

#[test]
fn missing_actions_mean_waiting() {
    let mut game = arena(vec![agent(1, 2, 2, 2), agent(2, 5, 5, 0)]);
    let hits = game.apply_turn(&[]);
    assert!(hits.is_empty());
    assert_eq!(game.players[0], agent(1, 2, 2, 2));
    assert_eq!(game.players[1], agent(2, 5, 5, 0));
}

#[test]
fn turn_hits_stay_within_player_count() {
    let mut game = Game::with_brains("replay phrase".into(), 3, 50, 24, DEFAULT_PLAYER_COUNT, brains(32));
    let actions = vec!["shoot"; 32];
    for _ in 0..5 {
        let hits = game.apply_turn(&actions);
        assert!(hits.len() <= DEFAULT_PLAYER_COUNT);
        for w in hits.windows(2) {
            assert!(w[0] < w[1]);
        }
    }
}

#[test]
fn line_of_sight_and_view() {
    let mut game = arena(vec![agent(1, 1, 3, 2)]);
    assert!(game.has_line_of_sight((1, 3), (6, 3)));
    game.walls[3 * 8 + 3] = true;
    assert!(!game.has_line_of_sight((1, 3), (6, 3)));
    assert!(game.has_line_of_sight((1, 3), (3, 3)));
    let cells = game.visible_cells(&game.players[0], VISION_DEPTH);
    assert!(cells.contains(&(2, 3)));
    assert!(cells.contains(&(3, 3)));
    assert!(!cells.contains(&(4, 3)));
    assert!(!cells.contains(&(1, 3)));
    assert!(!cells.contains(&(0, 3)));
    for (x, y) in cells {
        assert!(game.in_view_cell(&game.players[0], VISION_DEPTH, x, y));
    }
}

#[test]
fn human_joins_once_at_centre() {
    let mut game = arena(vec![agent(1, 2, 2, 2)]);
    assert!(!game.human_present());
    assert_eq!(game.human_spawn_cell(), Some((4, 4)));
    assert!(game.add_human());
    assert!(!game.add_human());
    assert_eq!(game.players.len(), 2);
    assert_eq!(game.players[1], agent(0, 4, 4, 0));
    assert!(game.human_present());
    let occupied = game.occupied_cells();
    assert_eq!(occupied.len(), 2);
    assert!(occupied.contains(&(4 * 8 + 4)));
    assert!(occupied.contains(&(2 * 8 + 2)));
    assert!(game.living_on(2, 2));
}

#[test]
fn human_spawn_avoids_taken_centre() {
    let mut game = arena(vec![agent(1, 4, 4, 2)]);
    assert!(game.add_human());
    assert_eq!((game.players[1].x, game.players[1].y), (4, 3));
}

#[test]
fn human_turns_moves_and_shoots() {
    let mut game = arena(vec![agent(1, 4, 1, 2), agent(2, 1, 6, 0)]);
    assert!(game.add_human());
    game.turn_human(true);
    assert_eq!(game.players[2].direction, 1);
    assert_eq!(game.turn, 1);
    game.turn_human(false);
    assert_eq!(game.players[2].direction, 0);
    game.move_human(1, 0);
    assert_eq!((game.players[2].x, game.players[2].y), (4, 3));
    assert_eq!(game.players[2].tiles_walked, 2);
    game.move_human(0, 1);
    assert_eq!((game.players[2].x, game.players[2].y), (5, 3));
    game.move_human(0, -1);
    assert_eq!(game.turn, 5);
    game.shoot_human();
    assert!(!game.players[0].alive);
    assert_eq!(game.players[0].died_turn, Some(6));
    assert!(game.players[1].alive);
    assert_eq!(game.players[2].kills, 1);
    assert_eq!(game.turn, 6);
}

#[test]
fn human_move_blocked_by_wall() {
    let mut game = arena(vec![agent(1, 1, 1, 2)]);
    assert!(game.add_human());
    game.move_human(-3, 0);
    assert_eq!((game.players[1].x, game.players[1].y), (4, 4));
    assert_eq!(game.turn, 1);
}

#[test]
fn human_move_past_the_edge_reads_a_later_row() {
    let mut game = arena(vec![agent(1, 1, 1, 2)]);
    assert!(game.add_human());
    game.move_human(0, 4);
    assert_eq!((game.players[1].x, game.players[1].y), (4, 4));
    assert_eq!(game.turn, 1);
    game.move_human(0, 5);
    assert_eq!((game.players[1].x, game.players[1].y), (9, 4));
    assert_eq!(game.players[1].tiles_walked, 2);
    assert_eq!(game.turn, 2);
}

#[test]
fn without_human_its_actions_do_nothing() {
    let mut game = arena(vec![agent(1, 2, 2, 2)]);
    game.move_human(1, 0);
    game.turn_human(true);
    game.shoot_human();
    assert_eq!(game.turn, 0);
    assert_eq!(game.players, vec![agent(1, 2, 2, 2)]);
}

#[test]
fn network_outputs_name_actions() {
    assert_eq!(output_name(0), "left");
    assert_eq!(output_name(1), "right");
    assert_eq!(output_name(2), "forward");
    assert_eq!(output_name(3), "shoot");
    assert_eq!(output_name(4), "wait");
    assert_eq!(action_named(output_name(2)), Action::Forward);
}

#[test]
fn human_move_fits_inside_the_map() {
    let mut game = arena(vec![agent(1, 2, 2, 2)]);
    assert!(game.human_move_fits(100, 0));
    assert!(game.add_human());
    assert!(game.human_move_fits(1, 0));
    assert!(game.human_move_fits(-3, 0));
    assert!(!game.human_move_fits(-4, 0));
    assert!(game.human_move_fits(0, 4));
    assert!(!game.human_move_fits(0, 100));
    assert!(!game.human_move_fits(isize::MIN, 0));
    game.turn = u64::MAX;
    assert!(!game.human_move_fits(1, 0));
}

#[test]
fn agent_scores_and_sight_helpers() {
    let mut game = arena(vec![agent(1, 2, 3, 2), agent(2, 5, 3, 6)]);
    game.players[1].kills = 2;
    assert_eq!(game.agent_scores(), vec![1, 21]);
    assert!(game.sees_cell(2, 3, 2, 5, 3));
    assert!(!game.sees_cell(2, 3, 6, 5, 3));
    assert!(game.other_player_on(1, 5, 3));
    assert!(!game.other_player_on(2, 5, 3));
    game.players[1].alive = false;
    assert!(!game.other_player_on(1, 5, 3));
}

/// A 7 by 3 map: one open row between walls, and no brains.
fn corridor(players: Vec<Player>) -> Game {
    let (w, h) = (7usize, 3usize);
    let mut walls = vec![false; w * h];
    for y in 0..h {
        for x in 0..w {
            walls[y * w + x] = x == 0 || y == 0 || x + 1 == w || y + 1 == h;
        }
    }
    Game {
        seed: "s".to_string(),
        generation: 0,
        width: w,
        height: h,
        player_count: 2,
        turn: 0,
        walls,
        players,
        brains: Vec::new(),
    }
}

#[test]
fn both_shooters_fall_together() {
    let mut g = corridor(vec![agent(1, 1, 1, 2), agent(2, 3, 1, 6)]);
    assert_eq!(g.apply_turn(&["shoot", "shoot"]), vec![1, 2]);
    assert!(!g.players[0].alive && !g.players[1].alive);
    assert_eq!(g.players[0].died_turn, Some(1));
    assert_eq!(g.players[1].died_turn, Some(1));
    assert_eq!(g.players[0].kills, 1);
    assert_eq!(g.players[1].kills, 1);
    assert_eq!(g.turn, 1);
}

#[test]
fn both_steppers_to_one_cell_stay() {
    let mut g = corridor(vec![agent(1, 1, 1, 2), agent(2, 3, 1, 6)]);
    assert!(g.apply_turn(&["forward", "forward"]).is_empty());
    assert_eq!((g.players[0].x, g.players[0].y), (1, 1));
    assert_eq!((g.players[1].x, g.players[1].y), (3, 1));
    assert_eq!(g.players[0].tiles_walked, 1);
    assert_eq!(g.players[1].tiles_walked, 1);
    assert_eq!(g.turn, 1);
}

#[test]
fn unknown_actions_play_as_waiting() {
    let mut a = corridor(vec![agent(1, 1, 1, 2), agent(2, 4, 1, 6)]);
    let mut b = corridor(vec![agent(1, 1, 1, 2), agent(2, 4, 1, 6)]);
    assert_eq!(a.apply_turn(&["dance"]), b.apply_turn(&["wait", "wait"]));
    assert_eq!(a.players, b.players);
}

#[test]
fn half_the_inside_always_fits() {
    for seed in ["a", "b", "replay phrase", "battle-royal"] {
        for generation in 0..5u64 {
            assert!(Game::build(seed.into(), generation, 20, 12, 90, brains(90)).is_ok());
        }
    }
}

#[test]
fn line_of_sight_ignores_the_end_cells() {
    let mut game = arena(vec![agent(1, 1, 3, 2)]);
    game.walls[3 * 8 + 2] = true;
    assert!(game.has_line_of_sight((1, 3), (2, 3)));
    assert!(game.has_line_of_sight((2, 3), (3, 4)));
    assert!(game.has_line_of_sight((3, 3), (3, 3)));
    assert!(!game.has_line_of_sight((1, 3), (3, 3)));
}

/// A 7 by 3 floor with no walls at all, and no brains.
fn floor(players: Vec<Player>) -> Game {
    Game {
        seed: "s".to_string(),
        generation: 0,
        width: 7,
        height: 3,
        player_count: 2,
        turn: 0,
        walls: vec![false; 21],
        players,
        brains: Vec::new(),
    }
}

#[test]
fn open_floor_shots_and_clashes() {
    let mut g = floor(vec![agent(1, 1, 1, 2), agent(2, 3, 1, 6)]);
    assert!(g.steps_fit(&["shoot", "shoot"]));
    assert_eq!(g.apply_turn(&["shoot", "shoot"]), vec![1, 2]);
    assert!(!g.players[0].alive && !g.players[1].alive);
    assert_eq!(g.players[0].kills, 1);
    assert_eq!(g.players[1].kills, 1);
    let mut g = floor(vec![agent(1, 1, 1, 2), agent(2, 3, 1, 6)]);
    assert!(g.steps_fit(&["forward", "forward"]));
    assert!(g.apply_turn(&["forward", "forward"]).is_empty());
    assert_eq!((g.players[0].x, g.players[1].x), (1, 3));
    assert_eq!(g.turn, 1);
}

#[test]
fn steps_past_the_edge_do_not_fit() {
    let g = floor(vec![agent(1, 6, 1, 2), agent(2, 3, 1, 6)]);
    assert!(!g.steps_fit(&["forward", "wait"]));
    assert!(g.steps_fit(&["wait", "forward"]));
    let g = floor(vec![agent(1, 0, 1, 6), agent(2, 3, 1, 6)]);
    assert!(g.steps_fit(&["forward"]));
}
