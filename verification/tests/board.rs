use battle_royal::board::{leaderboard_tag, rank_by_score_and_key, AutoStatus, Tile};
use battle_royal::session::AutoRun;
use battle_royal::state::{Game, Player};
use vivalaakam_neuro_neat::{Config, Genome, Organism};

fn organisms(n: usize) -> Vec<Organism> {
    let config = Config::default();
    (0..n)
        .map(|_| Organism::new(Genome::generate_genome(2, 1, Vec::new(), None, &config).unwrap()))
        .collect()
}

fn someone(id: usize, x: usize, y: usize, direction: usize) -> Player {
    Player {
        id,
        x,
        y,
        direction,
        alive: true,
        kills: 0,
        tiles_walked: 1,
        born_turn: 0,
        died_turn: None,
    }
}

fn walled(players: Vec<Player>) -> Game {
    let (w, h) = (8usize, 8usize);
    let mut walls = vec![false; w * h];
    for y in 0..h {
        for x in 0..w {
            walls[y * w + x] = x == 0 || y == 0 || x + 1 == w || y + 1 == h;
        }
    }
    let count = players.iter().filter(|p| p.id > 0).count();
    Game {
        seed: "board".to_string(),
        generation: 0,
        width: w,
        height: h,
        player_count: count,
        turn: 0,
        walls,
        players,
        brains: organisms(count),
    }
}

#[test]
fn tags_are_six_wide() {
    assert_eq!(leaderboard_tag(Some(7), 3), "#7    ");
    assert_eq!(leaderboard_tag(None, 3), "#03   ");
    assert_eq!(leaderboard_tag(None, 12), "#12   ");
    assert_eq!(leaderboard_tag(Some(5), 0), "#00   ");
    assert_eq!(leaderboard_tag(Some(12345), 1), "#12345");
    assert_eq!(leaderboard_tag(Some(123456), 1), "#1234\u{2026}");
    assert_eq!(leaderboard_tag(None, 123456), "#1234\u{2026}");
}

#[test]
fn standing_breaks_ties_by_key() {
    assert_eq!(rank_by_score_and_key(&vec![5, 9, 5, 1], &vec![3, 1, 0, 2]), vec![1, 2, 0, 3]);
}

#[test]
fn leaderboard_puts_best_first_and_human_before_equals() {
    let mut a = someone(1, 2, 2, 2);
    a.kills = 1;
    let b = someone(2, 5, 5, 0);
    let human = someone(0, 4, 4, 0);
    let game = walled(vec![a, b, human]);
    assert_eq!(game.leaderboard(), vec![0, 2, 1]);
}

#[test]
fn auto_status_names_each_state() {
    assert_eq!(AutoRun::new(None).status(), AutoStatus::Manual);
    let mut auto = AutoRun::new(Some(10));
    assert_eq!(auto.status(), AutoStatus::Ready);
    auto.press_enter();
    assert_eq!(auto.status(), AutoStatus::Running);
    auto.press_enter();
    assert_eq!(auto.status(), AutoStatus::Paused);
}

#[test]
fn tiles_show_walls_and_what_the_living_see() {
    let mut fallen = someone(2, 6, 6, 7);
    fallen.alive = false;
    let game = walled(vec![someone(1, 1, 3, 2), fallen]);
    let tiles = game.tiles();
    assert_eq!(tiles.len(), 64);
    assert_eq!(tiles[0], Tile::Wall);
    assert_eq!(tiles[3 * 8 + 2], Tile::Seen);
    assert_eq!(tiles[3 * 8 + 6], Tile::Seen);
    assert_eq!(tiles[3 * 8 + 1], Tile::Dark);
    assert_eq!(tiles[5 * 8 + 5], Tile::Seen);
    assert_eq!(tiles[6 * 8 + 1], Tile::Dark);
    assert!(game.seen_by_anyone(4, 3));
    assert!(!game.seen_by_anyone(1, 6));
}

#[test]
fn scores_countable_until_they_overflow() {
    let mut game = walled(vec![someone(1, 2, 2, 2)]);
    assert!(game.scores_countable());
    game.players[0].kills = u64::MAX / 10 + 1;
    assert!(!game.scores_countable());
    game.players[0].kills = 0;
    game.players[0].born_turn = 3;
    assert!(!game.scores_countable());
}
