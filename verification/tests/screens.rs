use xp_macroquad::game::{
    enemy_spawns, game_over, input, main_menu, paused, play_frame, playing, resolve_hits, roll_enemy_spawn,
    spawn_roll, Command, Mode,
};
use xp_macroquad::score::{Score, ScoreBoard, Timestamp};

fn board_with(name: &str, points: u32) -> ScoreBoard {
    ScoreBoard {
        scores: vec![Score {
            name: name.to_string(),
            points,
            timestamp: Timestamp { secs: 1, nanos: 0 },
        }],
    }
}

#[test]
fn main_menu_quit_changes_nothing() {
    let mut mode = Mode::MainMenu;
    let mut score = 42;
    assert_eq!(main_menu(&mut mode, &mut score, true, true), Command::Quit);
    assert_eq!(mode, Mode::MainMenu);
    assert_eq!(score, 42);
}

#[test]
fn main_menu_start_resets_score() {
    let mut mode = Mode::MainMenu;
    let mut score = 42;
    assert_eq!(main_menu(&mut mode, &mut score, false, true), Command::StartRound);
    assert_eq!(mode, Mode::Playing);
    assert_eq!(score, 0);
}

#[test]
fn main_menu_idle() {
    let mut mode = Mode::MainMenu;
    let mut score = 42;
    assert_eq!(main_menu(&mut mode, &mut score, false, false), Command::Stay);
    assert_eq!(mode, Mode::MainMenu);
    assert_eq!(score, 42);
}

#[test]
fn paused_resume_and_quit() {
    let mut mode = Mode::Paused;
    assert_eq!(paused(&mut mode, false, false), Command::Stay);
    assert_eq!(mode, Mode::Paused);
    assert_eq!(paused(&mut mode, true, false), Command::Stay);
    assert_eq!(mode, Mode::Playing);
    let mut mode = Mode::Paused;
    assert_eq!(paused(&mut mode, false, true), Command::Quit);
    assert_eq!(mode, Mode::Paused);
}

#[test]
fn game_over_back_to_menu() {
    let mut mode = Mode::GameOver;
    let b = board_with("amy", 100);
    assert_eq!(game_over(&mut mode, 50, &b, true, false), Command::Stay);
    assert_eq!(mode, Mode::MainMenu);
}

#[test]
fn game_over_waits() {
    let mut mode = Mode::GameOver;
    let b = board_with("amy", 100);
    assert_eq!(game_over(&mut mode, 100, &b, false, false), Command::Stay);
    assert_eq!(mode, Mode::GameOver);
}

#[test]
fn game_over_new_high_score_asks_for_name() {
    let mut mode = Mode::GameOver;
    let b = board_with("amy", 100);
    assert_eq!(game_over(&mut mode, 101, &b, true, false), Command::Stay);
    assert_eq!(mode, Mode::Input);
    let mut mode = Mode::GameOver;
    assert_eq!(game_over(&mut mode, 1, &ScoreBoard::default(), false, false), Command::Stay);
    assert_eq!(mode, Mode::Input);
    let mut mode = Mode::GameOver;
    assert_eq!(game_over(&mut mode, 0, &ScoreBoard::default(), false, false), Command::Stay);
    assert_eq!(mode, Mode::GameOver);
}

#[test]
fn game_over_quit() {
    let mut mode = Mode::GameOver;
    let b = board_with("amy", 100);
    assert_eq!(game_over(&mut mode, 500, &b, false, true), Command::Quit);
    assert_eq!(mode, Mode::GameOver);
    assert_eq!(game_over(&mut mode, 500, &b, true, true), Command::Quit);
    assert_eq!(mode, Mode::MainMenu);
}

#[test]
fn input_saves_the_score() {
    let mut mode = Mode::Input;
    let mut b = board_with("amy", 100);
    let name = "bob".to_string();
    assert_eq!(input(&mut mode, 120, &mut b, &name, true), Command::SaveScores);
    assert_eq!(mode, Mode::MainMenu);
    assert_eq!(b.scores.len(), 2);
    assert_eq!(b.scores[1].name, "bob");
    assert_eq!(b.scores[1].points, 120);
    assert!(b.scores[1].timestamp.secs > 1_577_836_800);
}

#[test]
fn input_waits_for_save() {
    let mut mode = Mode::Input;
    let mut b = board_with("amy", 100);
    let name = "bob".to_string();
    assert_eq!(input(&mut mode, 120, &mut b, &name, false), Command::Stay);
    assert_eq!(mode, Mode::Input);
    assert_eq!(b, board_with("amy", 100));
}

#[test]
fn playing_adds_kills() {
    let mut mode = Mode::Playing;
    let mut score = 10;
    playing(&mut mode, &mut score, false, false, false, &vec![24, 48, 5]);
    assert_eq!(score, 87);
    assert_eq!(mode, Mode::Playing);
}

#[test]
fn playing_new_game_resets_before_kills() {
    let mut mode = Mode::Playing;
    let mut score = 1000;
    playing(&mut mode, &mut score, true, false, false, &vec![30]);
    assert_eq!(score, 30);
}

#[test]
fn playing_pause_and_hit() {
    let mut mode = Mode::Playing;
    let mut score = 3;
    playing(&mut mode, &mut score, false, true, false, &vec![]);
    assert_eq!(mode, Mode::Paused);
    assert_eq!(score, 3);
    let mut mode = Mode::Playing;
    playing(&mut mode, &mut score, false, true, true, &vec![]);
    assert_eq!(mode, Mode::GameOver);
    let mut mode = Mode::Playing;
    playing(&mut mode, &mut score, false, false, true, &vec![1]);
    assert_eq!(mode, Mode::GameOver);
    assert_eq!(score, 4);
}

#[test]
fn spawn_threshold() {
    assert!(!enemy_spawns(0));
    assert!(!enemy_spawns(94));
    assert!(enemy_spawns(95));
    assert!(enemy_spawns(98));
}

#[test]
fn spawn_roll_sometimes_spawns() {
    let spawned = (0..10_000).filter(|_| roll_enemy_spawn()).count();
    // About 4 in 99 rolls bring an enemy.
    assert!(spawned > 100 && spawned < 900);
}

#[test]
fn spawn_roll_stays_in_range() {
    let mut seen_high = false;
    for _ in 0..10_000 {
        let r = spawn_roll();
        assert!((0..99).contains(&r));
        seen_high |= r >= 95;
    }
    assert!(seen_high);
}

#[test]
fn hits_pair_every_touching_laser_and_enemy() {
    // Enemy 0 is touched by lasers 0 and 2, enemy 1 by none, enemy 2 by laser 2.
    let table = vec![
        vec![true, false, true],
        vec![false, false, false],
        vec![false, false, true],
    ];
    let h = resolve_hits(&table, 3);
    assert_eq!(h.kills, vec![0, 0, 2]);
    assert_eq!(h.enemy_hit, vec![true, false, true]);
    assert_eq!(h.laser_hit, vec![true, false, true]);
}

#[test]
fn hits_of_empty_frames() {
    let h = resolve_hits(&vec![], 4);
    assert!(h.kills.is_empty());
    assert!(h.enemy_hit.is_empty());
    assert_eq!(h.laser_hit, vec![false; 4]);
    let h = resolve_hits(&vec![vec![], vec![]], 0);
    assert!(h.kills.is_empty());
    assert_eq!(h.enemy_hit, vec![false, false]);
    assert!(h.laser_hit.is_empty());
}

#[test]
fn frame_scores_every_touching_pair() {
    // Enemy 0 (worth 24) touched by lasers 0 and 1, enemy 1 (worth 48) by none,
    // enemy 2 (worth 32) by laser 1.
    let table = vec![vec![true, true], vec![false, false], vec![false, true]];
    let mut mode = Mode::Playing;
    let mut score = 100;
    let hits = play_frame(&mut mode, &mut score, false, false, false, &table, 2, &vec![24, 48, 32]);
    assert_eq!(score, 100 + 24 + 24 + 32);
    assert_eq!(mode, Mode::Playing);
    assert_eq!(hits.kills, vec![0, 0, 2]);
    assert_eq!(hits.enemy_hit, vec![true, false, true]);
    assert_eq!(hits.laser_hit, vec![true, true]);
}

#[test]
fn frame_with_new_game_and_hit() {
    let table = vec![vec![true]];
    let mut mode = Mode::Playing;
    let mut score = 5000;
    let hits = play_frame(&mut mode, &mut score, true, true, true, &table, 1, &vec![16]);
    assert_eq!(score, 16);
    assert_eq!(mode, Mode::GameOver);
    assert_eq!(hits.kills, vec![0]);
}
