use sokoban::components::EntityKind;
use sokoban::game::Game;
use sokoban::resources::{GameState, Key, SoundCue};

#[test]
fn push_box_onto_spot_wins() {
    let mut g = Game::new("S B P").unwrap();
    assert_eq!(g.gameplay.state, GameState::InProgress);
    g.key_down_event(Key::Left);
    let cues = g.tick();
    // The box lands on the spot: one "correct" cue, and the win is
    // detected on the same tick.
    assert_eq!(cues, vec![SoundCue::Correct]);
    assert_eq!(g.gameplay.state, GameState::Solved);
    assert!(g.world.has_kind_at(EntityKind::BoxItem, 0, 0));
    let p = g.world.get(g.world.find_player().unwrap());
    assert_eq!((p.pos.x, p.pos.y), (1, 0));
}

#[test]
fn solved_stays_solved_and_freezes_movement() {
    let mut g = Game::new("S B P").unwrap();
    g.key_down_event(Key::Left);
    g.tick();
    assert_eq!(g.gameplay.state, GameState::Solved);
    // Further input is drained but moves nothing and emits nothing.
    g.key_down_event(Key::Left);
    g.key_down_event(Key::Right);
    let cues = g.tick();
    assert!(cues.is_empty());
    assert_eq!(g.gameplay.state, GameState::Solved);
    assert!(g.world.has_kind_at(EntityKind::BoxItem, 0, 0));
    let p = g.world.get(g.world.find_player().unwrap());
    assert_eq!((p.pos.x, p.pos.y), (1, 0));
    assert_eq!(g.keys.queue.len(), 0);
}

#[test]
fn push_into_wall_rejected() {
    let mut g = Game::new("W B P").unwrap();
    g.key_down_event(Key::Left);
    let cues = g.tick();
    // Box and player keep their positions and no event is emitted.
    assert!(cues.is_empty());
    assert!(g.world.has_kind_at(EntityKind::BoxItem, 1, 0));
    let p = g.world.get(g.world.find_player().unwrap());
    assert_eq!((p.pos.x, p.pos.y), (2, 0));
    assert_eq!(g.gameplay.state, GameState::InProgress);
}

#[test]
fn push_into_box_chain_rejected() {
    let mut g = Game::new("B B P").unwrap();
    g.key_down_event(Key::Left);
    let cues = g.tick();
    assert!(cues.is_empty());
    assert!(g.world.has_kind_at(EntityKind::BoxItem, 0, 0));
    assert!(g.world.has_kind_at(EntityKind::BoxItem, 1, 0));
    let p = g.world.get(g.world.find_player().unwrap());
    assert_eq!((p.pos.x, p.pos.y), (2, 0));
}

#[test]
fn walk_into_wall_rejected() {
    let mut g = Game::new("W P").unwrap();
    g.key_down_event(Key::Left);
    g.tick();
    let p = g.world.get(g.world.find_player().unwrap());
    assert_eq!((p.pos.x, p.pos.y), (1, 0));
}

#[test]
fn walk_onto_free_cell() {
    let mut g = Game::new(". P").unwrap();
    g.key_down_event(Key::Left);
    let cues = g.tick();
    assert!(cues.is_empty());
    let p = g.world.get(g.world.find_player().unwrap());
    assert_eq!((p.pos.x, p.pos.y), (0, 0));
}

#[test]
fn keys_apply_in_fifo_order() {
    let mut g = Game::new(". . P").unwrap();
    g.key_down_event(Key::Left);
    g.key_down_event(Key::Left);
    g.tick();
    let p = g.world.get(g.world.find_player().unwrap());
    assert_eq!((p.pos.x, p.pos.y), (0, 0));
    assert_eq!(g.keys.queue.len(), 0);
}

#[test]
fn walking_off_the_grid_rejected() {
    let mut g = Game::new("P .").unwrap();
    g.key_down_event(Key::Left);
    g.key_down_event(Key::Up);
    g.tick();
    let p = g.world.get(g.world.find_player().unwrap());
    assert_eq!((p.pos.x, p.pos.y), (0, 0));
}

#[test]
fn non_movement_key_ignored() {
    let mut g = Game::new(". P").unwrap();
    g.key_down_event(Key::Other);
    let cues = g.tick();
    assert!(cues.is_empty());
    let p = g.world.get(g.world.find_player().unwrap());
    assert_eq!((p.pos.x, p.pos.y), (1, 0));
}

#[test]
fn box_pushed_off_spot_gives_incorrect_cue() {
    // A second, never-placed box keeps the game unsolved, so the first box
    // can be pushed onto its spot and off it again.
    let mut g = Game::new("P B S .\nB N N N").unwrap();
    g.key_down_event(Key::Right);
    let cues = g.tick();
    assert_eq!(cues, vec![SoundCue::Correct]);
    assert_eq!(g.gameplay.state, GameState::InProgress);
    g.key_down_event(Key::Right);
    let cues = g.tick();
    assert_eq!(cues, vec![SoundCue::Incorrect]);
    assert!(g.world.has_kind_at(EntityKind::BoxItem, 3, 0));
}

#[test]
fn objective_is_idempotent_across_empty_ticks() {
    // Ticks without input keep the status: never solved without a box.
    let mut g = Game::new("W W W\nW P .\nW W W").unwrap();
    for _ in 0..3 {
        let cues = g.tick();
        assert!(cues.is_empty());
        assert_eq!(g.gameplay.state, GameState::InProgress);
    }
    g.key_down_event(Key::Right);
    g.tick();
    assert_eq!(g.gameplay.state, GameState::InProgress);
}

#[test]
fn two_keys_one_tick_win_then_freeze() {
    // The win lands mid-queue only after the objective runs; within one
    // tick the remaining key still applies before evaluation.
    let mut g = Game::new(". S B P").unwrap();
    g.key_down_event(Key::Left);
    g.key_down_event(Key::Left);
    let cues = g.tick();
    // Key one pushes the box onto the spot; key two pushes it off again,
    // because the objective only runs after the whole queue drains.
    assert_eq!(cues, vec![SoundCue::Correct, SoundCue::Incorrect]);
    assert_eq!(g.gameplay.state, GameState::InProgress);
    assert!(g.world.has_kind_at(EntityKind::BoxItem, 0, 0));
}

#[test]
fn invalid_map_fails_game_start() {
    assert!(Game::new("P Q").is_err());
}
