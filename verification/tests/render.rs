use sokoban::components::Sprite;
use sokoban::game::Game;
use sokoban::resources::{GameEvent, GamePlayEventQueue, Key, SoundCue};
use sokoban::systems::{
    consume_gameplay_events_system, render_entities, render_gameplay_data, sound_for,
};

#[test]
fn floor_painted_before_box_at_same_cell() {
    let g = Game::new("B").unwrap();
    let cmds = render_entities(&g.world);
    assert_eq!(cmds.len(), 2);
    assert_eq!(cmds[0].sprite, Sprite::Floor);
    assert_eq!(cmds[0].z, 0);
    assert_eq!(cmds[1].sprite, Sprite::BoxFree);
    assert_eq!(cmds[1].z, 1);
}

#[test]
fn screen_position_is_grid_times_tile_size() {
    // The cell (2, 3) lands exactly at (2 x 48, 3 x 48) pixels.
    let g = Game::new("N N N\nN N N\nN N N\nN N B").unwrap();
    let cmds = render_entities(&g.world);
    assert_eq!(cmds.len(), 2);
    for c in cmds.iter() {
        assert_eq!((c.x, c.y), (2, 3));
        assert_eq!((c.px, c.py), (96, 144));
    }
}

#[test]
fn draw_depths_never_decrease() {
    let g = Game::new("S B P\nW . .").unwrap();
    let cmds = render_entities(&g.world);
    for a in 1..cmds.len() {
        assert!(cmds[a - 1].z <= cmds[a].z);
    }
}

#[test]
fn placed_box_changes_sprite() {
    let mut g = Game::new("S B P").unwrap();
    let before = render_entities(&g.world);
    assert!(before.iter().any(|c| c.sprite == Sprite::BoxFree));
    g.key_down_event(Key::Left);
    g.tick();
    let after = render_entities(&g.world);
    assert!(after.iter().any(|c| c.sprite == Sprite::BoxPlaced));
    assert!(!after.iter().any(|c| c.sprite == Sprite::BoxFree));
    // The spot is painted before the box that stands on it.
    let spot = after.iter().position(|c| c.sprite == Sprite::Spot).unwrap();
    let boxed = after.iter().position(|c| c.sprite == Sprite::BoxPlaced).unwrap();
    assert!(spot < boxed);
}

#[test]
fn hud_shows_time_and_status() {
    let mut g = Game::new("S B P").unwrap();
    g.advance_time(2500);
    let hud = render_gameplay_data(&g.time, &g.gameplay);
    assert_eq!(hud.seconds, 2);
    assert!(!hud.solved);
    assert_eq!(g.gameplay.status_text(), "In progress");
    g.key_down_event(Key::Left);
    g.tick();
    let hud = render_gameplay_data(&g.time, &g.gameplay);
    assert!(hud.solved);
    assert_eq!(g.gameplay.status_text(), "Solved");
}

#[test]
fn time_saturates_instead_of_wrapping() {
    let mut g = Game::new("P").unwrap();
    g.advance_time(u64::MAX);
    g.advance_time(1000);
    assert_eq!(g.time.alive_ms, u64::MAX);
}

#[test]
fn consuming_events_maps_and_clears() {
    let mut q = GamePlayEventQueue::default();
    q.events.push(GameEvent::BoxPlacedOnSpot);
    q.events.push(GameEvent::BoxRemovedFromSpot);
    let cues = consume_gameplay_events_system(&mut q);
    assert_eq!(cues, vec![SoundCue::Correct, SoundCue::Incorrect]);
    assert!(q.events.is_empty());
}

#[test]
fn event_to_sound_mapping() {
    assert_eq!(sound_for(GameEvent::BoxPlacedOnSpot), SoundCue::Correct);
    assert_eq!(sound_for(GameEvent::BoxRemovedFromSpot), SoundCue::Incorrect);
}
