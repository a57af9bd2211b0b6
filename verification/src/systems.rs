//! The per-tick systems: input handling, objective evaluation and event
//! consumption, plus the renderer's deterministic draw ordering.
//!
//! Each system is a function from the entity store and the shared state to
//! their next values; the schedule runs them strictly in that order, once
//! per tick.

use vstd::prelude::*;
use crate::components::{Entity, EntityKind, Sprite, TILE_HEIGHT, TILE_WIDTH, moved_to};
use crate::entities::{World, count_kind_spec, first_kind_at, first_player, kind_at, wf_world};
use crate::resources::{
    GameEvent, GamePlay, GamePlayEventQueue, GameState, Key, KeyPressedEventQueue, SoundCue, Time,
};

verus! {

/// The cell a key moves toward from (x, y), `None` when the key is not a
/// movement key or the move would leave the 8-bit grid.
pub open spec fn key_target(k: Key, x: u8, y: u8) -> Option<(u8, u8)> {
    match k {
        Key::Up => if y > 0 {
            Some((x, (y - 1) as u8))
        } else {
            None
        },
        Key::Down => if y < 255 {
            Some((x, (y + 1) as u8))
        } else {
            None
        },
        Key::Left => if x > 0 {
            Some(((x - 1) as u8, y))
        } else {
            None
        },
        Key::Right => if x < 255 {
            Some(((x + 1) as u8, y))
        } else {
            None
        },
        Key::Other => None,
    }
}

/// Executable twin of `key_target`.
pub fn key_target_exec(k: Key, x: u8, y: u8) -> (r: Option<(u8, u8)>)
    ensures
        r == key_target(k, x, y),
{
    match k {
        Key::Up => if y > 0 {
            Some((x, y - 1))
        } else {
            None
        },
        Key::Down => if y < 255 {
            Some((x, y + 1))
        } else {
            None
        },
        Key::Left => if x > 0 {
            Some((x - 1, y))
        } else {
            None
        },
        Key::Right => if x < 255 {
            Some((x + 1, y))
        } else {
            None
        },
        Key::Other => None,
    }
}

/// The events a completed push emits: one when the box lands on a spot it
/// was not on, one when it leaves the spot it was on, none otherwise. A
/// rejected move emits nothing.
pub open spec fn push_events(was_on_spot: bool, now_on_spot: bool) -> Seq<GameEvent> {
    if now_on_spot && !was_on_spot {
        seq![GameEvent::BoxPlacedOnSpot]
    } else if was_on_spot && !now_on_spot {
        seq![GameEvent::BoxRemovedFromSpot]
    } else {
        Seq::empty()
    }
}

/// A push of box `bi` from (tx, ty) to (bx, by) by player `pi`: rejected
/// when the cell beyond holds a wall or another box, else both move.
pub open spec fn step_push(
    w: Seq<Entity>,
    pi: int,
    bi: int,
    tx: u8,
    ty: u8,
    bx: u8,
    by: u8,
) -> (Seq<Entity>, Seq<GameEvent>) {
    if kind_at(w, EntityKind::Wall, bx, by) || kind_at(w, EntityKind::BoxItem, bx, by) {
        (w, Seq::empty())
    } else {
        (
            w.update(bi, moved_to(w[bi], bx, by)).update(pi, moved_to(w[pi], tx, ty)),
            push_events(
                kind_at(w, EntityKind::BoxSpot, tx, ty),
                kind_at(w, EntityKind::BoxSpot, bx, by),
            ),
        )
    }
}

/// A move of player `pi` toward (tx, ty): a wall rejects it; a box there
/// turns it into a push; else the player walks.
pub open spec fn step_player_to(w: Seq<Entity>, pi: int, k: Key, tx: u8, ty: u8) -> (
    Seq<Entity>,
    Seq<GameEvent>,
) {
    if kind_at(w, EntityKind::Wall, tx, ty) {
        (w, Seq::empty())
    } else {
        match first_kind_at(w, EntityKind::BoxItem, tx, ty) {
            None => (w.update(pi, moved_to(w[pi], tx, ty)), Seq::empty()),
            Some(bi) => match key_target(k, tx, ty) {
                None => (w, Seq::empty()),
                Some(b) => step_push(w, pi, bi, tx, ty, b.0, b.1),
            },
        }
    }
}

/// What one pressed key does to the store, and the events it emits.
pub open spec fn step_key(w: Seq<Entity>, k: Key) -> (Seq<Entity>, Seq<GameEvent>) {
    match first_player(w) {
        None => (w, Seq::empty()),
        Some(pi) => match key_target(k, w[pi].pos.x, w[pi].pos.y) {
            None => (w, Seq::empty()),
            Some(t) => step_player_to(w, pi, k, t.0, t.1),
        },
    }
}

/// What a whole queue of keys does, applied in press (FIFO) order; events
/// accumulate in emission order.
pub open spec fn run_keys(w: Seq<Entity>, keys: Seq<Key>) -> (Seq<Entity>, Seq<GameEvent>)
    decreases keys.len(),
{
    if keys.len() == 0 {
        (w, Seq::empty())
    } else {
        let prev = run_keys(w, keys.drop_last());
        let st = step_key(prev.0, keys.last());
        (st.0, prev.1 + st.1)
    }
}

/// Applies one pressed key: moves the player (and a pushed box) as
/// `step_key` says, appending the emitted events.
pub fn apply_key(world: &mut World, k: Key, events: &mut GamePlayEventQueue)
    ensures
        final(world)@ == step_key(old(world)@, k).0,
        final(events).events@ == old(events).events@ + step_key(old(world)@, k).1,
{
    let ghost w0 = world@;
    let ghost e0 = events.events@;
    proof {
        assert(e0 + Seq::<GameEvent>::empty() =~= e0);
    }
    let pi = match world.find_player() {
        Some(i) => i,
        None => {
            return;
        },
    };
    let p = world.get(pi);
    let (tx, ty) = match key_target_exec(k, p.pos.x, p.pos.y) {
        Some(t) => t,
        None => {
            return;
        },
    };
    if world.has_kind_at(EntityKind::Wall, tx, ty) {
        return;
    }
    let bi = match world.find_first_at(EntityKind::BoxItem, tx, ty) {
        None => {
            world.move_entity(pi, tx, ty);
            return;
        },
        Some(bi) => bi,
    };
    let (bx, by) = match key_target_exec(k, tx, ty) {
        Some(b) => b,
        None => {
            return;
        },
    };
    if world.has_kind_at(EntityKind::Wall, bx, by) || world.has_kind_at(
        EntityKind::BoxItem,
        bx,
        by,
    ) {
        return;
    }
    let was_on_spot = world.has_kind_at(EntityKind::BoxSpot, tx, ty);
    let now_on_spot = world.has_kind_at(EntityKind::BoxSpot, bx, by);
    world.move_entity(bi, bx, by);
    proof {
        assert(w0[pi as int].kind == EntityKind::Player);
        assert(w0[bi as int].kind == EntityKind::BoxItem);
        assert(pi != bi);
    }
    world.move_entity(pi, tx, ty);
    if now_on_spot && !was_on_spot {
        events.events.push(GameEvent::BoxPlacedOnSpot);
        proof {
            assert(e0.push(GameEvent::BoxPlacedOnSpot) =~= e0 + seq![GameEvent::BoxPlacedOnSpot]);
        }
    } else if was_on_spot && !now_on_spot {
        events.events.push(GameEvent::BoxRemovedFromSpot);
        proof {
            assert(e0.push(GameEvent::BoxRemovedFromSpot) =~= e0 + seq![
                GameEvent::BoxRemovedFromSpot,
            ]);
        }
    }
}

/// Drains the key queue. While the puzzle is unsolved each key is applied
/// in press order; once solved, keys are still drained but movement is a
/// no-op by design.
pub fn input_handling_system(
    world: &mut World,
    gameplay: &GamePlay,
    keys: &mut KeyPressedEventQueue,
    events: &mut GamePlayEventQueue,
)
    ensures
        final(keys).queue@ == Seq::<Key>::empty(),
        gameplay.state == GameState::Solved ==> final(world)@ == old(world)@
            && final(events).events@ == old(events).events@,
        gameplay.state != GameState::Solved ==> final(world)@ == run_keys(
            old(world)@,
            old(keys).queue@,
        ).0 && final(events).events@ == old(events).events@ + run_keys(
            old(world)@,
            old(keys).queue@,
        ).1,
{
    let ghost w0 = world@;
    let ghost q = keys.queue@;
    let ghost e0 = events.events@;
    match gameplay.state {
        GameState::Solved => {
            keys.queue.clear();
        },
        GameState::InProgress => {
            let mut i: usize = 0;
            proof {
                assert(q.take(0) =~= Seq::<Key>::empty());
                assert(e0 + Seq::<GameEvent>::empty() =~= e0);
            }
            while i < keys.queue.len()
                invariant
                    i <= q.len(),
                    keys.queue@ == q,
                    world@ == run_keys(w0, q.take(i as int)).0,
                    events.events@ == e0 + run_keys(w0, q.take(i as int)).1,
                decreases q.len() - i,
            {
                let ghost prev = q.take(i as int);
                apply_key(world, keys.queue[i], events);
                i += 1;
                proof {
                    let now = q.take(i as int);
                    assert(now.drop_last() =~= prev);
                    assert(now.last() == q[i - 1]);
                    assert(e0 + run_keys(w0, prev).1 + step_key(run_keys(w0, prev).0, q[i - 1]).1
                        =~= e0 + run_keys(w0, now).1);
                }
            }
            proof {
                assert(q.take(q.len() as int) =~= q);
            }
            keys.queue.clear();
        },
    }
}

/// Every box stands on some spot.
pub open spec fn all_boxes_placed(w: Seq<Entity>) -> bool {
    forall|i: int|
        0 <= i < w.len() && (#[trigger] w[i]).kind == EntityKind::BoxItem ==> kind_at(
            w,
            EntityKind::BoxSpot,
            w[i].pos.x,
            w[i].pos.y,
        )
}

/// The puzzle is won when there is at least one box and every box stands
/// on a spot. An empty puzzle is never won.
pub open spec fn win_condition(w: Seq<Entity>) -> bool {
    count_kind_spec(w, EntityKind::BoxItem) > 0 && all_boxes_placed(w)
}

/// The status after one objective evaluation: solved stays solved, and an
/// unsolved game becomes solved exactly when the win condition holds.
pub open spec fn objective_step(w: Seq<Entity>, s: GameState) -> GameState {
    if s == GameState::Solved || win_condition(w) {
        GameState::Solved
    } else {
        GameState::InProgress
    }
}

/// Evaluates the objective: scans all boxes and updates the status.
pub fn game_objective_system(world: &World, gameplay: &mut GamePlay)
    ensures
        final(gameplay).state == objective_step(world@, old(gameplay).state),
{
    match gameplay.state {
        GameState::Solved => {},
        GameState::InProgress => {
            let mut any_box = false;
            let mut all_placed = true;
            let mut i: usize = 0;
            proof {
                assert(world@.take(0) =~= Seq::<Entity>::empty());
            }
            while i < world.len()
                invariant
                    i <= world@.len(),
                    any_box == (count_kind_spec(world@.take(i as int), EntityKind::BoxItem) > 0),
                    all_placed == (forall|j: int|
                        0 <= j < i && (#[trigger] world@[j]).kind == EntityKind::BoxItem
                            ==> kind_at(
                            world@,
                            EntityKind::BoxSpot,
                            world@[j].pos.x,
                            world@[j].pos.y,
                        )),
                decreases world@.len() - i,
            {
                let ghost prev = world@.take(i as int);
                let e = world.get(i);
                if matches!(e.kind, EntityKind::BoxItem) {
                    any_box = true;
                    if !world.has_kind_at(EntityKind::BoxSpot, e.pos.x, e.pos.y) {
                        all_placed = false;
                    }
                }
                i += 1;
                proof {
                    assert(world@.take(i as int).drop_last() =~= prev);
                    assert(world@.take(i as int).last() == world@[i - 1]);
                }
            }
            proof {
                assert(world@.take(world@.len() as int) =~= world@);
            }
            if any_box && all_placed {
                gameplay.state = GameState::Solved;
            }
        },
    }
}

/// The sound that one gameplay event asks for.
pub open spec fn event_sound(e: GameEvent) -> SoundCue {
    match e {
        GameEvent::BoxPlacedOnSpot => SoundCue::Correct,
        GameEvent::BoxRemovedFromSpot => SoundCue::Incorrect,
    }
}

/// Executable twin of `event_sound`.
pub fn sound_for(e: GameEvent) -> (r: SoundCue)
    ensures
        r == event_sound(e),
{
    match e {
        GameEvent::BoxPlacedOnSpot => SoundCue::Correct,
        GameEvent::BoxRemovedFromSpot => SoundCue::Incorrect,
    }
}

/// Drains the gameplay-event queue, in emission order, into the sound cues
/// the host should play. Playback is the host's business and best-effort;
/// a failure there never reaches the tick loop.
pub fn consume_gameplay_events_system(events: &mut GamePlayEventQueue) -> (cues: Vec<SoundCue>)
    ensures
        final(events).events@ == Seq::<GameEvent>::empty(),
        cues@ == old(events).events@.map_values(|e: GameEvent| event_sound(e)),
{
    let ghost q = events.events@;
    let mut cues: Vec<SoundCue> = Vec::new();
    let mut i: usize = 0;
    proof {
        assert(cues@ =~= q.take(0).map_values(|e: GameEvent| event_sound(e)));
    }
    while i < events.events.len()
        invariant
            i <= q.len(),
            events.events@ == q,
            cues@ == q.take(i as int).map_values(|e: GameEvent| event_sound(e)),
        decreases q.len() - i,
    {
        cues.push(sound_for(events.events[i]));
        i += 1;
        proof {
            assert(q.take(i as int).map_values(|e: GameEvent| event_sound(e)) =~= q.take(
                i as int - 1,
            ).map_values(|e: GameEvent| event_sound(e)).push(event_sound(q[i - 1])));
        }
    }
    proof {
        assert(q.take(q.len() as int) =~= q);
    }
    events.events.clear();
    cues
}

/// What one tick does to the entity store, and the events it emits: once
/// solved, input is still drained but movement is a no-op; otherwise the
/// queued keys apply in press order.
pub open spec fn tick_world(w: Seq<Entity>, keys: Seq<Key>, s: GameState) -> (
    Seq<Entity>,
    Seq<GameEvent>,
) {
    if s == GameState::Solved {
        (w, Seq::empty())
    } else {
        run_keys(w, keys)
    }
}

/// Evaluating the objective twice in a row, with no change to the store in
/// between, gives the same status both times.
pub proof fn lemma_objective_idempotent(w: Seq<Entity>, s: GameState)
    ensures
        objective_step(w, objective_step(w, s)) == objective_step(w, s),
{
}

/// Once every box (and there is at least one) stands on a spot, the next
/// objective evaluation declares the puzzle solved.
pub proof fn lemma_win_detected(w: Seq<Entity>)
    requires
        count_kind_spec(w, EntityKind::BoxItem) > 0,
        all_boxes_placed(w),
    ensures
        objective_step(w, GameState::InProgress) == GameState::Solved,
{
}

/// A solved game stays solved: a tick with any further input moves
/// nothing, emits nothing, and the objective keeps the solved status.
pub proof fn lemma_solved_persists(w: Seq<Entity>, keys: Seq<Key>)
    ensures
        tick_world(w, keys, GameState::Solved).0 == w,
        tick_world(w, keys, GameState::Solved).1 == Seq::<GameEvent>::empty(),
        objective_step(tick_world(w, keys, GameState::Solved).0, GameState::Solved)
            == GameState::Solved,
{
}

/// Pushing a box into a wall is rejected: the store is unchanged — both
/// player and box keep their positions — and no event is emitted.
pub proof fn lemma_push_into_wall_rejected(
    w: Seq<Entity>,
    k: Key,
    pi: int,
    bi: int,
    tx: u8,
    ty: u8,
    bx: u8,
    by: u8,
)
    requires
        first_player(w) == Some(pi),
        0 <= pi < w.len(),
        key_target(k, w[pi].pos.x, w[pi].pos.y) == Some((tx, ty)),
        !kind_at(w, EntityKind::Wall, tx, ty),
        first_kind_at(w, EntityKind::BoxItem, tx, ty) == Some(bi),
        key_target(k, tx, ty) == Some((bx, by)),
        kind_at(w, EntityKind::Wall, bx, by),
    ensures
        step_key(w, k).0 == w,
        step_key(w, k).1 == Seq::<GameEvent>::empty(),
{
}

/// The sprite of a tag, before looking at spots.
pub open spec fn base_sprite(k: EntityKind) -> Sprite {
    match k {
        EntityKind::Floor => Sprite::Floor,
        EntityKind::Wall => Sprite::Wall,
        EntityKind::Player => Sprite::Player,
        EntityKind::BoxItem => Sprite::BoxFree,
        EntityKind::BoxSpot => Sprite::Spot,
    }
}

/// The sprite an entity is drawn with: a box standing on a spot is marked
/// as correctly placed, everything else shows its tag's sprite.
pub open spec fn sprite_of(full: Seq<Entity>, e: Entity) -> Sprite {
    if e.kind == EntityKind::BoxItem && kind_at(full, EntityKind::BoxSpot, e.pos.x, e.pos.y) {
        Sprite::BoxPlaced
    } else {
        base_sprite(e.kind)
    }
}

/// One draw call: which sprite, at which grid cell and depth, and at which
/// screen pixel (grid coordinate times the fixed tile size).
#[derive(Clone, Copy, PartialEq, Eq, Structural, Debug)]
pub struct DrawCmd {
    pub sprite: Sprite,
    pub x: u8,
    pub y: u8,
    pub z: u8,
    pub px: u32,
    pub py: u32,
}

/// The draw call for one entity.
pub open spec fn cmd_of(full: Seq<Entity>, e: Entity) -> DrawCmd {
    DrawCmd {
        sprite: sprite_of(full, e),
        x: e.pos.x,
        y: e.pos.y,
        z: e.pos.z,
        px: ((e.pos.x as int) * (TILE_WIDTH as int)) as u32,
        py: ((e.pos.y as int) * (TILE_HEIGHT as int)) as u32,
    }
}

/// The draw calls of the entities of `w` that stand at depth `level`, in
/// creation order.
pub open spec fn draw_pass(full: Seq<Entity>, w: Seq<Entity>, level: u8) -> Seq<DrawCmd>
    decreases w.len(),
{
    if w.len() == 0 {
        Seq::empty()
    } else {
        let r = draw_pass(full, w.drop_last(), level);
        if w.last().pos.z == level {
            r.push(cmd_of(full, w.last()))
        } else {
            r
        }
    }
}

/// The whole frame's draw calls: depth 0 first (floors and spots), then
/// depth 1, ties within a depth broken by creation order. Painting in this
/// order is back-to-front and deterministic frame to frame.
pub open spec fn draw_list_spec(w: Seq<Entity>) -> Seq<DrawCmd> {
    draw_pass(w, w, 0) + draw_pass(w, w, 1)
}

/// Builds the draw call of one entity.
fn make_cmd(world: &World, e: Entity) -> (c: DrawCmd)
    ensures
        c == cmd_of(world@, e),
{
    let sprite = if matches!(e.kind, EntityKind::BoxItem) && world.has_kind_at(
        EntityKind::BoxSpot,
        e.pos.x,
        e.pos.y,
    ) {
        Sprite::BoxPlaced
    } else {
        match e.kind {
            EntityKind::Floor => Sprite::Floor,
            EntityKind::Wall => Sprite::Wall,
            EntityKind::Player => Sprite::Player,
            EntityKind::BoxItem => Sprite::BoxFree,
            EntityKind::BoxSpot => Sprite::Spot,
        }
    };
    DrawCmd {
        sprite: sprite,
        x: e.pos.x,
        y: e.pos.y,
        z: e.pos.z,
        px: (e.pos.x as u32) * TILE_WIDTH,
        py: (e.pos.y as u32) * TILE_HEIGHT,
    }
}

/// Queries all entities and returns their draw calls in paint order:
/// ascending depth, ties broken by creation order.
pub fn render_entities(world: &World) -> (cmds: Vec<DrawCmd>)
    ensures
        cmds@ == draw_list_spec(world@),
{
    let ghost w = world@;
    let mut cmds: Vec<DrawCmd> = Vec::new();
    let mut i: usize = 0;
    proof {
        assert(w.take(0) =~= Seq::<Entity>::empty());
    }
    while i < world.len()
        invariant
            i <= w.len(),
            world@ == w,
            cmds@ == draw_pass(w, w.take(i as int), 0),
        decreases w.len() - i,
    {
        let ghost prev = w.take(i as int);
        let e = world.get(i);
        if e.pos.z == 0 {
            cmds.push(make_cmd(world, e));
        }
        i += 1;
        proof {
            assert(w.take(i as int).drop_last() =~= prev);
            assert(w.take(i as int).last() == w[i - 1]);
        }
    }
    proof {
        assert(w.take(w.len() as int) =~= w);
    }
    let mut j: usize = 0;
    proof {
        assert(cmds@ =~= draw_pass(w, w, 0) + draw_pass(w, w.take(0), 1));
    }
    while j < world.len()
        invariant
            j <= w.len(),
            world@ == w,
            cmds@ == draw_pass(w, w, 0) + draw_pass(w, w.take(j as int), 1),
        decreases w.len() - j,
    {
        let ghost prev = w.take(j as int);
        let e = world.get(j);
        if e.pos.z == 1 {
            cmds.push(make_cmd(world, e));
        }
        j += 1;
        proof {
            assert(w.take(j as int).drop_last() =~= prev);
            assert(w.take(j as int).last() == w[j - 1]);
        }
    }
    proof {
        assert(w.take(w.len() as int) =~= w);
    }
    cmds
}

/// Moving one entity keeps the store well formed: tag and depth are kept.
proof fn lemma_moved_update_wf(w: Seq<Entity>, i: int, x: u8, y: u8)
    requires
        wf_world(w),
        0 <= i < w.len(),
    ensures
        wf_world(w.update(i, moved_to(w[i], x, y))),
{
}

/// One key keeps the store well formed.
pub proof fn lemma_step_key_wf(w: Seq<Entity>, k: Key)
    requires
        wf_world(w),
    ensures
        wf_world(step_key(w, k).0),
{
    crate::entities::lemma_first_player_props(w);
    match first_player(w) {
        None => {},
        Some(pi) => {
            match key_target(k, w[pi].pos.x, w[pi].pos.y) {
                None => {},
                Some(t) => {
                    crate::entities::lemma_first_kind_at_props(w, EntityKind::BoxItem, t.0, t.1);
                    if !kind_at(w, EntityKind::Wall, t.0, t.1) {
                        match first_kind_at(w, EntityKind::BoxItem, t.0, t.1) {
                            None => {
                                lemma_moved_update_wf(w, pi, t.0, t.1);
                            },
                            Some(bi) => {
                                match key_target(k, t.0, t.1) {
                                    None => {},
                                    Some(b) => {
                                        if !(kind_at(w, EntityKind::Wall, b.0, b.1) || kind_at(
                                            w,
                                            EntityKind::BoxItem,
                                            b.0,
                                            b.1,
                                        )) {
                                            lemma_moved_update_wf(w, bi, b.0, b.1);
                                            let w1 = w.update(bi, moved_to(w[bi], b.0, b.1));
                                            assert(wf_world(
                                                w1.update(pi, moved_to(w[pi], t.0, t.1)),
                                            ));
                                        }
                                    },
                                }
                            },
                        }
                    }
                },
            }
        },
    }
}

/// A whole queue of keys keeps the store well formed.
pub proof fn lemma_run_keys_wf(w: Seq<Entity>, keys: Seq<Key>)
    requires
        wf_world(w),
    ensures
        wf_world(run_keys(w, keys).0),
    decreases keys.len(),
{
    if keys.len() > 0 {
        lemma_run_keys_wf(w, keys.drop_last());
        lemma_step_key_wf(run_keys(w, keys.drop_last()).0, keys.last());
    }
}

/// Everything one pass draws stands at that pass's depth, and its screen
/// position is its grid position times the tile size, exactly.
pub proof fn lemma_draw_pass_cmds(full: Seq<Entity>, w: Seq<Entity>, level: u8)
    ensures
        forall|a: int|
            0 <= a < draw_pass(full, w, level).len() ==> (#[trigger] draw_pass(full, w, level)[a]).z
                == level,
        forall|a: int|
            0 <= a < draw_pass(full, w, level).len() ==> (#[trigger] draw_pass(full, w, level)[a]).px
                == (draw_pass(full, w, level)[a].x as int) * (TILE_WIDTH as int) && draw_pass(
                full,
                w,
                level,
            )[a].py == (draw_pass(full, w, level)[a].y as int) * (TILE_HEIGHT as int),
    decreases w.len(),
{
    if w.len() > 0 {
        lemma_draw_pass_cmds(full, w.drop_last(), level);
    }
}

/// An entity at the pass's depth is drawn by that pass.
pub proof fn lemma_draw_pass_contains(full: Seq<Entity>, w: Seq<Entity>, level: u8, i: int)
    requires
        0 <= i < w.len(),
        w[i].pos.z == level,
    ensures
        draw_pass(full, w, level).contains(cmd_of(full, w[i])),
    decreases w.len(),
{
    let r = draw_pass(full, w.drop_last(), level);
    if i == w.len() - 1 {
        assert(draw_pass(full, w, level)[r.len() as int] == cmd_of(full, w[i]));
    } else {
        lemma_draw_pass_contains(full, w.drop_last(), level, i);
        let a = choose|a: int| 0 <= a < r.len() && r[a] == cmd_of(full, w.drop_last()[i]);
        assert(w.drop_last()[i] == w[i]);
        assert(draw_pass(full, w, level)[a] == cmd_of(full, w[i]));
    }
}

/// The frame's draw sequence paints back to front: depths never decrease
/// along it, so at one cell the floor is painted before what stands on it;
/// and every draw call's screen position is grid position times tile size.
pub proof fn lemma_draw_list_ordered(w: Seq<Entity>)
    ensures
        forall|a: int, b: int|
            0 <= a < b < draw_list_spec(w).len() ==> (#[trigger] draw_list_spec(w)[a]).z <= (
            #[trigger] draw_list_spec(w)[b]).z,
        forall|a: int|
            0 <= a < draw_list_spec(w).len() ==> (#[trigger] draw_list_spec(w)[a]).px == (
            draw_list_spec(w)[a].x as int) * (TILE_WIDTH as int) && draw_list_spec(w)[a].py == (
            draw_list_spec(w)[a].y as int) * (TILE_HEIGHT as int),
{
    lemma_draw_pass_cmds(w, w, 0);
    lemma_draw_pass_cmds(w, w, 1);
    let d0 = draw_pass(w, w, 0);
    let d1 = draw_pass(w, w, 1);
    assert(forall|a: int| 0 <= a < d0.len() ==> draw_list_spec(w)[a] == d0[a]);
    assert(forall|b: int|
        d0.len() <= b < draw_list_spec(w).len() ==> draw_list_spec(w)[b] == d1[b - d0.len()]);
}

/// In a well-formed store every entity is drawn: its draw call stands in
/// the frame's draw sequence.
pub proof fn lemma_draw_list_complete(w: Seq<Entity>, i: int)
    requires
        wf_world(w),
        0 <= i < w.len(),
    ensures
        draw_list_spec(w).contains(cmd_of(w, w[i])),
{
    let d0 = draw_pass(w, w, 0);
    let d1 = draw_pass(w, w, 1);
    if w[i].pos.z == 0 {
        lemma_draw_pass_contains(w, w, 0, i);
        let a = choose|a: int| 0 <= a < d0.len() && d0[a] == cmd_of(w, w[i]);
        assert(draw_list_spec(w)[a] == cmd_of(w, w[i]));
    } else {
        assert(w[i].pos.z == 1);
        lemma_draw_pass_contains(w, w, 1, i);
        let a = choose|a: int| 0 <= a < d1.len() && d1[a] == cmd_of(w, w[i]);
        assert(draw_list_spec(w)[d0.len() + a] == cmd_of(w, w[i]));
    }
}

/// What the HUD overlay shows, read-only, from the shared state.
#[derive(Clone, Copy, PartialEq, Eq, Structural, Debug)]
pub struct Hud {
    pub seconds: u64,
    pub solved: bool,
}

/// The HUD data of a frame: elapsed whole seconds and the solved banner.
pub fn render_gameplay_data(time: &Time, gameplay: &GamePlay) -> (hud: Hud)
    ensures
        hud.seconds == time.alive_ms / 1000,
        hud.solved == (gameplay.state == GameState::Solved),
{
    Hud {
        seconds: time.seconds(),
        solved: matches!(gameplay.state, GameState::Solved),
    }
}

} // verus!
