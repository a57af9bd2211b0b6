//! The whole game bundled: entity store, shared state and the tick
//! schedule, behind the three entry points a host front end drives —
//! deliver a key, advance time, run a tick — plus the render queries.

use vstd::prelude::*;
use vstd::string::StringSliceAdditionalSpecFns;
use crate::entities::{World, create_entities_from_map, lemma_map_entities_wf, map_entities, wf_world};
use crate::map::{MapError, map_pairs, parse_map, valid_map};
use crate::resources::{
    GameEvent, GamePlay, GamePlayEventQueue, GameState, Key, KeyPressedEventQueue, SoundCue, Time,
};
use crate::systems::{
    consume_gameplay_events_system, event_sound, game_objective_system, input_handling_system,
    objective_step, tick_world,
};

verus! {

/// One running game: the entity store and all shared state, created at
/// start and mutated only by the tick schedule and the host's callbacks.
#[derive(Debug)]
pub struct Game {
    pub world: World,
    pub time: Time,
    pub gameplay: GamePlay,
    pub keys: KeyPressedEventQueue,
    pub events: GamePlayEventQueue,
}

impl Game {
    /// Starts a game from a map string: parses it, creates the entities
    /// cell by cell, and zeroes the shared state. Fails, before anything
    /// else could run, exactly when the map string is invalid.
    pub fn new(map_str: &str) -> (r: Result<Game, MapError>)
        ensures
            r is Ok <==> valid_map(map_str.spec_bytes()),
            r matches Ok(g) ==> g.world@ == map_entities(map_pairs(map_str.spec_bytes()))
                && wf_world(g.world@) && g.gameplay.state == GameState::InProgress
                && g.time.alive_ms == 0 && g.keys.queue@ == Seq::<Key>::empty()
                && g.events.events@ == Seq::<GameEvent>::empty(),
            r matches Err(e) ==> e == MapError::InvalidMap,
    {
        let map = match parse_map(map_str) {
            Ok(m) => m,
            Err(e) => {
                return Err(e);
            },
        };
        let mut world = World::new();
        create_entities_from_map(&mut world, &map);
        proof {
            assert(world@ =~= map_entities(map@));
            lemma_map_entities_wf(map@);
        }
        Ok(
            Game {
                world: world,
                time: Time::default(),
                gameplay: GamePlay::default(),
                keys: KeyPressedEventQueue::default(),
                events: GamePlayEventQueue::default(),
            },
        )
    }

    /// The host's key callback: appends the pressed key to the queue, to
    /// be consumed by the next tick. (Quitting on Escape is the host's
    /// business and never reaches the core.)
    pub fn key_down_event(&mut self, key: Key)
        ensures
            final(self).keys.queue@ == old(self).keys.queue@.push(key),
            final(self).world == old(self).world,
            final(self).time == old(self).time,
            final(self).gameplay == old(self).gameplay,
            final(self).events == old(self).events,
    {
        self.keys.queue.push(key);
    }

    /// Advances simulated time by `dt_ms` milliseconds, saturating at the
    /// counter's end instead of wrapping.
    pub fn advance_time(&mut self, dt_ms: u64)
        ensures
            old(self).time.alive_ms + dt_ms <= u64::MAX ==> final(self).time.alive_ms == old(
                self,
            ).time.alive_ms + dt_ms,
            old(self).time.alive_ms + dt_ms > u64::MAX ==> final(self).time.alive_ms == u64::MAX,
            final(self).world == old(self).world,
            final(self).gameplay == old(self).gameplay,
            final(self).keys == old(self).keys,
            final(self).events == old(self).events,
    {
        if dt_ms <= u64::MAX - self.time.alive_ms {
            self.time.alive_ms = self.time.alive_ms + dt_ms;
        } else {
            self.time.alive_ms = u64::MAX;
        }
    }

    /// Runs one tick of the schedule, strictly in order: input handling,
    /// then objective evaluation, then event consumption. Returns the
    /// sound cues of the tick's events, for the host to play best-effort.
    pub fn tick(&mut self) -> (cues: Vec<SoundCue>)
        ensures
            final(self).world@ == tick_world(
                old(self).world@,
                old(self).keys.queue@,
                old(self).gameplay.state,
            ).0,
            final(self).gameplay.state == objective_step(
                final(self).world@,
                old(self).gameplay.state,
            ),
            final(self).keys.queue@ == Seq::<Key>::empty(),
            final(self).events.events@ == Seq::<GameEvent>::empty(),
            cues@ == (old(self).events.events@ + tick_world(
                old(self).world@,
                old(self).keys.queue@,
                old(self).gameplay.state,
            ).1).map_values(|e: GameEvent| event_sound(e)),
            final(self).time == old(self).time,
            wf_world(old(self).world@) ==> wf_world(final(self).world@),
    {
        proof {
            if wf_world(self.world@) && self.gameplay.state != GameState::Solved {
                crate::systems::lemma_run_keys_wf(self.world@, self.keys.queue@);
            }
        }
        let ghost e0 = self.events.events@;
        input_handling_system(&mut self.world, &self.gameplay, &mut self.keys, &mut self.events);
        proof {
            assert(e0 + Seq::<GameEvent>::empty() =~= e0);
        }
        game_objective_system(&self.world, &mut self.gameplay);
        consume_gameplay_events_system(&mut self.events)
    }
}

} // verus!
