//! Shared per-game state: elapsed time, gameplay status and the two event
//! queues, bundled into plain structs that the systems take by reference.

use vstd::prelude::*;

verus! {

/// Simulated time lived so far, in milliseconds.
#[derive(Clone, Copy, PartialEq, Eq, Structural, Debug)]
pub struct Time {
    pub alive_ms: u64,
}

impl Default for Time {
    /// Time starts at zero.
    fn default() -> (r: Time)
        ensures
            r.alive_ms == 0,
    {
        Time { alive_ms: 0 }
    }
}

impl Time {
    /// Whole seconds lived, for the HUD.
    pub fn seconds(&self) -> (r: u64)
        ensures
            r == self.alive_ms / 1000,
    {
        self.alive_ms / 1000
    }
}

/// Whether the puzzle is solved. One-way: there is no transition back, and
/// no lose state at all.
#[derive(Clone, Copy, PartialEq, Eq, Structural, Debug)]
pub enum GameState {
    InProgress,
    Solved,
}

/// The gameplay status, read by the renderer and written by the objective
/// system.
#[derive(Clone, Copy, PartialEq, Eq, Structural, Debug)]
pub struct GamePlay {
    pub state: GameState,
}

impl Default for GamePlay {
    /// A game starts unsolved.
    fn default() -> (r: GamePlay)
        ensures
            r.state == GameState::InProgress,
    {
        GamePlay { state: GameState::InProgress }
    }
}

impl GamePlay {
    /// The HUD banner text for the current status.
    pub fn status_text(&self) -> (r: &'static str)
        ensures
            self.state == GameState::Solved ==> r@ == "Solved"@,
            self.state == GameState::InProgress ==> r@ == "In progress"@,
    {
        match self.state {
            GameState::Solved => "Solved",
            GameState::InProgress => "In progress",
        }
    }
}

/// A pressed key, as the host delivers it: a movement direction, or any
/// other key (drained but ignored).
#[derive(Clone, Copy, PartialEq, Eq, Structural, Debug)]
pub enum Key {
    Up,
    Down,
    Left,
    Right,
    Other,
}

/// Keys pressed since the last tick, in press (FIFO) order; appended by the
/// host's key callback, drained by the input-handling system each tick.
#[derive(Debug)]
pub struct KeyPressedEventQueue {
    pub queue: Vec<Key>,
}

impl Default for KeyPressedEventQueue {
    /// The queue starts empty.
    fn default() -> (r: KeyPressedEventQueue)
        ensures
            r.queue@ == Seq::<Key>::empty(),
    {
        KeyPressedEventQueue { queue: Vec::new() }
    }
}

/// A transient gameplay event, emitted by the input-handling system and
/// consumed once per tick.
#[derive(Clone, Copy, PartialEq, Eq, Structural, Debug)]
pub enum GameEvent {
    BoxPlacedOnSpot,
    BoxRemovedFromSpot,
}

/// Events emitted this tick, in emission order; cleared after consumption.
#[derive(Debug)]
pub struct GamePlayEventQueue {
    pub events: Vec<GameEvent>,
}

impl Default for GamePlayEventQueue {
    /// The queue starts empty.
    fn default() -> (r: GamePlayEventQueue)
        ensures
            r.events@ == Seq::<GameEvent>::empty(),
    {
        GamePlayEventQueue { events: Vec::new() }
    }
}

/// A sound the host should play, best-effort, for one consumed event.
#[derive(Clone, Copy, PartialEq, Eq, Structural, Debug)]
pub enum SoundCue {
    Correct,
    Incorrect,
}

} // verus!
