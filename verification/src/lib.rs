//! Core of a small Sokoban-style box-pushing puzzle game.
//!
//! The crate holds everything that decides the game: parsing the textual map,
//! the entity store built from it, the per-tick systems (input handling,
//! objective evaluation, gameplay-event consumption) and the deterministic
//! render ordering. A host front end owns the window, the assets and the
//! frame pump; it feeds key presses and elapsed time in, and takes draw
//! commands and sound cues out.

pub mod components;
pub mod entities;
pub mod game;
pub mod map;
pub mod resources;
pub mod systems;
