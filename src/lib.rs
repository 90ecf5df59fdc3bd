//! A player for branching text stories: scenes with choices, conditional
//! branches on story flags, back-navigation and restart.
//!
//! `story` holds the scene graph, `flags` and `history` the two parts of a
//! playthrough's state, `engine` the state machine that moves a session through
//! the graph, `text` the number reading and menu rendering it relies on, and
//! `laws` the properties proved of the engine.
use vstd::prelude::*;

pub mod engine;
pub mod flags;
pub mod history;
pub mod laws;
pub mod story;
pub mod text;

verus! {

} // verus!
