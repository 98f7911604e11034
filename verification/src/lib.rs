//! Game logic of a two-player Splendor engine: tokens, cards, players,
//! move generation and the apply / undo transitions used by a game-tree search.
use vstd::prelude::*;

pub mod color;
pub mod cost;
pub mod card;
pub mod records;
pub mod player;
pub mod moves;
pub mod state;
pub mod setup;
pub mod transition;
pub mod movegen;
pub mod evaluation;
pub mod render;
pub mod laws;
pub mod movegen_laws;
pub mod command;
pub mod rule_laws;
pub mod offer_laws;

verus! {
}
