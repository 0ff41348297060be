//! Decision engine for a two-player board game on an 8x8 grid: a compact
//! bit-set representation of board cells with sequential and splittable
//! iteration, a family of game-tree search strategies over an abstract
//! board-state contract, and an anytime iterative-deepening driver.
use vstd::prelude::*;

pub mod claim;
pub mod game;
pub mod positions;
pub mod slot;
pub mod strategy;

verus! {

} // verus!
