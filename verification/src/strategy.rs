//! The common capability of the search strategies: compute the next move to
//! play on a state, or nothing when the strategy finds no move to return.
use vstd::prelude::*;

pub mod alphabeta;
pub mod alphabetapar;
pub mod greedy;
pub mod minmax;

verus! {

use crate::game::{Game, legal_moves};

/// A search strategy: any implementor can be driven by an external
/// full-game loop that alternates `compute_next_move` and move application
/// between two strategies until the game is over.
pub trait Strategy<G: Game> {
    /// The move to play on `state`, or nothing when the strategy finds no
    /// move to return; the input state is never changed.
    fn compute_next_move(&mut self, state: &G) -> (r: Option<G::Move>)
        ensures
            r matches Some(m) ==> legal_moves(*state).contains(m),
    ;
}

} // verus!
