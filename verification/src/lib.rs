//! The rule engine of a Minesweeper game: board state, mine placement,
//! adjacency counting, cell reveal with flood-fill, flag toggling, chorded
//! reveal, and the Playing/GameOver/Won state machine.

#![verifier::loop_isolation(false)]

pub mod board;
pub mod config;
pub mod counting;
pub mod game;
pub mod geometry;
pub mod reveal_engine;

use vstd::prelude::*;

verus! {

/// Failures reported by the engine.
#[derive(Clone, Copy, Debug, PartialEq, Eq, Structural)]
pub enum GameError {
    /// Dimensions or mine count rejected at board generation.
    InvalidBoardConfig,
    /// A coordinate outside the current grid was submitted.
    OutOfBounds,
    /// An out-of-range center coordinate was handed to a geometry query.
    InvalidCoordinate,
}

} // verus!
