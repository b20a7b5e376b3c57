//! Conway's Game of Life: a fixed-size simulation board together with the
//! community pattern interchange formats (Life 1.05, Life 1.06, Plaintext
//! and run-length encoded), a sparse/dense cell-set model and the
//! birth/survival rule table.

pub mod file;
pub mod game;
pub mod life_106;
pub mod parsers;
pub mod rule;
pub mod text;

pub use game::GameOfLife;
pub use rule::Rule;

use vstd::prelude::*;

verus! {

/// A cell of the board is either alive or dead.
#[derive(Debug, Clone, Copy, PartialEq, Eq, Structural)]
pub enum CellState {
    Alive,
    Dead,
}

impl CellState {
    /// The opposite state: alive cells turn dead and dead cells alive.
    pub fn not(self) -> (r: CellState)
        ensures
            r == (match self {
                CellState::Alive => CellState::Dead,
                CellState::Dead => CellState::Alive,
            }),
    {
        match self {
            CellState::Alive => CellState::Dead,
            CellState::Dead => CellState::Alive,
        }
    }
}

impl From<bool> for CellState {
    /// `true` is alive, `false` is dead.
    fn from(value: bool) -> (r: CellState) {
        if value {
            CellState::Alive
        } else {
            CellState::Dead
        }
    }
}

impl vstd::std_specs::convert::FromSpecImpl<bool> for CellState {
    open spec fn obeys_from_spec() -> bool {
        true
    }

    open spec fn from_spec(v: bool) -> CellState {
        if v {
            CellState::Alive
        } else {
            CellState::Dead
        }
    }
}

} // verus!
