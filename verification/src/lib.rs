//! A discrete grid-simulation engine.
//!
//! The library advances a two-dimensional array of cells through repeated
//! local-update steps: each cell's next state depends only on its own
//! previous state and that of its immediate neighbors.  A step runs in
//! three phases (compute, egress, ingress) so that every new cell value is
//! produced from old grid state alone, which makes the result independent
//! of the order in which cells are visited.  The grid keeps a border of
//! padding cells that is refreshed before every step, either by toroidal
//! wraparound or by halo data received from neighboring tiles of a larger
//! logical grid.

use vstd::prelude::*;

pub mod direction;
pub mod grid;
pub mod halo;
pub mod laws;
pub mod neighborhood;
pub mod sim;
pub mod step;

pub use direction::Direction;
pub use direction::MooreDirection;
pub use direction::Neumann;
pub use neighborhood::MooreNeighbors;
pub use neighborhood::NeumannNeighbors;
pub use grid::SquareGrid;
pub use sim::Sim;

verus! {

/// The ways a grid operation can be refused.
#[derive(Clone, Copy, Debug, PartialEq, Eq, Structural)]
pub enum GridError {
    /// A grid dimension was zero.
    InvalidDimensions,
    /// The number of cells supplied does not fill the requested grid.
    CellCountMismatch,
    /// A sequence of values had the wrong length for its destination.
    LengthMismatch,
}

} // verus!
