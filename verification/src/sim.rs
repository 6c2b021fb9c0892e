//! The simulation contract: the three-phase per-cell transition a
//! simulation author implements.
//!
//! A step runs compute, egress and ingress in that order over the whole
//! grid.  `compute` reads only old state; `egress` mutates only its own
//! cell and emits one outgoing flow per direction; `ingress` merges the
//! flows that arrived from the neighbors.  No phase reads a neighbor's new
//! state, which is what makes the step independent of the order in which
//! cells are visited.

use vstd::prelude::*;

use crate::neighborhood::NeumannNeighbors;
use crate::neighborhood::deref_neighbors;

verus! {

/// A simulation rule over an eight-direction neighborhood.
///
/// The spec functions are the mathematical model of the rule: each
/// executable method is required to agree with its spec function, so a
/// whole simulation step is a pure function of the old grid state.  A
/// verified implementation overrides the spec functions with its actual
/// rule; an implementation written outside the verifier inherits the
/// defaults, which leave the model unconstrained.
pub trait Sim: Sized {
    /// The per-cell simulation state.
    type Cell;

    /// The change a cell computes from its old neighborhood.
    type Diff;

    /// The data a cell sends to one neighbor.
    type Flow;

    /// What `compute` returns, as a function of the old cell and its old
    /// neighbors.
    open spec fn s_compute(&self, cell: Self::Cell, neighbors: NeumannNeighbors<Self::Cell>) -> Self::Diff {
        vstd::pervasive::arbitrary()
    }

    /// What `egress` does: the cell's new state and the flows it emits, as
    /// a function of the old cell and its diff.
    open spec fn s_egress(&self, cell: Self::Cell, diff: Self::Diff) -> (Self::Cell, NeumannNeighbors<
        Self::Flow,
    >) {
        vstd::pervasive::arbitrary()
    }

    /// What `ingress` does: the cell's final state, as a function of the
    /// egressed cell and the flows that arrived.
    open spec fn s_ingress(&self, cell: Self::Cell, flows: NeumannNeighbors<Self::Flow>) -> Self::Cell {
        vstd::pervasive::arbitrary()
    }

    /// The cell value used to fill padding.
    open spec fn s_cell_padding(&self) -> Self::Cell {
        vstd::pervasive::arbitrary()
    }

    /// The diff value used to fill padding slots.
    open spec fn s_diff_padding(&self) -> Self::Diff {
        vstd::pervasive::arbitrary()
    }

    /// The flow value used to fill padding slots.
    open spec fn s_flow_padding(&self) -> Self::Flow {
        vstd::pervasive::arbitrary()
    }

    /// Compute this cell's diff from the old grid alone.
    fn compute(&self, cell: &Self::Cell, neighbors: NeumannNeighbors<&Self::Cell>) -> (d:
        Self::Diff)
        ensures
            d == self.s_compute(*cell, deref_neighbors(neighbors)),
    ;

    /// Apply the diff to this cell and emit one flow per direction.
    fn egress(&self, cell: &mut Self::Cell, diff: Self::Diff) -> (flows: NeumannNeighbors<
        Self::Flow,
    >)
        ensures
            *final(cell) == self.s_egress(*old(cell), diff).0,
            flows == self.s_egress(*old(cell), diff).1,
    ;

    /// Merge the flows that arrived from the neighbors into this cell.
    fn ingress(&self, cell: &mut Self::Cell, flows: NeumannNeighbors<Self::Flow>)
        ensures
            *final(cell) == self.s_ingress(*old(cell), flows),
    ;

    /// The cell used as padding.
    fn cell_padding(&self) -> (c: Self::Cell)
        ensures
            c == self.s_cell_padding(),
    ;

    /// The diff used as padding.
    fn diff_padding(&self) -> (d: Self::Diff)
        ensures
            d == self.s_diff_padding(),
    ;

    /// The flow used as padding.
    fn flow_padding(&self) -> (f: Self::Flow)
        ensures
            f == self.s_flow_padding(),
    ;

    /// An exact copy of a cell, used to refresh padding from interior
    /// cells.
    fn clone_cell(&self, cell: &Self::Cell) -> (r: Self::Cell)
        ensures
            r == *cell,
    ;
}

} // verus!
