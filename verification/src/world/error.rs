//! What can go wrong inside the simulation.

use vstd::prelude::*;

verus! {

#[derive(Debug, Clone, Copy, PartialEq, Eq, Structural)]
pub enum SimulationError {
    /// No path joins start and goal under the cells that are ignored.
    PathUnreachable,
    /// An entity that should be in the world was not found in it.
    InvariantViolation,
}

} // verus!
