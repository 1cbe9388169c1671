//! Error kinds of the engine.

use vstd::prelude::*;

verus! {

/// Everything that a grid or session operation can fail with.
#[derive(Clone, Copy, Debug, PartialEq, Eq, Structural)]
pub enum MazeError {
    /// A coordinate was outside the grid extents.
    OutOfBounds,
    /// The grid is too small for the carve algorithm to pick an interior seed.
    DegenerateGridSize,
}

} // verus!
