//! A maze-generation and grid-interaction engine.
//!
//! The crate carves perfect mazes over a rectangular grid of cells with the
//! recursive-backtracking algorithm, computes the step-2 cardinal neighbors
//! used to skip over wall cells, locates the wall cell between two carved
//! cells, and maps pointer positions in world space to grid coordinates.

pub mod carve;
pub mod error;
pub mod grid;
pub mod neighbor;
pub mod pointer;
pub mod rng;
pub mod session;
pub mod wall;
