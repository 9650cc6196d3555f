//! A generic two-dimensional wave function collapse solver.
//!
//! A rectangular grid of cells is filled with values from a fixed alphabet,
//! so that every pair of adjacent cells satisfies a pluggable compatibility
//! relation. Each step collapses one cell of minimal entropy (fewest
//! remaining candidates) to a randomly chosen candidate and re-runs
//! constraint propagation to a fixpoint.

pub mod cell;
pub mod model;
pub mod engine;
pub mod pipes;
pub mod blocked;
mod randsrc;
