//! A verified engine for Conway's Game of Life on a toroidal grid.

pub mod bits;
pub mod laws;
pub mod model;
pub mod prng;
pub mod universe;

pub use universe::GridError;
pub use universe::Universe;

