//! Conway's Game of Life on a toroidal grid whose cells are packed one bit
//! each into a pair of `FixedBitSet` buffers.

pub mod bitset;
pub mod rules;
pub mod patterns;
pub mod render;
pub mod universe;

pub use universe::Universe;
