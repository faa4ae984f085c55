//! A Game-of-Life variant with a fading afterglow: cells that die leave an
//! orange trail whose brightness decays linearly over later generations.
//!
//! The library holds the simulation core: grid storage with double buffering,
//! bounded (non-toroidal) neighbor counting, the birth/death/decay update
//! rule, grid (re)generation, single-cell toggling, and the mapping from cell
//! and decay state to RGBA pixels.

pub mod rules;
pub mod world;

pub use rules::CellState;
pub use rules::WorldError;
pub use world::World;
