//! Simulation core of a terminal arcade game: an entity falls under
//! gravity, is propelled upward by discrete flap inputs, and must pass
//! through the gaps of obstacles that scroll in from the right edge.
//!
//! The physics works on fixed-point sub-cell coordinates and whole
//! milliseconds of elapsed time, so every state transition is exact
//! integer arithmetic with a proved contract.  Terminal drawing and
//! input polling live outside this crate; the simulation hands the
//! driver plain values to render and takes plain events back.

pub mod game;
pub mod obstacle;
pub mod tuning;
