//! Numeric constants that tune the simulation.
//!
//! Positions and velocities are measured in sub-cells, a fixed-point
//! unit of `1 / SCALE` of a character cell, and elapsed time in whole
//! milliseconds, so that every physics update is exact integer
//! arithmetic.

use vstd::prelude::*;

verus! {

/// Sub-cells per character cell.
pub const SCALE: i64 = 1_000_000;

/// Half a cell, in sub-cells.
pub const HALF_SCALE: i64 = 500_000;

/// Gravity gain: the downward velocity grows by this many sub-cells per
/// tick for each millisecond of elapsed time (an acceleration of 0.05
/// cells scaled by a time factor of 10, i.e. 0.5 cells per second).
pub const VELOCITY_GAIN_PER_MS: i64 = 500;

/// The velocity a flap overwrites the current one with: 0.3 cells
/// upward per tick.
pub const FLAP_IMPULSE: i64 = -300_000;

/// How far obstacles scroll left per millisecond of elapsed time:
/// 15 cells per second.
pub const SCROLL_PER_MS: i64 = 15_000;

/// Rows in an obstacle's passable gap.
pub const GAP_SIZE: u16 = 6;

/// A new obstacle appears once the youngest one has scrolled this many
/// cells in from the right edge.
pub const SPAWN_THRESHOLD_CELLS: i64 = 20;

/// The least field height that leaves the gap placement a non-empty
/// choice: the gap needs `GAP_SIZE` rows, a margin of three rows at the
/// top, and more than three rows at the bottom.
pub const MIN_FIELD_HEIGHT: u16 = 13;

/// The animation frame advances once every this many ticks.
pub const ANIM_PERIOD: u32 = 5;

/// Number of glyphs in the entity's animation cycle.
pub const ANIM_FRAME_COUNT: usize = 3;

} // verus!
