//! Physics and collision core of a Breakout-style arcade game.
//!
//! All quantities are exact fixed-point integers:
//! - lengths and coordinates are in thousandths of a world unit,
//! - time is in milliseconds,
//! - velocities are in thousandths of a unit per millisecond
//!   (numerically equal to world units per second),
//! - angles are in microradians, and trigonometric values are scaled
//!   by one million.
//!
//! This keeps every operation of the simulation exactly specified, so the
//! collision geometry, the reflection algebra and the game state machine
//! are verified down to the rounding of each division.

pub mod fixed;
pub mod game_state;
pub mod geometry;
