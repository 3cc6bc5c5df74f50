//! Simulation kernel of a small top-down shoot-'em-up.
//!
//! Positions, sizes and distances are fixed-point integers of `UNIT`
//! sub-units per world unit; times are milliseconds. At that scale every
//! constant of the game is exact, and one tick moves a body by `STEP`.
//! Angles are micro-radians within one turn; the host evaluates sines and
//! cosines and hands the kernel the resulting points.

pub mod units;
pub mod components;
pub mod geometry;
pub mod movable;
pub mod player;
pub mod formation;
pub mod enemy;
pub mod explosion;
pub mod world;
mod random;
