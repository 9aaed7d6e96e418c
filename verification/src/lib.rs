//! A verified micromouse simulation engine: a differential-drive vehicle
//! with distance sensors runs inside a wall-bounded maze, advanced tick by
//! tick under control values supplied from outside. All quantities are
//! fixed-point integers in thousandths of a unit; the maze grammar, the
//! geometry, the kinematics and the terminal flags carry exact contracts.

use vstd::prelude::*;

pub mod engine;
pub mod fixed;
pub mod geometry;
pub mod maze;
pub mod mazeparser;
pub mod mouse;
pub mod ray;
pub mod simulation;
pub mod trig;

verus! {

} // verus!
