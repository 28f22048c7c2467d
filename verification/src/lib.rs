//! Deterministic fixed-point core of a 2D side-view character controller
//! with a swinging/pulling grappling hook.
//!
//! World coordinates are held as integers in units of 1/100 of a world
//! unit ("down" is positive `y`), so every tick of the simulation is an
//! exact integer computation and the whole update is a pure function of
//! the previous state and the held inputs.

pub mod math;
pub mod player;
