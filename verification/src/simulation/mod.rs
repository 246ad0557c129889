//! The simulated world.

pub mod map;
