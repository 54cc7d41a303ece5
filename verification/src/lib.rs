//! The integer logic of a small 2D physics engine: entity storage, input
//! events, and the broad and narrow phases of collision detection.

pub mod engine;
