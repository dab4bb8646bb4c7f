//! Deterministic simulation core of a two-player snake game on a hexagonal grid.
//!
//! Every peer of a session runs this core on the same seed and the same input
//! symbols, so every function here is a pure function of the state it is given.

pub mod chain;
pub mod components;
pub mod game;
pub mod input;
pub mod laws;
pub mod map;
pub mod rng;
pub mod session;
