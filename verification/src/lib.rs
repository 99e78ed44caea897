//! A Sokoban core: a rectangular grid of cells, a player that pushes boxes
//! onto target cells, and the move-resolution engine that drives it.
//!
//! The grid and the engine are fully verified; rendering, asset loading and
//! persistence live outside this crate and talk to it through plain values.

pub mod direction;
pub mod game;
pub mod laws;
pub mod level;
pub mod levels_config;
pub mod model;
pub mod save;
