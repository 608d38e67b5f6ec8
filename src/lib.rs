//! Simulation engine for Conway's Game of Life on a bounded, non-toroidal grid,
//! together with the interactive editing state (pause, paint-on-hover, speed).

pub mod grid;
pub mod rect;
pub mod board;
