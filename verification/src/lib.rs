//! Two small grid games on a shared square grid: Conway's Game of Life and a
//! mine-sweeping puzzle with cascading reveal.

pub mod control;
pub mod grid;
pub mod life;
pub mod mine_laws;
pub mod mine_model;
pub mod minefield;
pub mod sampling;
pub mod screen;
