//! Conway's Game of Life on a toroidal board: the transition rule, the
//! rendering of a board into a pixel buffer, and the seed board.

pub mod cell;
pub mod life;
pub mod render;
pub mod seed;
