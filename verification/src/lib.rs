//! A snake game on a square board: the board, the snake's steps, the food,
//! the score and the speed.

pub mod grid;
pub mod patterns;
pub mod render;
pub mod board;
pub mod debug;
pub mod game;
pub mod rng;
