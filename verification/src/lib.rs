//! A snake game on a square grid: the snake, the food, the board and the
//! rules of one tick, with every rule stated as a contract.

pub mod food;
pub mod game;
pub mod grid;
pub mod render;
pub mod snake;
