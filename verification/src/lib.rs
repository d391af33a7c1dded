//! Small grid games with machine-checked rules: a toroidal cellular automaton,
//! a four-in-a-row board, and the movement rules of a snake.

pub mod connect4;
pub mod life;
pub mod ring;
pub mod snake;
pub mod text;
