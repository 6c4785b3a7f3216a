//! The logical core of a pointer-driven minesweeper: the minefield and the
//! stack of screens that is stepped once per frame.

pub mod board;
pub mod draw;
pub mod facts;
pub mod flood;
pub mod grid;
pub mod mines;
pub mod mouse;
pub mod statemachine;
pub mod timer;
