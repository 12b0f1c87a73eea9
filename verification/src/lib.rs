//! A minesweeper board whose rules are verified with Verus.
pub mod cell;
pub mod view;
pub mod rules;
pub mod random;
pub mod board;
pub mod game;
pub mod laws;

pub use board::MinesweeperBoard;
pub use cell::{CellData, CellSnapshot, CellState, RevealOutcome};
pub use game::{ClickAction, GameState, MouseInput};
