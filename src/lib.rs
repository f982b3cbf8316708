//! Rules engine and move selection for Othello (Reversi) on an 8x8 board.
//!
//! `board` holds the capture move, `game` the turn order and the end of the game,
//! `virtual_player` the evaluator and the minimax search, `ascii_board` the text
//! pictures of a board and `command` the notation a player types.
pub mod ascii_board;
pub mod board;
pub mod command;
pub mod game;
pub mod virtual_player;

pub use ascii_board::board_to_ascii;
pub use board::{Board, CellsNavigation, GameError, Player};
pub use command::{parse_response, Choice};
pub use game::Game;
pub use virtual_player::{Evaluator, Minimax, VirtualPlayer};
