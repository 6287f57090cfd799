//! A verified tic-tac-toe engine: board state, legality checking,
//! terminal-state detection, and exhaustive minimax search.

pub mod game;
pub mod laws;
pub mod search;

pub use game::IllegalMoveError;
pub use game::Player;
pub use game::TicTacToe;
pub use game::empty_plays;
pub use game::translate_to_coord;
pub use search::MiniMaxResult;
