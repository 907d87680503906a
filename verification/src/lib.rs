//! A chess rules engine: board state, candidate moves for each kind of piece,
//! the filter that keeps a side from exposing its own king, the side effects
//! of a move (castling, en passant, promotion), and the detection of check,
//! checkmate and stalemate.
//!
//! Coordinates are (row, column) pairs with row 0 as Black's back rank, so
//! White advances towards smaller rows.
pub mod board;
pub mod game;
pub mod piece;
pub mod rules;
pub mod utils;
