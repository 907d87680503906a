//! Queens: rays along rows, columns and diagonals.
use crate::board::Board;
use crate::piece::{Color, MoveMeta, Piece, PieceData, Position, Squares};
use crate::utils::{sliding_moves, sliding_targets};
use vstd::prelude::*;

verus! {

/// The rook's four directions followed by the bishop's four, as (column step, row step).
pub const DIRS: [(i8, i8); 8] = [(1, 0), (-1, 0), (0, 1), (0, -1), (1, 1), (-1, -1), (-1, 1), (1, -1)];

/// A queen carries no state of its own.
#[derive(Clone, Copy, Debug, PartialEq, Eq)]
pub struct QueenData {}

impl QueenData {
    /// The squares a queen of `color` on `pos` may move to, before the
    /// safety of its own king is considered.
    pub open spec fn candidates(sq: Squares, pos: Position, color: Color) -> Seq<Position> {
        sliding_targets(sq, pos, DIRS@, Some(color))
    }

    /// The candidate moves of a queen of `color` on `pos`.
    pub fn legal_moves(&self, pos: Position, color: Color, board: &Board) -> (moves: Vec<Position>)
        ensures
            moves@ == Self::candidates(board@, pos, color),
            forall|k: int| 0 <= k < moves@.len() ==> moves@[k].on_board(),
    {
        sliding_moves(board, pos, &DIRS, Some(color))
    }

    /// A queen's move changes nothing but its square, and needs no record of its own.
    pub fn on_move(
        &mut self,
        _from: Position,
        _to: Position,
        _color: Color,
        board: &mut Board,
    ) -> (r: Option<MoveMeta>)
        ensures
            r is None,
            *final(self) == *old(self),
            final(board)@ == old(board)@,
    {
        None
    }
}

/// A queen of `color` that believes it stands on `pos`.
pub fn new(pos: Position, color: Color) -> (p: Piece)
    ensures
        p == (Piece { color, pos, data: PieceData::Queen(QueenData {}) }),
{
    Piece { color, pos, data: PieceData::Queen(QueenData {}) }
}

} // verus!
