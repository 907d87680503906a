//! Bishops: rays along the diagonals.
use crate::board::Board;
use crate::piece::{Color, MoveMeta, Piece, PieceData, Position, Squares};
use crate::utils::{sliding_moves, sliding_targets};
use vstd::prelude::*;

verus! {

/// The four diagonal directions, as (column step, row step).
pub const DIRS: [(i8, i8); 4] = [(1, 1), (-1, -1), (-1, 1), (1, -1)];

/// A bishop carries no state of its own.
#[derive(Clone, Copy, Debug, PartialEq, Eq)]
pub struct BishopData {}

impl BishopData {
    /// The squares a bishop of `color` on `pos` may move to, before the
    /// safety of its own king is considered.
    pub open spec fn candidates(sq: Squares, pos: Position, color: Color) -> Seq<Position> {
        sliding_targets(sq, pos, DIRS@, Some(color))
    }

    /// The candidate moves of a bishop of `color` on `pos`.
    pub fn legal_moves(&self, pos: Position, color: Color, board: &Board) -> (moves: Vec<Position>)
        ensures
            moves@ == Self::candidates(board@, pos, color),
            forall|k: int| 0 <= k < moves@.len() ==> moves@[k].on_board(),
    {
        sliding_moves(board, pos, &DIRS, Some(color))
    }

    /// A bishop's move changes nothing but its square, and needs no record of its own.
    pub fn on_move(
        &mut self,
        _from: Position,
        _to: Position,
        _color: Color,
        board: &mut Board,
    ) -> (r: Option<MoveMeta>)
        ensures
            r is None,
            *final(self) == *old(self),
            final(board)@ == old(board)@,
    {
        None
    }
}

/// A bishop of `color` that believes it stands on `pos`.
pub fn new(pos: Position, color: Color) -> (p: Piece)
    ensures
        p == (Piece { color, pos, data: PieceData::Bishop(BishopData {}) }),
{
    Piece { color, pos, data: PieceData::Bishop(BishopData {}) }
}

} // verus!
