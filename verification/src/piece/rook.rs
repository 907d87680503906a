//! Rooks: rays along rows and columns.
use crate::board::Board;
use crate::piece::{Color, MoveMeta, Piece, PieceData, Position, Squares};
use crate::utils::{sliding_moves, sliding_targets};
use vstd::prelude::*;

verus! {

/// The four directions along rows and columns, as (column step, row step).
pub const DIRS: [(i8, i8); 4] = [(1, 0), (-1, 0), (0, 1), (0, -1)];

/// A rook's state: whether it has moved, which decides castling on its side.
#[derive(Clone, Copy, Debug, PartialEq, Eq)]
pub struct RookData {
    pub has_moved: bool,
}

impl RookData {
    /// The squares a rook of `color` on `pos` may move to, before the
    /// safety of its own king is considered.
    pub open spec fn candidates(sq: Squares, pos: Position, color: Color) -> Seq<Position> {
        sliding_targets(sq, pos, DIRS@, Some(color))
    }

    /// The candidate moves of a rook of `color` on `pos`.
    pub fn legal_moves(&self, pos: Position, color: Color, board: &Board) -> (moves: Vec<Position>)
        ensures
            moves@ == Self::candidates(board@, pos, color),
            forall|k: int| 0 <= k < moves@.len() ==> moves@[k].on_board(),
    {
        sliding_moves(board, pos, &DIRS, Some(color))
    }

    /// A rook that has moved can no longer take part in castling. The move
    /// needs no record of its own.
    pub fn on_move(
        &mut self,
        _from: Position,
        _to: Position,
        _color: Color,
        board: &mut Board,
    ) -> (r: Option<MoveMeta>)
        ensures
            r is None,
            final(self).has_moved,
            final(board)@ == old(board)@,
    {
        self.moved();
        None
    }

    /// Notes that the rook has moved.
    pub fn moved(&mut self)
        ensures
            final(self).has_moved,
    {
        self.has_moved = true;
    }
}

/// A rook of `color` that believes it stands on `pos` and has not moved.
pub fn new(pos: Position, color: Color) -> (p: Piece)
    ensures
        p == (Piece { color, pos, data: PieceData::Rook(RookData { has_moved: false }) }),
{
    Piece { color, pos, data: PieceData::Rook(RookData { has_moved: false }) }
}

} // verus!
