//! Knights: the eight L-shaped jumps.
use crate::board::Board;
use crate::piece::{Color, MoveMeta, Piece, PieceData, Position, Squares};
use crate::utils::{step_moves, step_targets};
use vstd::prelude::*;

verus! {

/// The eight L-shaped jumps, as (column step, row step).
pub const STEPS: [(i8, i8); 8] = [(2, 1), (2, -1), (-2, 1), (-2, -1), (1, 2), (1, -2), (-1, 2), (-1, -2)];

/// A knight carries no state of its own.
#[derive(Clone, Copy, Debug, PartialEq, Eq)]
pub struct KnightData {}

impl KnightData {
    /// The squares a knight of `color` on `pos` may move to, before the
    /// safety of its own king is considered.
    pub open spec fn candidates(sq: Squares, pos: Position, color: Color) -> Seq<Position> {
        step_targets(sq, pos, STEPS@, color)
    }

    /// The candidate moves of a knight of `color` on `pos`.
    pub fn legal_moves(&self, pos: Position, color: Color, board: &Board) -> (moves: Vec<Position>)
        ensures
            moves@ == Self::candidates(board@, pos, color),
            forall|k: int| 0 <= k < moves@.len() ==> moves@[k].on_board(),
    {
        step_moves(board, pos, &STEPS, color)
    }

    /// A knight's move changes nothing but its square, and needs no record of its own.
    pub fn on_move(
        &mut self,
        _from: Position,
        _to: Position,
        _color: Color,
        board: &mut Board,
    ) -> (r: Option<MoveMeta>)
        ensures
            r is None,
            *final(self) == *old(self),
            final(board)@ == old(board)@,
    {
        None
    }
}

/// A knight of `color` that believes it stands on `pos`.
pub fn new(pos: Position, color: Color) -> (p: Piece)
    ensures
        p == (Piece { color, pos, data: PieceData::Knight(KnightData {}) }),
{
    Piece { color, pos, data: PieceData::Knight(KnightData {}) }
}

} // verus!
