//! Pawns: single and double advance, diagonal capture, en passant, promotion.
use crate::board::{without_targets, Board};
use crate::piece::{Color, MoveMeta, Name, Piece, PieceData, Position, Squares};
use vstd::prelude::*;

verus! {

/// A pawn's state: whether it has moved, and the square onto which it may
/// capture en passant, if any.
#[derive(Clone, Copy, Debug, PartialEq, Eq)]
pub struct PawnData {
    pub has_moved: bool,
    pub passant_target: Option<Position>,
}

/// The squares after the pawn on `at`, if it is an enemy of `color`, has been
/// given `target` to capture onto.
pub open spec fn stash(sq: Squares, at: Position, target: Position, color: Color) -> Squares {
    if sq.contains_key(at) && sq[at].color != color {
        match sq[at].data {
            PieceData::Pawn(d) => sq.insert(
                at,
                Piece { data: PieceData::Pawn(PawnData { passant_target: Some(target), ..d }), ..sq[at] },
            ),
            _ => sq,
        }
    } else {
        sq
    }
}

/// The squares after a pawn of `color` has arrived on `pos`: the enemy pawns
/// beside it, on the same row, may capture onto the square behind it.
pub open spec fn with_targets(sq: Squares, pos: Position, color: Color) -> Squares {
    match pos.shift(0, -color.forward()) {
        None => sq,
        Some(behind) => {
            let left = match pos.shift(-1, 0) {
                Some(at) => stash(sq, at, behind, color),
                None => sq,
            };
            match pos.shift(1, 0) {
                Some(at) => stash(left, at, behind, color),
                None => left,
            }
        },
    }
}

impl PawnData {
    /// The advance: one square forward if it is empty, and from there a second
    /// one if the pawn has not moved and that square is empty too.
    pub open spec fn advance(self, sq: Squares, pos: Position, color: Color) -> Seq<Position> {
        match pos.shift(0, color.forward()) {
            None => Seq::empty(),
            Some(one) => if sq.contains_key(one) {
                Seq::empty()
            } else {
                match pos.shift(0, 2 * color.forward()) {
                    None => seq![one],
                    Some(two) => if !self.has_moved && !sq.contains_key(two) {
                        seq![one, two]
                    } else {
                        seq![one]
                    },
                }
            },
        }
    }

    /// The capture towards column step `dc`: the square diagonally forward, if
    /// an enemy stands on it.
    pub open spec fn capture(sq: Squares, pos: Position, color: Color, dc: int) -> Seq<Position> {
        match pos.shift(dc, color.forward()) {
            None => Seq::empty(),
            Some(to) => if sq.contains_key(to) && sq[to].color != color {
                seq![to]
            } else {
                Seq::empty()
            },
        }
    }

    /// The en passant capture: onto the pawn's target, if it has one.
    pub open spec fn en_passant(self) -> Seq<Position> {
        match self.passant_target {
            Some(target) => seq![target],
            None => Seq::empty(),
        }
    }

    /// The squares this pawn may move to from `pos`, before the safety of its
    /// own king is considered: advance, capture to the left, capture to the
    /// right, en passant.
    pub open spec fn candidates(self, sq: Squares, pos: Position, color: Color) -> Seq<Position> {
        self.advance(sq, pos, color) + Self::capture(sq, pos, color, -1) + Self::capture(
            sq,
            pos,
            color,
            1,
        ) + self.en_passant()
    }

    /// Whether a move to `to` captures en passant: `to` is this pawn's target.
    pub open spec fn takes_en_passant(self, to: Position) -> bool {
        self.passant_target == Some(to)
    }

    /// The board after this pawn, lifted from `from`, has reacted to its move
    /// to `to`. A move that starts on the pawn's home row gives the enemy
    /// pawns beside `to` their target; an en passant capture removes what
    /// stands behind `to`; then every target of `color` expires.
    pub open spec fn squares_after(self, sq: Squares, from: Position, to: Position, color: Color) -> Squares {
        let stashed = if from.row == color.pawn_rank() {
            with_targets(sq, to, color)
        } else {
            sq
        };
        let captured = if self.takes_en_passant(to) {
            match to.shift(0, -color.forward()) {
                Some(behind) => stashed.remove(behind),
                None => stashed,
            }
        } else {
            stashed
        };
        without_targets(captured, color)
    }

    /// The record of this pawn's move from `from` to `to`. It captures if
    /// something stands on `to`, or behind `to` when the move is en passant.
    /// On its last row it is promoted to a queen, and to nothing else.
    pub open spec fn record(self, sq: Squares, from: Position, to: Position, color: Color) -> MoveMeta {
        MoveMeta {
            piece_name: Name::Pawn,
            piece_color: color,
            from,
            to,
            capture: sq.contains_key(to) || (self.takes_en_passant(to) && match to.shift(
                0,
                -color.forward(),
            ) {
                Some(behind) => sq.contains_key(behind),
                None => false,
            }),
            promotion: if to.row == color.last_rank() {
                Some(Name::Queen)
            } else {
                None
            },
            castle: false,
        }
    }

    /// The candidate moves of this pawn, of `color` and standing on `pos`.
    /// All lie on the board, except that the en passant target is offered as
    /// it is.
    pub fn legal_moves(&self, pos: Position, color: Color, board: &Board) -> (moves: Vec<Position>)
        ensures
            moves@ == self.candidates(board@, pos, color),
            forall|k: int|
                0 <= k < moves@.len() ==> moves@[k].on_board() || self.passant_target == Some(moves@[k]),
    {
        let mut moves: Vec<Position> = Vec::new();
        let dir: i8 = match color {
            Color::White => -1,
            Color::Black => 1,
        };
        if let Some(one) = pos.shifted(0, dir) {
            if board.is_empty_cell(one) {
                moves.push(one);
                if !self.has_moved {
                    if let Some(two) = pos.shifted(0, 2 * dir) {
                        if board.is_empty_cell(two) {
                            moves.push(two);
                        }
                    }
                }
            }
        }
        assert(moves@ == self.advance(board@, pos, color));
        if let Some(to) = pos.shifted(-1, dir) {
            if board.is_enemy_cell(to, color) {
                moves.push(to);
            }
        }
        assert(moves@ == self.advance(board@, pos, color) + Self::capture(board@, pos, color, -1));
        if let Some(to) = pos.shifted(1, dir) {
            if board.is_enemy_cell(to, color) {
                moves.push(to);
            }
        }
        assert(moves@ == self.advance(board@, pos, color) + Self::capture(board@, pos, color, -1)
            + Self::capture(board@, pos, color, 1));
        if let Some(target) = self.passant_target {
            moves.push(target);
        }
        assert(moves@ == self.candidates(board@, pos, color));
        moves
    }

    /// Lets the pawn, already lifted from `from`, react to its move to `to`:
    /// it offers itself to the enemy pawns beside it if it leaves its home
    /// row, takes what it captures en passant, lets the targets of its colour
    /// expire, and counts as moved. The record says whether it captured, and
    /// whether it is promoted: to a queen, on its last row.
    pub fn on_move(&mut self, from: Position, to: Position, color: Color, board: &mut Board) -> (r:
        Option<MoveMeta>)
        ensures
            *final(self) == (PawnData { has_moved: true, passant_target: None }),
            final(board)@ == old(self).squares_after(old(board)@, from, to, color),
            r == Some(old(self).record(old(board)@, from, to, color)),
            r->0.promotion == (if to.row == color.last_rank() {
                Some(Name::Queen)
            } else {
                None
            }),
    {
        let (start_rank, last_rank, back): (usize, usize, i8) = match color {
            Color::White => (6, 0, 1),
            Color::Black => (1, 7, -1),
        };
        let mut capture = board.piece_at(to).is_some();
        if from.row == start_rank {
            self.calc_passant_target(to, color, board);
        }
        if let Some(passant_target) = self.passant_target {
            if to == passant_target {
                if let Some(behind) = to.shifted(0, back) {
                    if board.take(behind.row as i8, behind.col as i8).is_some() {
                        capture = true;
                    }
                }
            }
        }
        board.clear_passants(color);
        self.passant_target = None;
        self.moved();
        let promotion = if to.row == last_rank {
            Some(Name::Queen)
        } else {
            None
        };
        Some(
            MoveMeta {
                piece_name: Name::Pawn,
                piece_color: color,
                from,
                to,
                capture,
                promotion,
                castle: false,
            },
        )
    }

    /// Notes that the pawn has moved.
    pub fn moved(&mut self)
        ensures
            final(self).has_moved,
            final(self).passant_target == old(self).passant_target,
    {
        self.has_moved = true;
    }

    /// After a pawn of `color` has arrived on `pos`, lets the enemy pawns
    /// beside it capture onto the square behind it.
    pub fn calc_passant_target(&self, pos: Position, color: Color, board: &mut Board)
        ensures
            final(board)@ == with_targets(old(board)@, pos, color),
    {
        let back: i8 = match color {
            Color::White => 1,
            Color::Black => -1,
        };
        if let Some(behind) = pos.shifted(0, back) {
            if let Some(at) = pos.shifted(-1, 0) {
                stash_target(board, at, behind, color);
            }
            if let Some(at) = pos.shifted(1, 0) {
                stash_target(board, at, behind, color);
            }
        }
    }
}

/// Gives the pawn on `at`, if it is an enemy of `color`, the target `target`.
fn stash_target(board: &mut Board, at: Position, target: Position, color: Color)
    requires
        at.on_board(),
    ensures
        final(board)@ == stash(old(board)@, at, target, color),
{
    if let Some(p) = board.get_mut(at.row as i8, at.col as i8) {
        if p.color != color {
            if let PieceData::Pawn(ref mut pawn_data) = p.data {
                pawn_data.passant_target = Some(target);
            }
        }
    }
    proof {
        assert(crate::board::square(at.row as int, at.col as int) == at);
        assert(board@ =~= stash(old(board)@, at, target, color));
    }
}

/// A pawn of `color` that believes it stands on `pos`, has not moved and
/// has no en passant target.
pub fn new(pos: Position, color: Color) -> (p: Piece)
    ensures
        p == (Piece {
            color,
            pos,
            data: PieceData::Pawn(PawnData { has_moved: false, passant_target: None }),
        }),
{
    Piece { color, pos, data: PieceData::Pawn(PawnData { has_moved: false, passant_target: None }) }
}

} // verus!
