//! Kings: single steps in the eight directions, and castling.
use crate::board::{has_king, Board};
use crate::piece::rook::RookData;
use crate::piece::{Color, MoveMeta, Name, Piece, PieceData, Position, Squares};
use crate::rules::{in_check, is_in_check, relocate, simulate};
use crate::utils::{ray, sliding_moves, sliding_targets, step_moves, step_targets};
use vstd::prelude::*;

verus! {

/// The steps to the eight neighbouring squares, as (column step, row step).
pub const STEPS: [(i8, i8); 8] = [(1, 0), (-1, 0), (1, -1), (0, -1), (-1, -1), (-1, 1), (0, 1), (1, 1)];

/// A king's state: whether it has moved or castled.
#[derive(Clone, Copy, Debug, PartialEq, Eq)]
pub struct KingData {
    pub has_moved: bool,
}

impl KingData {
    /// The neighbouring squares that a king of `color` on `pos` may step onto.
    /// These are the squares it attacks.
    pub open spec fn steps(sq: Squares, pos: Position, color: Color) -> Seq<Position> {
        step_targets(sq, pos, STEPS@, color)
    }

    /// Whether the first piece met when walking from `pos` along the row, by
    /// column step `side`, is a rook of `color` that has not moved.
    pub open spec fn rook_waits(sq: Squares, pos: Position, color: Color, side: int) -> bool {
        let lane = ray(sq, pos, side, 0, None);
        &&& lane.len() > 0
        &&& sq.contains_key(lane.last())
        &&& sq[lane.last()].color == color
        &&& sq[lane.last()].data matches PieceData::Rook(rook)
        &&& !rook.has_moved
    }

    /// Where castling towards `side` would put the king: two squares along the
    /// row, if the rook on that side waits for it.
    pub open spec fn castle_square(sq: Squares, pos: Position, color: Color, side: int) -> Option<
        Position,
    > {
        if Self::rook_waits(sq, pos, color, side) {
            pos.shift(2 * side, 0)
        } else {
            None
        }
    }

    /// The castling move towards `side`, if there is one: the rook waits, and
    /// the king would not stand in check on the square it castles to.
    pub open spec fn castle(sq: Squares, pos: Position, color: Color, side: int) -> Seq<Position> {
        match Self::castle_square(sq, pos, color, side) {
            Some(to) => if in_check(relocate(sq, pos, to), color) {
                Seq::empty()
            } else {
                seq![to]
            },
            None => Seq::empty(),
        }
    }

    /// The squares this king may move to from `pos`, before the safety of a
    /// step is considered: its steps, and while it has not moved, castling
    /// towards the higher columns and then towards the lower ones.
    pub open spec fn candidates(self, sq: Squares, pos: Position, color: Color) -> Seq<Position> {
        if self.has_moved {
            Self::steps(sq, pos, color)
        } else {
            Self::steps(sq, pos, color) + Self::castle(sq, pos, color, 1) + Self::castle(
                sq,
                pos,
                color,
                -1,
            )
        }
    }

    /// Whether check can be judged wherever this king might castle to: on each
    /// such square there is still a king of `color` to ask about. This holds
    /// whenever a king of `color` stands on `pos`.
    pub open spec fn castling_decidable(self, sq: Squares, pos: Position, color: Color) -> bool {
        !self.has_moved ==> forall|side: int|
            #![trigger Self::castle_square(sq, pos, color, side)]
            (side == 1 || side == -1) ==> match Self::castle_square(sq, pos, color, side) {
                Some(to) => has_king(relocate(sq, pos, to), color),
                None => true,
            }
    }

    /// Whether a move from `from` to `to` by this king counts as castling:
    /// the king has not moved before, and it changes column by exactly two.
    pub open spec fn castles(self, from: Position, to: Position) -> bool {
        !self.has_moved && (to.col - from.col == 2 || from.col - to.col == 2)
    }

    /// The board after this king, lifted from `from`, has reacted to its move
    /// to `to`. When it castles, the first piece on the row beyond `from`, in
    /// the direction of the move, is brought next to `from` if it is a rook of
    /// `color`, and counts as moved. Otherwise nothing changes.
    pub open spec fn squares_after(self, sq: Squares, from: Position, to: Position, color: Color) -> Squares {
        let side: int = if to.col > from.col {
            1
        } else {
            -1
        };
        let lane = ray(sq, from, side, 0, None);
        if self.castles(from, to) && lane.len() > 0 && sq.contains_key(lane.last()) && sq[lane.last()].color
            == color && sq[lane.last()].data is Rook {
            sq.remove(lane.last()).insert(
                lane[0],
                Piece { color, pos: lane[0], data: PieceData::Rook(RookData { has_moved: true }) },
            )
        } else {
            sq
        }
    }

    /// The record of this king's move from `from` to `to`. It captures if
    /// something stands on `to`.
    pub open spec fn record(self, sq: Squares, from: Position, to: Position, color: Color) -> MoveMeta {
        MoveMeta {
            piece_name: Name::King,
            piece_color: color,
            from,
            to,
            capture: sq.contains_key(to),
            promotion: None,
            castle: self.castles(from, to),
        }
    }

    /// The king's single steps, without castling.
    pub fn step_moves(pos: Position, color: Color, board: &Board) -> (moves: Vec<Position>)
        ensures
            moves@ == Self::steps(board@, pos, color),
            forall|k: int| 0 <= k < moves@.len() ==> moves@[k].on_board(),
    {
        step_moves(board, pos, &STEPS, color)
    }

    /// The end of the walk from `pos` along the row by column step `side`:
    /// the first occupied square, or the last square of the row.
    fn lane_end(pos: Position, board: &Board, side: i8) -> (r: Option<Position>)
        ensures
            r == (if ray(board@, pos, side as int, 0, None).len() > 0 {
                Some(ray(board@, pos, side as int, 0, None).last())
            } else {
                None
            }),
            r is Some ==> pos.shift(side as int, 0) == Some(ray(board@, pos, side as int, 0, None)[0]),
    {
        let dirs: [(i8, i8); 1] = [(side, 0)];
        let lane = sliding_moves(board, pos, &dirs, None);
        proof {
            reveal_with_fuel(sliding_targets, 2);
            assert(dirs@.len() == 1);
            assert(dirs@[0] == (side, 0i8));
            assert(dirs@.drop_last().len() == 0);
            assert(lane@ == ray(board@, pos, side as int, 0, None));
        }
        if lane.len() == 0 {
            None
        } else {
            Some(lane[lane.len() - 1])
        }
    }

    /// The castling move towards `side`, if there is one.
    fn castle_move(pos: Position, color: Color, board: &Board, side: i8) -> (r: Option<Position>)
        requires
            side == 1 || side == -1,
            match Self::castle_square(board@, pos, color, side as int) {
                Some(to) => has_king(relocate(board@, pos, to), color),
                None => true,
            },
        ensures
            Self::castle(board@, pos, color, side as int) == (match r {
                Some(to) => seq![to],
                None => Seq::empty(),
            }),
            r matches Some(to) ==> to.on_board(),
    {
        if let Some(end) = Self::lane_end(pos, board, side) {
            if let Some(p) = board.piece_at(end) {
                if p.color == color {
                    if let PieceData::Rook(rook) = p.data {
                        if !rook.has_moved {
                            if let Some(to) = pos.shifted(2 * side, 0) {
                                let scratch = simulate(board, pos, to);
                                if !is_in_check(&scratch, color) {
                                    return Some(to);
                                }
                            }
                        }
                    }
                }
            }
        }
        None
    }

    /// The king's steps, and castling while it has not moved. Castling asks
    /// whether the king would stand in check, so wherever it might castle to
    /// there must be a king of `color` on the board.
    pub fn legal_moves(&self, pos: Position, color: Color, board: &Board) -> (moves: Vec<Position>)
        requires
            self.castling_decidable(board@, pos, color),
        ensures
            moves@ == self.candidates(board@, pos, color),
            forall|k: int| 0 <= k < moves@.len() ==> moves@[k].on_board(),
    {
        let mut moves = Self::step_moves(pos, color, board);
        if self.has_moved {
            return moves;
        }
        assert(Self::castle_square(board@, pos, color, 1) is Some ==> has_king(
            relocate(board@, pos, Self::castle_square(board@, pos, color, 1)->0),
            color,
        ));
        if let Some(to) = Self::castle_move(pos, color, board, 1) {
            moves.push(to);
        }
        assert(Self::castle_square(board@, pos, color, -1) is Some ==> has_king(
            relocate(board@, pos, Self::castle_square(board@, pos, color, -1)->0),
            color,
        ));
        if let Some(to) = Self::castle_move(pos, color, board, -1) {
            moves.push(to);
        }
        assert(moves@ == self.candidates(board@, pos, color));
        moves
    }

    /// Marks the king as moved and, when the move is castling, brings the rook
    /// over. The record says whether the move captured and whether it castled.
    pub fn on_move(&mut self, from: Position, to: Position, color: Color, board: &mut Board) -> (r:
        Option<MoveMeta>)
        ensures
            final(self).has_moved,
            final(board)@ == old(self).squares_after(old(board)@, from, to, color),
            r == Some(old(self).record(old(board)@, from, to, color)),
    {
        let two_right = to.col >= 2 && to.col - 2 == from.col;
        let two_left = from.col >= 2 && from.col - 2 == to.col;
        let is_castle = !self.has_moved && (two_right || two_left);
        let capture = board.piece_at(to).is_some();
        if is_castle {
            let side: i8 = if two_right {
                1
            } else {
                -1
            };
            if let Some(end) = Self::lane_end(from, board, side) {
                if let Some(p) = board.piece_at(end) {
                    if p.color == color {
                        if let PieceData::Rook(rook) = p.data {
                            if let Some(landing) = from.shifted(side, 0) {
                                let mut rook = rook;
                                rook.moved();
                                proof {
                                    board.lemma_within_board();
                                }
                                board.set(end, None);
                                board.set(landing, Some(Piece { color, pos: landing, data: PieceData::Rook(rook) }));
                            }
                        }
                    }
                }
            }
        }
        self.moved();
        Some(
            MoveMeta {
                piece_name: Name::King,
                piece_color: color,
                from,
                to,
                capture,
                promotion: None,
                castle: is_castle,
            },
        )
    }

    /// Notes that the king has moved.
    pub fn moved(&mut self)
        ensures
            final(self).has_moved,
    {
        self.has_moved = true;
    }
}

/// A king of `color` that believes it stands on `pos` and has not moved.
pub fn new(pos: Position, color: Color) -> (p: Piece)
    ensures
        p == (Piece { color, pos, data: PieceData::King(KingData { has_moved: false }) }),
{
    Piece { color, pos, data: PieceData::King(KingData { has_moved: false }) }
}

/// A king that has moved is never offered castling again: all it may do is step.
pub proof fn lemma_moved_king_only_steps(king: KingData, sq: Squares, pos: Position, color: Color)
    requires
        king.has_moved,
    ensures
        king.candidates(sq, pos, color) == KingData::steps(sq, pos, color),
{
}

/// A destination that is offered to a king and is not one of its steps is a
/// castling move: the king has not moved, on one side the rook waits unmoved
/// behind an empty lane, the destination lies two squares towards it, and the
/// king would not be in check there.
pub proof fn lemma_castling_conditions(
    king: KingData,
    sq: Squares,
    pos: Position,
    color: Color,
    to: Position,
)
    requires
        king.candidates(sq, pos, color).contains(to),
        !KingData::steps(sq, pos, color).contains(to),
    ensures
        !king.has_moved,
        !in_check(relocate(sq, pos, to), color),
        exists|side: int|
            (side == 1 || side == -1) && #[trigger] KingData::rook_waits(sq, pos, color, side)
                && pos.shift(2 * side, 0) == Some(to),
{
    let steps = KingData::steps(sq, pos, color);
    let right = KingData::castle(sq, pos, color, 1);
    let left = KingData::castle(sq, pos, color, -1);
    let all = king.candidates(sq, pos, color);
    let at = choose|at: int| 0 <= at < all.len() && all[at] == to;
    if at < steps.len() {
        assert(steps[at] == to);
    } else if at < steps.len() + right.len() {
        assert(right[at - steps.len()] == to);
        assert(KingData::rook_waits(sq, pos, color, 1));
    } else {
        assert(left[at - steps.len() - right.len()] == to);
        assert(KingData::rook_waits(sq, pos, color, -1));
    }
}

/// Where a king of `color` stands, castling can always be judged: wherever
/// the king is put, it is a king of `color` to ask about.
pub proof fn lemma_king_weighs_castling(king: KingData, sq: Squares, pos: Position, color: Color)
    requires
        sq.contains_key(pos),
        sq[pos].color == color,
        sq[pos].kind() == Name::King,
    ensures
        king.castling_decidable(sq, pos, color),
{
    assert forall|side: int|
        #![trigger KingData::castle_square(sq, pos, color, side)]
        (side == 1 || side == -1) implies match KingData::castle_square(sq, pos, color, side) {
        Some(to) => has_king(relocate(sq, pos, to), color),
        None => true,
    } by {
        if let Some(to) = KingData::castle_square(sq, pos, color, side) {
            assert(crate::board::king_at(relocate(sq, pos, to), to, color));
        }
    }
}

} // verus!
