//! The board: an 8×8 grid of optional pieces, read and changed only through
//! the operations below. Its view is the map from occupied squares to pieces.
use crate::piece::bishop::BishopData;
use crate::piece::king::KingData;
use crate::piece::knight::KnightData;
use crate::piece::pawn::PawnData;
use crate::piece::queen::QueenData;
use crate::piece::rook::RookData;
use crate::piece::{bishop, king, knight, pawn, queen, rook};
use crate::piece::{Color, Name, Piece, PieceData, Position, Squares};
use crate::utils::{all_positions, board_squares, lemma_board_squares_cover, validate_pos};
use vstd::prelude::*;

verus! {

/// The 8×8 grid. A cell holds at most one piece.
#[derive(Debug, Clone, Copy)]
pub struct Board {
    cells: [[Option<Piece>; 8]; 8],
}

/// The square with the given row and column.
pub open spec fn square(row: int, col: int) -> Position {
    Position { row: row as usize, col: col as usize }
}

/// What stands at (`row`, `col`); nothing outside the board.
pub open spec fn occupant(sq: Squares, row: int, col: int) -> Option<Piece> {
    if 0 <= row < 8 && 0 <= col < 8 && sq.contains_key(square(row, col)) {
        Some(sq[square(row, col)])
    } else {
        None
    }
}

/// Whether a king of `color` stands on `pos`.
pub open spec fn king_at(sq: Squares, pos: Position, color: Color) -> bool {
    sq.contains_key(pos) && sq[pos].kind() == Name::King && sq[pos].color == color
}

/// Whether `color` has a king on the board.
pub open spec fn has_king(sq: Squares, color: Color) -> bool {
    exists|pos: Position| king_at(sq, pos, color)
}

/// Whether `pos` holds the king of `color` that comes first in row-major order.
pub open spec fn is_first_king(sq: Squares, pos: Position, color: Color) -> bool {
    &&& king_at(sq, pos, color)
    &&& forall|other: Position| king_at(sq, other, color) ==> pos.precedes(other)
}

/// The square of `color`'s king: the first in row-major order, should there be several.
pub open spec fn first_king(sq: Squares, color: Color) -> Option<Position> {
    if exists|pos: Position| is_first_king(sq, pos, color) {
        Some(choose|pos: Position| is_first_king(sq, pos, color))
    } else {
        None
    }
}

/// The same squares after every en passant target held by a pawn of `color` has expired.
pub open spec fn without_targets(sq: Squares, color: Color) -> Squares {
    Map::new(
        |p: Position| sq.contains_key(p),
        |p: Position|
            if sq[p].color == color {
                sq[p].without_target()
            } else {
                sq[p]
            },
    )
}

/// The piece that stands on `pos` when a game starts, for `pos` in the two
/// rows of either side: Black on rows 0 and 1, White on rows 6 and 7, pawns on
/// the inner rows, and rook, knight, bishop, queen, king, bishop, knight, rook
/// on the outer ones. None of them has moved.
pub open spec fn home_piece(pos: Position) -> Piece {
    Piece {
        color: if pos.row <= 1 {
            Color::Black
        } else {
            Color::White
        },
        pos,
        data: if pos.row == 1 || pos.row == 6 {
            PieceData::Pawn(PawnData { has_moved: false, passant_target: None })
        } else if pos.col == 0 || pos.col == 7 {
            PieceData::Rook(RookData { has_moved: false })
        } else if pos.col == 1 || pos.col == 6 {
            PieceData::Knight(KnightData {  })
        } else if pos.col == 2 || pos.col == 5 {
            PieceData::Bishop(BishopData {  })
        } else if pos.col == 3 {
            PieceData::Queen(QueenData {  })
        } else {
            PieceData::King(KingData { has_moved: false })
        },
    }
}

/// The standard starting position.
pub open spec fn starting_squares() -> Squares {
    Map::new(|p: Position| p.on_board() && (p.row <= 1 || p.row >= 6), |p: Position| home_piece(p))
}

/// Whether every piece believes that it stands where it stands.
pub open spec fn synced(sq: Squares) -> bool {
    forall|p: Position| sq.contains_key(p) ==> (#[trigger] sq[p]).pos == p
}

/// At most one square holds the first king.
pub proof fn lemma_first_king_unique(sq: Squares, a: Position, b: Position, color: Color)
    requires
        is_first_king(sq, a, color),
        is_first_king(sq, b, color),
    ensures
        a == b,
{
    assert(a.precedes(b) && b.precedes(a));
}

/// Where there is a king of `color`, there is a first one.
pub proof fn lemma_first_king_exists(sq: Squares, color: Color)
    requires
        has_king(sq, color),
    ensures
        first_king(sq, color) matches Some(king) && is_first_king(sq, king, color),
{
    lemma_king_before(sq, color, choose|pos: Position| king_at(sq, pos, color));
}

/// Before any king of `color` there is a first one, or it is the first itself.
proof fn lemma_king_before(sq: Squares, color: Color, pos: Position)
    requires
        king_at(sq, pos, color),
    ensures
        exists|first: Position| is_first_king(sq, first, color),
    decreases pos.row, pos.col,
{
    if !is_first_king(sq, pos, color) {
        let other = choose|other: Position| king_at(sq, other, color) && !pos.precedes(other);
        lemma_king_before(sq, color, other);
    }
}

impl View for Board {
    type V = Squares;

    closed spec fn view(&self) -> Squares {
        Map::new(
            |p: Position| p.on_board() && self.cells[p.row as int][p.col as int] is Some,
            |p: Position| self.cells[p.row as int][p.col as int]->0,
        )
    }
}

impl Default for Board {
    /// The empty board.
    fn default() -> (b: Board)
        ensures
            b@ == Squares::empty(),
    {
        Board::new()
    }
}

impl Board {
    /// The empty board.
    pub fn new() -> (b: Board)
        ensures
            b@ == Squares::empty(),
    {
        let row: [Option<Piece>; 8] = [None, None, None, None, None, None, None, None];
        let b = Board { cells: [row, row, row, row, row, row, row, row] };
        assert(b@ =~= Squares::empty());
        b
    }

    /// The standard starting position.
    pub fn standard() -> (b: Board)
        ensures
            b@ == starting_squares(),
    {
        let mut b = Board::new();
        let mut col: usize = 0;
        while col < 8
            invariant
                col <= 8,
                forall|p: Position|
                    b@.contains_key(p) <==> p.on_board() && p.col < col && (p.row <= 1 || p.row >= 6),
                forall|p: Position| b@.contains_key(p) ==> b@[p] == home_piece(p),
            decreases 8 - col,
        {
            b.set(Position { row: 0, col }, Some(back_rank(Position { row: 0, col }, Color::Black)));
            b.set(Position { row: 1, col }, Some(pawn::new(Position { row: 1, col }, Color::Black)));
            b.set(Position { row: 6, col }, Some(pawn::new(Position { row: 6, col }, Color::White)));
            b.set(Position { row: 7, col }, Some(back_rank(Position { row: 7, col }, Color::White)));
            col += 1;
        }
        assert(b@ =~= starting_squares());
        b
    }

    /// Only squares of the board are ever occupied.
    pub proof fn lemma_within_board(&self)
        ensures
            forall|p: Position| self@.contains_key(p) ==> p.on_board(),
    {
    }

    /// The piece at (`row`, `col`); none if the cell is empty or outside the board.
    pub fn get(&self, row: i8, col: i8) -> (r: Option<&Piece>)
        ensures
            match r {
                Some(p) => occupant(self@, row as int, col as int) == Some(*p),
                None => occupant(self@, row as int, col as int) is None,
            },
    {
        if !validate_pos(row, col) {
            return None;
        }
        self.cells[row as usize][col as usize].as_ref()
    }

    /// The piece at (`row`, `col`), to be changed in place; none if the cell
    /// is empty or outside the board.
    pub fn get_mut(&mut self, row: i8, col: i8) -> (r: Option<&mut Piece>)
        ensures
            match r {
                Some(p) => {
                    &&& occupant(old(self)@, row as int, col as int) == Some(*p)
                    &&& final(self)@ == old(self)@.insert(square(row as int, col as int), *final(p))
                },
                None => {
                    &&& occupant(old(self)@, row as int, col as int) is None
                    &&& final(self)@ == old(self)@
                },
            },
    {
        if !validate_pos(row, col) {
            return None;
        }
        self.cells[row as usize][col as usize].as_mut()
    }

    /// Removes and returns the piece at (`row`, `col`); none, and no change,
    /// if the cell is empty or outside the board.
    pub fn take(&mut self, row: i8, col: i8) -> (r: Option<Piece>)
        ensures
            r == occupant(old(self)@, row as int, col as int),
            final(self)@ == (if 0 <= row < 8 && 0 <= col < 8 {
                old(self)@.remove(square(row as int, col as int))
            } else {
                old(self)@
            }),
    {
        if !validate_pos(row, col) {
            return None;
        }
        let taken = self.cells[row as usize][col as usize];
        self.cells[row as usize][col as usize] = None;
        assert(self@ =~= old(self)@.remove(square(row as int, col as int)));
        taken
    }

    /// Puts `piece` on `pos`, or clears `pos` if there is none. Outside the
    /// board nothing happens.
    pub fn set(&mut self, pos: Position, piece: Option<Piece>)
        ensures
            final(self)@ == (if !pos.on_board() {
                old(self)@
            } else {
                match piece {
                    Some(p) => old(self)@.insert(pos, p),
                    None => old(self)@.remove(pos),
                }
            }),
    {
        if pos.row >= 8 || pos.col >= 8 {
            return ;
        }
        self.cells[pos.row][pos.col] = piece;
        assert(self@ =~= (match piece {
            Some(p) => old(self)@.insert(pos, p),
            None => old(self)@.remove(pos),
        }));
    }

    /// The piece on `pos`, if there is one.
    pub fn piece_at(&self, pos: Position) -> (r: Option<Piece>)
        ensures
            r == (if self@.contains_key(pos) {
                Some(self@[pos])
            } else {
                None
            }),
    {
        if pos.row >= 8 || pos.col >= 8 {
            return None;
        }
        self.cells[pos.row][pos.col]
    }

    /// Whether `pos` holds a piece of the other colour than `color`. Outside
    /// the board it does not.
    pub fn is_enemy_cell(&self, pos: Position, color: Color) -> (r: bool)
        ensures
            r == (self@.contains_key(pos) && self@[pos].color != color),
    {
        match self.piece_at(pos) {
            Some(p) => p.color != color,
            None => false,
        }
    }

    /// Whether `pos` is a square of the board with nothing on it.
    pub fn is_empty_cell(&self, pos: Position) -> (r: bool)
        ensures
            r == (pos.on_board() && !self@.contains_key(pos)),
    {
        pos.row < 8 && pos.col < 8 && self.piece_at(pos).is_none()
    }

    /// Finds the king of `color` by scanning the squares in row-major order.
    pub fn get_king_pos(&self, color: Color) -> (r: Option<Position>)
        ensures
            r == first_king(self@, color),
            r is Some <==> has_king(self@, color),
    {
        let squares = all_positions();
        let mut i: usize = 0;
        while i < 64
            invariant
                i <= 64,
                squares@ == board_squares(),
                forall|j: int| 0 <= j < i ==> !king_at(self@, board_squares()[j], color),
            decreases 64 - i,
        {
            let pos = squares[i];
            if let Some(p) = self.piece_at(pos) {
                if p.name() == Name::King && p.color == color {
                    proof {
                        assert forall|other: Position| king_at(self@, other, color) implies pos.precedes(
                            other,
                        ) by {
                            lemma_board_squares_cover(other);
                        }
                        assert(is_first_king(self@, pos, color));
                        lemma_first_king_unique(
                            self@,
                            pos,
                            choose|q: Position| is_first_king(self@, q, color),
                            color,
                        );
                    }
                    return Some(pos);
                }
            }
            i += 1;
        }
        proof {
            assert forall|p: Position| !king_at(self@, p, color) by {
                if self@.contains_key(p) {
                    lemma_board_squares_cover(p);
                }
            }
        }
        None
    }

    /// Expires every en passant target held by a pawn of `color`.
    pub fn clear_passants(&mut self, color: Color)
        ensures
            final(self)@ == without_targets(old(self)@, color),
    {
        let squares = all_positions();
        let mut i: usize = 0;
        while i < 64
            invariant
                i <= 64,
                squares@ == board_squares(),
                self@.dom() == old(self)@.dom(),
                forall|p: Position| #[trigger]
                    self@.contains_key(p) ==> self@[p] == (if p.row * 8 + p.col < i {
                        without_targets(old(self)@, color)[p]
                    } else {
                        old(self)@[p]
                    }),
            decreases 64 - i,
        {
            let pos = squares[i];
            let ghost before = self@;
            if let Some(piece) = self.get_mut(pos.row as i8, pos.col as i8) {
                if piece.color == color {
                    if let PieceData::Pawn(ref mut pawn_data) = piece.data {
                        pawn_data.passant_target = None;
                    }
                }
            }
            proof {
                assert(square(pos.row as int, pos.col as int) == pos);
                assert forall|p: Position| #[trigger] self@.contains_key(p) implies self@[p] == (if p.row
                    * 8 + p.col < i + 1 {
                    without_targets(old(self)@, color)[p]
                } else {
                    old(self)@[p]
                }) by {
                    assert(before.contains_key(p));
                    if p != pos {
                        assert(self@[p] == before[p]);
                    }
                }
                assert(self@.dom() =~= old(self)@.dom());
            }
            i += 1;
        }
        assert(self@ =~= without_targets(old(self)@, color));
    }
}

/// The piece of `color` that starts on `pos` in a back row.
fn back_rank(pos: Position, color: Color) -> (p: Piece)
    requires
        pos.col < 8,
        pos.row == 0 || pos.row == 7,
        color == (if pos.row == 0 {
            Color::Black
        } else {
            Color::White
        }),
    ensures
        p == home_piece(pos),
{
    if pos.col == 0 || pos.col == 7 {
        rook::new(pos, color)
    } else if pos.col == 1 || pos.col == 6 {
        knight::new(pos, color)
    } else if pos.col == 2 || pos.col == 5 {
        bishop::new(pos, color)
    } else if pos.col == 3 {
        queen::new(pos, color)
    } else {
        king::new(pos, color)
    }
}

} // verus!
