//! The piece model: kinds, colours, coordinates, move records, and a piece as
//! a closed union over the six kinds with the state each kind carries.
pub mod bishop;
pub mod king;
pub mod knight;
pub mod pawn;
pub mod queen;
pub mod rook;

use crate::board::Board;
use crate::piece::bishop::BishopData;
use crate::piece::king::KingData;
use crate::piece::knight::KnightData;
use crate::piece::pawn::PawnData;
use crate::piece::queen::QueenData;
use crate::piece::rook::RookData;
use crate::utils::{lemma_sliding_targets_open, lemma_step_targets_open, open_to};
use vstd::prelude::*;

verus! {

/// What stands on the board, as a map from the occupied squares to their pieces.
pub type Squares = Map<Position, Piece>;

/// The six kinds of piece.
#[derive(Debug, PartialEq, Eq, Clone, Copy, Structural)]
pub enum Name {
    Pawn,
    King,
    Queen,
    Rook,
    Knight,
    Bishop,
}

/// The two sides. White is the default, and moves first.
#[derive(Debug, PartialEq, Eq, Clone, Copy, Default, Structural)]
pub enum Color {
    #[default]
    White,
    Black,
}

/// A (row, column) pair. It names a square of the board when both are below 8.
#[derive(Default, Debug, PartialEq, Eq, Clone, Copy, Structural)]
pub struct Position {
    pub row: usize,
    pub col: usize,
}

/// One entry of the move history.
#[derive(Debug, PartialEq, Eq, Clone, Copy)]
pub struct MoveMeta {
    pub piece_name: Name,
    pub piece_color: Color,
    pub from: Position,
    pub to: Position,
    pub capture: bool,
    pub promotion: Option<Name>,
    pub castle: bool,
}

/// The state that a piece carries, by kind.
#[derive(Debug, PartialEq, Eq, Clone, Copy)]
pub enum PieceData {
    Pawn(PawnData),
    King(KingData),
    Queen(QueenData),
    Rook(RookData),
    Knight(KnightData),
    Bishop(BishopData),
}

/// A piece: its colour, the square it believes it stands on, and its kind with
/// that kind's state.
#[derive(Debug, PartialEq, Eq, Clone, Copy)]
pub struct Piece {
    pub color: Color,
    pub pos: Position,
    pub data: PieceData,
}

impl Position {
    /// Whether the pair names one of the 64 squares.
    pub open spec fn on_board(self) -> bool {
        self.row < 8 && self.col < 8
    }

    /// The square `dx` columns and `dy` rows away, if there is one.
    pub open spec fn shift(self, dx: int, dy: int) -> Option<Position> {
        let row = self.row + dy;
        let col = self.col + dx;
        if 0 <= row < 8 && 0 <= col < 8 {
            Some(Position { row: row as usize, col: col as usize })
        } else {
            None
        }
    }

    /// Row-major order: rows first, then columns.
    pub open spec fn precedes(self, other: Position) -> bool {
        self.row < other.row || (self.row == other.row && self.col <= other.col)
    }

    /// The square `dx` columns and `dy` rows away; none if that leaves the board.
    pub fn shifted(&self, dx: i8, dy: i8) -> (r: Option<Position>)
        ensures
            r == self.shift(dx as int, dy as int),
    {
        let row: i128 = self.row as i128 + dy as i128;
        let col: i128 = self.col as i128 + dx as i128;
        if 0 <= row && row < 8 && 0 <= col && col < 8 {
            Some(Position { row: row as usize, col: col as usize })
        } else {
            None
        }
    }
}

impl Color {
    /// The other side.
    pub open spec fn other(self) -> Color {
        match self {
            Color::White => Color::Black,
            Color::Black => Color::White,
        }
    }

    /// The row step of this colour's pawns: White moves towards row 0.
    pub open spec fn forward(self) -> int {
        match self {
            Color::White => -1,
            Color::Black => 1,
        }
    }

    /// The row on which this colour's pawns start.
    pub open spec fn pawn_rank(self) -> int {
        match self {
            Color::White => 6,
            Color::Black => 1,
        }
    }

    /// The row on which this colour's pawns promote.
    pub open spec fn last_rank(self) -> int {
        match self {
            Color::White => 0,
            Color::Black => 7,
        }
    }

    /// The other side.
    pub fn opposite(&self) -> (r: Color)
        ensures
            r == self.other(),
    {
        match self {
            Color::White => Color::Black,
            _ => Color::White,
        }
    }
}

impl PieceData {
    /// The kind that this state belongs to.
    pub open spec fn kind(self) -> Name {
        match self {
            PieceData::Pawn(_) => Name::Pawn,
            PieceData::King(_) => Name::King,
            PieceData::Queen(_) => Name::Queen,
            PieceData::Rook(_) => Name::Rook,
            PieceData::Knight(_) => Name::Knight,
            PieceData::Bishop(_) => Name::Bishop,
        }
    }

    /// The squares that a piece in this state, of `color` and standing on
    /// `pos`, attacks: all that it may move to, except that a king does not
    /// attack by castling.
    pub open spec fn attacks(self, sq: Squares, pos: Position, color: Color) -> Seq<Position> {
        match self {
            PieceData::Pawn(d) => d.candidates(sq, pos, color),
            PieceData::King(_) => KingData::steps(sq, pos, color),
            PieceData::Queen(_) => QueenData::candidates(sq, pos, color),
            PieceData::Rook(_) => RookData::candidates(sq, pos, color),
            PieceData::Knight(_) => KnightData::candidates(sq, pos, color),
            PieceData::Bishop(_) => BishopData::candidates(sq, pos, color),
        }
    }

    /// Whether the state keeps every move on the board: a pawn's en passant
    /// target, if it has one, names a square.
    pub open spec fn target_on_board(self) -> bool {
        match self {
            PieceData::Pawn(d) => match d.passant_target {
                Some(target) => target.on_board(),
                None => true,
            },
            _ => true,
        }
    }

    /// The squares that a piece in this state, of `color` and standing on
    /// `pos`, may move to, before the safety of its own king is considered.
    pub open spec fn candidates(self, sq: Squares, pos: Position, color: Color) -> Seq<Position> {
        match self {
            PieceData::King(d) => d.candidates(sq, pos, color),
            _ => self.attacks(sq, pos, color),
        }
    }

    /// Whether the candidate moves can be computed: for a king, that castling
    /// can be judged.
    pub open spec fn ready(self, sq: Squares, pos: Position, color: Color) -> bool {
        match self {
            PieceData::King(d) => d.castling_decidable(sq, pos, color),
            _ => true,
        }
    }

    /// The state after a move: pawns, kings and rooks have moved, and a pawn
    /// has used up or lost its en passant target.
    pub open spec fn settled(self) -> PieceData {
        match self {
            PieceData::Pawn(_) => PieceData::Pawn(PawnData { has_moved: true, passant_target: None }),
            PieceData::King(_) => PieceData::King(KingData { has_moved: true }),
            PieceData::Rook(_) => PieceData::Rook(RookData { has_moved: true }),
            _ => self,
        }
    }

    /// The board after a piece in this state, lifted from `from`, has reacted
    /// to its move to `to`. Only pawns and kings touch other squares.
    pub open spec fn squares_after(self, sq: Squares, from: Position, to: Position, color: Color) -> Squares {
        match self {
            PieceData::Pawn(d) => d.squares_after(sq, from, to, color),
            PieceData::King(d) => d.squares_after(sq, from, to, color),
            _ => sq,
        }
    }

    /// What the piece itself has to say about its move: pawns and kings write
    /// their own record, the others leave it to the caller.
    pub open spec fn record(self, sq: Squares, from: Position, to: Position, color: Color) -> Option<
        MoveMeta,
    > {
        match self {
            PieceData::Pawn(d) => Some(d.record(sq, from, to, color)),
            PieceData::King(d) => Some(d.record(sq, from, to, color)),
            _ => None,
        }
    }

    /// The candidate moves of a piece in this state, of `color` and standing
    /// on `pos`. They lie on the board, except that a pawn's en passant target
    /// is taken as it is.
    pub fn legal_moves(&self, pos: Position, color: Color, board: &Board) -> (moves: Vec<Position>)
        requires
            self.ready(board@, pos, color),
        ensures
            moves@ == self.candidates(board@, pos, color),
            self.target_on_board() ==> forall|k: int| 0 <= k < moves@.len() ==> moves@[k].on_board(),
    {
        match self {
            PieceData::Pawn(d) => d.legal_moves(pos, color, board),
            PieceData::King(d) => d.legal_moves(pos, color, board),
            PieceData::Queen(d) => d.legal_moves(pos, color, board),
            PieceData::Rook(d) => d.legal_moves(pos, color, board),
            PieceData::Knight(d) => d.legal_moves(pos, color, board),
            PieceData::Bishop(d) => d.legal_moves(pos, color, board),
        }
    }

    /// Lets the piece, already lifted from `from`, react to its move to `to`.
    pub fn on_move(&mut self, from: Position, to: Position, color: Color, board: &mut Board) -> (r:
        Option<MoveMeta>)
        ensures
            *final(self) == old(self).settled(),
            final(board)@ == old(self).squares_after(old(board)@, from, to, color),
            r == old(self).record(old(board)@, from, to, color),
    {
        match self {
            PieceData::Pawn(d) => d.on_move(from, to, color, board),
            PieceData::King(d) => d.on_move(from, to, color, board),
            PieceData::Queen(d) => d.on_move(from, to, color, board),
            PieceData::Rook(d) => d.on_move(from, to, color, board),
            PieceData::Knight(d) => d.on_move(from, to, color, board),
            PieceData::Bishop(d) => d.on_move(from, to, color, board),
        }
    }

    /// The squares that a piece in this state, of `color` and standing on
    /// `pos`, attacks: its candidate moves, but for a king without castling.
    pub fn attack_moves(&self, pos: Position, color: Color, board: &Board) -> (moves: Vec<Position>)
        ensures
            moves@ == self.attacks(board@, pos, color),
            self.target_on_board() ==> forall|k: int| 0 <= k < moves@.len() ==> moves@[k].on_board(),
    {
        match self {
            PieceData::Pawn(d) => d.legal_moves(pos, color, board),
            PieceData::King(_) => KingData::step_moves(pos, color, board),
            PieceData::Queen(d) => d.legal_moves(pos, color, board),
            PieceData::Rook(d) => d.legal_moves(pos, color, board),
            PieceData::Knight(d) => d.legal_moves(pos, color, board),
            PieceData::Bishop(d) => d.legal_moves(pos, color, board),
        }
    }

    /// The kind that this state belongs to.
    pub fn name(&self) -> (r: Name)
        ensures
            r == self.kind(),
    {
        match self {
            PieceData::Pawn(_) => Name::Pawn,
            PieceData::King(_) => Name::King,
            PieceData::Queen(_) => Name::Queen,
            PieceData::Rook(_) => Name::Rook,
            PieceData::Knight(_) => Name::Knight,
            PieceData::Bishop(_) => Name::Bishop,
        }
    }
}

impl Piece {
    /// The kind of this piece.
    pub open spec fn kind(self) -> Name {
        self.data.kind()
    }

    /// The same piece with its en passant target, if it is a pawn and has one, forgotten.
    pub open spec fn without_target(self) -> Piece {
        match self.data {
            PieceData::Pawn(d) => Piece {
                data: PieceData::Pawn(PawnData { passant_target: None, ..d }),
                ..self
            },
            _ => self,
        }
    }

    /// The square onto which this piece may capture en passant, if it is a
    /// pawn with such a target.
    pub open spec fn target(self) -> Option<Position> {
        match self.data {
            PieceData::Pawn(d) => d.passant_target,
            _ => None,
        }
    }

    /// The squares this piece may move to from the square it believes it stands on.
    pub open spec fn candidates(self, sq: Squares) -> Seq<Position> {
        self.data.candidates(sq, self.pos, self.color)
    }

    /// The kind of this piece.
    pub fn name(&self) -> (r: Name)
        ensures
            r == self.kind(),
    {
        self.data.name()
    }

    /// The candidate moves of this piece: pseudo-legal, in that they do not
    /// yet ask whether the piece's own king is left in check.
    pub fn legal_moves(&self, board: &Board) -> (moves: Vec<Position>)
        requires
            self.data.ready(board@, self.pos, self.color),
        ensures
            moves@ == self.candidates(board@),
            self.data.target_on_board() ==> forall|k: int|
                0 <= k < moves@.len() ==> moves@[k].on_board(),
    {
        self.data.legal_moves(self.pos, self.color, board)
    }

    /// Lets the piece react to its move from the square it believes it stands
    /// on to `to`. The piece has been lifted from the board already; its
    /// square is not changed here.
    pub fn on_move(&mut self, to: Position, board: &mut Board) -> (r: Option<MoveMeta>)
        ensures
            *final(self) == (Piece { data: old(self).data.settled(), ..*old(self) }),
            final(board)@ == old(self).data.squares_after(old(board)@, old(self).pos, to, old(self).color),
            r == old(self).data.record(old(board)@, old(self).pos, to, old(self).color),
    {
        self.data.on_move(self.pos, to, self.color, board)
    }
}

/// A piece attacks only squares that are empty or hold an enemy; the one
/// exception is a pawn's en passant target, which is taken as it is.
pub proof fn lemma_attacks_open(data: PieceData, sq: Squares, pos: Position, color: Color)
    ensures
        forall|k: int|
            0 <= k < data.attacks(sq, pos, color).len() ==> {
                ||| (#[trigger] data.attacks(sq, pos, color)[k]).on_board() && open_to(
                    sq,
                    data.attacks(sq, pos, color)[k],
                    color,
                )
                ||| data matches PieceData::Pawn(d) && d.passant_target == Some(
                    data.attacks(sq, pos, color)[k],
                )
            },
{
    match data {
        PieceData::Pawn(d) => {},
        PieceData::King(_) => lemma_step_targets_open(sq, pos, king::STEPS@, color),
        PieceData::Queen(_) => lemma_sliding_targets_open(sq, pos, queen::DIRS@, color),
        PieceData::Rook(_) => lemma_sliding_targets_open(sq, pos, rook::DIRS@, color),
        PieceData::Knight(_) => lemma_step_targets_open(sq, pos, knight::STEPS@, color),
        PieceData::Bishop(_) => lemma_sliding_targets_open(sq, pos, bishop::DIRS@, color),
    }
}

/// No candidate move leaves the board, for any kind of piece, as long as a
/// pawn's en passant target names a square.
pub proof fn lemma_candidates_on_board(data: PieceData, sq: Squares, pos: Position, color: Color)
    requires
        data.target_on_board(),
    ensures
        forall|k: int|
            0 <= k < data.candidates(sq, pos, color).len() ==> (#[trigger] data.candidates(
                sq,
                pos,
                color,
            )[k]).on_board(),
{
    lemma_attacks_open(data, sq, pos, color);
    match data {
        PieceData::King(d) => {
            let steps = KingData::steps(sq, pos, color);
            let all = d.candidates(sq, pos, color);
            assert forall|k: int| 0 <= k < all.len() implies (#[trigger] all[k]).on_board() by {
                if k < steps.len() {
                    assert(all[k] == steps[k]);
                    assert(steps[k] == data.attacks(sq, pos, color)[k]);
                }
            }
        },
        _ => {},
    }
}

} // verus!
