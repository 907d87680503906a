//! The game: the board, the history of moves, and whose turn it is. A move is
//! requested by its two squares; it is either carried out whole or not at all.
use crate::board::{has_king, starting_squares, synced, without_targets, Board};
use crate::piece::king::{lemma_castling_conditions, KingData};
use crate::piece::rook::RookData;
use crate::piece::{Color, MoveMeta, Name, Piece, PieceData, Position, Squares};
use crate::rules::{
    filter_moves, legal, lemma_legal_contains, lemma_sound_piece_is_weighable, simulable, sound_at,
};
use crate::utils::{contains, lemma_ray_looks_ahead, lemma_step_targets_contain, ray};
use vstd::prelude::*;

verus! {

/// A game in progress. It changes only through `apply_move`.
pub struct Game {
    board: Board,
    history: Vec<MoveMeta>,
    turn: Color,
}

/// What a game is at one moment: what stands where, the moves made so far,
/// and the side to move.
pub struct GameState {
    pub squares: Squares,
    pub history: Seq<MoveMeta>,
    pub turn: Color,
}

impl View for Game {
    type V = GameState;

    closed spec fn view(&self) -> GameState {
        GameState { squares: self.board@, history: self.history@, turn: self.turn }
    }
}

/// The board after the piece on `from` has moved to `to`: the piece is lifted,
/// reacts to the move, is put down on `to` in its new state, and the en
/// passant targets of its colour expire.
pub open spec fn squares_after_move(sq: Squares, from: Position, to: Position) -> Squares {
    let piece = sq[from];
    let reacted = piece.data.squares_after(sq.remove(from), from, to, piece.color);
    let moved = Piece { pos: to, data: piece.data.settled(), ..piece };
    without_targets(
        if to.on_board() {
            reacted.insert(to, moved)
        } else {
            reacted
        },
        piece.color,
    )
}

/// The history entry for the move of the piece on `from` to `to`: what the
/// piece itself records if it does, and else the plain facts of the move.
pub open spec fn record_of_move(sq: Squares, from: Position, to: Position) -> MoveMeta {
    let piece = sq[from];
    match piece.data.record(sq.remove(from), from, to, piece.color) {
        Some(record) => record,
        None => MoveMeta {
            piece_name: piece.kind(),
            piece_color: piece.color,
            from,
            to,
            capture: sq.remove(from).contains_key(to),
            promotion: None,
            castle: false,
        },
    }
}

impl Default for Game {
    /// A new game, as `Game::new()` gives it.
    fn default() -> (g: Game)
        ensures
            g@ == GameState::initial(),
    {
        Game::new()
    }
}

impl GameState {
    /// The start of a game: the standard position, no history, White to move.
    pub open spec fn initial() -> GameState {
        GameState { squares: starting_squares(), history: Seq::empty(), turn: Color::White }
    }

    /// Whether the side to move has a piece on `from`.
    pub open spec fn movable(self, from: Position) -> bool {
        self.squares.contains_key(from) && self.squares[from].color == self.turn
    }

    /// Whether a request to move from `from` can be weighed: if the side to
    /// move has a piece there, its candidate moves can be computed and each
    /// can be tried out with a king of that side still on the board.
    pub open spec fn weighable(self, from: Position) -> bool {
        self.movable(from) ==> {
            let piece = self.squares[from];
            &&& piece.data.ready(self.squares, piece.pos, piece.color)
            &&& simulable(self.squares, piece.candidates(self.squares), from, piece.color)
        }
    }

    /// Whether the move from `from` to `to` is carried out: the side to move
    /// has a piece on `from`, and `to` is among its legal destinations.
    pub open spec fn accepts(self, from: Position, to: Position) -> bool {
        &&& self.movable(from)
        &&& legal(self.squares, self.squares[from].candidates(self.squares), from, self.turn).contains(to)
    }

    /// The game after the move from `from` to `to` has been carried out: the
    /// board with the move and its side effects, one more entry in the
    /// history, and the other side to move.
    pub open spec fn after_move(self, from: Position, to: Position) -> GameState {
        GameState {
            squares: squares_after_move(self.squares, from, to),
            history: self.history.push(record_of_move(self.squares, from, to)),
            turn: self.turn.other(),
        }
    }

    /// What holds of every game that is played from the start: each piece
    /// believes that it stands where it stands, White is to move after an even
    /// number of moves and Black after an odd one, and only the side to move
    /// holds en passant targets.
    pub open spec fn consistent(self) -> bool {
        &&& synced(self.squares)
        &&& self.turn == (if self.history.len() % 2 == 0 {
            Color::White
        } else {
            Color::Black
        })
        &&& forall|p: Position|
            self.squares.contains_key(p) && self.squares[p].color != self.turn ==> (
            #[trigger] self.squares[p]).target() is None
    }

    /// The game after a request to move from `from` to `to`.
    pub open spec fn after_request(self, from: Position, to: Position) -> GameState {
        if self.accepts(from, to) {
            self.after_move(from, to)
        } else {
            self
        }
    }
}

impl Game {
    /// A new game: the standard starting position, no history, White to move.
    pub fn new() -> (g: Game)
        ensures
            g@ == GameState::initial(),
            g@.consistent(),
    {
        proof {
            lemma_initial_consistent();
        }
        Game { board: Board::standard(), history: Vec::new(), turn: Color::White }
    }

    /// Passes the turn to the other side.
    fn switch_turn(&mut self)
        ensures
            final(self).turn == old(self).turn.other(),
            final(self).board == old(self).board,
            final(self).history == old(self).history,
    {
        self.turn = self.turn.opposite();
    }

    /// The side to move.
    pub fn get_turn(&self) -> (r: Color)
        ensures
            r == self@.turn,
    {
        self.turn
    }

    /// The board as it stands.
    pub fn board(&self) -> (r: &Board)
        ensures
            r@ == self@.squares,
    {
        &self.board
    }

    /// The moves made so far, oldest first.
    pub fn history(&self) -> (r: &Vec<MoveMeta>)
        ensures
            r@ == self@.history,
    {
        &self.history
    }

    /// Attempts the move from `from` to `to`. A request that names no piece of
    /// the side to move, or a destination that is not legal for it, changes
    /// nothing. Otherwise the move is carried out with its side effects, one
    /// entry is added to the history, and the turn passes to the other side.
    ///
    /// To decide what is legal, moves are tried out and the mover's king is
    /// looked for, so the request must be one that can be weighed.
    pub fn apply_move(&mut self, from: Position, to: Position)
        requires
            old(self)@.weighable(from),
        ensures
            final(self)@ == old(self)@.after_request(from, to),
            old(self)@.consistent() ==> final(self)@.consistent(),
    {
        proof {
            if self@.consistent() {
                lemma_request_keeps_consistent(self@, from, to);
            }
        }
        let piece = match self.board.piece_at(from) {
            Some(p) => p,
            None => return ,
        };
        if self.turn != piece.color {
            return ;
        }
        let mut legal_moves = piece.legal_moves(&self.board);
        filter_moves(&self.board, &mut legal_moves, from, piece.color);
        if !contains(&legal_moves, to) {
            return ;
        }
        let mut p = piece;
        proof {
            self.board.lemma_within_board();
        }
        self.board.set(from, None);
        assert(self.board@ == old(self)@.squares.remove(from));
        p.pos = to;
        let record = match p.data.on_move(from, to, p.color, &mut self.board) {
            Some(record) => record,
            None => MoveMeta {
                piece_name: p.name(),
                piece_color: p.color,
                from,
                to,
                capture: self.board.piece_at(to).is_some(),
                promotion: None,
                castle: false,
            },
        };
        assert(record == record_of_move(old(self)@.squares, from, to));
        self.history.push(record);
        self.board.set(to, Some(p));
        self.board.clear_passants(p.color);
        self.switch_turn();
        assert(self@.squares == squares_after_move(old(self)@.squares, from, to));
        assert(self@.history == old(self)@.history.push(record));
    }
}

/// A request can be weighed whenever the side to move has a king on the
/// board and the piece it names, if it is one of that side, is sound.
pub proof fn lemma_sound_request_is_weighable(state: GameState, from: Position)
    requires
        has_king(state.squares, state.turn),
        state.movable(from) ==> sound_at(state.squares, from),
    ensures
        state.weighable(from),
{
    if state.movable(from) {
        lemma_sound_piece_is_weighable(state.squares, from, state.turn);
    }
}

/// A move is recorded as a promotion exactly when a pawn reaches its last
/// row, and the promotion is always to a queen.
pub proof fn lemma_promotion_is_to_queen(sq: Squares, from: Position, to: Position)
    ensures
        record_of_move(sq, from, to).promotion == (if sq[from].data is Pawn && to.row
            == sq[from].color.last_rank() {
            Some(Name::Queen)
        } else {
            None
        }),
{
}

/// A move that is carried out puts the piece on its destination, in its new
/// state and knowing where it stands, and leaves the square it came from empty.
pub proof fn lemma_move_lands(state: GameState, from: Position, to: Position)
    requires
        state.accepts(from, to),
        to.on_board(),
        to != from,
    ensures
        !state.after_move(from, to).squares.contains_key(from),
        state.after_move(from, to).squares[to] == (Piece {
            pos: to,
            data: state.squares[from].data.settled(),
            color: state.turn,
        }),
{
}

/// Castling brings the rook over. When a king that knows where it stands is
/// allowed to move two columns for the first time, the move is recorded as
/// castling, and afterwards the rook of that side stands on the square that
/// the king passed over, and counts as moved.
pub proof fn lemma_castling_brings_rook(state: GameState, from: Position, to: Position)
    requires
        state.accepts(from, to),
        state.squares[from].pos == from,
        state.squares[from].data matches PieceData::King(king) && king.castles(from, to),
    ensures
        record_of_move(state.squares, from, to).castle,
        ({
            let side: int = if to.col > from.col {
                1
            } else {
                -1
            };
            &&& from.shift(side, 0) matches Some(passed)
            &&& from.shift(2 * side, 0) == Some(to)
            &&& state.after_move(from, to).squares.contains_key(passed)
            &&& state.after_move(from, to).squares[passed] == (Piece {
                color: state.turn,
                pos: passed,
                data: PieceData::Rook(RookData { has_moved: true }),
            })
        }),
{
    let sq = state.squares;
    let color = state.turn;
    let king = sq[from].data->King_0;
    let lifted = sq.remove(from);
    lemma_legal_contains(sq, sq[from].candidates(sq), from, color, to);
    let steps = KingData::steps(sq, from, color);
    if steps.contains(to) {
        lemma_step_targets_contain(sq, from, crate::piece::king::STEPS@, color, to);
        assert(false);
    }
    lemma_castling_conditions(king, sq, from, color, to);
    let side = choose|side: int|
        (side == 1 || side == -1) && #[trigger] KingData::rook_waits(sq, from, color, side) && from.shift(
            2 * side,
            0,
        ) == Some(to);
    lemma_ray_looks_ahead(sq, lifted, from, side, 0, None);
    let lane = ray(sq, from, side, 0, None);
    assert(from.shift(side, 0) == Some(lane[0]));
}

/// A pawn that moves off its home row offers itself to the enemy pawns beside
/// its destination: in the position after the move, such a pawn holds the
/// square behind the destination as its target, and may move there.
pub proof fn lemma_leaving_home_offers_en_passant(
    state: GameState,
    from: Position,
    to: Position,
    beside: Position,
)
    requires
        state.accepts(from, to),
        state.squares[from].data is Pawn,
        from.row == state.turn.pawn_rank(),
        to.shift(-1, 0) == Some(beside) || to.shift(1, 0) == Some(beside),
        to.shift(0, -state.turn.forward()) is Some,
        state.squares.contains_key(beside),
        state.squares[beside].color != state.turn,
        state.squares[beside].data is Pawn,
    ensures
        ({
            let after = state.after_move(from, to).squares;
            let behind = to.shift(0, -state.turn.forward())->0;
            &&& after.contains_key(beside)
            &&& after[beside].color == state.squares[beside].color
            &&& after[beside].target() == Some(behind)
            &&& after[beside].data.candidates(after, beside, after[beside].color).contains(behind)
        }),
{
    let after = state.after_move(from, to).squares;
    let behind = to.shift(0, -state.turn.forward())->0;
    let moves = after[beside].data.candidates(after, beside, after[beside].color);
    assert(moves[moves.len() - 1] == behind);
}

/// A new game is consistent.
pub proof fn lemma_initial_consistent()
    ensures
        GameState::initial().consistent(),
{
}

/// Whatever is requested of a consistent game, it stays consistent.
pub proof fn lemma_request_keeps_consistent(state: GameState, from: Position, to: Position)
    requires
        state.consistent(),
    ensures
        state.after_request(from, to).consistent(),
{
    if state.accepts(from, to) {
        let sq = state.squares;
        let piece = sq[from];
        let lifted = sq.remove(from);
        let reacted = piece.data.squares_after(lifted, from, to, piece.color);
        let after = state.after_move(from, to);
        assert forall|p: Position| reacted.contains_key(p) implies (#[trigger] reacted[p]).pos == p by {
            lemma_reaction_keeps_pieces(piece.data, lifted, from, to, piece.color, p);
            assert(lifted.contains_key(p) ==> lifted[p] == sq[p]);
        }
        assert(synced(after.squares));
    }
}

/// An en passant target lives for one move of its holder. In a consistent
/// game, the targets that stand after a move were all given by that move: a
/// pawn left its home row, the holder is an enemy pawn beside its destination,
/// and the target is the square behind that destination. What the side that
/// moved held before is gone.
pub proof fn lemma_targets_are_fresh(state: GameState, from: Position, to: Position, holder: Position)
    requires
        state.consistent(),
        state.accepts(from, to),
        state.after_move(from, to).squares.contains_key(holder),
        state.after_move(from, to).squares[holder].target() is Some,
    ensures
        state.squares[from].data is Pawn,
        from.row == state.turn.pawn_rank(),
        state.after_move(from, to).squares[holder].color != state.turn,
        to.shift(-1, 0) == Some(holder) || to.shift(1, 0) == Some(holder),
        state.after_move(from, to).squares[holder].target() == to.shift(0, -state.turn.forward()),
{
    let sq = state.squares;
    let piece = sq[from];
    let lifted = sq.remove(from);
    lemma_reaction_keeps_pieces(piece.data, lifted, from, to, piece.color, holder);
    assert(lifted.contains_key(holder) ==> lifted[holder] == sq[holder]);
}

/// What a piece's reaction to its own move does to the piece on `p`, if one
/// is there afterwards: it leaves its colour and its belief of where it stands
/// as they should be, and gives it an en passant target only if the mover is
/// a pawn that left its home row and `p` is beside its destination.
proof fn lemma_reaction_keeps_pieces(
    data: PieceData,
    sq: Squares,
    from: Position,
    to: Position,
    color: Color,
    p: Position,
)
    requires
        data.squares_after(sq, from, to, color).contains_key(p),
    ensures
        ({
            let after = data.squares_after(sq, from, to, color);
            &&& sq.contains_key(p) && sq[p].pos == p ==> after[p].pos == p
            &&& sq.contains_key(p) ==> after[p].color == sq[p].color
            &&& !sq.contains_key(p) ==> after[p].pos == p && after[p].color == color && after[p].target() is None
            &&& after[p].color == color ==> after[p].target() is None || (sq.contains_key(p) && after[p]
                == sq[p])
            &&& after[p].color != color && after[p].target() is Some ==> {
                ||| sq.contains_key(p) && sq[p].target() == after[p].target()
                ||| {
                    &&& data is Pawn
                    &&& from.row == color.pawn_rank()
                    &&& to.shift(-1, 0) == Some(p) || to.shift(1, 0) == Some(p)
                    &&& after[p].target() == to.shift(0, -color.forward())
                }
            }
        }),
{
}

} // verus!
