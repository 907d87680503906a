//! The rules that go beyond a single piece: check, the filter that keeps a
//! side from exposing its own king, checkmate and stalemate.
use crate::board::{first_king, has_king, king_at, Board};
use crate::piece::king::{lemma_castling_conditions, lemma_king_weighs_castling, KingData};
use crate::piece::rook;
use crate::piece::{lemma_attacks_open, lemma_candidates_on_board, Color, PieceData, Position, Squares};
use crate::utils::{
    all_positions, board_squares, contains, lemma_board_squares_cover, lemma_sliding_targets_hold_ray,
    ray,
};
use vstd::prelude::*;

verus! {

/// The squares after whatever stands on `from` has been put on `to`, with no
/// other effect of the move. A piece put outside the board is gone.
pub open spec fn relocate(sq: Squares, from: Position, to: Position) -> Squares {
    if !sq.contains_key(from) {
        sq
    } else if to.on_board() {
        sq.remove(from).insert(to, sq[from])
    } else {
        sq.remove(from)
    }
}

/// Whether the piece on `from` is an enemy of `color` that attacks `target`.
pub open spec fn threatens(sq: Squares, from: Position, target: Position, color: Color) -> bool {
    &&& sq.contains_key(from)
    &&& sq[from].color != color
    &&& sq[from].data.attacks(sq, from, sq[from].color).contains(target)
}

/// Whether the piece on `from` is an enemy of `color` that has `target` among
/// its candidate moves.
pub open spec fn reaches(sq: Squares, from: Position, target: Position, color: Color) -> bool {
    &&& sq.contains_key(from)
    &&& sq[from].color != color
    &&& sq[from].data.candidates(sq, from, sq[from].color).contains(target)
}

/// Whether some enemy of `color` attacks `target`.
pub open spec fn attacked(sq: Squares, target: Position, color: Color) -> bool {
    exists|from: Position| threatens(sq, from, target, color)
}

/// Whether the king of `color` is attacked by an enemy piece.
pub open spec fn in_check(sq: Squares, color: Color) -> bool {
    match first_king(sq, color) {
        Some(king) => attacked(sq, king, color),
        None => false,
    }
}

/// The test that the legality filter applies to a destination: with the piece
/// from `from` put there, the king of `color` is not in check.
pub open spec fn keeps_king_safe(sq: Squares, from: Position, color: Color) -> spec_fn(Position) -> bool {
    |to: Position| !in_check(relocate(sq, from, to), color)
}

/// The destinations among `moves`, in their order, that do not leave the king
/// of `color` in check when the piece on `from` is put there.
pub open spec fn legal(sq: Squares, moves: Seq<Position>, from: Position, color: Color) -> Seq<
    Position,
> {
    moves.filter(keeps_king_safe(sq, from, color))
}

/// Whether each of `moves` can be tried out: with the piece from `from` put
/// there, a king of `color` is still on the board to ask about.
pub open spec fn simulable(sq: Squares, moves: Seq<Position>, from: Position, color: Color) -> bool {
    forall|k: int| 0 <= k < moves.len() ==> has_king(relocate(sq, from, #[trigger] moves[k]), color)
}

/// Whether the piece on `at` has no legal move.
pub open spec fn stuck(sq: Squares, at: Position, color: Color) -> bool {
    legal(sq, sq[at].candidates(sq), sq[at].pos, color).len() == 0
}

/// Whether no piece of `color` has a legal move.
pub open spec fn no_legal_moves(sq: Squares, color: Color) -> bool {
    forall|at: Position| sq.contains_key(at) && sq[at].color == color ==> stuck(sq, at, color)
}

/// Whether the moves of the piece on `at` can be computed and tried out.
pub open spec fn weighable(sq: Squares, at: Position, color: Color) -> bool {
    &&& sq[at].data.ready(sq, sq[at].pos, color)
    &&& simulable(sq, sq[at].candidates(sq), sq[at].pos, color)
}

/// Whether checkmate and stalemate can be judged for `color`: its king is on
/// the board, and stays there in every move that has to be tried out.
pub open spec fn judgeable(sq: Squares, color: Color) -> bool {
    &&& has_king(sq, color)
    &&& forall|at: Position| sq.contains_key(at) && sq[at].color == color ==> weighable(sq, at, color)
}

/// Whether the piece on `at` believes that it stands there, and, if it is a
/// pawn with an en passant target, that target does not hold a king of its
/// own colour.
pub open spec fn sound_at(sq: Squares, at: Position) -> bool {
    &&& sq[at].pos == at
    &&& sq[at].target() matches Some(target) ==> !king_at(sq, target, sq[at].color)
}

/// `color` is in check and has no legal move.
pub open spec fn checkmate(sq: Squares, color: Color) -> bool {
    in_check(sq, color) && no_legal_moves(sq, color)
}

/// `color` is not in check and has no legal move.
pub open spec fn stalemate(sq: Squares, color: Color) -> bool {
    !in_check(sq, color) && no_legal_moves(sq, color)
}

/// A copy of the board on which whatever stands on `from` has been put on `to`.
pub fn simulate(board: &Board, from: Position, to: Position) -> (scratch: Board)
    ensures
        scratch@ == relocate(board@, from, to),
{
    let mut scratch = *board;
    if let Some(p) = scratch.piece_at(from) {
        scratch.set(from, None);
        scratch.set(to, Some(p));
    }
    proof {
        board.lemma_within_board();
        assert(scratch@ =~= relocate(board@, from, to));
    }
    scratch
}

/// Whether the king of `color` is in check: some enemy piece attacks the
/// square it stands on. The board must hold a king of `color`.
pub fn is_in_check(board: &Board, color: Color) -> (r: bool)
    requires
        has_king(board@, color),
    ensures
        r == in_check(board@, color),
        r <==> exists|from: Position| reaches(board@, from, first_king(board@, color)->0, color),
{
    let king_pos = board.get_king_pos(color).unwrap();
    let squares = all_positions();
    let mut i: usize = 0;
    while i < 64
        invariant
            i <= 64,
            squares@ == board_squares(),
            first_king(board@, color) == Some(king_pos),
            forall|j: int| 0 <= j < i ==> !threatens(board@, board_squares()[j], king_pos, color),
        decreases 64 - i,
    {
        let pos = squares[i];
        if let Some(p) = board.piece_at(pos) {
            if p.color != color {
                let moves = p.data.attack_moves(pos, p.color, board);
                if contains(&moves, king_pos) {
                    proof {
                        assert(threatens(board@, pos, king_pos, color));
                        lemma_check_by_candidates(board@, color);
                    }
                    return true;
                }
            }
        }
        i += 1;
    }
    proof {
        assert forall|from: Position| !threatens(board@, from, king_pos, color) by {
            if board@.contains_key(from) {
                board.lemma_within_board();
                lemma_board_squares_cover(from);
                assert(!threatens(board@, board_squares()[from.row * 8 + from.col], king_pos, color));
            }
        }
        lemma_check_by_candidates(board@, color);
    }
    false
}

/// Keeps of `moves` the destinations that do not leave the king of `color` in
/// check when the piece on `from` is put there, on a copy of the board and
/// with no other effect of the move. Every move must be one that can be tried:
/// a king of `color` is still on the board afterwards.
pub fn filter_moves(board: &Board, moves: &mut Vec<Position>, from: Position, color: Color)
    requires
        simulable(board@, old(moves)@, from, color),
    ensures
        final(moves)@ == legal(board@, old(moves)@, from, color),
        forall|k: int|
            0 <= k < final(moves)@.len() ==> !in_check(
                relocate(board@, from, #[trigger] final(moves)@[k]),
                color,
            ),
{
    let mut kept: Vec<Position> = Vec::new();
    let mut i: usize = 0;
    while i < moves.len()
        invariant
            i <= moves.len(),
            moves@ == old(moves)@,
            simulable(board@, moves@, from, color),
            kept@ == legal(board@, moves@.take(i as int), from, color),
        decreases moves.len() - i,
    {
        let mv = moves[i];
        let scratch = simulate(board, from, mv);
        proof {
            reveal(Seq::filter);
            assert(moves@.take(i + 1).drop_last() == moves@.take(i as int));
        }
        if !is_in_check(&scratch, color) {
            kept.push(mv);
        }
        i += 1;
    }
    proof {
        assert(moves@.take(moves.len() as int) == moves@);
        lemma_legal_moves_are_safe(board@, moves@, from, color);
    }
    *moves = kept;
}

/// Whether no piece of `color` has a legal move.
fn has_no_moves(board: &Board, color: Color) -> (r: bool)
    requires
        judgeable(board@, color),
    ensures
        r == no_legal_moves(board@, color),
{
    let squares = all_positions();
    let mut i: usize = 0;
    while i < 64
        invariant
            i <= 64,
            squares@ == board_squares(),
            judgeable(board@, color),
            forall|j: int|
                0 <= j < i && board@.contains_key(board_squares()[j]) && board@[board_squares()[j]].color
                    == color ==> stuck(board@, board_squares()[j], color),
        decreases 64 - i,
    {
        let pos = squares[i];
        if let Some(p) = board.piece_at(pos) {
            if p.color == color {
                assert(weighable(board@, pos, color));
                let mut moves = p.legal_moves(board);
                filter_moves(board, &mut moves, p.pos, color);
                if moves.len() != 0 {
                    assert(!stuck(board@, pos, color));
                    return false;
                }
            }
        }
        i += 1;
    }
    proof {
        assert forall|at: Position| board@.contains_key(at) && board@[at].color == color implies stuck(
            board@,
            at,
            color,
        ) by {
            board.lemma_within_board();
            lemma_board_squares_cover(at);
            assert(stuck(board@, board_squares()[at.row * 8 + at.col], color));
        }
    }
    true
}

/// Whether `color` is checkmated: in check, and without a legal move for any
/// of its pieces. The board is only read. It must hold a king of `color`, and
/// if that king is in check, one must remain in every move that is tried out.
pub fn is_checkmate(board: &mut Board, color: Color) -> (r: bool)
    requires
        has_king(old(board)@, color),
        in_check(old(board)@, color) ==> judgeable(old(board)@, color),
    ensures
        r == checkmate(old(board)@, color),
        *final(board) == *old(board),
{
    if !is_in_check(board, color) {
        return false;
    }
    has_no_moves(board, color)
}

/// Whether `color` is stalemated: not in check, and without a legal move for
/// any of its pieces. The board must hold a king of `color`, and if that king
/// is not in check, one must remain in every move that is tried out.
pub fn is_stalemate(board: &Board, color: Color) -> (r: bool)
    requires
        has_king(board@, color),
        !in_check(board@, color) ==> judgeable(board@, color),
    ensures
        r == stalemate(board@, color),
{
    if is_in_check(board, color) {
        return false;
    }
    has_no_moves(board, color)
}

/// None of the moves that the filter keeps leaves the king in check.
pub proof fn lemma_legal_moves_are_safe(sq: Squares, moves: Seq<Position>, from: Position, color: Color)
    ensures
        forall|k: int|
            0 <= k < legal(sq, moves, from, color).len() ==> !in_check(
                relocate(sq, from, #[trigger] legal(sq, moves, from, color)[k]),
                color,
            ),
{
    let test = keeps_king_safe(sq, from, color);
    assert forall|k: int| 0 <= k < moves.filter(test).len() implies test(#[trigger] moves.filter(test)[k]) by {
        moves.lemma_filter_pred(test, k);
    }
}

/// A destination passes the filter exactly when it was offered and, with the
/// piece put there, the king of `color` is not in check.
pub proof fn lemma_legal_contains(
    sq: Squares,
    moves: Seq<Position>,
    from: Position,
    color: Color,
    to: Position,
)
    ensures
        legal(sq, moves, from, color).contains(to) <==> moves.contains(to) && !in_check(
            relocate(sq, from, to),
            color,
        ),
{
    let test = keeps_king_safe(sq, from, color);
    let kept = moves.filter(test);
    if kept.contains(to) {
        let k = choose|k: int| 0 <= k < kept.len() && kept[k] == to;
        moves.lemma_filter_pred(test, k);
        moves.lemma_filter_contains_rev(test, to);
    }
    if moves.contains(to) && test(to) {
        let i = choose|i: int| 0 <= i < moves.len() && moves[i] == to;
        moves.lemma_filter_contains(test, i);
    }
}

/// Filtering twice keeps what filtering once keeps.
pub proof fn lemma_filter_idempotent(sq: Squares, moves: Seq<Position>, from: Position, color: Color)
    ensures
        legal(sq, legal(sq, moves, from, color), from, color) == legal(sq, moves, from, color),
    decreases moves.len(),
{
    reveal(Seq::filter);
    let test = keeps_king_safe(sq, from, color);
    if moves.len() > 0 {
        lemma_filter_idempotent(sq, moves.drop_last(), from, color);
        let before = moves.drop_last().filter(test);
        if test(moves.last()) {
            assert(before.push(moves.last()).drop_last() == before);
        }
    }
}

/// Checkmate and stalemate exclude each other, and each means that the side
/// has no legal move with any of its pieces.
pub proof fn lemma_checkmate_excludes_stalemate(sq: Squares, color: Color)
    ensures
        !(checkmate(sq, color) && stalemate(sq, color)),
        checkmate(sq, color) ==> no_legal_moves(sq, color),
        stalemate(sq, color) ==> no_legal_moves(sq, color),
{
}

/// Castling never adds a threat: where an enemy king could castle onto an
/// occupied square, the rook that it castles with attacks that square already.
pub proof fn lemma_reached_is_attacked(sq: Squares, from: Position, target: Position, color: Color)
    requires
        reaches(sq, from, target, color),
        sq.contains_key(target),
        sq[target].color == color,
    ensures
        attacked(sq, target, color),
{
    let piece = sq[from];
    let enemy = piece.color;
    match piece.data {
        PieceData::King(king) => {
            let steps = KingData::steps(sq, from, enemy);
            if steps.contains(target) {
                assert(threatens(sq, from, target, color));
            } else {
                lemma_castling_conditions(king, sq, from, enemy, target);
                let side = choose|side: int|
                    (side == 1 || side == -1) && #[trigger] KingData::rook_waits(sq, from, enemy, side)
                        && from.shift(2 * side, 0) == Some(target);
                let lane = ray(sq, from, side, 0, None);
                let next = from.shift(side, 0)->0;
                assert(from.shift(side, 0) == Some(next));
                assert(next.shift(side, 0) == Some(target));
                if sq.contains_key(next) {
                    assert(lane == seq![next]);
                    assert(lane.last() == next);
                    let dirs = rook::DIRS@;
                    let i: int = if side == 1 {
                        0
                    } else {
                        1
                    };
                    assert(dirs[i] == (side as i8, 0i8));
                    assert(ray(sq, next, side, 0, Some(enemy)) == seq![target]);
                    assert(ray(sq, next, side, 0, Some(enemy))[0] == target);
                    lemma_sliding_targets_hold_ray(sq, next, dirs, Some(enemy), i, target);
                    assert(threatens(sq, next, target, color));
                } else {
                    assert(ray(sq, next, side, 0, None) == seq![target]);
                    assert(lane == seq![next] + seq![target]);
                    assert(lane.last() == target);
                    assert(false);
                }
            }
        },
        _ => {
            assert(threatens(sq, from, target, color));
        },
    }
}

/// A king is in check exactly when some enemy piece has the king's square
/// among its candidate moves.
pub proof fn lemma_check_by_candidates(sq: Squares, color: Color)
    ensures
        in_check(sq, color) <==> first_king(sq, color) is Some && exists|from: Position|
            reaches(sq, from, first_king(sq, color)->0, color),
{
    if let Some(king) = first_king(sq, color) {
        assert(crate::board::is_first_king(sq, king, color));
        if in_check(sq, color) {
            let from = choose|from: Position| threatens(sq, from, king, color);
            let attacks = sq[from].data.attacks(sq, from, sq[from].color);
            let all = sq[from].data.candidates(sq, from, sq[from].color);
            let at = choose|at: int| 0 <= at < attacks.len() && attacks[at] == king;
            assert(all[at] == king);
            assert(reaches(sq, from, king, color));
        }
        if exists|from: Position| reaches(sq, from, king, color) {
            let from = choose|from: Position| reaches(sq, from, king, color);
            lemma_reached_is_attacked(sq, from, king, color);
        }
    }
}

/// Trying out a move leaves a king of `color` on the board if the piece
/// that moves is such a king and stays on the board, or if it is none and
/// does not land on one.
pub proof fn lemma_relocation_keeps_king(sq: Squares, from: Position, to: Position, color: Color)
    requires
        has_king(sq, color),
        if king_at(sq, from, color) {
            to.on_board()
        } else {
            !king_at(sq, to, color)
        },
    ensures
        has_king(relocate(sq, from, to), color),
{
    let king = choose|pos: Position| king_at(sq, pos, color);
    if king_at(sq, from, color) {
        assert(king_at(relocate(sq, from, to), to, color));
    } else {
        assert(king_at(relocate(sq, from, to), king, color));
    }
}

/// On a board with a king of its colour, every candidate move of a sound
/// piece can be tried out, and the candidates themselves can be computed.
pub proof fn lemma_sound_piece_is_weighable(sq: Squares, at: Position, color: Color)
    requires
        has_king(sq, color),
        sq.contains_key(at),
        sq[at].color == color,
        sound_at(sq, at),
    ensures
        weighable(sq, at, color),
{
    let piece = sq[at];
    let moves = piece.candidates(sq);
    lemma_attacks_open(piece.data, sq, at, color);
    let attacks = piece.data.attacks(sq, at, color);
    if let PieceData::King(king) = piece.data {
        lemma_king_weighs_castling(king, sq, at, color);
    }
    assert forall|k: int| 0 <= k < moves.len() implies has_king(
        relocate(sq, at, #[trigger] moves[k]),
        color,
    ) by {
        let to = moves[k];
        match piece.data {
            PieceData::King(_) => {
                lemma_candidates_on_board(piece.data, sq, at, color);
                assert(king_at(sq, at, color));
            },
            _ => {
                assert(moves == attacks);
                assert(attacks[k] == to);
                assert(!king_at(sq, at, color));
            },
        }
        lemma_relocation_keeps_king(sq, at, to, color);
    }
}

/// Checkmate and stalemate can be judged on a board that holds a king of
/// `color` and on which every piece of `color` is sound.
pub proof fn lemma_sound_board_is_judgeable(sq: Squares, color: Color)
    requires
        has_king(sq, color),
        forall|at: Position| sq.contains_key(at) && sq[at].color == color ==> sound_at(sq, at),
    ensures
        judgeable(sq, color),
{
    assert forall|at: Position| sq.contains_key(at) && sq[at].color == color implies weighable(
        sq,
        at,
        color,
    ) by {
        lemma_sound_piece_is_weighable(sq, at, color);
    }
}

} // verus!
