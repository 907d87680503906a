use chess_rules::board::Board;
use chess_rules::piece::bishop::BishopData;
use chess_rules::piece::king::KingData;
use chess_rules::piece::knight::KnightData;
use chess_rules::piece::pawn::PawnData;
use chess_rules::piece::queen::QueenData;
use chess_rules::piece::rook::RookData;
use chess_rules::piece::{bishop, king, knight, pawn, queen, rook};
use chess_rules::piece::{Color, MoveMeta, Name, Piece, PieceData, Position};
use chess_rules::utils::{all_positions, sliding_moves, step_moves};

fn at(row: usize, col: usize) -> Position {
    Position { row, col }
}

fn put(board: &mut Board, piece: Piece) {
    board.set(piece.pos, Some(piece));
}

fn squares(list: &[(usize, usize)]) -> Vec<Position> {
    list.iter().map(|&(row, col)| at(row, col)).collect()
}

fn same_layout(a: &Board, b: &Board) -> bool {
    all_positions().into_iter().all(|p| a.piece_at(p) == b.piece_at(p))
}

#[test]
fn sliding_stops_at_the_edge() {
    let board = Board::new();
    let moves = sliding_moves(&board, at(6, 5), &[(1, 0), (0, -1)], Some(Color::White));
    assert_eq!(moves, squares(&[(6, 6), (6, 7), (5, 5), (4, 5), (3, 5), (2, 5), (1, 5), (0, 5)]));
}

#[test]
fn sliding_takes_an_enemy_and_stops_before_a_friend() {
    let mut board = Board::new();
    put(&mut board, pawn::new(at(3, 6), Color::Black));
    put(&mut board, pawn::new(at(3, 1), Color::White));
    put(&mut board, pawn::new(at(3, 7), Color::Black));
    let dirs = [(1, 0), (-1, 0)];
    assert_eq!(
        sliding_moves(&board, at(3, 3), &dirs, Some(Color::White)),
        squares(&[(3, 4), (3, 5), (3, 6), (3, 2)])
    );
    assert_eq!(
        sliding_moves(&board, at(3, 3), &dirs, Some(Color::Black)),
        squares(&[(3, 4), (3, 5), (3, 2), (3, 1)])
    );
}

#[test]
fn sliding_without_a_colour_ends_on_whatever_it_meets() {
    let mut board = Board::new();
    put(&mut board, pawn::new(at(3, 6), Color::Black));
    put(&mut board, pawn::new(at(3, 1), Color::White));
    assert_eq!(
        sliding_moves(&board, at(3, 3), &[(1, 0), (-1, 0)], None),
        squares(&[(3, 4), (3, 5), (3, 6), (3, 2), (3, 1)])
    );
    assert_eq!(sliding_moves(&board, at(3, 3), &[(0, 1)], None), squares(&[(4, 3), (5, 3), (6, 3), (7, 3)]));
}

#[test]
fn sliding_by_larger_steps_and_by_none() {
    let board = Board::new();
    assert_eq!(sliding_moves(&board, at(0, 0), &[(2, 3)], Some(Color::White)), squares(&[(3, 2), (6, 4)]));
    assert_eq!(sliding_moves(&board, at(0, 0), &[(0, 0)], Some(Color::White)), vec![]);
    assert_eq!(sliding_moves(&board, at(0, 0), &[], Some(Color::White)), vec![]);
    assert_eq!(sliding_moves(&board, at(0, 0), &[(0, 0), (7, 7)], None), squares(&[(7, 7)]));
}

#[test]
fn stepping_skips_friends_and_the_edge() {
    let mut board = Board::new();
    put(&mut board, pawn::new(at(1, 1), Color::White));
    put(&mut board, pawn::new(at(0, 1), Color::Black));
    let deltas = [(1, 0), (-1, 0), (1, 1), (0, 1), (0, -1)];
    assert_eq!(step_moves(&board, at(0, 0), &deltas, Color::White), squares(&[(0, 1), (1, 0)]));
    assert_eq!(step_moves(&board, at(0, 0), &deltas, Color::Black), squares(&[(1, 1), (1, 0)]));
    assert_eq!(step_moves(&board, at(0, 0), &[], Color::Black), vec![]);
}

#[test]
fn a_knight_in_the_corner_and_in_the_middle() {
    let board = Board::new();
    let knight = KnightData {};
    assert_eq!(knight.legal_moves(at(0, 0), Color::White, &board), squares(&[(1, 2), (2, 1)]));
    assert_eq!(
        knight.legal_moves(at(4, 4), Color::White, &board),
        squares(&[(5, 6), (3, 6), (5, 2), (3, 2), (6, 5), (2, 5), (6, 3), (2, 3)])
    );
    let start = Board::standard();
    assert_eq!(
        start.piece_at(at(7, 1)).unwrap().legal_moves(&start),
        squares(&[(5, 2), (5, 0)])
    );
}

#[test]
fn a_rook_a_bishop_and_a_queen() {
    let mut board = Board::new();
    put(&mut board, pawn::new(at(4, 6), Color::Black));
    put(&mut board, pawn::new(at(6, 4), Color::White));
    put(&mut board, pawn::new(at(2, 2), Color::Black));
    let rook_moves = squares(&[
        (4, 5),
        (4, 6),
        (4, 3),
        (4, 2),
        (4, 1),
        (4, 0),
        (5, 4),
        (3, 4),
        (2, 4),
        (1, 4),
        (0, 4),
    ]);
    let bishop_moves = squares(&[
        (5, 5),
        (6, 6),
        (7, 7),
        (3, 3),
        (2, 2),
        (5, 3),
        (6, 2),
        (7, 1),
        (3, 5),
        (2, 6),
        (1, 7),
    ]);
    assert_eq!(RookData { has_moved: true }.legal_moves(at(4, 4), Color::White, &board), rook_moves);
    assert_eq!(BishopData {}.legal_moves(at(4, 4), Color::White, &board), bishop_moves);
    let mut both = rook_moves.clone();
    both.extend(bishop_moves.iter().copied());
    assert_eq!(QueenData {}.legal_moves(at(4, 4), Color::White, &board), both);
    let start = Board::standard();
    for col in [0, 2, 3, 5, 7] {
        assert_eq!(start.piece_at(at(7, col)).unwrap().legal_moves(&start), vec![]);
    }
}

#[test]
fn a_king_steps_to_its_neighbours() {
    let mut board = Board::new();
    put(&mut board, king::new(at(4, 4), Color::White));
    put(&mut board, pawn::new(at(3, 4), Color::White));
    put(&mut board, pawn::new(at(5, 5), Color::Black));
    let king = board.piece_at(at(4, 4)).unwrap();
    assert_eq!(
        king.legal_moves(&board),
        squares(&[(4, 5), (4, 3), (3, 5), (3, 3), (5, 3), (5, 4), (5, 5)])
    );
    assert_eq!(KingData::step_moves(at(0, 0), Color::Black, &board), squares(&[(0, 1), (1, 0), (1, 1)]));
}

#[test]
fn pawns_advance_towards_the_other_side() {
    let board = Board::new();
    let fresh = PawnData { has_moved: false, passant_target: None };
    let moved = PawnData { has_moved: true, passant_target: None };
    assert_eq!(fresh.legal_moves(at(6, 3), Color::White, &board), squares(&[(5, 3), (4, 3)]));
    assert_eq!(moved.legal_moves(at(6, 3), Color::White, &board), squares(&[(5, 3)]));
    assert_eq!(fresh.legal_moves(at(1, 3), Color::Black, &board), squares(&[(2, 3), (3, 3)]));
    assert_eq!(moved.legal_moves(at(4, 0), Color::Black, &board), squares(&[(5, 0)]));
    assert_eq!(moved.legal_moves(at(0, 3), Color::White, &board), vec![]);
    assert_eq!(moved.legal_moves(at(7, 3), Color::Black, &board), vec![]);
    assert_eq!(fresh.legal_moves(at(1, 3), Color::White, &board), squares(&[(0, 3)]));
}

#[test]
fn a_blocked_pawn_does_not_advance() {
    let mut board = Board::new();
    put(&mut board, knight::new(at(5, 3), Color::Black));
    put(&mut board, knight::new(at(4, 6), Color::White));
    let fresh = PawnData { has_moved: false, passant_target: None };
    assert_eq!(fresh.legal_moves(at(6, 3), Color::White, &board), vec![]);
    assert_eq!(fresh.legal_moves(at(6, 6), Color::White, &board), squares(&[(5, 6)]));
}

#[test]
fn pawns_capture_diagonally_forward() {
    let mut board = Board::new();
    put(&mut board, knight::new(at(3, 2), Color::Black));
    put(&mut board, knight::new(at(3, 4), Color::Black));
    put(&mut board, knight::new(at(3, 3), Color::Black));
    put(&mut board, knight::new(at(5, 2), Color::Black));
    let moved = PawnData { has_moved: true, passant_target: None };
    assert_eq!(moved.legal_moves(at(4, 3), Color::White, &board), squares(&[(3, 2), (3, 4)]));
    assert_eq!(moved.legal_moves(at(2, 3), Color::Black, &board), vec![]);
    assert_eq!(moved.legal_moves(at(4, 1), Color::White, &board), squares(&[(3, 1), (3, 2)]));
    assert_eq!(moved.legal_moves(at(4, 0), Color::White, &board), squares(&[(3, 0)]));
    put(&mut board, knight::new(at(5, 4), Color::White));
    assert_eq!(moved.legal_moves(at(4, 3), Color::Black, &board), squares(&[(5, 3), (5, 4)]));
}

#[test]
fn a_pawns_target_is_offered_as_it_is() {
    let board = Board::new();
    let pawn = PawnData { has_moved: true, passant_target: Some(at(2, 4)) };
    assert_eq!(pawn.legal_moves(at(3, 3), Color::White, &board), squares(&[(2, 3), (2, 4)]));
    let odd = PawnData { has_moved: true, passant_target: Some(at(9, 9)) };
    assert_eq!(odd.legal_moves(at(3, 3), Color::White, &board), squares(&[(2, 3), (9, 9)]));
}

#[test]
fn candidate_moves_stay_on_the_board() {
    let mut boards = vec![Board::new(), Board::standard()];
    let mut crowded = Board::new();
    for pos in all_positions() {
        if (pos.row + pos.col) % 3 == 0 {
            let color = if pos.row % 2 == 0 { Color::White } else { Color::Black };
            put(&mut crowded, pawn::new(pos, color));
        }
    }
    put(&mut crowded, king::new(at(7, 4), Color::White));
    put(&mut crowded, king::new(at(0, 4), Color::Black));
    put(&mut crowded, rook::new(at(7, 7), Color::White));
    put(&mut crowded, rook::new(at(0, 0), Color::Black));
    boards.push(crowded);
    for board in boards.iter_mut() {
        for color in [Color::White, Color::Black] {
            if board.get_king_pos(color).is_none() {
                put(board, king::new(at(if color == Color::White { 7 } else { 0 }, 4), color));
            }
        }
    }
    for board in &boards {
        for pos in all_positions() {
            for color in [Color::White, Color::Black] {
                let pieces = [
                    pawn::new(pos, color),
                    knight::new(pos, color),
                    bishop::new(pos, color),
                    rook::new(pos, color),
                    queen::new(pos, color),
                    king::new(pos, color),
                ];
                for piece in pieces {
                    let mut placed = *board;
                    put(&mut placed, piece);
                    for to in piece.legal_moves(&placed) {
                        assert!(to.row < 8 && to.col < 8, "{:?} from {:?} to {:?}", piece.name(), pos, to);
                    }
                }
            }
        }
    }
}

#[test]
fn castling_is_offered_on_both_sides() {
    let mut board = Board::new();
    put(&mut board, king::new(at(7, 4), Color::White));
    put(&mut board, rook::new(at(7, 7), Color::White));
    put(&mut board, rook::new(at(7, 0), Color::White));
    put(&mut board, king::new(at(0, 4), Color::Black));
    let king = board.piece_at(at(7, 4)).unwrap();
    assert_eq!(
        king.legal_moves(&board),
        squares(&[(7, 5), (7, 3), (6, 5), (6, 4), (6, 3), (7, 6), (7, 2)])
    );
    let moved = KingData { has_moved: true };
    assert_eq!(
        moved.legal_moves(at(7, 4), Color::White, &board),
        squares(&[(7, 5), (7, 3), (6, 5), (6, 4), (6, 3)])
    );
}

#[test]
fn castling_needs_an_unmoved_rook_of_the_same_colour_and_an_empty_lane() {
    let mut board = Board::new();
    put(&mut board, king::new(at(0, 4), Color::Black));
    put(&mut board, king::new(at(7, 4), Color::White));
    put(&mut board, Piece { color: Color::Black, pos: at(0, 7), data: PieceData::Rook(RookData { has_moved: true }) });
    put(&mut board, rook::new(at(0, 0), Color::White));
    let steps = squares(&[(0, 5), (0, 3), (1, 3), (1, 4), (1, 5)]);
    assert_eq!(board.piece_at(at(0, 4)).unwrap().legal_moves(&board), steps);
    put(&mut board, rook::new(at(0, 7), Color::Black));
    put(&mut board, rook::new(at(0, 0), Color::Black));
    put(&mut board, knight::new(at(0, 1), Color::Black));
    put(&mut board, bishop::new(at(0, 6), Color::White));
    assert_eq!(board.piece_at(at(0, 4)).unwrap().legal_moves(&board), steps);
    board.set(at(0, 1), None);
    let mut with_long = steps.clone();
    with_long.push(at(0, 2));
    assert_eq!(board.piece_at(at(0, 4)).unwrap().legal_moves(&board), with_long);
}

#[test]
fn castling_is_not_offered_into_check() {
    let mut board = Board::new();
    put(&mut board, king::new(at(7, 4), Color::White));
    put(&mut board, rook::new(at(7, 7), Color::White));
    put(&mut board, rook::new(at(7, 0), Color::White));
    put(&mut board, king::new(at(0, 0), Color::Black));
    put(&mut board, rook::new(at(2, 6), Color::Black));
    let king = board.piece_at(at(7, 4)).unwrap();
    assert_eq!(
        king.legal_moves(&board),
        squares(&[(7, 5), (7, 3), (6, 5), (6, 4), (6, 3), (7, 2)])
    );
    board.set(at(2, 6), None);
    put(&mut board, rook::new(at(2, 5), Color::Black));
    let king = board.piece_at(at(7, 4)).unwrap();
    assert_eq!(
        king.legal_moves(&board),
        squares(&[(7, 5), (7, 3), (6, 5), (6, 4), (6, 3), (7, 6), (7, 2)])
    );
}

#[test]
fn a_rook_remembers_that_it_moved() {
    let mut board = Board::standard();
    let before = board;
    let mut rook = RookData { has_moved: false };
    assert_eq!(rook.on_move(at(7, 0), at(5, 0), Color::White, &mut board), None);
    assert!(rook.has_moved);
    assert_eq!(rook.on_move(at(5, 0), at(7, 0), Color::White, &mut board), None);
    assert!(rook.has_moved);
    assert!(same_layout(&board, &before));
    let mut other = RookData { has_moved: false };
    other.moved();
    assert!(other.has_moved);
}

#[test]
fn knights_bishops_and_queens_have_nothing_to_add() {
    let mut board = Board::standard();
    let before = board;
    assert_eq!(KnightData {}.on_move(at(7, 1), at(5, 2), Color::White, &mut board), None);
    assert_eq!(BishopData {}.on_move(at(7, 2), at(5, 4), Color::White, &mut board), None);
    assert_eq!(QueenData {}.on_move(at(7, 3), at(5, 3), Color::White, &mut board), None);
    let mut piece = knight::new(at(7, 1), Color::White);
    assert_eq!(piece.on_move(at(5, 2), &mut board), None);
    assert_eq!(piece, knight::new(at(7, 1), Color::White));
    assert!(same_layout(&board, &before));
}

#[test]
fn a_king_records_steps_captures_and_castling() {
    let mut board = Board::new();
    put(&mut board, pawn::new(at(6, 5), Color::Black));
    let before = board;
    let mut king = KingData { has_moved: false };
    assert_eq!(
        king.on_move(at(7, 4), at(6, 5), Color::White, &mut board),
        Some(MoveMeta {
            piece_name: Name::King,
            piece_color: Color::White,
            from: at(7, 4),
            to: at(6, 5),
            capture: true,
            promotion: None,
            castle: false,
        })
    );
    assert!(king.has_moved);
    assert_eq!(
        king.on_move(at(6, 5), at(6, 3), Color::White, &mut board),
        Some(MoveMeta {
            piece_name: Name::King,
            piece_color: Color::White,
            from: at(6, 5),
            to: at(6, 3),
            capture: false,
            promotion: None,
            castle: false,
        })
    );
    assert!(same_layout(&board, &before));
    let mut fresh = KingData { has_moved: false };
    let record = fresh.on_move(at(0, 4), at(0, 2), Color::Black, &mut board).unwrap();
    assert!(record.castle);
    assert!(!record.capture);
    assert!(fresh.has_moved);
    assert!(same_layout(&board, &before));
    let mut other = KingData { has_moved: false };
    let record = other.on_move(at(0, 4), at(0, 7), Color::Black, &mut board).unwrap();
    assert!(!record.castle);
}

#[test]
fn castling_brings_the_rook_over() {
    let mut board = Board::new();
    put(&mut board, rook::new(at(7, 0), Color::White));
    put(&mut board, rook::new(at(7, 7), Color::White));
    let mut king = KingData { has_moved: false };
    let record = king.on_move(at(7, 4), at(7, 2), Color::White, &mut board).unwrap();
    assert!(record.castle);
    assert_eq!(record.from, at(7, 4));
    assert_eq!(record.to, at(7, 2));
    assert!(board.piece_at(at(7, 0)).is_none());
    assert_eq!(
        board.piece_at(at(7, 3)),
        Some(Piece { color: Color::White, pos: at(7, 3), data: PieceData::Rook(RookData { has_moved: true }) })
    );
    assert_eq!(board.piece_at(at(7, 7)), Some(rook::new(at(7, 7), Color::White)));
    let mut black = Board::new();
    put(&mut black, rook::new(at(0, 7), Color::Black));
    let mut king = KingData { has_moved: false };
    assert!(king.on_move(at(0, 4), at(0, 6), Color::Black, &mut black).unwrap().castle);
    assert!(black.piece_at(at(0, 7)).is_none());
    assert_eq!(
        black.piece_at(at(0, 5)),
        Some(Piece { color: Color::Black, pos: at(0, 5), data: PieceData::Rook(RookData { has_moved: true }) })
    );
}

#[test]
fn a_pawn_leaving_its_home_row_offers_itself() {
    let mut board = Board::new();
    put(&mut board, pawn::new(at(4, 3), Color::Black));
    put(&mut board, pawn::new(at(4, 5), Color::Black));
    put(&mut board, pawn::new(at(4, 6), Color::Black));
    put(&mut board, knight::new(at(5, 3), Color::Black));
    let mut pawn = PawnData { has_moved: false, passant_target: None };
    let record = pawn.on_move(at(6, 4), at(4, 4), Color::White, &mut board).unwrap();
    assert_eq!(
        record,
        MoveMeta {
            piece_name: Name::Pawn,
            piece_color: Color::White,
            from: at(6, 4),
            to: at(4, 4),
            capture: false,
            promotion: None,
            castle: false,
        }
    );
    assert_eq!(pawn, PawnData { has_moved: true, passant_target: None });
    for col in [3, 5] {
        match board.piece_at(at(4, col)).unwrap().data {
            PieceData::Pawn(d) => assert_eq!(d.passant_target, Some(at(5, 4))),
            _ => panic!("a pawn was expected"),
        }
    }
    assert_eq!(board.piece_at(at(4, 6)), Some(pawn::new(at(4, 6), Color::Black)));
    assert_eq!(board.piece_at(at(5, 3)), Some(knight::new(at(5, 3), Color::Black)));
}

#[test]
fn a_pawn_away_from_its_home_row_offers_nothing() {
    let mut board = Board::new();
    put(&mut board, pawn::new(at(3, 3), Color::Black));
    put(&mut board, pawn::new(at(3, 5), Color::White));
    let before = board;
    let mut pawn = PawnData { has_moved: true, passant_target: None };
    pawn.on_move(at(4, 4), at(3, 4), Color::White, &mut board);
    assert!(same_layout(&board, &before));
    let mut own = PawnData { has_moved: false, passant_target: None };
    own.on_move(at(6, 4), at(4, 4), Color::White, &mut board);
    assert!(same_layout(&board, &before));
}

#[test]
fn targets_are_computed_for_either_colour() {
    let pawn = PawnData { has_moved: false, passant_target: None };
    let mut board = Board::new();
    put(&mut board, pawn::new(at(3, 0), Color::White));
    put(&mut board, pawn::new(at(3, 2), Color::White));
    pawn.calc_passant_target(at(3, 1), Color::Black, &mut board);
    for col in [0, 2] {
        match board.piece_at(at(3, col)).unwrap().data {
            PieceData::Pawn(d) => {
                assert_eq!(d.passant_target, Some(at(2, 1)));
                assert!(!d.has_moved);
            }
            _ => panic!("a pawn was expected"),
        }
    }
    let mut edge = Board::new();
    put(&mut edge, pawn::new(at(4, 6), Color::Black));
    pawn.calc_passant_target(at(4, 7), Color::White, &mut edge);
    match edge.piece_at(at(4, 6)).unwrap().data {
        PieceData::Pawn(d) => assert_eq!(d.passant_target, Some(at(5, 7))),
        _ => panic!("a pawn was expected"),
    }
    let mut last = Board::new();
    put(&mut last, pawn::new(at(7, 6), Color::Black));
    let before = last;
    pawn.calc_passant_target(at(7, 7), Color::White, &mut last);
    assert!(same_layout(&last, &before));
}

#[test]
fn capturing_en_passant_takes_the_pawn_behind() {
    let mut board = Board::new();
    put(&mut board, pawn::new(at(3, 4), Color::Black));
    put(&mut board, Piece {
        color: Color::White,
        pos: at(3, 0),
        data: PieceData::Pawn(PawnData { has_moved: true, passant_target: Some(at(2, 1)) }),
    });
    let mut pawn = PawnData { has_moved: true, passant_target: Some(at(2, 4)) };
    let record = pawn.on_move(at(3, 3), at(2, 4), Color::White, &mut board).unwrap();
    assert!(record.capture);
    assert_eq!(record.promotion, None);
    assert!(!record.castle);
    assert_eq!(pawn, PawnData { has_moved: true, passant_target: None });
    assert!(board.piece_at(at(3, 4)).is_none());
    match board.piece_at(at(3, 0)).unwrap().data {
        PieceData::Pawn(d) => assert_eq!(d.passant_target, None),
        _ => panic!("a pawn was expected"),
    }
    let mut elsewhere = Board::new();
    put(&mut elsewhere, pawn::new(at(3, 4), Color::Black));
    let mut pawn = PawnData { has_moved: true, passant_target: Some(at(2, 4)) };
    let record = pawn.on_move(at(3, 3), at(2, 3), Color::White, &mut elsewhere).unwrap();
    assert!(!record.capture);
    assert!(elsewhere.piece_at(at(3, 4)).is_some());
    assert_eq!(pawn.passant_target, None);
}

#[test]
fn promotion_is_to_a_queen_on_the_last_row_only() {
    for (color, last, home) in [(Color::White, 0usize, 6usize), (Color::Black, 7, 1)] {
        for row in 0..8 {
            for col in 0..8 {
                let mut board = Board::new();
                let mut pawn = PawnData { has_moved: true, passant_target: None };
                let record = pawn.on_move(at(home, col), at(row, col), color, &mut board).unwrap();
                if row == last {
                    assert_eq!(record.promotion, Some(Name::Queen));
                } else {
                    assert_eq!(record.promotion, None);
                }
                assert_eq!(record.piece_name, Name::Pawn);
                assert_eq!(record.piece_color, color);
            }
        }
    }
}

#[test]
fn a_piece_reacts_from_the_square_it_believes_in() {
    let mut board = Board::new();
    put(&mut board, pawn::new(at(3, 3), Color::White));
    let mut piece = pawn::new(at(1, 4), Color::Black);
    let record = piece.on_move(at(3, 4), &mut board).unwrap();
    assert_eq!(record.from, at(1, 4));
    assert_eq!(record.to, at(3, 4));
    assert_eq!(piece.pos, at(1, 4));
    assert_eq!(piece.color, Color::Black);
    assert_eq!(piece.data, PieceData::Pawn(PawnData { has_moved: true, passant_target: None }));
    match board.piece_at(at(3, 3)).unwrap().data {
        PieceData::Pawn(d) => assert_eq!(d.passant_target, Some(at(2, 4))),
        _ => panic!("a pawn was expected"),
    }
}

#[test]
fn kinds_have_their_names() {
    let pos = at(2, 2);
    assert_eq!(pawn::new(pos, Color::White).name(), Name::Pawn);
    assert_eq!(king::new(pos, Color::White).name(), Name::King);
    assert_eq!(queen::new(pos, Color::White).name(), Name::Queen);
    assert_eq!(rook::new(pos, Color::Black).name(), Name::Rook);
    assert_eq!(knight::new(pos, Color::Black).name(), Name::Knight);
    assert_eq!(bishop::new(pos, Color::Black).name(), Name::Bishop);
    let piece = rook::new(pos, Color::Black);
    assert_eq!(piece.pos, pos);
    assert_eq!(piece.color, Color::Black);
    assert_eq!(piece.data, PieceData::Rook(RookData { has_moved: false }));
    assert_eq!(king::new(pos, Color::White).data, PieceData::King(KingData { has_moved: false }));
    assert_eq!(
        pawn::new(pos, Color::White).data,
        PieceData::Pawn(PawnData { has_moved: false, passant_target: None })
    );
    let mut king = KingData { has_moved: false };
    king.moved();
    assert!(king.has_moved);
    let mut pawn = PawnData { has_moved: false, passant_target: Some(pos) };
    pawn.moved();
    assert_eq!(pawn, PawnData { has_moved: true, passant_target: Some(pos) });
}
