use bee_chess::chess::movegen::PROMOTION_KINDS;
use bee_chess::chess::{Move, MoveFlag, Position, Square};

fn contains_move(moves: &[Move], from: Square, to: Square, flag: MoveFlag) -> bool {
    moves
        .iter()
        .any(|mv| mv.from() == from && mv.to() == to && mv.flag() == flag)
}

fn sq(file: u8, rank: u8) -> Square {
    Square::from_file_rank(file, rank)
}

#[test]
fn startpos_has_twenty_pseudo_legal_moves() {
    let position = Position::startpos();
    let moves = position.generate_pseudo_legal_moves();
    assert_eq!(moves.len(), 20);
}

#[test]
fn startpos_pawn_has_single_and_double_push() {
    let position = Position::startpos();
    let moves = position.generate_pseudo_legal_moves();
    assert!(contains_move(&moves, sq(4, 1), sq(4, 2), MoveFlag::Quiet));
    assert!(contains_move(
        &moves,
        sq(4, 1),
        sq(4, 3),
        MoveFlag::DoublePawnPush
    ));
}

#[test]
fn startpos_knight_moves_are_generated() {
    let position = Position::startpos();
    let moves = position.generate_pseudo_legal_moves();
    assert!(contains_move(&moves, sq(1, 0), sq(0, 2), MoveFlag::Quiet));
    assert!(contains_move(&moves, sq(1, 0), sq(2, 2), MoveFlag::Quiet));
}

#[test]
fn pawn_blocked_has_no_push_moves() {
    let position = Position::from_fen("8/8/8/8/8/4p3/4P3/4K2k w - - 0 1").expect("valid FEN");
    let moves = position.generate_pseudo_legal_moves();
    assert!(!moves.iter().any(|mv| mv.from() == sq(4, 1)));
}

#[test]
fn pawn_double_push_blocked_by_piece_two_ahead() {
    let position = Position::from_fen("8/8/8/8/4n3/8/4P3/4K2k w - - 0 1").expect("valid FEN");
    let moves = position.generate_pseudo_legal_moves();
    assert!(contains_move(&moves, sq(4, 1), sq(4, 2), MoveFlag::Quiet));
    assert!(!contains_move(
        &moves,
        sq(4, 1),
        sq(4, 3),
        MoveFlag::DoublePawnPush
    ));
}

#[test]
fn pawn_captures_diagonally() {
    let position = Position::from_fen("8/8/8/8/8/3p1p2/4P3/4K2k w - - 0 1").expect("valid FEN");
    let moves = position.generate_pseudo_legal_moves();
    assert!(contains_move(&moves, sq(4, 1), sq(3, 2), MoveFlag::Quiet));
    assert!(contains_move(&moves, sq(4, 1), sq(5, 2), MoveFlag::Quiet));
}

#[test]
fn pawn_does_not_capture_own_piece() {
    let position = Position::from_fen("8/8/8/8/8/3P4/4P3/4K2k w - - 0 1").expect("valid FEN");
    let moves = position.generate_pseudo_legal_moves();
    assert!(!contains_move(&moves, sq(4, 1), sq(3, 2), MoveFlag::Quiet));
}

#[test]
fn pawn_promotes_on_last_rank() {
    let position = Position::from_fen("8/P7/8/8/8/8/8/4K2k w - - 0 1").expect("valid FEN");
    let moves = position.generate_pseudo_legal_moves();
    for flag in PROMOTION_KINDS {
        assert!(
            contains_move(&moves, sq(0, 6), sq(0, 7), flag),
            "missing promotion {flag:?}"
        );
    }
    assert_eq!(moves.iter().filter(|mv| mv.from() == sq(0, 6)).count(), 4);
}

#[test]
fn pawn_promotes_on_capture() {
    let position = Position::from_fen("1n6/P7/8/8/8/8/8/4K2k w - - 0 1").expect("valid FEN");
    let moves = position.generate_pseudo_legal_moves();
    assert!(contains_move(
        &moves,
        sq(0, 6),
        sq(1, 7),
        MoveFlag::PromoteQueen
    ));
}

#[test]
fn en_passant_capture_is_generated_when_available() {
    let position =
        Position::from_fen("rnbqkbnr/ppp1pppp/8/3pP3/8/8/PPPP1PPP/RNBQKBNR w KQkq d6 0 3")
            .expect("valid FEN");
    let moves = position.generate_pseudo_legal_moves();
    assert!(contains_move(
        &moves,
        sq(4, 4),
        sq(3, 5),
        MoveFlag::EnPassant
    ));
}

#[test]
fn en_passant_capture_absent_without_target_square() {
    let position = Position::startpos();
    let moves = position.generate_pseudo_legal_moves();
    assert!(!moves.iter().any(|mv| mv.flag() == MoveFlag::EnPassant));
}

#[test]
fn bishop_slides_until_blocked() {
    let position = Position::from_fen("8/8/8/8/8/8/8/B3K2k w - - 0 1").expect("valid FEN");
    let moves = position.generate_pseudo_legal_moves();
    assert!(contains_move(&moves, sq(0, 0), sq(7, 7), MoveFlag::Quiet));
}

#[test]
fn rook_stops_at_enemy_piece_and_can_capture_it() {
    let position = Position::from_fen("8/8/8/3p4/8/8/8/R3K2k w - - 0 1").expect("valid FEN");
    let moves = position.generate_pseudo_legal_moves();
    assert!(contains_move(&moves, sq(0, 0), sq(3, 0), MoveFlag::Quiet));
    assert!(!contains_move(&moves, sq(0, 0), sq(4, 0), MoveFlag::Quiet));
}

#[test]
fn rook_does_not_pass_through_own_piece() {
    // White pawn on a2 blocks the a1 rook from advancing up the
    // a-file at all.
    let position = Position::from_fen("8/8/8/8/8/8/P7/R3K2k w - - 0 1").expect("valid FEN");
    let moves = position.generate_pseudo_legal_moves();
    assert!(!moves
        .iter()
        .any(|mv| mv.from() == sq(0, 0) && mv.to().rank() >= 1));
    // It can still slide along the (empty) first rank.
    assert!(contains_move(&moves, sq(0, 0), sq(1, 0), MoveFlag::Quiet));
}

#[test]
fn queen_moves_diagonally_and_orthogonally() {
    let position = Position::from_fen("8/8/8/8/8/8/8/3QK2k w - - 0 1").expect("valid FEN");
    let moves = position.generate_pseudo_legal_moves();
    assert!(contains_move(&moves, sq(3, 0), sq(0, 0), MoveFlag::Quiet));
    assert!(contains_move(&moves, sq(3, 0), sq(3, 7), MoveFlag::Quiet));
    assert!(contains_move(&moves, sq(3, 0), sq(0, 3), MoveFlag::Quiet));
}

#[test]
fn king_moves_one_square_each_direction() {
    let position = Position::from_fen("8/8/8/8/8/8/8/4K2k w - - 0 1").expect("valid FEN");
    let moves = position.generate_pseudo_legal_moves();
    let king_moves = moves.iter().filter(|mv| mv.from() == sq(4, 0)).count();
    assert_eq!(king_moves, 5); // corner-adjacent, so not all 8 fit on the board
}

#[test]
fn king_can_castle_both_sides_when_rights_and_squares_allow() {
    let position = Position::from_fen("8/8/8/8/8/8/8/R3K2R w KQ - 0 1").expect("valid FEN");
    let moves = position.generate_pseudo_legal_moves();
    assert!(contains_move(
        &moves,
        sq(4, 0),
        sq(6, 0),
        MoveFlag::CastleKingside
    ));
    assert!(contains_move(
        &moves,
        sq(4, 0),
        sq(2, 0),
        MoveFlag::CastleQueenside
    ));
}

#[test]
fn castling_blocked_by_piece_between_king_and_rook() {
    let position = Position::from_fen("8/8/8/8/8/8/8/R2NK2R w KQ - 0 1").expect("valid FEN");
    let moves = position.generate_pseudo_legal_moves();
    assert!(!contains_move(
        &moves,
        sq(4, 0),
        sq(2, 0),
        MoveFlag::CastleQueenside
    ));
    assert!(contains_move(
        &moves,
        sq(4, 0),
        sq(6, 0),
        MoveFlag::CastleKingside
    ));
}

#[test]
fn castling_not_generated_without_rights() {
    let position = Position::from_fen("8/8/8/8/8/8/8/R3K2R w - - 0 1").expect("valid FEN");
    let moves = position.generate_pseudo_legal_moves();
    assert!(!moves.iter().any(|mv| {
        mv.flag() == MoveFlag::CastleKingside || mv.flag() == MoveFlag::CastleQueenside
    }));
}

#[test]
fn black_castling_moves_are_generated() {
    let position = Position::from_fen("r3k2r/8/8/8/8/8/8/4K3 b kq - 0 1").expect("valid FEN");
    let moves = position.generate_pseudo_legal_moves();
    assert!(contains_move(
        &moves,
        sq(4, 7),
        sq(6, 7),
        MoveFlag::CastleKingside
    ));
    assert!(contains_move(
        &moves,
        sq(4, 7),
        sq(2, 7),
        MoveFlag::CastleQueenside
    ));
}

#[test]
fn generated_moves_apply_cleanly_via_make_move() {
    // Every pseudo-legal move from the starting position should be
    // applicable via make_move without panicking, and should be
    // reversible via unmake_move.
    let mut position = Position::startpos();
    let before = position.clone();
    for mv in position.clone().generate_pseudo_legal_moves() {
        let undo = position.make_move(mv);
        position.unmake_move(mv, undo);
        assert_eq!(position, before);
    }
}
