use bee_chess::chess::{Color, Move, MoveFlag, Piece, PieceKind, Position, Square, Undo};

#[test]
fn undo_record_stays_small() {
    // Undo must stay cheap: it is created and destroyed on every
    // single ply of search/perft. This is a soft budget, not a hard
    // ABI guarantee, but a regression here should be a deliberate
    // choice, not an accident. It is deliberately much smaller than
    // Position, which is the whole point of not cloning the board.
    assert!(std::mem::size_of::<Undo>() <= 24);
    assert!(std::mem::size_of::<Undo>() < std::mem::size_of::<Position>());
}

#[test]
fn quiet_move_updates_board_and_side_to_move() {
    let mut position = Position::startpos();
    let mv = Move::new(
        Square::from_file_rank(4, 1), // e2
        Square::from_file_rank(4, 2), // e3
        MoveFlag::Quiet,
    );

    position.make_move(mv);

    assert_eq!(position.piece_at(Square::from_file_rank(4, 1)), None);
    assert_eq!(
        position.piece_at(Square::from_file_rank(4, 2)),
        Some(Piece::new(PieceKind::Pawn, Color::White))
    );
    assert_eq!(position.side_to_move(), Color::Black);
}

#[test]
fn make_then_unmake_quiet_move_restores_position() {
    let mut position = Position::startpos();
    let before = position.clone();
    let mv = Move::new(
        Square::from_file_rank(4, 1),
        Square::from_file_rank(4, 2),
        MoveFlag::Quiet,
    );

    let undo = position.make_move(mv);
    position.unmake_move(mv, undo);

    assert_eq!(position, before);
}

#[test]
fn double_pawn_push_sets_en_passant_square() {
    let mut position = Position::startpos();
    let mv = Move::new(
        Square::from_file_rank(4, 1), // e2
        Square::from_file_rank(4, 3), // e4
        MoveFlag::DoublePawnPush,
    );

    position.make_move(mv);

    assert_eq!(
        position.en_passant_square(),
        Some(Square::from_file_rank(4, 2)) // e3
    );
}

#[test]
fn double_pawn_push_round_trips() {
    let mut position = Position::startpos();
    let before = position.clone();
    let mv = Move::new(
        Square::from_file_rank(4, 1),
        Square::from_file_rank(4, 3),
        MoveFlag::DoublePawnPush,
    );

    let undo = position.make_move(mv);
    position.unmake_move(mv, undo);

    assert_eq!(position, before);
}

#[test]
fn en_passant_capture_removes_the_captured_pawn() {
    // White pawn on e5, black just played d7-d5, en passant target d6.
    let mut position =
        Position::from_fen("rnbqkbnr/ppp1pppp/8/3pP3/8/8/PPPP1PPP/RNBQKBNR w KQkq d6 0 3")
            .expect("valid FEN");

    let mv = Move::new(
        Square::from_file_rank(4, 4), // e5
        Square::from_file_rank(3, 5), // d6
        MoveFlag::EnPassant,
    );

    position.make_move(mv);

    assert_eq!(
        position.piece_at(Square::from_file_rank(3, 5)),
        Some(Piece::new(PieceKind::Pawn, Color::White))
    );
    // The captured black pawn sat on d5, not on the destination d6.
    assert_eq!(position.piece_at(Square::from_file_rank(3, 4)), None);
    assert_eq!(position.en_passant_square(), None);
}

#[test]
fn en_passant_capture_round_trips() {
    let mut position =
        Position::from_fen("rnbqkbnr/ppp1pppp/8/3pP3/8/8/PPPP1PPP/RNBQKBNR w KQkq d6 0 3")
            .expect("valid FEN");
    let before = position.clone();

    let mv = Move::new(
        Square::from_file_rank(4, 4),
        Square::from_file_rank(3, 5),
        MoveFlag::EnPassant,
    );

    let undo = position.make_move(mv);
    position.unmake_move(mv, undo);

    assert_eq!(position, before);
}

#[test]
fn promotion_replaces_pawn_with_promoted_piece() {
    let mut position = Position::from_fen("8/P7/8/8/8/8/8/k6K w - - 0 1").expect("valid FEN");

    let mv = Move::new(
        Square::from_file_rank(0, 6), // a7
        Square::from_file_rank(0, 7), // a8
        MoveFlag::PromoteQueen,
    );

    position.make_move(mv);

    assert_eq!(
        position.piece_at(Square::from_file_rank(0, 7)),
        Some(Piece::new(PieceKind::Queen, Color::White))
    );
    assert_eq!(position.piece_at(Square::from_file_rank(0, 6)), None);
}

#[test]
fn promotion_round_trips() {
    let mut position = Position::from_fen("8/P7/8/8/8/8/8/k6K w - - 0 1").expect("valid FEN");
    let before = position.clone();

    let mv = Move::new(
        Square::from_file_rank(0, 6),
        Square::from_file_rank(0, 7),
        MoveFlag::PromoteQueen,
    );

    let undo = position.make_move(mv);
    position.unmake_move(mv, undo);

    assert_eq!(position, before);
}

#[test]
fn promotion_with_capture_round_trips() {
    let mut position = Position::from_fen("1n6/P7/8/8/8/8/8/k6K w - - 0 1").expect("valid FEN");
    let before = position.clone();

    let mv = Move::new(
        Square::from_file_rank(0, 6), // a7
        Square::from_file_rank(1, 7), // b8, capturing the knight
        MoveFlag::PromoteQueen,
    );

    let undo = position.make_move(mv);
    assert_eq!(
        position.piece_at(Square::from_file_rank(1, 7)),
        Some(Piece::new(PieceKind::Queen, Color::White))
    );

    position.unmake_move(mv, undo);
    assert_eq!(position, before);
}

#[test]
fn kingside_castle_moves_rook_and_king() {
    let mut position =
        Position::from_fen("r3k2r/8/8/8/8/8/8/R3K2R w KQkq - 0 1").expect("valid FEN");

    let mv = Move::new(
        Square::from_file_rank(4, 0), // e1
        Square::from_file_rank(6, 0), // g1
        MoveFlag::CastleKingside,
    );

    position.make_move(mv);

    assert_eq!(
        position.piece_at(Square::from_file_rank(6, 0)),
        Some(Piece::new(PieceKind::King, Color::White))
    );
    assert_eq!(
        position.piece_at(Square::from_file_rank(5, 0)),
        Some(Piece::new(PieceKind::Rook, Color::White))
    );
    assert_eq!(position.piece_at(Square::from_file_rank(4, 0)), None);
    assert_eq!(position.piece_at(Square::from_file_rank(7, 0)), None);
}

#[test]
fn kingside_castle_round_trips() {
    let mut position =
        Position::from_fen("r3k2r/8/8/8/8/8/8/R3K2R w KQkq - 0 1").expect("valid FEN");
    let before = position.clone();

    let mv = Move::new(
        Square::from_file_rank(4, 0),
        Square::from_file_rank(6, 0),
        MoveFlag::CastleKingside,
    );

    let undo = position.make_move(mv);
    position.unmake_move(mv, undo);

    assert_eq!(position, before);
}

#[test]
fn queenside_castle_round_trips() {
    let mut position =
        Position::from_fen("r3k2r/8/8/8/8/8/8/R3K2R w KQkq - 0 1").expect("valid FEN");
    let before = position.clone();

    let mv = Move::new(
        Square::from_file_rank(4, 0),
        Square::from_file_rank(2, 0),
        MoveFlag::CastleQueenside,
    );

    let undo = position.make_move(mv);
    position.unmake_move(mv, undo);

    assert_eq!(position, before);
}

#[test]
fn black_castle_round_trips() {
    let mut position =
        Position::from_fen("r3k2r/8/8/8/8/8/8/R3K2R b KQkq - 0 1").expect("valid FEN");
    let before = position.clone();

    let mv = Move::new(
        Square::from_file_rank(4, 7),
        Square::from_file_rank(6, 7),
        MoveFlag::CastleKingside,
    );

    let undo = position.make_move(mv);
    position.unmake_move(mv, undo);

    assert_eq!(position, before);
}

#[test]
fn king_move_clears_both_castling_rights() {
    let mut position =
        Position::from_fen("r3k2r/8/8/8/8/8/8/R3K2R w KQkq - 0 1").expect("valid FEN");

    let mv = Move::new(
        Square::from_file_rank(4, 0), // e1
        Square::from_file_rank(4, 1), // e2
        MoveFlag::Quiet,
    );

    position.make_move(mv);

    let rights = position.castling_rights();
    assert!(!rights.white_kingside);
    assert!(!rights.white_queenside);
    assert!(rights.black_kingside);
    assert!(rights.black_queenside);
}

#[test]
fn king_move_clearing_castling_rights_round_trips() {
    let mut position =
        Position::from_fen("r3k2r/8/8/8/8/8/8/R3K2R w KQkq - 0 1").expect("valid FEN");
    let before = position.clone();

    let mv = Move::new(
        Square::from_file_rank(4, 0),
        Square::from_file_rank(4, 1),
        MoveFlag::Quiet,
    );

    let undo = position.make_move(mv);
    position.unmake_move(mv, undo);

    assert_eq!(position, before);
}

#[test]
fn rook_move_clears_only_that_sides_castling_right() {
    let mut position =
        Position::from_fen("r3k2r/8/8/8/8/8/8/R3K2R w KQkq - 0 1").expect("valid FEN");

    let mv = Move::new(
        Square::from_file_rank(0, 0), // a1 rook
        Square::from_file_rank(0, 1), // a2
        MoveFlag::Quiet,
    );

    position.make_move(mv);

    let rights = position.castling_rights();
    assert!(rights.white_kingside);
    assert!(!rights.white_queenside);
    assert!(rights.black_kingside);
    assert!(rights.black_queenside);
}

#[test]
fn capturing_a_rook_clears_that_sides_castling_right() {
    // White rook on a7 captures the black rook on a8.
    let mut position =
        Position::from_fen("r3k2r/R7/8/8/8/8/8/4K2R w Kkq - 0 1").expect("valid FEN");
    let before = position.clone();

    let mv = Move::new(
        Square::from_file_rank(0, 6), // a7
        Square::from_file_rank(0, 7), // a8, capturing black rook
        MoveFlag::Quiet,
    );

    let undo = position.make_move(mv);

    let rights = position.castling_rights();
    assert!(rights.white_kingside);
    assert!(rights.black_kingside); // h8 rook untouched
    assert!(!rights.black_queenside); // a8 rook captured

    position.unmake_move(mv, undo);
    assert_eq!(position, before);
}

#[test]
fn capture_resets_halfmove_clock() {
    let mut position =
        Position::from_fen("r3k2r/R7/8/8/8/8/8/4K2R w Kkq - 5 10").expect("valid FEN");

    let mv = Move::new(
        Square::from_file_rank(0, 6),
        Square::from_file_rank(0, 7),
        MoveFlag::Quiet,
    );

    position.make_move(mv);

    assert_eq!(position.halfmove_clock(), 0);
}

#[test]
fn non_capture_non_pawn_move_increments_halfmove_clock() {
    let mut position =
        Position::from_fen("4k3/8/8/8/8/8/8/R3K3 w - - 5 10").expect("valid FEN");

    let mv = Move::new(
        Square::from_file_rank(0, 0), // a1
        Square::from_file_rank(0, 1), // a2
        MoveFlag::Quiet,
    );

    position.make_move(mv);

    assert_eq!(position.halfmove_clock(), 6);
}

#[test]
fn pawn_move_resets_halfmove_clock() {
    let mut position =
        Position::from_fen("4k3/8/8/8/8/8/PPPPPPPP/4K3 w - - 5 10").expect("valid FEN");

    let mv = Move::new(
        Square::from_file_rank(4, 1),
        Square::from_file_rank(4, 2),
        MoveFlag::Quiet,
    );

    position.make_move(mv);

    assert_eq!(position.halfmove_clock(), 0);
}

#[test]
fn fullmove_number_increments_only_after_black_moves() {
    let mut position = Position::startpos();
    assert_eq!(position.fullmove_number(), 1);

    let white_move = Move::new(
        Square::from_file_rank(4, 1),
        Square::from_file_rank(4, 3),
        MoveFlag::DoublePawnPush,
    );
    position.make_move(white_move);
    assert_eq!(position.fullmove_number(), 1);

    let black_move = Move::new(
        Square::from_file_rank(4, 6),
        Square::from_file_rank(4, 4),
        MoveFlag::DoublePawnPush,
    );
    position.make_move(black_move);
    assert_eq!(position.fullmove_number(), 2);
}

#[test]
fn sequential_make_unmake_round_trips_multiple_plies() {
    let mut position = Position::startpos();
    let before = position.clone();

    let moves = [
        Move::new(
            Square::from_file_rank(4, 1),
            Square::from_file_rank(4, 3),
            MoveFlag::DoublePawnPush,
        ),
        Move::new(
            Square::from_file_rank(4, 6),
            Square::from_file_rank(4, 4),
            MoveFlag::DoublePawnPush,
        ),
        Move::new(
            Square::from_file_rank(6, 0),
            Square::from_file_rank(5, 2),
            MoveFlag::Quiet,
        ),
    ];

    let mut undos = Vec::new();
    for mv in moves {
        undos.push(position.make_move(mv));
    }
    for (mv, undo) in moves.into_iter().zip(undos).rev() {
        position.unmake_move(mv, undo);
    }

    assert_eq!(position, before);
}
