use bee_chess::chess::{CastlingRights, Color, FenError, Piece, PieceKind, Position, Square};

const STARTPOS_FEN: &str = "rnbqkbnr/pppppppp/8/8/8/8/PPPPPPPP/RNBQKBNR w KQkq - 0 1";

#[test]
fn parses_starting_position() {
    let position = Position::from_fen(STARTPOS_FEN).expect("valid FEN");
    assert_eq!(position, Position::startpos());
}

#[test]
fn starting_position_round_trips_through_fen() {
    assert_eq!(Position::startpos().to_fen(), STARTPOS_FEN);
}

#[test]
fn parses_empty_board_fen() {
    let position = Position::from_fen("8/8/8/8/8/8/8/8 w - - 0 1").expect("valid FEN");
    assert_eq!(position, Position::empty());
}

#[test]
fn parses_side_to_move_black() {
    let position = Position::from_fen("8/8/8/8/8/8/8/8 b - - 0 1").expect("valid FEN");
    assert_eq!(position.side_to_move(), Color::Black);
}

#[test]
fn parses_partial_castling_rights() {
    let position = Position::from_fen("8/8/8/8/8/8/8/8 w Kq - 0 1").expect("valid FEN");
    let rights = position.castling_rights();
    assert!(rights.white_kingside);
    assert!(!rights.white_queenside);
    assert!(!rights.black_kingside);
    assert!(rights.black_queenside);
}

#[test]
fn parses_no_castling_rights() {
    let position = Position::from_fen("8/8/8/8/8/8/8/8 w - - 0 1").expect("valid FEN");
    assert_eq!(position.castling_rights(), CastlingRights::none());
}

#[test]
fn parses_en_passant_square() {
    let position =
        Position::from_fen("rnbqkbnr/pppp1ppp/8/4p3/4P3/8/PPPP1PPP/RNBQKBNR w KQkq e6 0 2")
            .expect("valid FEN");
    assert_eq!(
        position.en_passant_square(),
        Some(Square::from_file_rank(4, 5))
    );
}

#[test]
fn parses_halfmove_and_fullmove_counters() {
    let position = Position::from_fen("8/8/8/8/8/8/8/8 w - - 17 42").expect("valid FEN");
    assert_eq!(position.halfmove_clock(), 17);
    assert_eq!(position.fullmove_number(), 42);
}

#[test]
fn parses_specific_piece_placement() {
    let position =
        Position::from_fen("r3k2r/8/8/8/8/8/8/R3K2R w KQkq - 0 1").expect("valid FEN");
    assert_eq!(
        position.piece_at(Square::from_file_rank(0, 0)),
        Some(Piece::new(PieceKind::Rook, Color::White))
    );
    assert_eq!(
        position.piece_at(Square::from_file_rank(7, 0)),
        Some(Piece::new(PieceKind::Rook, Color::White))
    );
    assert_eq!(
        position.piece_at(Square::from_file_rank(4, 0)),
        Some(Piece::new(PieceKind::King, Color::White))
    );
    assert_eq!(
        position.piece_at(Square::from_file_rank(0, 7)),
        Some(Piece::new(PieceKind::Rook, Color::Black))
    );
}

#[test]
fn rejects_wrong_field_count() {
    assert_eq!(
        Position::from_fen("8/8/8/8/8/8/8/8 w - - 0"),
        Err(FenError::WrongFieldCount { found: 5 })
    );
    assert_eq!(
        Position::from_fen("8/8/8/8/8/8/8/8 w - - 0 1 extra"),
        Err(FenError::WrongFieldCount { found: 7 })
    );
}

#[test]
fn rejects_wrong_rank_count() {
    assert_eq!(
        Position::from_fen("8/8/8/8/8/8/8 w - - 0 1"),
        Err(FenError::WrongRankCount { found: 7 })
    );
}

#[test]
fn rejects_wrong_file_count_in_rank() {
    // "9" is out of the valid 1-8 empty-square-run range, so it is
    // rejected as an invalid character rather than a file-count
    // mismatch.
    assert_eq!(
        Position::from_fen("9/8/8/8/8/8/8/8 w - - 0 1"),
        Err(FenError::InvalidPieceChar { ch: '9' })
    );
    assert_eq!(
        Position::from_fen("7/8/8/8/8/8/8/8 w - - 0 1"),
        Err(FenError::WrongFileCountInRank { rank: 8, found: 7 })
    );
    assert_eq!(
        Position::from_fen("pppppppp1/8/8/8/8/8/8/8 w - - 0 1"),
        Err(FenError::WrongFileCountInRank { rank: 8, found: 9 })
    );
}

#[test]
fn rejects_invalid_piece_char() {
    assert_eq!(
        Position::from_fen("xxxxxxxx/8/8/8/8/8/8/8 w - - 0 1"),
        Err(FenError::InvalidPieceChar { ch: 'x' })
    );
}

#[test]
fn rejects_invalid_side_to_move() {
    assert_eq!(
        Position::from_fen("8/8/8/8/8/8/8/8 x - - 0 1"),
        Err(FenError::InvalidSideToMove {
            found: "x".to_string()
        })
    );
}

#[test]
fn rejects_invalid_castling_char() {
    assert_eq!(
        Position::from_fen("8/8/8/8/8/8/8/8 w KQkqx - 0 1"),
        Err(FenError::InvalidCastlingChar { ch: 'x' })
    );
}

#[test]
fn rejects_invalid_en_passant_square() {
    assert_eq!(
        Position::from_fen("8/8/8/8/8/8/8/8 w - z9 0 1"),
        Err(FenError::InvalidEnPassantSquare {
            found: "z9".to_string()
        })
    );
}

#[test]
fn rejects_invalid_halfmove_clock() {
    assert_eq!(
        Position::from_fen("8/8/8/8/8/8/8/8 w - - abc 1"),
        Err(FenError::InvalidHalfmoveClock {
            found: "abc".to_string()
        })
    );
}

#[test]
fn rejects_invalid_fullmove_number() {
    assert_eq!(
        Position::from_fen("8/8/8/8/8/8/8/8 w - - 0 0"),
        Err(FenError::InvalidFullmoveNumber {
            found: "0".to_string()
        })
    );
    assert_eq!(
        Position::from_fen("8/8/8/8/8/8/8/8 w - - 0 abc"),
        Err(FenError::InvalidFullmoveNumber {
            found: "abc".to_string()
        })
    );
}

#[test]
fn round_trips_a_complex_position() {
    let fen = "r1bqk2r/pppp1ppp/2n2n2/2b1p3/2B1P3/2N2N2/PPPP1PPP/R1BQK2R w KQkq - 4 5";
    let position = Position::from_fen(fen).expect("valid FEN");
    assert_eq!(position.to_fen(), fen);
}
