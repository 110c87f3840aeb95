use bee_chess::chess::{CastlingRights, Color, Piece, PieceKind, Position, Square};

#[test]
fn empty_board_has_no_pieces() {
    let position = Position::empty();
    for index in 0..64u8 {
        assert_eq!(position.piece_at(Square::new(index)), None);
    }
    assert_eq!(position.castling_rights(), CastlingRights::none());
    assert_eq!(position.en_passant_square(), None);
    assert_eq!(position.halfmove_clock(), 0);
}

#[test]
fn startpos_places_white_back_rank() {
    let position = Position::startpos();
    assert_eq!(
        position.piece_at(Square::from_file_rank(0, 0)),
        Some(Piece::new(PieceKind::Rook, Color::White))
    );
    assert_eq!(
        position.piece_at(Square::from_file_rank(4, 0)),
        Some(Piece::new(PieceKind::King, Color::White))
    );
    assert_eq!(
        position.piece_at(Square::from_file_rank(3, 0)),
        Some(Piece::new(PieceKind::Queen, Color::White))
    );
}

#[test]
fn startpos_places_black_back_rank() {
    let position = Position::startpos();
    assert_eq!(
        position.piece_at(Square::from_file_rank(0, 7)),
        Some(Piece::new(PieceKind::Rook, Color::Black))
    );
    assert_eq!(
        position.piece_at(Square::from_file_rank(4, 7)),
        Some(Piece::new(PieceKind::King, Color::Black))
    );
}

#[test]
fn startpos_places_all_pawns() {
    let position = Position::startpos();
    for file in 0..8u8 {
        assert_eq!(
            position.piece_at(Square::from_file_rank(file, 1)),
            Some(Piece::new(PieceKind::Pawn, Color::White))
        );
        assert_eq!(
            position.piece_at(Square::from_file_rank(file, 6)),
            Some(Piece::new(PieceKind::Pawn, Color::Black))
        );
    }
}

#[test]
fn startpos_has_empty_middle_ranks() {
    let position = Position::startpos();
    for rank in 2..6u8 {
        for file in 0..8u8 {
            assert_eq!(position.piece_at(Square::from_file_rank(file, rank)), None);
        }
    }
}

#[test]
fn startpos_side_to_move_is_white() {
    assert_eq!(Position::startpos().side_to_move(), Color::White);
}

#[test]
fn startpos_has_all_castling_rights() {
    assert_eq!(
        Position::startpos().castling_rights(),
        CastlingRights::all()
    );
}

#[test]
fn startpos_has_no_en_passant_square() {
    assert_eq!(Position::startpos().en_passant_square(), None);
}

#[test]
fn startpos_clocks_start_at_initial_values() {
    let position = Position::startpos();
    assert_eq!(position.halfmove_clock(), 0);
    assert_eq!(position.fullmove_number(), 1);
}

#[test]
fn default_is_startpos() {
    assert_eq!(Position::default(), Position::startpos());
}
