use bee_chess::chess::{CastlingRights, Color, Move, MoveFlag, Position, Square};

#[test]
fn identical_positions_hash_identically() {
    let a = Position::startpos();
    let b = Position::startpos();
    assert_eq!(a.zobrist_hash(), b.zobrist_hash());
}

#[test]
fn different_positions_hash_differently() {
    let startpos = Position::startpos();
    let empty = Position::empty();
    assert_ne!(startpos.zobrist_hash(), empty.zobrist_hash());
}

#[test]
fn side_to_move_affects_the_hash() {
    let mut white_to_move = Position::startpos();
    white_to_move.set_side_to_move(Color::White);
    let mut black_to_move = Position::startpos();
    black_to_move.set_side_to_move(Color::Black);

    assert_ne!(white_to_move.zobrist_hash(), black_to_move.zobrist_hash());
}

#[test]
fn castling_rights_affect_the_hash() {
    let mut with_rights = Position::startpos();
    with_rights.set_castling_rights(CastlingRights::all());
    let mut without_rights = Position::startpos();
    without_rights.set_castling_rights(CastlingRights::none());

    assert_ne!(with_rights.zobrist_hash(), without_rights.zobrist_hash());
}

#[test]
fn en_passant_square_affects_the_hash() {
    let mut with_ep = Position::startpos();
    with_ep.set_en_passant_square(Some(Square::from_file_rank(4, 2)));
    let mut without_ep = Position::startpos();
    without_ep.set_en_passant_square(None);

    assert_ne!(with_ep.zobrist_hash(), without_ep.zobrist_hash());
}

#[test]
fn make_then_unmake_restores_the_original_hash() {
    // The hash isn't incrementally maintained (see the `zobrist` module docs), so
    // this is really just re-confirming make/unmake fully restores
    // position equality -- but it's the property search/TT/
    // repetition code will actually depend on, so it's worth
    // asserting directly rather than only indirectly through
    // Position's PartialEq.
    let mut position = Position::startpos();
    let before_hash = position.zobrist_hash();

    let mv = Move::new(
        Square::from_file_rank(4, 1),
        Square::from_file_rank(4, 3),
        MoveFlag::DoublePawnPush,
    );
    let undo = position.make_move(mv);
    assert_ne!(position.zobrist_hash(), before_hash);

    position.unmake_move(mv, undo);
    assert_eq!(position.zobrist_hash(), before_hash);
}

#[test]
fn reaching_the_same_position_by_different_move_orders_hashes_identically() {
    // 1. Nf3 Nf6  vs  1. Nf3 Nf6 (transposed via a different pair of
    // knight moves reaching the identical resulting position) --
    // the classic repetition/transposition-table scenario: the hash
    // must depend only on the resulting position, not on the path
    // taken to reach it.
    let mut via_knights_first = Position::startpos();
    via_knights_first.make_move(Move::new(
        Square::from_file_rank(6, 0), // g1
        Square::from_file_rank(5, 2), // f3
        MoveFlag::Quiet,
    ));
    via_knights_first.make_move(Move::new(
        Square::from_file_rank(6, 7), // g8
        Square::from_file_rank(5, 5), // f6
        MoveFlag::Quiet,
    ));

    let mut via_other_order = Position::startpos();
    via_other_order.make_move(Move::new(
        Square::from_file_rank(6, 7),
        Square::from_file_rank(5, 5),
        MoveFlag::Quiet,
    ));
    via_other_order.make_move(Move::new(
        Square::from_file_rank(6, 0),
        Square::from_file_rank(5, 2),
        MoveFlag::Quiet,
    ));

    assert_eq!(
        via_knights_first.zobrist_hash(),
        via_other_order.zobrist_hash()
    );
}
