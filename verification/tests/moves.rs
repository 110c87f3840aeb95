use bee_chess::chess::{Move, MoveFlag, PieceKind, Square};

#[test]
fn round_trips_from_to_and_flag() {
    let from = Square::from_file_rank(4, 1); // e2
    let to = Square::from_file_rank(4, 3); // e4
    let mv = Move::new(from, to, MoveFlag::DoublePawnPush);
    assert_eq!(mv.from(), from);
    assert_eq!(mv.to(), to);
    assert_eq!(mv.flag(), MoveFlag::DoublePawnPush);
}

#[test]
fn promotion_flag_carries_piece_kind() {
    let mv = Move::new(
        Square::from_file_rank(0, 6),
        Square::from_file_rank(0, 7),
        MoveFlag::PromoteQueen,
    );
    assert!(mv.is_promotion());
    assert_eq!(mv.flag().promotion_kind(), Some(PieceKind::Queen));
}

#[test]
fn quiet_move_is_not_promotion() {
    let mv = Move::new(
        Square::from_file_rank(4, 1),
        Square::from_file_rank(4, 2),
        MoveFlag::Quiet,
    );
    assert!(!mv.is_promotion());
    assert_eq!(mv.flag().promotion_kind(), None);
}

#[test]
fn move_fits_in_two_bytes() {
    assert_eq!(std::mem::size_of::<Move>(), 2);
}
