use bee_chess::chess::{Color, Piece, PieceKind};

#[test]
fn opposite_color_round_trips() {
    assert_eq!(Color::White.opposite(), Color::Black);
    assert_eq!(Color::Black.opposite(), Color::White);
    assert_eq!(Color::White.opposite().opposite(), Color::White);
}

#[test]
fn piece_carries_kind_and_color() {
    let piece = Piece::new(PieceKind::Knight, Color::Black);
    assert_eq!(piece.kind, PieceKind::Knight);
    assert_eq!(piece.color, Color::Black);
}
