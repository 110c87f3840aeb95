use bee_chess::chess::{Color, PieceKind, Position, Square};

fn sq(file: u8, rank: u8) -> Square {
    Square::from_file_rank(file, rank)
}

#[test]
fn no_attacker_on_an_empty_board_is_none() {
    let position = Position::from_fen("4k3/8/8/8/8/8/8/4K3 w - - 0 1").unwrap();
    assert_eq!(
        position.least_valuable_attacker(sq(4, 4), Color::White),
        None
    );
}

#[test]
fn a_lone_pawn_attacker_is_found() {
    let position = Position::from_fen("4k3/8/8/3P4/8/8/8/4K3 w - - 0 1").unwrap();
    // White pawn on d5 attacks e6 (and c6) diagonally forward.
    assert_eq!(
        position.least_valuable_attacker(sq(4, 5), Color::White),
        Some((sq(3, 4), PieceKind::Pawn))
    );
}

#[test]
fn a_pawn_is_preferred_over_a_more_valuable_attacker_on_the_same_square() {
    // Both a white pawn (c4) and a white rook (a5) attack b5;
    // the pawn is cheaper and must be returned.
    let position = Position::from_fen("4k3/8/8/RP6/1PP5/8/8/4K3 w - - 0 1").unwrap();
    assert_eq!(
        position.least_valuable_attacker(sq(1, 4), Color::White),
        Some((sq(2, 3), PieceKind::Pawn))
    );
}

#[test]
fn a_sliding_attacker_is_blocked_by_an_intervening_piece() {
    // A white rook on a1 would attack a8, but a white pawn on a4
    // blocks the line -- there's no white attacker on a8 at all.
    let position = Position::from_fen("4k3/8/8/8/P7/8/8/R3K3 w - - 0 1").unwrap();
    assert_eq!(
        position.least_valuable_attacker(sq(0, 7), Color::White),
        None
    );
}

#[test]
fn removing_the_blocker_reveals_the_slider_behind_it() {
    // Same as above, but the blocking pawn is gone -- the rook on
    // a1 now attacks straight up the fully open a-file.
    let position = Position::from_fen("4k3/8/8/8/8/8/8/R3K3 w - - 0 1").unwrap();
    assert_eq!(
        position.least_valuable_attacker(sq(0, 7), Color::White),
        Some((sq(0, 0), PieceKind::Rook))
    );
}

#[test]
fn a_bishop_is_found_before_a_queen_on_the_same_diagonal() {
    // White bishop on e5 and White queen on f6 both sit on the same
    // diagonal running through d4; the bishop is closer (and
    // cheaper), so it must be found -- the queen behind it is both
    // more expensive and actually blocked from reaching d4 at all.
    let position = Position::from_fen("4k3/6Q1/8/4B3/8/8/8/4K3 w - - 0 1").unwrap();
    assert_eq!(
        position.least_valuable_attacker(sq(3, 3), Color::White),
        Some((sq(4, 4), PieceKind::Bishop))
    );
}

#[test]
fn a_queen_is_found_when_no_cheaper_slider_is_on_the_line() {
    let position = Position::from_fen("4k3/8/8/8/8/8/8/Q3K3 w - - 0 1").unwrap();
    // The queen on a1 attacks straight up the open a-file.
    assert_eq!(
        position.least_valuable_attacker(sq(0, 6), Color::White),
        Some((sq(0, 0), PieceKind::Queen))
    );
}

#[test]
fn a_knight_attacker_is_found() {
    let position = Position::from_fen("4k3/8/8/8/8/2N5/8/4K3 w - - 0 1").unwrap();
    // Knight on c3 attacks e4 (among others).
    assert_eq!(
        position.least_valuable_attacker(sq(4, 3), Color::White),
        Some((sq(2, 2), PieceKind::Knight))
    );
}

#[test]
fn a_king_attacker_is_found_only_adjacent() {
    let position = Position::from_fen("8/8/8/3k4/8/8/8/4K3 w - - 0 1").unwrap();
    assert_eq!(
        position.least_valuable_attacker(sq(4, 4), Color::Black),
        Some((sq(3, 4), PieceKind::King))
    );
    assert_eq!(
        position.least_valuable_attacker(sq(4, 6), Color::Black),
        None
    );
}

#[test]
fn attacker_search_is_independent_of_side_to_move() {
    // The position's side to move is White, but this asks about
    // Black's attackers -- least_valuable_attacker must not care
    // whose turn it actually is (unlike generate_pseudo_legal_moves).
    // Knight on d5 (file 3, rank 4) attacks c3 (file 2, rank 2).
    let position = Position::from_fen("4k3/8/8/3n4/8/8/8/4K3 w - - 0 1").unwrap();
    assert_eq!(
        position.least_valuable_attacker(sq(2, 2), Color::Black),
        Some((sq(3, 4), PieceKind::Knight))
    );
}
