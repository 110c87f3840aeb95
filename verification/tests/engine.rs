use bee_chess::chess::{Color, Piece, PieceKind, Position, Square};
use bee_chess::diagnostics::{Diagnostic, DiagnosticLevel};
use bee_chess::engine::{Engine, IllegalMoveError};
use bee_chess::time::Duration;

#[test]
fn new_engine_starts_at_startpos() {
    let engine = Engine::new();
    assert_eq!(engine.position(), &Position::startpos());
}

#[test]
fn new_engine_debug_is_off_by_default() {
    let engine = Engine::new();
    assert!(!engine.debug());
}

#[test]
fn new_engine_has_no_diagnostics() {
    let mut engine = Engine::new();
    assert_eq!(engine.take_diagnostics(), Vec::new());
}

#[test]
fn emit_diagnostic_then_take_returns_it() {
    let mut engine = Engine::new();
    engine.emit_diagnostic(DiagnosticLevel::Info, "position set to startpos");

    assert_eq!(
        engine.take_diagnostics(),
        vec![Diagnostic {
            level: DiagnosticLevel::Info,
            message: "position set to startpos".to_string(),
        }]
    );
}

#[test]
fn take_diagnostics_drains_so_a_second_call_is_empty() {
    let mut engine = Engine::new();
    engine.emit_diagnostic(DiagnosticLevel::Debug, "one");
    engine.take_diagnostics();

    assert_eq!(engine.take_diagnostics(), Vec::new());
}

#[test]
fn diagnostics_are_returned_in_emission_order() {
    let mut engine = Engine::new();
    engine.emit_diagnostic(DiagnosticLevel::Info, "first");
    engine.emit_diagnostic(DiagnosticLevel::Warn, "second");
    engine.emit_diagnostic(DiagnosticLevel::Error, "third");

    let messages: Vec<String> = engine
        .take_diagnostics()
        .into_iter()
        .map(|d| d.message)
        .collect();
    assert_eq!(messages, vec!["first", "second", "third"]);
}

#[test]
fn set_debug_updates_debug() {
    let mut engine = Engine::new();

    engine.set_debug(true);
    assert!(engine.debug());

    engine.set_debug(false);
    assert!(!engine.debug());
}

#[test]
fn set_position_replaces_current_position() {
    let mut engine = Engine::new();
    let mut empty = Position::empty();
    empty.set_side_to_move(Color::Black);

    engine.set_position(empty.clone());

    assert_eq!(engine.position(), &empty);
    assert_ne!(engine.position(), &Position::startpos());
}

#[test]
fn new_game_does_not_change_the_current_position() {
    let mut engine = Engine::new();
    let mut custom = Position::empty();
    custom.set_side_to_move(Color::Black);
    engine.set_position(custom.clone());

    engine.new_game();

    assert_eq!(engine.position(), &custom);
}

#[test]
fn apply_move_updates_the_position() {
    let mut engine = Engine::new();

    engine
        .apply_move(
            Square::from_file_rank(4, 1), // e2
            Square::from_file_rank(4, 3), // e4
            None,
        )
        .expect("e2e4 should be legal from startpos");

    let mut expected = Position::startpos();
    let mv = expected
        .generate_legal_moves()
        .into_iter()
        .find(|mv| {
            mv.from() == Square::from_file_rank(4, 1) && mv.to() == Square::from_file_rank(4, 3)
        })
        .expect("e2e4 should be a legal move");
    expected.make_move(mv);

    assert_eq!(engine.position(), &expected);
}

#[test]
fn apply_move_rejects_illegal_move() {
    let mut engine = Engine::new();
    let before = engine.position().clone();

    let result = engine.apply_move(
        Square::from_file_rank(4, 1), // e2
        Square::from_file_rank(4, 4), // e5: not reachable from e2
        None,
    );

    assert_eq!(
        result,
        Err(IllegalMoveError {
            from: Square::from_file_rank(4, 1),
            to: Square::from_file_rank(4, 4),
            promotion: None,
        })
    );
    assert_eq!(engine.position(), &before);
}

#[test]
fn apply_move_matches_the_requested_promotion_kind() {
    let mut engine = Engine::new();
    engine.set_position(Position::from_fen("8/P6k/8/8/8/8/8/7K w - - 0 1").expect("valid FEN"));

    engine
        .apply_move(
            Square::from_file_rank(0, 6), // a7
            Square::from_file_rank(0, 7), // a8
            Some(PieceKind::Rook),
        )
        .expect("a7a8r should be a legal underpromotion");

    assert_eq!(
        engine.position().piece_at(Square::from_file_rank(0, 7)),
        Some(Piece::new(PieceKind::Rook, Color::White))
    );
}

#[test]
fn search_returns_a_legal_move_and_does_not_mutate_the_position() {
    let mut engine = Engine::new();
    let before = engine.position().clone();

    let result = engine.search(3);

    assert!(result.best_move.is_some());
    assert_eq!(engine.position(), &before);
}

#[test]
fn search_finds_mate_in_one() {
    let mut engine = Engine::new();
    engine.set_position(
        Position::from_fen("6k1/5ppp/8/8/8/8/8/3QK3 w - - 0 1").expect("valid FEN"),
    );

    let result = engine.search(2);

    let best_move = result.best_move.expect("should find a move");
    assert_eq!(best_move.from(), "d1".parse().unwrap());
    assert_eq!(best_move.to(), "d8".parse().unwrap());
}

#[test]
fn search_for_time_returns_a_legal_move_and_does_not_mutate_the_position() {
    let mut engine = Engine::new();
    let before = engine.position().clone();

    let result = engine.search_for_time(Duration::from_millis(50), |_| {});

    assert!(result.best_move.is_some());
    assert_eq!(engine.position(), &before);
}

#[test]
fn search_for_time_calls_on_depth_complete_for_each_completed_depth() {
    let mut engine = Engine::new();
    let mut depths_seen = Vec::new();

    engine.search_for_time(Duration::from_millis(200), |result| {
        depths_seen.push(result.depth);
    });

    assert!(
        depths_seen.len() >= 2,
        "should complete more than one depth in 200ms"
    );
    assert_eq!(depths_seen.first(), Some(&1));
}

#[test]
fn new_engine_is_not_a_repetition() {
    // Startpos has only occurred once so far -- nowhere close to
    // threefold.
    let engine = Engine::new();
    assert!(!engine.is_threefold_repetition());
}

#[test]
fn shuffling_knights_back_to_the_same_position_three_times_is_a_repetition() {
    // Nf3 Nf6 Ng1 Ng8, repeated twice more: each full four-move
    // cycle returns to the exact starting position (same board,
    // same side to move, same castling rights -- nobody's king or
    // rook moved, so rights are untouched -- and no pawn move/
    // capture ever happens, so this is legal repetition, not just a
    // hash coincidence). Startpos itself is occurrence 1; two more
    // cycles bring it to 3.
    let mut engine = Engine::new();

    for _ in 0..2 {
        engine
            .apply_move(
                Square::from_file_rank(6, 0),
                Square::from_file_rank(5, 2),
                None,
            ) // Ng1-f3
            .expect("Nf3 should be legal");
        engine
            .apply_move(
                Square::from_file_rank(6, 7),
                Square::from_file_rank(5, 5),
                None,
            ) // Ng8-f6
            .expect("Nf6 should be legal");
        engine
            .apply_move(
                Square::from_file_rank(5, 2),
                Square::from_file_rank(6, 0),
                None,
            ) // Nf3-g1
            .expect("Ng1 should be legal");
        engine
            .apply_move(
                Square::from_file_rank(5, 5),
                Square::from_file_rank(6, 7),
                None,
            ) // Nf6-g8
            .expect("Ng8 should be legal");
    }

    // Board/side-to-move/castling-rights/en-passant match startpos
    // exactly -- the fields Zobrist hashing (and so repetition)
    // actually cares about. `halfmove_clock`/`fullmove_number`
    // correctly do *not* match (eight non-pawn, non-capture moves
    // were played, and four full moves elapsed): those are real
    // FIDE-rule counters, not part of what makes two positions "the
    // same" for repetition purposes, so `Position`'s own
    // `PartialEq` -- which does compare them -- is the wrong check
    // here; `zobrist_hash` is the one that matters.
    assert_eq!(
        engine.position().zobrist_hash(),
        Position::startpos().zobrist_hash()
    );
    assert!(engine.is_threefold_repetition());
    assert_eq!(engine.search(4).score, 0, "search must honor game history");
}

#[test]
fn set_position_resets_repetition_history() {
    // A `position` command always resends the whole move list from
    // a base position (see `position_history`'s docs) -- a fresh
    // `set_position` call must not let history from a previous
    // `position` command linger and cause a false repetition match.
    let mut engine = Engine::new();
    engine
        .apply_move(
            Square::from_file_rank(6, 0),
            Square::from_file_rank(5, 2),
            None,
        ) // Nf3
        .expect("Nf3 should be legal");
    engine
        .apply_move(
            Square::from_file_rank(6, 7),
            Square::from_file_rank(5, 5),
            None,
        ) // Nf6
        .expect("Nf6 should be legal");

    engine.set_position(Position::startpos());

    assert!(!engine.is_threefold_repetition());
}
