use bee_chess::book::key::book_position_key;
use bee_chess::book::{CowOpeningBook, OpeningBook};
use bee_chess::chess::{CastlingRights, Color, Move, MoveFlag, Piece, PieceKind, Position, Square};
use bee_chess::engine::{Engine, EvaluatorKind, OpeningBookKind};
use bee_chess::eval::{
    EvalOptions, Evaluator, ExperimentalEvaluator, MaterialEvaluator, PositionalEvaluator,
};
use bee_chess::search::alpha_beta::{
    is_rule_draw, quiescence, score_from_tt, score_to_tt, terminal_score,
};
use bee_chess::search::exchange::{is_capture, resolve_see_gains, static_exchange_evaluation};
use bee_chess::search::ordering::order_moves;
use bee_chess::search::state::SearchState;
use bee_chess::search::tt::{Bound, TtEntry};
use bee_chess::search::{
    allocate_time, mate_in_plies, search_with_options, ClockTimeControl, Deadline, SearchOptions,
    TimeManagerConfig, TranspositionTable, TtReuse,
};
use bee_chess::tablebase::Wdl;
use bee_chess::text;
use bee_chess::time::Duration;

const KIWIPETE: &str = "r3k2r/p1ppqpb1/bn2pnp1/3PN3/1p2P3/2N2Q1p/PPPBBPPP/R3K2R w KQkq - 0 1";

fn position(fen: &str) -> Position {
    Position::from_fen(fen).unwrap()
}

/// The same position seen from the other side.
fn mirrored(position: &Position) -> Position {
    let mut mirror = Position::empty();
    for index in 0..64u8 {
        let square = Square::new(index);
        let flipped = Square::from_file_rank(square.file(), 7 - square.rank());
        let piece = position
            .piece_at(square)
            .map(|piece| Piece::new(piece.kind, piece.color.opposite()));
        mirror.set_piece(flipped, piece);
    }
    mirror.set_side_to_move(position.side_to_move().opposite());
    let rights = position.castling_rights();
    mirror.set_castling_rights(CastlingRights {
        white_kingside: rights.black_kingside,
        white_queenside: rights.black_queenside,
        black_kingside: rights.white_kingside,
        black_queenside: rights.white_queenside,
    });
    mirror
}

#[test]
fn fen_strings_read_back() {
    for fen in [
        KIWIPETE,
        "8/2p5/3p4/KP5r/1R3p1k/8/4P1P1/8 w - - 4294967295 4294967295",
        "rnbqkbnr/ppp1pppp/8/8/3pP3/8/PPPP1PPP/RNBQKBNR b KQkq e3 0 3",
        "8/8/8/8/8/8/8/8 b q h6 7 1",
    ] {
        assert_eq!(position(fen).to_fen(), fen);
        assert_eq!(position(&position(fen).to_fen()), position(fen));
    }
}

#[test]
fn passing_the_turn_and_back_restores_the_position() {
    let start = position("rnbqkbnr/ppp1pppp/8/8/3pP3/8/PPPP1PPP/RNBQKBNR b KQkq e3 5 3");
    let mut passed = start.clone();
    let undo = passed.make_null_move();
    assert_eq!(passed.side_to_move(), Color::White);
    assert_eq!(passed.en_passant_square(), None);
    passed.unmake_null_move(undo);
    assert_eq!(passed, start);
}

#[test]
fn only_a_pawn_can_take_a_promotion_back() {
    let start = position("4k3/N7/8/8/8/8/8/4K3 w - - 0 1");
    let mut after = start.clone();
    let mv = Move::new(Square::new(48), Square::new(56), MoveFlag::PromoteQueen);
    let undo = after.make_move(mv);
    after.unmake_move(mv, undo);
    assert_ne!(after, start);
    assert_eq!(
        after.piece_at(Square::new(48)),
        Some(Piece::new(PieceKind::Pawn, Color::White))
    );
}

#[test]
fn every_legal_move_passes_the_turn_and_comes_back() {
    let mut start = position(KIWIPETE);
    let before = start.clone();
    let rights = start.castling_rights();
    for mv in before.generate_legal_moves() {
        let undo = start.make_move(mv);
        assert_eq!(start.side_to_move(), Color::Black);
        assert_eq!(
            start.en_passant_square().is_some(),
            mv.flag() == MoveFlag::DoublePawnPush
        );
        let left = start.castling_rights();
        assert!(rights.white_kingside || !left.white_kingside);
        assert!(rights.black_queenside || !left.black_queenside);
        start.unmake_move(mv, undo);
        assert_eq!(start, before);
    }
}

#[test]
fn a_shield_may_not_uncover_its_king() {
    // The bishop on e2 shields its king from the rook, the knight on d2 from
    // nothing.
    let pinned = position("4k3/8/8/4r3/8/8/3NB3/4K3 w - - 0 1");
    let moves = pinned.generate_legal_moves();
    assert!(moves.iter().all(|mv| mv.from() != Square::new(12)));
    assert!(moves.iter().any(|mv| mv.from() == Square::new(11)));
    assert!(moves.contains(&Move::new(Square::new(4), Square::new(3), MoveFlag::Quiet)));
    // A pinned rook may still move along the line.
    let sliding = position("4k3/8/8/4r3/8/4R3/8/4K3 w - - 0 1");
    let rook: Vec<u8> = sliding
        .generate_legal_moves()
        .iter()
        .filter(|mv| mv.from() == Square::new(20))
        .map(|mv| mv.to().index())
        .collect();
    assert_eq!(rook, vec![28, 36, 12]);
}

#[test]
fn a_piece_moves_where_it_attacks() {
    for fen in [
        "8/8/3n4/3Q2r1/8/8/8/8 w - - 0 1",
        "8/1r6/8/3N4/5b2/8/8/8 w - - 0 1",
        "8/8/8/6n1/8/8/8/R2q4 w - - 0 1",
        "7K/6p1/8/8/8/8/8/8 w - - 0 1",
    ] {
        let given = position(fen);
        let moves = given.generate_pseudo_legal_moves();
        for index in 0..64u8 {
            let square = Square::new(index);
            assert_eq!(
                moves.iter().any(|mv| mv.to() == square),
                given.is_square_attacked(square, Color::White),
                "{fen} {index}"
            );
        }
    }
    // A pawn captures where it attacks, and only there.
    let pawn = position("8/8/8/8/2ppp3/3P4/8/8 w - - 0 1");
    let targets: Vec<u8> = pawn
        .generate_pseudo_legal_moves()
        .iter()
        .map(|mv| mv.to().index())
        .collect();
    assert_eq!(targets, vec![26, 28]);
}

#[test]
fn moves_start_on_own_pieces_and_spare_them() {
    for fen in [KIWIPETE, "rnbqkbnr/ppp1pppp/8/8/3pP3/8/PPPP1PPP/RNBQKBNR b KQkq e3 0 3"] {
        let given = position(fen);
        let side = given.side_to_move();
        for mv in given.generate_legal_moves() {
            assert_eq!(given.piece_at(mv.from()).unwrap().color, side);
            assert!(given.piece_at(mv.to()).map_or(true, |piece| piece.color != side));
        }
    }
}

#[test]
fn clocks_change_neither_moves_nor_keys() {
    let early = position("rnbqkbnr/pppppppp/8/8/8/8/PPPPPPPP/RNBQKBNR w KQkq - 0 1");
    let late = position("rnbqkbnr/pppppppp/8/8/8/8/PPPPPPPP/RNBQKBNR w KQkq - 60 90");
    assert_eq!(early.generate_legal_moves(), late.generate_legal_moves());
    assert_eq!(early.in_check(), late.in_check());
    assert_eq!(early.zobrist_hash(), late.zobrist_hash());
    assert_eq!(book_position_key(&early), book_position_key(&late));
    assert_eq!(CowOpeningBook.probe(&early), CowOpeningBook.probe(&late));
}

#[test]
fn no_evaluator_favors_a_color() {
    let plain = PositionalEvaluator {
        options: EvalOptions {
            use_mobility: false,
        },
    };
    for fen in [
        KIWIPETE,
        "r1bqk2r/pppp1ppp/2n2n2/2b1p3/2B1P3/2N2N2/PPPP1PP1/R1BQK2R b KQkq - 4 5",
        "8/2p5/3p4/KP5r/1R3p1k/8/4P1P1/8 w - - 0 1",
    ] {
        let given = position(fen);
        let mirror = mirrored(&given);
        let mut passed = given.clone();
        passed.set_side_to_move(given.side_to_move().opposite());
        let material = MaterialEvaluator.evaluate(&given);
        assert_eq!(MaterialEvaluator.evaluate(&mirror), material);
        assert_eq!(MaterialEvaluator.evaluate(&passed), -material);
        let positional = PositionalEvaluator::new().evaluate(&given);
        assert_eq!(PositionalEvaluator::new().evaluate(&mirror), positional);
        assert_eq!(PositionalEvaluator::new().evaluate(&passed), -positional);
        let experimental = ExperimentalEvaluator.evaluate(&given);
        assert_eq!(ExperimentalEvaluator.evaluate(&mirror), experimental);
        assert_eq!(plain.evaluate(&given), experimental);
        assert_ne!(positional, experimental);
    }
    assert_eq!(MaterialEvaluator.evaluate(&Position::startpos()), 0);
    assert_eq!(PositionalEvaluator::new().evaluate(&Position::startpos()), 0);
    assert_eq!(ExperimentalEvaluator.evaluate(&Position::startpos()), 0);
}

#[test]
fn exchanges_win_at_most_the_victim() {
    // Rook takes an undefended pawn.
    let free = position("4k3/8/8/3p4/8/8/8/3RK3 w - - 0 1");
    let takes = Move::new(Square::new(3), Square::new(35), MoveFlag::Quiet);
    assert_eq!(static_exchange_evaluation(&free, takes), 100);
    // The same pawn, defended: the rook is lost for it.
    let defended = position("4k3/8/4p3/3p4/8/8/8/3RK3 w - - 0 1");
    assert_eq!(static_exchange_evaluation(&defended, takes), -400);
    assert_eq!(resolve_see_gains(&[100, 400]), -400);
    assert_eq!(resolve_see_gains(&[100, -50]), 50);
}

/// The value of a position by full enumeration of captures, promotions and
/// evasions, at most four plies deep.
fn quiet_value(
    position: &mut Position,
    ply: u32,
    start_ply: u32,
    path: &mut Vec<u64>,
    options: SearchOptions,
) -> i32 {
    if is_rule_draw(position, path) {
        return 0;
    }
    let moves = position.generate_legal_moves();
    if moves.is_empty() {
        return terminal_score(position, ply);
    }
    let stand_pat = MaterialEvaluator.evaluate(position);
    if ply - start_ply >= 4 {
        return stand_pat;
    }
    let evading = options.use_enhanced_quiescence && position.in_check();
    let mut best = if evading { -32_000 } else { stand_pat };
    for mv in moves {
        let looked_at = if evading {
            true
        } else if is_capture(position, mv) {
            !options.use_see || mv.is_promotion() || static_exchange_evaluation(position, mv) >= 0
        } else {
            options.use_enhanced_quiescence && mv.is_promotion()
        };
        if looked_at {
            let undo = position.make_move(mv);
            path.push(position.zobrist_hash());
            best = best.max(-quiet_value(position, ply + 1, start_ply, path, options));
            path.pop();
            position.unmake_move(mv, undo);
        }
    }
    best
}

/// The value of a position by full enumeration.
fn minimax(
    position: &mut Position,
    depth: u32,
    ply: u32,
    path: &mut Vec<u64>,
    options: SearchOptions,
) -> i32 {
    if is_rule_draw(position, path) {
        return 0;
    }
    let moves = position.generate_legal_moves();
    if moves.is_empty() {
        return terminal_score(position, ply);
    }
    if depth == 0 {
        return if options.use_quiescence {
            quiet_value(position, ply, ply, path, options)
        } else {
            MaterialEvaluator.evaluate(position)
        };
    }
    let mut best = i32::MIN;
    for mv in moves {
        let undo = position.make_move(mv);
        path.push(position.zobrist_hash());
        best = best.max(-minimax(position, depth - 1, ply + 1, path, options));
        path.pop();
        position.unmake_move(mv, undo);
    }
    best
}

#[test]
fn plain_search_agrees_with_full_enumeration() {
    let plain = SearchOptions {
        use_tt: false,
        use_quiescence: false,
        use_enhanced_quiescence: true,
        use_lmr: false,
        use_null_move: false,
        use_adaptive_null_move: true,
        use_delta_pruning: false,
        use_see: true,
    };
    for (fen, depth) in [
        (KIWIPETE, 2),
        ("8/2p5/3p4/KP5r/1R3p1k/8/4P1P1/8 w - - 0 1", 3),
        ("6k1/5ppp/8/8/8/8/8/R3K3 w Q - 0 1", 3),
        ("7k/8/5KQ1/8/8/8/8/8 w - - 98 80", 3),
    ] {
        for (use_quiescence, use_enhanced_quiescence, use_see) in
            [(false, true, true), (true, true, true), (true, false, false)]
        {
            let options = SearchOptions {
                use_quiescence,
                use_enhanced_quiescence,
                use_see,
                ..plain
            };
            let depth = if use_quiescence { depth - 1 } else { depth };
            let mut given = position(fen);
            let hash = given.zobrist_hash();
            let expected = minimax(&mut given, depth, 0, &mut vec![hash], options);
            let result =
                search_with_options(&mut given, depth, &MaterialEvaluator, &[hash], options);
            assert_eq!(result.score, expected, "{fen}");
            assert!(given.generate_legal_moves().contains(&result.best_move.unwrap()));
            assert_eq!(result.pv.first().copied(), result.best_move);
        }
    }
}

#[test]
fn a_reported_line_can_be_played() {
    for use_tt in [false, true] {
        let options = SearchOptions {
            use_tt,
            ..SearchOptions::default()
        };
        let mut given = position(KIWIPETE);
        let hash = given.zobrist_hash();
        let result = search_with_options(&mut given, 4, &MaterialEvaluator, &[hash], options);
        assert!(result.pv.len() >= 2);
        for (index, mv) in result.pv.iter().enumerate() {
            if use_tt && index + 1 == result.pv.len() {
                break;
            }
            assert!(given.generate_legal_moves().contains(mv));
            given.make_move(*mv);
        }
    }
}

#[test]
fn quiescence_scores_at_least_standing_pat() {
    let mut given = position(KIWIPETE);
    let hash = given.zobrist_hash();
    let mut nodes = 0;
    let mut state = SearchState::new(SearchOptions::default());
    let score = quiescence(
        &mut given,
        -1_000_000,
        1_000_000,
        0,
        0,
        &MaterialEvaluator,
        &mut nodes,
        &Deadline::none(),
        &mut vec![hash],
        &mut state,
    )
    .unwrap();
    assert!(score >= MaterialEvaluator.evaluate(&given));
    assert!(nodes > 1);
}

#[test]
fn a_finished_game_is_scored_as_such() {
    let mut mated = position("7k/6Q1/6K1/8/8/8/8/8 b - - 0 1");
    let hash = mated.zobrist_hash();
    let result = search_with_options(
        &mut mated,
        2,
        &MaterialEvaluator,
        &[hash],
        SearchOptions::default(),
    );
    assert_eq!(result.best_move, None);
    assert_eq!(result.score, terminal_score(&mated, 0));
    assert_eq!(mate_in_plies(result.score), Some(0));
    let mut stalemated = position("7k/5Q2/6K1/8/8/8/8/8 b - - 0 1");
    let hash = stalemated.zobrist_hash();
    let result = search_with_options(
        &mut stalemated,
        2,
        &MaterialEvaluator,
        &[hash],
        SearchOptions::default(),
    );
    assert_eq!((result.best_move, result.score), (None, 0));
}

#[test]
fn table_scores_come_back_at_the_same_ply() {
    let mated = position("7k/6Q1/6K1/8/8/8/8/8 b - - 0 1");
    for ply in [0, 1, 7] {
        for score in [0, 250, -250, terminal_score(&mated, 9), -terminal_score(&mated, 9)] {
            assert_eq!(score_from_tt(score_to_tt(score, ply), ply), score);
        }
    }
    // A mate is stored as seen from the node.
    let score = -terminal_score(&mated, 9);
    assert_eq!(score_to_tt(score, 4), score + 4);
}

#[test]
fn shorter_mates_score_higher_and_change_sign() {
    let mated = position("7k/6Q1/6K1/8/8/8/8/8 b - - 0 1");
    let (near, far) = (-terminal_score(&mated, 1), -terminal_score(&mated, 3));
    assert!(near > far);
    assert_eq!((mate_in_plies(near), mate_in_plies(far)), (Some(1), Some(3)));
    assert_eq!(mate_in_plies(-far), Some(-3));
    assert_eq!(mate_in_plies(900), None);
}

#[test]
fn a_table_finds_what_was_stored_within_its_capacity() {
    let mut table = TranspositionTable::new(TtReuse::PerGame, 2);
    let entry = |depth: u32| TtEntry::new(depth, 17, Bound::Exact, None, 0);
    table.begin_search();
    table.store((1, 0, 1), entry(3));
    let found = table.probe(&(1, 0, 1)).unwrap();
    assert_eq!((found.depth, found.score, found.bound), (3, 17, Bound::Exact));
    assert!(table.probe(&(1, 1, 1)).is_none());
    assert!(table.probe(&(1, 0, 2)).is_none());
    table.store((2, 0, 1), entry(4));
    table.store((1, 0, 1), entry(9));
    assert_eq!(table.probe(&(2, 0, 1)).unwrap().depth, 4);
    for key in 3..10 {
        table.store((key, 0, 1), entry(5));
        assert!(table.len() <= 2);
    }
}

#[test]
fn a_history_fingerprint_does_not_depend_on_the_order() {
    let table = TranspositionTable::new(TtReuse::PerGame, 8);
    let quiet = position("4k3/8/8/8/8/8/8/4K2R w - - 6 20");
    let forth = table.history_key(&quiet, &[1, 2, 3, 4, 5, 6, 7]);
    let back = table.history_key(&quiet, &[6, 5, 4, 3, 2, 1, 7]);
    assert_eq!(forth, back);
    assert_ne!(forth, table.history_key(&quiet, &[1, 2, 3, 4, 5, 8, 7]));
}

#[test]
fn ordering_only_permutes_the_moves() {
    let given = position(KIWIPETE);
    let state = SearchState::new(SearchOptions::default());
    let moves = given.generate_legal_moves();
    let last = *moves.last().unwrap();
    let mut ordered = moves.clone();
    order_moves(&given, &mut ordered, &state, 0, Some(last));
    assert_eq!(ordered[0], last);
    let number = |mv: &Move| (mv.from().index(), mv.to().index(), mv.is_promotion());
    let (mut a, mut b) = (moves, ordered);
    a.sort_by_key(number);
    b.sort_by_key(number);
    assert_eq!(a, b);
}

#[test]
fn time_is_planned_within_the_clock() {
    let config = TimeManagerConfig::default();
    let clock = |time: u64, increment: u64| ClockTimeControl {
        time_left: Duration::from_millis(time),
        increment: Duration::from_millis(increment),
        moves_to_go: None,
    };
    let nothing = config.move_overhead.saturating_add(config.emergency_reserve);
    let none = allocate_time(
        ClockTimeControl {
            time_left: nothing,
            increment: Duration::from_secs(5),
            moves_to_go: None,
        },
        &config,
    );
    assert_eq!((none.soft, none.hard), (Duration::zero(), Duration::zero()));
    let mut last = Duration::zero();
    for time in [0, 50, 200, 1_000, 60_000, 3_600_000] {
        let budget = allocate_time(clock(time, 0), &config);
        assert!(budget.soft <= budget.hard);
        assert!(budget.hard.saturating_add(nothing) <= Duration::from_millis(time).saturating_add(nothing));
        assert!(last <= budget.soft);
        assert!(budget.soft <= allocate_time(clock(time, 2_000), &config).soft);
        last = budget.soft;
    }
}

#[test]
fn spans_of_time_saturate() {
    let longest = Duration::from_nanos(u128::MAX);
    assert_eq!(longest.as_nanos(), 18_446_744_073_709_551_615_999_999_999);
    assert_eq!(longest.saturating_add(Duration::from_millis(1)), longest);
    assert_eq!(longest.saturating_mul(2), longest);
    assert_eq!(Duration::from_millis(3).saturating_sub(Duration::from_secs(1)), Duration::zero());
    assert_eq!(Duration::from_millis(10).divided_by(3).as_nanos(), 3_333_333);
    assert_eq!(Duration::from_nanos(1_999_999).as_millis(), 1);
    assert_eq!(Duration::from_secs(2).shorter(Duration::from_millis(1_500)).as_millis_u64(), 1_500);
}

#[test]
fn texts_come_back_from_being_split_or_written() {
    let line = text::chars_of("a,,bc");
    let parts: Vec<String> = text::split_at_char(&line, ',').iter().map(text::string_of).collect();
    assert_eq!(parts, vec!["a", "", "bc"]);
    let line = text::chars_of("  go\tdepth  7 ");
    let words: Vec<String> = text::split_words(&line).iter().map(text::string_of).collect();
    assert_eq!(words, vec!["go", "depth", "7"]);
    for n in [0, 9, 10, u64::MAX] {
        let mut numeral = String::new();
        text::push_u64(&mut numeral, n);
        assert_eq!(text::parse_u64_max(&text::chars_of(&numeral), u64::MAX), Some(n));
    }
    assert_eq!(text::parse_u64_max(&text::chars_of("256"), 255), None);
    let mut numeral = String::new();
    text::push_i32(&mut numeral, i32::MIN);
    assert_eq!(numeral, "-2147483648");
}

#[test]
fn names_name_their_kinds() {
    for kind in [
        EvaluatorKind::Experimental,
        EvaluatorKind::Material,
        EvaluatorKind::Positional,
    ] {
        assert_eq!(EvaluatorKind::parse(kind.uci_name()), Some(kind));
    }
    for kind in [OpeningBookKind::NoBook, OpeningBookKind::Cow] {
        assert_eq!(OpeningBookKind::parse(kind.uci_name()), Some(kind));
    }
    assert_eq!(EvaluatorKind::parse("neural"), None);
    assert_eq!(OpeningBookKind::parse("sheep"), None);
}

#[test]
fn tablebase_scores_are_not_taken_for_mates() {
    for value in 0..6 {
        if let Some(wdl) = Wdl::decode(value) {
            assert_eq!(mate_in_plies(wdl.score()), None);
        }
    }
}

#[test]
fn only_legal_moves_are_applied() {
    let mut engine = Engine::new();
    let e2 = Square::from_file_rank(4, 1);
    assert!(engine.apply_move(e2, Square::from_file_rank(4, 4), None).is_err());
    assert_eq!(*engine.position(), Position::startpos());
    assert!(engine.apply_move(e2, Square::from_file_rank(4, 3), None).is_ok());
    assert_eq!(
        engine.position().to_fen(),
        "rnbqkbnr/pppppppp/8/8/4P3/8/PPPP1PPP/RNBQKBNR b KQkq e3 0 1"
    );
}
