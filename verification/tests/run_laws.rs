use bee_chess::book::{CowOpeningBook, OpeningBook};
use bee_chess::chess::zobrist::SIDE_TO_MOVE_KEY;
use bee_chess::chess::{Move, MoveFlag, Position, Square};
use bee_chess::diagnostics::DiagnosticLevel;
use bee_chess::engine::{found_or, Engine, EvaluatorKind, OpeningBookKind};
use bee_chess::eval::bounds::{MATERIAL_BOUND, TAPERED_BOUND};
use bee_chess::eval::{
    EvalOptions, Evaluator, ExperimentalEvaluator, MaterialEvaluator, PositionalEvaluator,
};
use bee_chess::search::alpha_beta::{negamax, quiescence};
use bee_chess::search::deadline::CHECK_INTERVAL_NODES;
use bee_chess::search::iterative::{
    continues_deepening, continues_under_budget, continues_until_stopped, deepen_with_budget,
    deepen_with_options, deepen_with_stop, MAX_ITERATIVE_DEPTH,
};
use bee_chess::search::looks::{Looks, Plan};
use bee_chess::search::reports::Reports;
use bee_chess::search::state::SearchState;
use bee_chess::search::time_manager::{
    allocate_time, estimate_next_depth_cost, next_depth_is_affordable, ClockTimeControl,
    TimeManagerConfig,
};
use bee_chess::search::{
    search_iterative, search_iterative_with_budget, search_iterative_with_stop, Deadline,
    SearchOptions, SearchResult, StopSignal, TimeBudget,
};
use bee_chess::time::Duration;
use bee_chess::uci::output::bestmove_line;
use bee_chess::uci::session::{run_reported_search, run_search, Action};
use bee_chess::uci::{Event, GoCommand, SearchEvent, Session};

const KIWIPETE: &str = "r3k2r/p1ppqpb1/bn2pnp1/3PN3/1p2P3/2N2Q1p/PPPBBPPP/R3K2R w KQkq - 0 1";
const ROOKS: &str = "8/2p5/3p4/KP5r/1R3p1k/8/4P1P1/8 w - - 0 1";
const PROMOTIONS: &str = "n1n5/PPPk4/8/8/8/8/4Kppp/5N1N b - - 0 1";
const STARTPOS: &str = "rnbqkbnr/pppppppp/8/8/8/8/PPPPPPPP/RNBQKBNR w KQkq - 0 1";

fn position(fen: &str) -> Position {
    Position::from_fen(fen).unwrap()
}

/// The same position with the other side to move.
fn other_turn(fen: &str) -> Position {
    let flipped = if fen.contains(" w ") {
        fen.replace(" w ", " b ")
    } else {
        fen.replace(" b ", " w ")
    };
    position(&flipped)
}

fn square(name: &str) -> Square {
    name.parse().unwrap()
}

fn offered(fen: &str) -> Option<(Square, Square)> {
    CowOpeningBook.probe(&position(fen)).map(|mv: Move| (mv.from(), mv.to()))
}

#[test]
fn the_cow_goes_on_with_the_other_knight() {
    assert_eq!(
        offered("rnbqkbnr/pppppppp/8/8/8/3PP3/PPP1NPPP/RNBQKB1R w KQkq - 0 1"),
        Some((square("b1"), square("d2")))
    );
    assert_eq!(
        offered("rnbqkbnr/pppppppp/8/8/8/3PP3/PPPNNPPP/R1BQKB1R w KQkq - 0 1"),
        Some((square("e2"), square("g3")))
    );
    assert_eq!(
        offered("rnbqkbnr/pppppppp/8/8/8/3PP1N1/PPPN1PPP/R1BQKB1R w KQkq - 0 1"),
        Some((square("d2"), square("b3")))
    );
    assert_eq!(offered("rnbqkbnr/pppppppp/8/8/8/1N1PP1N1/PPP2PPP/R1BQKB1R w KQkq - 0 1"), None);
}

#[test]
fn the_cow_gives_up_once_another_piece_is_in_the_way() {
    // d2-d3 is legal in each of these, but the e-pawn's square is taken.
    assert_eq!(offered("4k3/8/8/8/8/8/3Pn3/4K1N1 w - - 0 1"), None);
    assert_eq!(offered("4k3/8/8/8/8/8/3PQ3/4K1N1 w - - 0 1"), None);
    assert_eq!(offered("4k3/8/8/8/8/8/3PB3/4K1N1 w - - 0 1"), None);
    assert_eq!(offered("4k3/3pN3/8/8/8/8/8/4K3 b - - 0 1"), None);
    // A rook on g1 is no knight that could go to e2, so Nb1-d2 is out of order.
    assert_eq!(offered("4k3/8/8/8/8/3PP3/8/1N2K1R1 w - - 0 1"), None);
    assert_eq!(offered("4k3/8/8/8/8/3PP3/8/1R2K3 w - - 0 1"), None);
    // What stands on the square of a step that comes later does not matter yet.
    assert_eq!(
        offered("4k3/8/8/8/8/3PP3/8/1R2K1N1 w - - 0 1"),
        Some((square("g1"), square("e2")))
    );
}

#[test]
fn the_cow_passes_over_empty_squares_and_its_own_knights() {
    assert_eq!(
        offered("4k3/8/8/8/8/8/3PN3/4K3 w - - 0 1"),
        Some((square("d2"), square("d3")))
    );
    assert_eq!(
        offered("4k3/8/8/8/8/8/3P4/4K3 w - - 0 1"),
        Some((square("d2"), square("d3")))
    );
    assert_eq!(
        offered("4k3/3pn3/8/8/8/8/8/4K3 b - - 0 1"),
        Some((square("d7"), square("d6")))
    );
    assert_eq!(offered("4k3/8/8/8/8/8/8/4K3 w - - 0 1"), None);
}

#[test]
fn the_soft_limit_is_within_the_hard_limit_whatever_the_multiplier() {
    for multiplier in [0, 1, 2, 5, 1000, u32::MAX] {
        let config = TimeManagerConfig {
            hard_limit_multiplier: multiplier,
            ..TimeManagerConfig::default()
        };
        for moves_to_go in [None, Some(0), Some(1), Some(40)] {
            let control = ClockTimeControl {
                time_left: Duration::from_millis(60_000),
                increment: Duration::from_millis(500),
                moves_to_go,
            };
            let budget = allocate_time(control, &config);
            assert!(budget.soft.as_nanos() > 0);
            assert!(budget.soft.as_nanos() <= budget.hard.as_nanos());
        }
    }
    let control = |moves_to_go| ClockTimeControl {
        time_left: Duration::from_millis(60_000),
        increment: Duration::from_millis(500),
        moves_to_go,
    };
    let config = TimeManagerConfig::default();
    let unknown = allocate_time(control(None), &config);
    let none_left = allocate_time(control(Some(0)), &config);
    assert_eq!(unknown.soft.as_nanos(), none_left.soft.as_nanos());
    assert_eq!(unknown.hard.as_nanos(), none_left.hard.as_nanos());
}

#[test]
fn without_time_deepening_completes_one_depth() {
    let mut start = Position::startpos();
    let mut seen: Vec<u32> = Vec::new();
    let result = search_iterative(
        &mut start,
        Duration::zero(),
        &MaterialEvaluator,
        |r: &SearchResult| seen.push(r.depth),
    );
    assert_eq!(result.depth, 1);
    assert_eq!(seen, vec![1]);
}

#[test]
fn a_soft_limit_of_nothing_allows_two_depths_at_most() {
    let mut start = Position::startpos();
    let mut seen: Vec<u32> = Vec::new();
    let budget = TimeBudget { soft: Duration::zero(), hard: Duration::from_secs(10) };
    let (result, _) = search_iterative_with_budget(
        &mut start,
        budget,
        &MaterialEvaluator,
        &[],
        SearchOptions::default(),
        StopSignal::new(),
        |r: &SearchResult| seen.push(r.depth),
    )
    .unwrap();
    assert!(result.depth <= 2);
    assert_eq!(seen, (1..=result.depth).collect::<Vec<u32>>());
}

#[test]
fn reports_come_in_order_and_only_for_completed_depths() {
    let mut p = position("4k3/8/8/8/8/8/8/4K2N w - - 98 60");
    let options = SearchOptions::default();
    let mut seen: Vec<u32> = Vec::new();
    let mut reports = Reports::new(|r: &SearchResult| seen.push(r.depth));
    let result = deepen_with_options(
        &mut p,
        Duration::from_millis(300),
        &MaterialEvaluator,
        &[],
        options,
        &mut reports,
        &mut Looks::new(),
    );
    assert_eq!(seen, (1..=result.depth).collect::<Vec<u32>>());

    let mut stopped: Vec<u32> = Vec::new();
    let mut reports = Reports::new(|r: &SearchResult| stopped.push(r.depth));
    let stop = StopSignal::new();
    stop.request_stop();
    let outcome = deepen_with_stop(
        &mut p,
        Duration::from_secs(10),
        &MaterialEvaluator,
        &[],
        options,
        stop,
        &mut reports,
        &mut Looks::new(),
    );
    assert!(outcome.is_none());
    assert!(stopped.is_empty());

    let mut p = position(KIWIPETE);
    let mut limited: Vec<(u32, Option<Move>, i32)> = Vec::new();
    let mut reports =
        Reports::new(|r: &SearchResult| limited.push((r.depth, r.best_move, r.score)));
    let budget = TimeBudget { soft: Duration::from_millis(200), hard: Duration::from_secs(5) };
    let (result, telemetry) = deepen_with_budget(
        &mut p,
        budget,
        &MaterialEvaluator,
        &[],
        options,
        StopSignal::new(),
        &mut reports,
        &mut Looks::new(),
    )
    .unwrap();
    let depths: Vec<u32> = limited.iter().map(|report| report.0).collect();
    assert_eq!(depths, (1..=result.depth).collect::<Vec<u32>>());
    assert_eq!(limited.last(), Some(&(result.depth, result.best_move, result.score)));
    assert_eq!(telemetry.completed_depth, result.depth);
    let changes = limited.windows(2).filter(|pair| pair[0].1 != pair[1].1).count();
    assert_eq!(telemetry.best_move_changes as usize, changes);
    let delta = limited.windows(2).last().map(|pair| pair[1].2 - pair[0].2);
    assert_eq!(telemetry.score_delta_cp, delta);
}

#[test]
fn without_time_the_engine_plays_the_first_legal_move() {
    let mut engine = Engine::new();
    let first = engine.position().generate_legal_moves()[0];
    let mut seen = 0;
    let result = engine.search_for_time_with_stop(
        Duration::zero(),
        StopSignal::new(),
        |_: &SearchResult| seen += 1,
    );
    assert_eq!(result.best_move, Some(first));
    assert_eq!(result.depth, 0);
    assert_eq!(seen, 0);

    let control = ClockTimeControl {
        time_left: Duration::zero(),
        increment: Duration::zero(),
        moves_to_go: None,
    };
    let mut seen = 0;
    let result =
        engine.search_with_clock(control, StopSignal::new(), |_: &SearchResult| seen += 1);
    assert_eq!(result.best_move, Some(first));
    assert_eq!(result.depth, 0);
    assert_eq!(seen, 0);

    let mut depths: Vec<u32> = Vec::new();
    let result = engine.search_for_time(Duration::zero(), |r: &SearchResult| depths.push(r.depth));
    assert_eq!(result.depth, 1);
    assert_eq!(depths, vec![1]);
}

#[test]
fn a_decided_position_is_deepened_whatever_the_time() {
    // Checkmate: there is nothing to search, so the clock does not matter.
    let mut engine = Engine::new();
    engine.set_position(position(
        "rnb1kbnr/pppp1ppp/8/4p3/6Pq/5P2/PPPPP2P/RNBQKBNR w KQkq - 1 3",
    ));
    let result = engine.search_for_time_with_stop(
        Duration::from_secs(1),
        StopSignal::new(),
        |_: &SearchResult| {},
    );
    assert!(result.depth >= 1);
    assert_eq!(result.best_move, None);
}

#[test]
fn a_fixed_depth_is_reported_once_and_a_book_move_not_at_all() {
    let mut engine = Engine::new();
    let go = GoCommand { depth: Some(2), ..GoCommand::default() };
    let mut seen: Vec<u32> = Vec::new();
    let result = run_search(&mut engine, go, StopSignal::new(), |r: &SearchResult| {
        seen.push(r.depth);
    });
    assert_eq!(result.depth, 2);
    assert_eq!(seen, vec![2]);

    let timed = GoCommand { movetime_ms: Some(100), ..GoCommand::default() };
    let mut depths: Vec<u32> = Vec::new();
    let mut reports = Reports::new(|r: &SearchResult| depths.push(r.depth));
    let result = run_reported_search(
        &mut engine,
        timed,
        StopSignal::new(),
        &mut reports,
        &mut Looks::new(),
    );
    assert_eq!(depths, (1..=result.depth).collect::<Vec<u32>>());

    engine.set_opening_book(OpeningBookKind::Cow);
    let mut seen = 0;
    let result = run_search(&mut engine, go, StopSignal::new(), |_: &SearchResult| seen += 1);
    assert_eq!(result.depth, 0);
    assert_eq!(seen, 0);
}

#[test]
fn the_side_to_move_adds_one_key() {
    for fen in [STARTPOS, KIWIPETE, ROOKS, PROMOTIONS] {
        let p = position(fen);
        let q = other_turn(fen);
        assert_eq!(p.zobrist_hash() ^ q.zobrist_hash(), SIDE_TO_MOVE_KEY);
        assert_ne!(p.zobrist_hash(), q.zobrist_hash());
    }
}

#[test]
fn no_move_comes_twice_and_legal_moves_keep_their_order() {
    for fen in [STARTPOS, KIWIPETE, ROOKS, PROMOTIONS] {
        let p = position(fen);
        let pseudo = p.generate_pseudo_legal_moves();
        let legal = position(fen).generate_legal_moves();
        for (k, mv) in pseudo.iter().enumerate() {
            assert!(!pseudo[..k].contains(mv));
        }
        let kept: Vec<Move> = pseudo.into_iter().filter(|mv| legal.contains(mv)).collect();
        assert_eq!(kept, legal);
    }
}

#[test]
fn evaluators_change_sign_with_the_turn_and_stay_bounded() {
    let still = PositionalEvaluator { options: EvalOptions { use_mobility: false } };
    for fen in [STARTPOS, KIWIPETE, ROOKS, PROMOTIONS] {
        let p = position(fen);
        let q = other_turn(fen);
        assert_eq!(ExperimentalEvaluator.evaluate(&p), -ExperimentalEvaluator.evaluate(&q));
        assert_eq!(still.evaluate(&p), -still.evaluate(&q));
        assert_eq!(MaterialEvaluator.evaluate(&p), -MaterialEvaluator.evaluate(&q));
        let lively = PositionalEvaluator::new();
        assert_eq!(lively.evaluate(&p), -lively.evaluate(&q));
        assert!(lively.evaluate(&p).abs() <= TAPERED_BOUND);
        assert!(MaterialEvaluator.evaluate(&p).abs() <= MATERIAL_BOUND);
    }
}

#[test]
fn a_search_with_a_legal_move_reports_a_line() {
    for fen in [STARTPOS, KIWIPETE, ROOKS, PROMOTIONS] {
        for kind in [EvaluatorKind::Positional, EvaluatorKind::Material] {
            let mut engine = Engine::new();
            engine.set_evaluator(kind);
            engine.set_position(position(fen));
            for depth in 1..=3 {
                let result = engine.search(depth);
                assert!(!result.pv.is_empty());
                assert_eq!(result.best_move, Some(result.pv[0]));
                assert!(result.score.abs() <= 30_000);
            }
        }
    }
}

#[test]
fn diagnostics_are_taken_once_and_in_order() {
    let mut engine = Engine::new();
    engine.emit_diagnostic(DiagnosticLevel::Info, "one");
    let _ = engine.apply_move(square("e2"), square("e5"), None);
    engine.emit_diagnostic(DiagnosticLevel::Warn, "two");
    let _ = engine.search(1);
    engine.emit_diagnostic(DiagnosticLevel::Debug, "three");
    let taken: Vec<String> =
        engine.take_diagnostics().into_iter().map(|diagnostic| diagnostic.message).collect();
    assert_eq!(taken, vec!["one", "two", "three"]);
    engine.new_game();
    assert!(engine.take_diagnostics().is_empty());
}

#[test]
fn only_played_moves_count_towards_a_repetition() {
    let mut engine = Engine::new();
    let cycle = [("g1", "f3"), ("g8", "f6"), ("f3", "g1"), ("f6", "g8")];
    for round in 0..2 {
        for (from, to) in cycle {
            assert!(!engine.is_threefold_repetition());
            assert!(engine.apply_move(square("e2"), square("e5"), None).is_err());
            engine.new_game();
            let _ = engine.search(1);
            engine.apply_move(square(from), square(to), None).unwrap();
        }
        assert_eq!(engine.is_threefold_repetition(), round == 1);
    }
    engine.set_position(Position::startpos());
    assert!(!engine.is_threefold_repetition());
}

#[test]
fn every_go_gets_one_bestmove_before_anything_else() {
    let mut engine = Engine::new();
    let mut session = Session::new();
    let mut running: Option<GoCommand> = None;
    let mut written: Vec<String> = Vec::new();
    let mut answers: Vec<String> = Vec::new();
    let script = [
        "stop",
        "position startpos moves e2e4",
        "go depth 1",
        "isready",
        "go depth 2",
        "position startpos moves d2d4",
        "stop",
        "go depth 1",
        "stop",
        "stop",
    ];
    for line in script {
        let mut event = Some(Event::Line(line.to_string()));
        while let Some(received) = event {
            let reply = session.step(&mut engine, Some(received));
            written.extend(reply.lines);
            let mut finished = false;
            match reply.action {
                Action::Start(command) => running = Some(command),
                Action::Join => finished = true,
                _ => {}
            }
            if finished {
                let command = running.take().unwrap();
                let result = run_search(&mut engine, command, StopSignal::new(), |_: &SearchResult| {});
                let answer = bestmove_line(result.best_move);
                let before = written.len();
                let reply = session.step(
                    &mut engine,
                    Some(Event::Search(SearchEvent::Done(result))),
                );
                written.extend(reply.lines);
                assert_eq!(written[before], answer);
                answers.push(answer);
                if let Action::Start(command) = reply.action {
                    running = Some(command);
                }
            }
            event = session.next_pending();
        }
    }
    let said: Vec<String> =
        written.iter().filter(|line| line.starts_with("bestmove")).cloned().collect();
    assert_eq!(said, answers);
    assert_eq!(said.len(), 3);
    assert_eq!(written[0], answers[0]);
    assert_eq!(written[1], "readyok");
    assert_eq!(written.len(), 4);
    assert_eq!(
        engine.position().to_fen(),
        "rnbqkbnr/pppppppp/8/8/3P4/8/PPP1PPPP/RNBQKBNR b KQkq d3 0 1"
    );
}

#[test]
fn a_session_ends_at_quit_or_at_the_end_of_the_input() {
    for last in [Event::Line("quit".to_string()), Event::InputEnded] {
        let mut engine = Engine::new();
        let mut session = Session::new();
        let reply = session.step(&mut engine, Some(Event::Line("go depth 1".to_string())));
        let Action::Start(command) = reply.action else {
            panic!("a search should start");
        };
        let reply = session.step(&mut engine, Some(last));
        assert_eq!(reply.action, Action::Join);
        let result = run_search(&mut engine, command, StopSignal::new(), |_: &SearchResult| {});
        let answer = bestmove_line(result.best_move);
        let reply = session.step(&mut engine, Some(Event::Search(SearchEvent::Done(result))));
        assert_eq!(reply.lines, vec![answer]);
        assert_eq!(reply.action, Action::Exit);
    }
    let mut engine = Engine::new();
    let mut session = Session::new();
    let reply = session.step(&mut engine, Some(Event::InputEnded));
    assert_eq!(reply.action, Action::Exit);
    assert!(reply.lines.is_empty());
}

/// What a double-precision computation estimates.
fn estimated(last: u64, previous: Option<u64>) -> u64 {
    let growth = match previous {
        Some(before) if before > 0 => (last as f64 / before as f64).clamp(1.5, 4.0),
        _ => 2.0,
    };
    (last as f64 * growth).round() as u64
}

/// A few numbers of every size, and their neighbors.
fn numbers() -> Vec<u64> {
    let mut all: Vec<u64> = vec![0, 54, 100, 117, 1000, 3333];
    for shift in 0..64 {
        let power = 1u64 << shift;
        all.extend([power, power - 1, power + power / 2, power.saturating_mul(3) / 7 * 4 + 1]);
    }
    all.push(u64::MAX);
    all
}

#[test]
fn estimates_are_rounded_as_double_precision_rounds() {
    assert_eq!(estimate_next_depth_cost(117, Some(54)), 253);
    assert_eq!(estimate_next_depth_cost(u64::MAX, Some(1)), u64::MAX);
    for last in 0..400u64 {
        for before in 0..400u64 {
            let found = estimate_next_depth_cost(last, Some(before));
            assert_eq!(found, estimated(last, Some(before)), "{last} after {before}");
            assert!(3 * last <= 2 * found && found <= 4 * last);
        }
    }
    for last in numbers() {
        assert_eq!(estimate_next_depth_cost(last, None), estimated(last, None));
        for before in numbers() {
            assert_eq!(
                estimate_next_depth_cost(last, Some(before)),
                estimated(last, Some(before)),
                "{last} after {before}"
            );
        }
    }
}

#[test]
fn headroom_is_rounded_as_double_precision_rounds() {
    for estimate in numbers() {
        for elapsed in numbers() {
            let needed = elapsed as f64 + estimate as f64 * 1.15;
            for hard in [needed as u64, (needed as u64).saturating_add(1), elapsed, estimate, 0] {
                assert_eq!(
                    next_depth_is_affordable(elapsed, estimate, hard),
                    needed <= hard as f64,
                    "{elapsed} + {estimate} in {hard}"
                );
            }
        }
    }
    assert!(next_depth_is_affordable(0, 100, 115));
    assert!(!next_depth_is_affordable(0, 100, 114));
}

#[test]
fn another_depth_starts_only_if_it_is_expected_to_fit() {
    // 40 ms after 20 ms: 80 ms are expected, 92 ms with the margin.
    let goes_on = |depth, mate, saturated, soft, hard| {
        continues_under_budget(depth, mate, saturated, soft, 60, 40, Some(20), hard)
    };
    assert!(goes_on(3, false, false, false, 152));
    assert!(!goes_on(3, false, false, false, 151));
    assert!(!goes_on(3, true, false, false, 152));
    assert!(!goes_on(3, false, true, false, 152));
    assert!(!goes_on(3, false, false, true, 152));
    assert!(!goes_on(MAX_ITERATIVE_DEPTH, false, false, false, 152));
    // Without a depth before it, twice as long is expected.
    assert!(continues_under_budget(1, false, false, false, 40, 40, None, 132));
    assert!(!continues_under_budget(1, false, false, false, 40, 40, None, 131));
}

#[test]
fn the_clock_cannot_cut_off_a_search_between_two_looks_at_it() {
    let no_time = Deadline::from_now(Duration::zero());
    let mut p = position("4k3/8/8/8/8/8/4P3/4K3 w - - 0 1");
    for (start, finishes) in [(0, false), (1, true), (CHECK_INTERVAL_NODES - 1, false)] {
        let mut state = SearchState::new(SearchOptions::default());
        let mut path = vec![p.zobrist_hash()];
        let mut nodes = start;
        let outcome = negamax(
            &mut p,
            1,
            -32_000,
            32_000,
            0,
            &MaterialEvaluator,
            &mut nodes,
            &no_time,
            &mut state,
            &mut path,
            true,
        );
        assert_eq!(outcome.is_some(), finishes);
        assert_eq!(path, vec![p.zobrist_hash()]);
    }
    for (start, finishes) in [(CHECK_INTERVAL_NODES, false), (CHECK_INTERVAL_NODES + 1, true)] {
        let mut state = SearchState::new(SearchOptions::default());
        let mut path = vec![p.zobrist_hash()];
        let mut nodes = start;
        let outcome = quiescence(
            &mut p,
            -32_000,
            32_000,
            0,
            0,
            &MaterialEvaluator,
            &mut nodes,
            &no_time,
            &mut path,
            &mut state,
        );
        assert_eq!(outcome.is_some(), finishes);
    }
}

#[test]
fn castling_goes_by_the_right_and_the_empty_squares_alone() {
    let castles = |moves: Vec<Move>| -> Vec<(Square, Square)> {
        moves
            .into_iter()
            .filter(|mv| {
                matches!(mv.flag(), MoveFlag::CastleKingside | MoveFlag::CastleQueenside)
            })
            .map(|mv| (mv.from(), mv.to()))
            .collect()
    };
    let away = position("r3k2r/8/8/8/8/8/K7/R6R w KQkq - 0 1");
    assert_eq!(
        castles(away.generate_pseudo_legal_moves()),
        vec![(square("e1"), square("g1")), (square("e1"), square("c1"))]
    );
    assert!(castles(away.generate_legal_moves()).is_empty());
    // Whatever stands on the home square makes the move.
    let knight = position("r3k2r/8/8/8/8/8/K7/R3N2R w KQkq - 0 1");
    assert_eq!(castles(knight.generate_pseudo_legal_moves()).len(), 2);
    let blocked = position("r3k2r/8/8/8/8/8/K7/RN4NR w KQkq - 0 1");
    assert!(castles(blocked.generate_pseudo_legal_moves()).is_empty());
    assert_eq!(castles(position(KIWIPETE).generate_legal_moves()).len(), 2);
}

#[test]
fn deepening_goes_on_until_nothing_is_left_to_find() {
    // Every move is a draw by the fifty-move rule, so depth 2 changes nothing.
    let mut seen: Vec<u32> = Vec::new();
    let mut p = position("4k3/8/8/8/8/8/8/4K2N w - - 99 1");
    let result = search_iterative(
        &mut p,
        Duration::from_secs(1),
        &MaterialEvaluator,
        |r: &SearchResult| seen.push(r.depth),
    );
    assert_eq!(result.depth, 2);
    assert_eq!(seen, vec![1, 2]);

    // Only a mate ends a search that waits for its stop signal before its time.
    let mut seen: Vec<u32> = Vec::new();
    let mut p = position("6k1/5ppp/8/8/8/8/8/R3K3 w - - 0 1");
    let result = search_iterative_with_stop(
        &mut p,
        Duration::from_secs(10),
        &MaterialEvaluator,
        &[],
        SearchOptions::default(),
        StopSignal::new(),
        |r: &SearchResult| seen.push(r.depth),
    )
    .unwrap();
    assert_eq!(result.best_move.map(|mv| (mv.from(), mv.to())), Some((square("a1"), square("a8"))));
    assert_eq!(seen, (1..=result.depth).collect::<Vec<u32>>());
}

#[test]
fn a_depth_is_started_unless_something_ends_the_search() {
    assert!(continues_deepening(1, false, false, false, true));
    assert!(!continues_deepening(MAX_ITERATIVE_DEPTH, false, false, false, true));
    assert!(!continues_deepening(1, true, false, false, true));
    assert!(!continues_deepening(1, false, true, false, true));
    assert!(!continues_deepening(1, false, false, true, true));
    assert!(!continues_deepening(1, false, false, false, false));

    assert!(continues_until_stopped(MAX_ITERATIVE_DEPTH, false, false));
    assert!(!continues_until_stopped(u32::MAX, false, false));
    assert!(!continues_until_stopped(1, true, false));
    assert!(!continues_until_stopped(1, false, true));
}

#[test]
fn the_record_of_looks_answers_like_what_it_records() {
    let mut looks = Looks::new();
    assert!(!looks.look(&Deadline::none(), 0));
    assert!(looks.look(&Deadline::from_now(Duration::zero()), 0));
    assert!(!looks.look(&Deadline::from_now(Duration::zero()), 1));
    let stop = StopSignal::new();
    let deadline = Deadline::from_now(Duration::from_secs(60)).with_stop_signal(stop.clone());
    assert!(!looks.look(&deadline, 0));
    stop.request_stop();
    assert!(looks.look(&deadline, 1));

    let watch = looks.start();
    assert!(looks.took(&watch) < 10_000);
    assert!(looks.spent(&watch) < 10_000);
    assert!(looks.read(&watch).as_millis() < 10_000);
    let plan = Plan {
        depth: 3,
        found_mate: false,
        search_saturated: false,
        soft_limit_reached: false,
        elapsed_ms: 100,
        last_depth_ms: 10,
        previous_depth_ms: Some(5),
        hard_ms: 1000,
    };
    assert!(looks.decide(plan));
    assert!(!looks.decide(Plan { soft_limit_reached: true, ..plan }));
    assert!(!looks.decide(Plan { found_mate: true, ..plan }));
    assert!(!looks.decide(Plan { hard_ms: 101, ..plan }));
    assert!(!looks.decide(Plan { elapsed_ms: u64::MAX, ..plan }));
}

#[test]
fn what_was_found_goes_before_the_fallback() {
    let mut engine = Engine::new();
    let first = engine.search(1);
    let second = engine.search(2);
    assert_eq!(found_or(Some(engine.search(2)), engine.search(1)).depth, 2);
    assert_eq!(found_or(None, first).depth, 1);
    assert_eq!(second.depth, 2);
}
