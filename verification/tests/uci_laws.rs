use bee_chess::chess::{Position, Square};
use bee_chess::engine::{Engine, IllegalMoveError};
use bee_chess::eval::MaterialEvaluator;
use bee_chess::search::deadline::{budget_used_up, clock_check_due, time_to_stop, Stopwatch};
use bee_chess::search::{
    search_iterative_with_budget, search_iterative_with_stop, Deadline, SearchOptions,
    SearchResult, StopSignal, TimeBudget,
};
use bee_chess::time::Duration;
use bee_chess::uci::output::{bestmove_line, illegal_move_line, invalid_fen_line};
use bee_chess::uci::session::{run_search, Action, Reply};
use bee_chess::uci::{format_uci_move, Event, SearchEvent, Session, UciMove};

fn say(session: &mut Session, engine: &mut Engine, line: &str) -> Reply {
    session.step(engine, Some(Event::Line(line.to_string())))
}

#[test]
fn a_search_is_answered_once() {
    let mut engine = Engine::new();
    let mut session = Session::new();
    let reply = say(&mut session, &mut engine, "go depth 2");
    let Action::Start(command) = reply.action else {
        panic!("a search should start");
    };
    assert!(reply.lines.is_empty());
    let mut reports = 0;
    let result = run_search(&mut engine, command, StopSignal::new(), |_: &SearchResult| {
        reports += 1;
    });
    assert!(reports <= 2);
    let best = result.best_move;
    assert!(engine.position().generate_legal_moves().contains(&best.unwrap()));
    let line = "info depth 2".to_string();
    let reply = session.step(&mut engine, Some(Event::Search(SearchEvent::Info(line))));
    assert_eq!(reply.lines, vec!["info depth 2"]);
    assert_eq!(reply.action, Action::Wait);
    let reply = session.step(&mut engine, Some(Event::Search(SearchEvent::Done(result))));
    assert_eq!(reply.lines, vec![bestmove_line(best)]);
    assert_eq!(reply.action, Action::Join);
    let reply = say(&mut session, &mut engine, "stop");
    assert!(reply.lines.is_empty());
    assert_eq!(reply.action, Action::Wait);
}

#[test]
fn a_second_search_waits_for_the_first() {
    let mut engine = Engine::new();
    let mut session = Session::new();
    let reply = say(&mut session, &mut engine, "go infinite");
    let Action::Start(command) = reply.action else {
        panic!("a search should start");
    };
    let fen = engine.position().to_fen();
    let reply = say(&mut session, &mut engine, "position startpos moves e2e4");
    assert_eq!(reply.action, Action::Join);
    assert_eq!(engine.position().to_fen(), fen);
    let stop = StopSignal::new();
    stop.request_stop();
    let result = run_search(&mut engine, command, stop, |_: &SearchResult| {});
    let answer = bestmove_line(result.best_move);
    assert!(session.next_pending().is_none());
    let reply = session.step(&mut engine, Some(Event::Search(SearchEvent::Done(result))));
    assert_eq!(reply.lines[0], answer);
    let mut lines: Vec<String> = reply.lines[1..].to_vec();
    while let Some(event) = session.next_pending() {
        let reply = session.step(&mut engine, Some(event));
        lines.extend(reply.lines);
    }
    assert!(lines.iter().all(|line| !line.starts_with("bestmove")));
    assert_eq!(
        engine.position().to_fen(),
        "rnbqkbnr/pppppppp/8/8/4P3/8/PPPP1PPP/RNBQKBNR b KQkq e3 0 1"
    );
}

#[test]
fn a_position_command_starts_over() {
    let mut fresh = Engine::new();
    let mut used = Engine::new();
    let mut session = Session::new();
    say(&mut session, &mut used, "position startpos moves d2d4 d7d5 c2c4");
    for engine in [&mut fresh, &mut used] {
        say(&mut session, engine, "position startpos moves e2e4 e7e5");
    }
    assert_eq!(fresh.position(), used.position());
    assert_eq!(
        fresh.position().to_fen(),
        "rnbqkbnr/pppp1ppp/8/4p3/4P3/8/PPPP1PPP/RNBQKBNR w KQkq e6 0 2"
    );
}

#[test]
fn invalid_options_change_nothing_and_stay_quiet_without_debug() {
    let mut engine = Engine::new();
    let mut session = Session::new();
    let before = engine.search_options();
    let evaluator = engine.evaluator();
    for line in [
        "setoption name UseTT value maybe",
        "setoption name Evaluator value neural",
        "setoption name Nonsense value 1",
    ] {
        let reply = say(&mut session, &mut engine, line);
        assert!(reply.lines.is_empty());
    }
    assert_eq!(engine.search_options(), before);
    assert_eq!(engine.evaluator(), evaluator);
    assert!(engine.take_diagnostics().is_empty());
    say(&mut session, &mut engine, "debug on");
    let reply = say(&mut session, &mut engine, "setoption name Evaluator value neural");
    assert!(!reply.lines.is_empty());
    assert!(engine.take_diagnostics().is_empty());
}

#[test]
fn every_fen_error_is_shown_as_it_is() {
    for (fen, shown) in [
        ("8/8 w", "InvalidFen(WrongFieldCount { found: 2 })"),
        ("8/8 w - - 0 1", "InvalidFen(WrongRankCount { found: 2 })"),
        (
            "8/8/8/8/8/8/8/7 w - - 0 1",
            "InvalidFen(WrongFileCountInRank { rank: 0, found: 7 })",
        ),
        (
            "8/8/8/8/8/8/8/7' w - - 0 1",
            "InvalidFen(InvalidPieceChar { ch: '\\'' })",
        ),
        (
            "8/8/8/8/8/8/8/8 \"x w - 0 1",
            "InvalidFen(InvalidSideToMove { found: \"\\\"x\" })",
        ),
        (
            "8/8/8/8/8/8/8/8 w Kx - 0 1",
            "InvalidFen(InvalidCastlingChar { ch: 'x' })",
        ),
        (
            "8/8/8/8/8/8/8/8 w - e9 0 1",
            "InvalidFen(InvalidEnPassantSquare { found: \"e9\" })",
        ),
        (
            "8/8/8/8/8/8/8/8 w - - -1 1",
            "InvalidFen(InvalidHalfmoveClock { found: \"-1\" })",
        ),
        (
            "8/8/8/8/8/8/8/8 w - - 0 x",
            "InvalidFen(InvalidFullmoveNumber { found: \"x\" })",
        ),
    ] {
        let error = Position::from_fen(fen).unwrap_err();
        assert_eq!(invalid_fen_line(&error), shown);
        assert_eq!(shown, format!("InvalidFen({error:?})"));
    }
}

#[test]
fn an_illegal_move_is_shown_as_it_is() {
    let error = IllegalMoveError {
        from: Square::new(12),
        to: Square::new(36),
        promotion: None,
    };
    assert_eq!(
        illegal_move_line(&error),
        "IllegalMove(IllegalMoveError { from: Square(12), to: Square(36), promotion: None })"
    );
    assert_eq!(illegal_move_line(&error), format!("IllegalMove({error:?})"));
}

#[test]
fn written_moves_read_back() {
    let position = Position::from_fen("7k/P7/8/8/8/8/8/R3K2R w KQ - 0 1").unwrap();
    for mv in position.generate_legal_moves() {
        let read = UciMove::parse(&format_uci_move(mv)).unwrap();
        assert_eq!(read.from, mv.from());
        assert_eq!(read.to, mv.to());
        assert_eq!(read.promotion, mv.flag().promotion_kind());
    }
}

#[test]
fn a_budget_of_nothing_is_used_up_at_once() {
    assert!(Deadline::from_now(Duration::zero()).is_expired(0));
    assert!(!Deadline::from_now(Duration::zero()).is_expired(1));
    assert!(!Deadline::from_now(Duration::from_secs(3_600)).is_expired(2_048));
    assert!(budget_used_up(Duration::from_millis(5), Duration::from_millis(5)));
    assert!(!budget_used_up(Duration::from_millis(4), Duration::from_millis(5)));
    assert!(clock_check_due(4_096));
    assert!(!clock_check_due(4_097));
    let watch = Stopwatch::start();
    while watch.elapsed() < Duration::from_millis(2) {}
    assert!(watch.elapsed() >= Duration::from_millis(2));
}

#[test]
fn a_stop_or_a_used_up_budget_ends_a_search() {
    let span = Duration::from_millis;
    assert!(time_to_stop(true, None));
    assert!(!time_to_stop(false, None));
    assert!(time_to_stop(false, Some((span(5), span(5)))));
    assert!(!time_to_stop(false, Some((span(4), span(5)))));
    assert!(time_to_stop(true, Some((span(4), span(5)))));
}

#[test]
fn without_time_only_a_decided_game_has_a_result() {
    let options = SearchOptions::default();
    for (fen, score) in [
        ("7k/6Q1/6K1/8/8/8/8/8 b - - 0 1", Some(-30_000)),
        ("7k/5Q2/6K1/8/8/8/8/8 b - - 0 1", Some(0)),
        ("7k/8/5KQ1/8/8/8/8/8 w - - 100 80", Some(0)),
        ("7k/8/5KQ1/8/8/8/8/8 w - - 0 1", None),
    ] {
        let mut position = Position::from_fen(fen).unwrap();
        let history = [position.zobrist_hash()];
        let found = search_iterative_with_stop(
            &mut position,
            Duration::zero(),
            &MaterialEvaluator,
            &history,
            options,
            StopSignal::new(),
            |_: &SearchResult| {},
        );
        assert_eq!(found.map(|result| result.score), score, "{fen}");
        let budget = TimeBudget {
            soft: Duration::from_secs(1),
            hard: Duration::zero(),
        };
        let found = search_iterative_with_budget(
            &mut position,
            budget,
            &MaterialEvaluator,
            &history,
            options,
            StopSignal::new(),
            |_: &SearchResult| {},
        );
        assert_eq!(found.map(|(result, _)| result.score), score, "{fen}");
    }
}

#[test]
fn squares_are_read_from_their_names() {
    assert_eq!("e4".parse::<Square>(), Ok(Square::new(28)));
    assert!("e9".parse::<Square>().is_err());
    assert!("E4".parse::<Square>().is_err());
    assert!("e44".parse::<Square>().is_err());
}
