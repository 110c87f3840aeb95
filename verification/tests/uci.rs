use bee_chess::chess::{Color, Move, MoveFlag, PieceKind, Position};
use bee_chess::engine::{Engine, EvaluatorKind, OpeningBookKind};
use bee_chess::search::{SearchResult, StopSignal};
use bee_chess::time::Duration;
use bee_chess::uci::output::search_info_line;
use bee_chess::uci::session::{run_search, Action};
use bee_chess::uci::{
    format_uci_move, Event, GoCommand, PositionCommand, SearchEvent, Session, UciCommand, UciMove,
    ENGINE_AUTHOR, ENGINE_NAME,
};
use std::collections::VecDeque;
use std::time::Instant;

/// When a search gets to run.
#[derive(Clone, Copy, PartialEq)]
enum Pace {
    /// Only once the next line comes in, which stops it.
    Interrupted,
    /// Before the input ends.
    Patient,
    /// At once, before the next line is read.
    Prompt,
}

/// A search and the engine it has.
struct Worker {
    engine: Engine,
    command: GoCommand,
    stop: StopSignal,
}

impl Worker {
    /// Runs the search; what it reports goes to `reports`.
    fn run(mut self, reports: &mut VecDeque<Event>) -> Engine {
        let start = Instant::now();
        let mut lines: Vec<String> = Vec::new();
        let result = run_search(
            &mut self.engine,
            self.command,
            self.stop,
            |result: &SearchResult| {
                let elapsed = Duration::from_nanos(start.elapsed().as_nanos());
                lines.push(search_info_line(result, elapsed));
            },
        );
        for line in lines {
            reports.push_back(Event::Search(SearchEvent::Info(line)));
        }
        reports.push_back(Event::Search(SearchEvent::Done(result)));
        self.engine
    }
}

/// Runs a whole session over the lines of `input` and returns what it wrote.
fn run_session(input: &str, engine: &mut Engine, pace: Pace) -> String {
    let mut session = Session::new();
    let mut text = String::new();
    let mut lines: VecDeque<&str> = input.lines().collect();
    let mut reports: VecDeque<Event> = VecDeque::new();
    let mut searching: Option<Worker> = None;
    let mut finished: Option<Engine> = None;
    loop {
        if searching.is_some()
            && (pace == Pace::Prompt || (pace == Pace::Patient && lines.is_empty()))
        {
            let worker = searching.take().unwrap();
            finished = Some(worker.run(&mut reports));
        }
        let event = if let Some(event) = session.next_pending() {
            event
        } else if let Some(event) = reports.pop_front() {
            event
        } else if let Some(line) = lines.pop_front() {
            Event::Line(line.to_string())
        } else {
            Event::InputEnded
        };
        let reply = session.step(engine, Some(event));
        for line in reply.lines {
            text.push_str(&line);
            text.push('\n');
        }
        match reply.action {
            Action::Wait => {}
            Action::Start(command) => {
                searching = Some(Worker {
                    engine: std::mem::take(engine),
                    command,
                    stop: StopSignal::new(),
                });
            }
            Action::Join => {
                *engine = match searching.take() {
                    Some(worker) => {
                        worker.stop.request_stop();
                        worker.run(&mut reports)
                    }
                    None => finished.take().expect("a search to join"),
                };
            }
            Action::Exit => return text,
        }
    }
}

fn run(input: &str, engine: &mut Engine) -> String {
    run_session(input, engine, Pace::Interrupted)
}

fn run_patiently(input: &str, engine: &mut Engine) -> String {
    run_session(input, engine, Pace::Patient)
}

fn run_promptly(input: &str, engine: &mut Engine) -> String {
    run_session(input, engine, Pace::Prompt)
}

fn count_bestmoves(text: &str) -> usize {
    text.lines()
        .filter(|line| line.starts_with("bestmove"))
        .count()
}

#[test]
fn parses_known_commands() {
    assert_eq!(UciCommand::parse("uci"), UciCommand::Uci);
    assert_eq!(UciCommand::parse("isready"), UciCommand::IsReady);
    assert_eq!(UciCommand::parse("ucinewgame"), UciCommand::NewGame);
    assert_eq!(UciCommand::parse("quit"), UciCommand::Quit);
}

#[test]
fn go_command_parses_depth() {
    assert_eq!(
        UciCommand::parse("go depth 1"),
        UciCommand::Go(GoCommand {
            depth: Some(1),
            ..Default::default()
        })
    );
    assert_eq!(
        UciCommand::parse("go depth 12"),
        UciCommand::Go(GoCommand {
            depth: Some(12),
            ..Default::default()
        })
    );
}

#[test]
fn go_command_with_no_depth_has_none() {
    assert_eq!(
        UciCommand::parse("go"),
        UciCommand::Go(GoCommand::default())
    );
}

#[test]
fn go_command_ignores_unrecognized_fields() {
    // A real GUI's `go` line carries fields (`ponder`, `infinite`,
    // ...) that are not acted on; they must not
    // prevent parsing the fields we do recognize.
    assert_eq!(
        UciCommand::parse("go ponder depth 3"),
        UciCommand::Go(GoCommand {
            depth: Some(3),
            ..Default::default()
        })
    );
}

#[test]
fn go_command_parses_clock_fields() {
    assert_eq!(
        UciCommand::parse("go wtime 300000 btime 295000 winc 2000 binc 1000 movestogo 20"),
        UciCommand::Go(GoCommand {
            white_time_ms: Some(300_000),
            black_time_ms: Some(295_000),
            white_increment_ms: Some(2_000),
            black_increment_ms: Some(1_000),
            moves_to_go: Some(20),
            ..Default::default()
        })
    );
}

#[test]
fn go_command_clock_for_resolves_the_requested_sides_own_fields() {
    let go_command = GoCommand {
        white_time_ms: Some(60_000),
        black_time_ms: Some(55_000),
        white_increment_ms: Some(1_000),
        black_increment_ms: None,
        moves_to_go: Some(10),
        ..Default::default()
    };

    let white = go_command.clock_for(Color::White).unwrap();
    assert_eq!(white.time_left, Duration::from_millis(60_000));
    assert_eq!(white.increment, Duration::from_millis(1_000));
    assert_eq!(white.moves_to_go, Some(10));

    let black = go_command.clock_for(Color::Black).unwrap();
    assert_eq!(black.time_left, Duration::from_millis(55_000));
    assert_eq!(
        black.increment,
        Duration::zero(),
        "missing binc defaults to zero, not None/panic"
    );
}

#[test]
fn go_command_clock_for_is_none_without_a_time_left_field() {
    assert_eq!(GoCommand::default().clock_for(Color::White), None);
    assert_eq!(
        GoCommand {
            depth: Some(4),
            ..Default::default()
        }
        .clock_for(Color::Black),
        None
    );
}

#[test]
fn go_command_with_malformed_depth_value_has_none() {
    assert_eq!(
        UciCommand::parse("go depth notanumber"),
        UciCommand::Go(GoCommand::default())
    );
}

#[test]
fn go_command_parses_movetime() {
    assert_eq!(
        UciCommand::parse("go movetime 100"),
        UciCommand::Go(GoCommand {
            movetime_ms: Some(100),
            ..Default::default()
        })
    );
}

#[test]
fn go_command_parses_both_depth_and_movetime() {
    assert_eq!(
        UciCommand::parse("go depth 6 movetime 5000"),
        UciCommand::Go(GoCommand {
            depth: Some(6),
            movetime_ms: Some(5000),
            ..Default::default()
        })
    );
}

#[test]
fn format_uci_move_formats_quiet_move() {
    let mv = UciMove::parse("e2e4").unwrap();
    let position_move = Move::new(mv.from, mv.to, MoveFlag::Quiet);
    assert_eq!(format_uci_move(position_move), "e2e4");
}

#[test]
fn format_uci_move_formats_every_promotion_letter() {
    let from = "a7".parse().unwrap();
    let to = "a8".parse().unwrap();
    assert_eq!(
        format_uci_move(Move::new(from, to, MoveFlag::PromoteQueen)),
        "a7a8q"
    );
    assert_eq!(
        format_uci_move(Move::new(from, to, MoveFlag::PromoteRook)),
        "a7a8r"
    );
    assert_eq!(
        format_uci_move(Move::new(from, to, MoveFlag::PromoteBishop)),
        "a7a8b"
    );
    assert_eq!(
        format_uci_move(Move::new(from, to, MoveFlag::PromoteKnight)),
        "a7a8n"
    );
}

#[test]
fn uci_move_parses_quiet_move() {
    let mv = UciMove::parse("e2e4").expect("should parse");
    assert_eq!(mv.from, "e2".parse().unwrap());
    assert_eq!(mv.to, "e4".parse().unwrap());
    assert_eq!(mv.promotion, None);
}

#[test]
fn uci_move_parses_promotion() {
    let mv = UciMove::parse("e7e8q").expect("should parse");
    assert_eq!(mv.from, "e7".parse().unwrap());
    assert_eq!(mv.to, "e8".parse().unwrap());
    assert_eq!(mv.promotion, Some(PieceKind::Queen));
}

#[test]
fn uci_move_parses_every_promotion_letter() {
    assert_eq!(
        UciMove::parse("a7a8q").unwrap().promotion,
        Some(PieceKind::Queen)
    );
    assert_eq!(
        UciMove::parse("a7a8r").unwrap().promotion,
        Some(PieceKind::Rook)
    );
    assert_eq!(
        UciMove::parse("a7a8b").unwrap().promotion,
        Some(PieceKind::Bishop)
    );
    assert_eq!(
        UciMove::parse("a7a8n").unwrap().promotion,
        Some(PieceKind::Knight)
    );
}

#[test]
fn uci_move_rejects_malformed_tokens() {
    assert_eq!(UciMove::parse(""), None);
    assert_eq!(UciMove::parse("e2e"), None);
    assert_eq!(UciMove::parse("e2e4x"), None); // bad promotion letter
    assert_eq!(UciMove::parse("z2e4"), None); // bad square
    assert_eq!(UciMove::parse("e2e4qq"), None); // too long
}

#[test]
fn position_command_parses_startpos_with_no_moves() {
    assert_eq!(
        PositionCommand::parse("startpos"),
        Some(PositionCommand::StartPos { moves: Vec::new() })
    );
}

#[test]
fn position_command_parses_startpos_with_moves() {
    let parsed = PositionCommand::parse("startpos moves e2e4 e7e5 g1f3").unwrap();
    assert_eq!(
        parsed,
        PositionCommand::StartPos {
            moves: vec![
                UciMove::parse("e2e4").unwrap(),
                UciMove::parse("e7e5").unwrap(),
                UciMove::parse("g1f3").unwrap(),
            ]
        }
    );
}

#[test]
fn position_command_parses_fen_with_no_moves() {
    let fen = "rnbqkbnr/pppppppp/8/8/8/8/PPPPPPPP/RNBQKBNR w KQkq - 0 1";
    assert_eq!(
        PositionCommand::parse(&format!("fen {fen}")),
        Some(PositionCommand::Fen {
            fen: fen.to_string(),
            moves: Vec::new(),
        })
    );
}

#[test]
fn position_command_parses_fen_with_moves() {
    let fen = "rnbqkbnr/pppppppp/8/8/8/8/PPPPPPPP/RNBQKBNR w KQkq - 0 1";
    let parsed = PositionCommand::parse(&format!("fen {fen} moves e2e4 e7e5")).unwrap();
    assert_eq!(
        parsed,
        PositionCommand::Fen {
            fen: fen.to_string(),
            moves: vec![
                UciMove::parse("e2e4").unwrap(),
                UciMove::parse("e7e5").unwrap()
            ],
        }
    );
}

#[test]
fn position_command_rejects_unknown_base() {
    assert_eq!(PositionCommand::parse("nonsense"), None);
    assert_eq!(PositionCommand::parse(""), None);
}

#[test]
fn position_command_rejects_malformed_move_in_list() {
    assert_eq!(PositionCommand::parse("startpos moves e2e4 bogus"), None);
}

#[test]
fn parses_unknown_command() {
    assert_eq!(
        UciCommand::parse("bogus"),
        UciCommand::Unknown("bogus".to_string())
    );
}

#[test]
fn parses_debug_on_and_off() {
    assert_eq!(UciCommand::parse("debug on"), UciCommand::Debug(true));
    assert_eq!(UciCommand::parse("debug off"), UciCommand::Debug(false));
}

#[test]
fn parses_debug_with_bad_argument_as_unknown() {
    assert_eq!(
        UciCommand::parse("debug maybe"),
        UciCommand::Unknown("debug maybe".to_string())
    );
}

#[test]
fn parses_setoption_with_multiword_name_and_value() {
    assert_eq!(
        UciCommand::parse("setoption name Future Evaluator value Some Model"),
        UciCommand::SetOption {
            name: "Future Evaluator".to_string(),
            value: "Some Model".to_string(),
        }
    );
}

#[test]
fn uci_handshake_produces_expected_output() {
    let input = "uci\nisready\nquit\n";
    let mut engine = Engine::default();
    let text = run(input, &mut engine);
    assert!(text.contains(&format!("id name {ENGINE_NAME}")));
    assert!(text.contains(&format!("id author {ENGINE_AUTHOR}")));
    assert!(text.contains("option name Evaluator type combo default Positional"));
    assert!(text.contains("var Experimental"));
    assert!(text.contains("option name UseTT type check default true"));
    assert!(text.contains("option name UseQuiescence type check default true"));
    assert!(text.contains("option name UseEnhancedQuiescence type check default true"));
    assert!(text.contains("option name OpeningBook type combo default None"));
    assert!(text.contains("uciok"));
    assert!(text.contains("readyok"));
}

#[test]
fn setoption_changes_the_evaluator() {
    let input = "setoption name Evaluator value Material\nquit\n";
    let mut engine = Engine::default();
    run(input, &mut engine);
    assert_eq!(engine.evaluator(), EvaluatorKind::Material);
}

#[test]
fn setoption_selects_the_experimental_evaluator() {
    let input = "setoption name Evaluator value Experimental\nquit\n";
    let mut engine = Engine::default();
    run(input, &mut engine);
    assert_eq!(engine.evaluator(), EvaluatorKind::Experimental);
}

#[test]
fn setoption_disables_the_transposition_table() {
    let input = "setoption name UseTT value false\nquit\n";
    let mut engine = Engine::default();
    run(input, &mut engine);
    assert!(!engine.search_options().use_tt);
}

#[test]
fn setoption_disables_quiescence() {
    let input = "setoption name UseQuiescence value false\nquit\n";
    let mut engine = Engine::default();
    run(input, &mut engine);
    assert!(!engine.search_options().use_quiescence);
}

#[test]
fn setoption_disables_enhanced_quiescence() {
    let input = "setoption name UseEnhancedQuiescence value false\nquit\n";
    let mut engine = Engine::default();
    run(input, &mut engine);
    assert!(!engine.search_options().use_enhanced_quiescence);
}

#[test]
fn setoption_enables_the_cow_opening_book() {
    let input = "setoption name OpeningBook value Cow\nquit\n";
    let mut engine = Engine::default();
    run(input, &mut engine);
    assert_eq!(engine.opening_book_kind(), OpeningBookKind::Cow);
}

#[test]
fn invalid_opening_book_value_keeps_the_current_setting() {
    let input = "setoption name OpeningBook value NotARealBook\nquit\n";
    let mut engine = Engine::default();
    run(input, &mut engine);
    assert_eq!(engine.opening_book_kind(), OpeningBookKind::NoBook);
}

#[test]
fn cow_opening_book_plays_e3_instantly_via_the_real_uci_protocol() {
    let input = "setoption name OpeningBook value Cow\ngo depth 4\nquit\n";
    let mut engine = Engine::default();
    let text = run(input, &mut engine);
    assert!(text.contains("bestmove e2e3"));
    // A book hit has no real search depth -- no "info depth ..."
    // line should have been written for it.
    assert!(!text.contains("info depth"));
}

#[test]
fn invalid_use_tt_value_keeps_the_current_setting() {
    let input = "setoption name UseTT value maybe\nquit\n";
    let mut engine = Engine::default();
    run(input, &mut engine);
    assert!(
        engine.search_options().use_tt,
        "default is true; an invalid value must not change it"
    );
}

#[test]
fn invalid_evaluator_keeps_the_current_evaluator() {
    let input = "setoption name Evaluator value Unknown\nquit\n";
    let mut engine = Engine::default();
    run(input, &mut engine);
    assert_eq!(engine.evaluator(), EvaluatorKind::Positional);
}

#[test]
fn debug_on_sets_engine_debug_flag() {
    let input = "debug on\nquit\n";
    let mut engine = Engine::default();
    run(input, &mut engine);
    assert!(engine.debug());
}

#[test]
fn debug_off_clears_engine_debug_flag() {
    let input = "debug on\ndebug off\nquit\n";
    let mut engine = Engine::default();
    run(input, &mut engine);
    assert!(!engine.debug());
}

#[test]
fn debug_mode_echoes_received_commands() {
    let input = "debug on\nisready\nquit\n";
    let mut engine = Engine::default();
    let text = run(input, &mut engine);
    assert!(text.contains("info string received: isready"));
}

#[test]
fn debug_off_by_default_does_not_echo_commands() {
    let input = "isready\nquit\n";
    let mut engine = Engine::default();
    let text = run(input, &mut engine);
    assert!(!text.contains("info string"));
}

#[test]
fn unknown_command_produces_diagnostic_when_debug_is_on() {
    let input = "debug on\nbogus-command\nquit\n";
    let mut engine = Engine::default();
    let text = run(input, &mut engine);
    assert!(text.contains("info string ignored unknown UCI command: bogus-command"));
}

#[test]
fn unknown_command_is_silent_when_debug_is_off() {
    let input = "bogus-command\nquit\n";
    let mut engine = Engine::default();
    let text = run(input, &mut engine);
    assert!(!text.contains("info string"));
    assert!(!text.contains("bogus-command"));
}

#[test]
fn diagnostics_do_not_accumulate_unboundedly_when_debug_is_off() {
    // Diagnostics are drained every line regardless of debug state
    // (only *writing* them is gated), so nothing should pile up in
    // the engine even across many silently-ignored commands.
    let mut input = String::new();
    for _ in 0..50 {
        input.push_str("bogus-command\n");
    }
    input.push_str("quit\n");

    let mut engine = Engine::default();
    run(&input, &mut engine);

    assert_eq!(engine.take_diagnostics(), Vec::new());
}

#[test]
fn invalid_position_command_emits_a_diagnostic_when_debug_is_on() {
    let input = "debug on\nposition startpos moves e2e4 e2e4\nquit\n";
    let mut engine = Engine::default();
    let text = run(input, &mut engine);
    assert!(text.contains("info string IllegalMove"));
}

/// Applies `mv` to `position` by looking it up among the position's
/// legal moves, exactly the way `Engine::apply_move` does -- used
/// by tests to build the expected position independently of the
/// engine/uci plumbing under test.
fn apply_legal_move(position: &mut Position, mv: UciMove) {
    let legal_move = position
        .generate_legal_moves()
        .into_iter()
        .find(|m| {
            m.from() == mv.from && m.to() == mv.to && m.flag().promotion_kind() == mv.promotion
        })
        .unwrap_or_else(|| panic!("{mv:?} should be legal"));
    position.make_move(legal_move);
}

#[test]
fn position_startpos_moves_produces_expected_position() {
    // After `position startpos moves e2e4 e7e5 g1f3` the engine's
    // position must be exactly the one that playing those moves gives.
    let input = "position startpos moves e2e4 e7e5 g1f3\nquit\n";
    let mut engine = Engine::default();
    run(input, &mut engine);

    let mut expected = Position::startpos();
    apply_legal_move(&mut expected, UciMove::parse("e2e4").unwrap());
    apply_legal_move(&mut expected, UciMove::parse("e7e5").unwrap());
    apply_legal_move(&mut expected, UciMove::parse("g1f3").unwrap());

    assert_eq!(engine.position(), &expected);
}

#[test]
fn position_startpos_with_no_moves_is_startpos() {
    let input = "position startpos\nquit\n";
    let mut engine = Engine::default();
    run(input, &mut engine);
    assert_eq!(engine.position(), &Position::startpos());
}

#[test]
fn position_fen_moves_produces_expected_position() {
    // FEN parsing plus a move list is where parsing bugs tend to
    // show up (field boundaries, the "moves" keyword split), so
    // this is exercised directly rather than only via startpos.
    let fen = "rnbqkbnr/pppppppp/8/8/8/8/PPPPPPPP/RNBQKBNR w KQkq - 0 1";
    let input = format!("position fen {fen} moves e2e4 e7e5\nquit\n");
    let mut engine = Engine::default();
    run(&input, &mut engine);

    let mut expected = Position::from_fen(fen).expect("valid FEN");
    apply_legal_move(&mut expected, UciMove::parse("e2e4").unwrap());
    apply_legal_move(&mut expected, UciMove::parse("e7e5").unwrap());

    assert_eq!(engine.position(), &expected);
}

#[test]
fn position_fen_with_no_moves_matches_from_fen() {
    let fen = "r1bqkbnr/pppp1ppp/2n5/4p3/4P3/5N2/PPPP1PPP/RNBQKB1R w KQkq - 2 3";
    let input = format!("position fen {fen}\nquit\n");
    let mut engine = Engine::default();
    run(&input, &mut engine);
    assert_eq!(
        engine.position(),
        &Position::from_fen(fen).expect("valid FEN")
    );
}

#[test]
fn position_fen_with_reduced_castling_rights_and_promotion() {
    // A "nasty" position: reduced castling rights plus a move list
    // that ends in a promotion.
    let fen = "8/P6k/8/8/8/8/8/7K w - - 0 1";
    let input = format!("position fen {fen} moves a7a8q\nquit\n");
    let mut engine = Engine::default();
    run(&input, &mut engine);

    let mut expected = Position::from_fen(fen).expect("valid FEN");
    apply_legal_move(&mut expected, UciMove::parse("a7a8q").unwrap());

    assert_eq!(engine.position(), &expected);
}

#[test]
fn ucinewgame_does_not_reset_a_previously_set_position() {
    // ucinewgame conceptually resets game/search-specific state; it
    // is always followed by a `position` command that establishes
    // the actual position, so it must not itself reset the board.
    let input = "position startpos moves e2e4\nucinewgame\nquit\n";
    let mut engine = Engine::default();
    run(input, &mut engine);

    let mut expected = Position::startpos();
    apply_legal_move(&mut expected, UciMove::parse("e2e4").unwrap());

    assert_eq!(engine.position(), &expected);
}

#[test]
fn illegal_move_in_list_leaves_position_at_last_legal_state() {
    let input = "position startpos moves e2e4 e2e4\nquit\n";
    let mut engine = Engine::default();
    run(input, &mut engine);

    // e2e4 is legal once (from startpos); playing it again from the
    // resulting position is illegal (there's no white pawn on e2
    // any more), so the position should reflect exactly one move
    // applied.
    let mut expected = Position::startpos();
    apply_legal_move(&mut expected, UciMove::parse("e2e4").unwrap());

    assert_eq!(engine.position(), &expected);
}

/// The whole path from handshake to answer:
///
///     uci
///     isready
///     position startpos
///     go depth 1
///     quit
///
/// asserting the returned bestmove is a move that is actually legal
/// in the resulting position -- not merely that the output looks
/// like a move.
#[test]
fn go_depth_1_from_startpos_returns_a_legal_move() {
    let input = "uci\nisready\nposition startpos\ngo depth 1\nquit\n";
    let mut engine = Engine::default();
    let text = run(input, &mut engine);

    let bestmove_line = text
        .lines()
        .find(|line| line.starts_with("bestmove "))
        .expect("should emit a bestmove line");
    let uci_move = bestmove_line.strip_prefix("bestmove ").unwrap();

    let legal_moves = Position::startpos().generate_legal_moves();
    assert!(
        legal_moves
            .into_iter()
            .any(|mv| format_uci_move(mv) == uci_move),
        "{uci_move} is not among startpos's legal moves"
    );
}

#[test]
fn go_depth_1_returns_the_only_legal_move_when_there_is_exactly_one() {
    // White king a1 in check from a black rook on e1 (checks along
    // rank 1); black king c3 covers every flight square except a2.
    // a1a2 is the position's one and only legal move.
    let fen = "8/8/8/8/8/2k5/8/K3r3 w - - 0 1";
    let position = Position::from_fen(fen).expect("valid FEN");
    assert_eq!(
        position.generate_legal_moves().len(),
        1,
        "test setup: expected exactly one legal move"
    );

    let input = format!("position fen {fen}\ngo depth 1\nquit\n");
    let mut engine = Engine::default();
    let text = run(&input, &mut engine);

    assert!(
        text.lines().any(|line| line == "bestmove a1a2"),
        "expected `bestmove a1a2`, got: {text:?}"
    );
}

#[test]
fn go_with_no_legal_moves_returns_null_move() {
    // Checkmate: no legal moves exist, so bestmove must be the UCI
    // null-move convention "0000" rather than omitting the response
    // or panicking.
    let fen = "6k1/8/8/8/8/8/5PPP/r6K w - - 0 1";
    let position = Position::from_fen(fen).expect("valid FEN");
    assert!(
        position.generate_legal_moves().is_empty(),
        "test setup: expected checkmate"
    );

    let input = format!("position fen {fen}\ngo depth 1\nquit\n");
    let mut engine = Engine::default();
    let text = run(&input, &mut engine);

    assert!(text.lines().any(|line| line == "bestmove 0000"));
}

#[test]
fn go_depth_4_reports_info_fields_before_bestmove() {
    let input = "position startpos moves e2e4 e7e5\ngo depth 4\nquit\n";
    let mut engine = Engine::default();
    let text = run(input, &mut engine);

    let info_line = text
        .lines()
        .find(|line| line.starts_with("info depth"))
        .expect("should emit an info line");
    assert!(info_line.contains("depth 4"));
    assert!(info_line.contains("score cp") || info_line.contains("score mate"));
    assert!(info_line.contains("nodes"));
    assert!(info_line.contains("time"));

    let info_index = text.lines().position(|line| line == info_line).unwrap();
    let bestmove_index = text
        .lines()
        .position(|line| line.starts_with("bestmove"))
        .expect("should emit a bestmove line");
    assert!(
        info_index < bestmove_index,
        "info must be reported before bestmove"
    );
}

#[test]
fn go_depth_4_searches_a_real_tree_and_finds_mate_in_one() {
    // `go depth N` actually searches
    // rather than returning the first legal move, and reports a
    // mate score via the proper UCI `score mate` field (not
    // `info string`).
    let fen = "6k1/5ppp/8/8/8/8/8/3QK3 w - - 0 1";
    let input = format!("position fen {fen}\ngo depth 4\nquit\n");
    let mut engine = Engine::default();
    let text = run(&input, &mut engine);

    assert!(
        text.lines().any(|line| line == "bestmove d1d8"),
        "expected `bestmove d1d8`, got: {text:?}"
    );
    assert!(
        text.lines()
            .any(|line| line.starts_with("info") && line.contains("score mate")),
        "expected a `score mate` info line, got: {text:?}"
    );
}

#[test]
fn go_with_no_depth_uses_a_default_depth() {
    let input = "position startpos\ngo\nquit\n";
    let mut engine = Engine::default();
    let text = run(input, &mut engine);

    assert!(text.lines().any(|line| line.starts_with("bestmove")));
    assert!(text.lines().any(|line| line.starts_with("info depth")));
}

#[test]
fn go_movetime_reports_one_info_line_per_completed_depth() {
    // No `quit`: that would cancel the search before it completes.
    let input = "position startpos\ngo movetime 200\n";
    let mut engine = Engine::default();
    let text = run_patiently(input, &mut engine);

    let info_lines: Vec<&str> = text
        .lines()
        .filter(|l| l.starts_with("info depth"))
        .collect();
    assert!(
        info_lines.len() >= 2,
        "expected multiple depths reported within 200ms, got: {info_lines:?}"
    );

    // Depths must be strictly increasing, starting at 1.
    let depths: Vec<u32> = info_lines
        .iter()
        .map(|line| {
            line.split_whitespace()
                .nth(2)
                .unwrap()
                .parse()
                .expect("depth should be a number")
        })
        .collect();
    assert_eq!(depths.first(), Some(&1));
    for pair in depths.windows(2) {
        assert_eq!(pair[1], pair[0] + 1);
    }

    assert!(text.lines().any(|line| line.starts_with("bestmove")));
}

#[test]
fn go_wtime_btime_drives_a_real_time_bounded_search() {
    // White to move, plenty of time -- should behave like any
    // other iterative-deepening search: multiple increasing
    // depths, then a bestmove.
    let input = "position startpos\ngo wtime 5000 btime 5000\n";
    let mut engine = Engine::default();
    let text = run_patiently(input, &mut engine);

    assert!(
        text.lines().any(|line| line.starts_with("info depth")),
        "expected at least one real search depth, got: {text:?}"
    );
    assert!(text.lines().any(|line| line.starts_with("bestmove")));
}

#[test]
fn go_wtime_uses_whites_own_clock_not_blacks() {
    // White has almost no time, Black has plenty -- if `go`
    // resolved the wrong side's clock, this would search for
    // seconds instead of returning almost immediately.
    let input = "position startpos\ngo wtime 20 btime 300000\nquit\n";
    let mut engine = Engine::default();

    let start = Instant::now();
    let text = run(input, &mut engine);
    let elapsed = start.elapsed();

    assert!(
        elapsed < std::time::Duration::from_millis(500),
        "go should have used White's own (tiny) clock, took {elapsed:?}"
    );
    assert!(text.lines().any(|line| line.starts_with("bestmove")));
}

#[test]
fn go_with_near_zero_time_left_still_returns_a_legal_bestmove() {
    // An extreme time control (e.g. lagging badly on Lichess):
    // Engine must fall back to a legal move rather than ever
    // omitting `bestmove` or crashing.
    let input = "position startpos\ngo wtime 1 btime 1\nquit\n";
    let mut engine = Engine::default();
    let text = run(input, &mut engine);

    let bestmove_line = text
        .lines()
        .find(|line| line.starts_with("bestmove"))
        .expect("bestmove line should always be present");
    assert_ne!(bestmove_line, "bestmove 0000");
}

#[test]
fn setoption_move_overhead_is_reflected_in_a_tighter_time_budget() {
    // Indirect but real end-to-end check: a huge MoveOverhead
    // eating the entire clock must make Engine fall back to the
    // first legal move (depth 0, no search) rather than run any
    // real search at all.
    let input =
        "setoption name MoveOverhead value 10000\nposition startpos\ngo wtime 100 btime 100\nquit\n";
    let mut engine = Engine::default();
    let text = run(input, &mut engine);

    assert!(
        !text.lines().any(|line| line.starts_with("info depth")),
        "a MoveOverhead larger than the whole clock should leave zero usable time, got: {text:?}"
    );
    assert!(text.lines().any(|line| line.starts_with("bestmove")));
}

#[test]
fn go_movetime_finds_mate_in_one_via_iterative_deepening() {
    let fen = "6k1/5ppp/8/8/8/8/8/3QK3 w - - 0 1";
    let input = format!("position fen {fen}\ngo movetime 500\n");
    let mut engine = Engine::default();
    let text = run_patiently(&input, &mut engine);

    assert!(
        text.lines().any(|line| line == "bestmove d1d8"),
        "expected `bestmove d1d8`, got: {text:?}"
    );
    assert!(text
        .lines()
        .any(|line| line.starts_with("info") && line.contains("score mate")));
}

#[test]
fn go_movetime_info_line_includes_pv() {
    let input = "position startpos\ngo movetime 100\n";
    let mut engine = Engine::default();
    let text = run_patiently(input, &mut engine);

    assert!(
        text.lines()
            .any(|line| line.starts_with("info depth") && line.contains(" pv ")),
        "expected at least one info line with a pv field, got: {text:?}"
    );
}

#[test]
fn go_movetime_takes_priority_over_depth_when_both_given() {
    // depth 1 alone would report only one info line; movetime
    // should win and drive iterative deepening across several
    // depths within its budget instead.
    let input = "position startpos\ngo depth 1 movetime 200\n";
    let mut engine = Engine::default();
    let text = run_patiently(input, &mut engine);

    let info_lines = text.lines().filter(|l| l.starts_with("info depth")).count();
    assert!(
        info_lines >= 2,
        "expected movetime to drive iterative deepening past depth 1, got {info_lines} info lines"
    );
}

#[test]
fn event_loop_emits_exactly_one_bestmove_on_natural_completion() {
    let mut engine = Engine::default();

    let text = run("position startpos\ngo depth 3\nquit\n", &mut engine);

    assert_eq!(count_bestmoves(&text), 1);
}

#[test]
fn event_loop_stop_mid_search_produces_exactly_one_bestmove() {
    let mut engine = Engine::default();

    // A very long movetime -- this search would not finish on its
    // own within the test's lifetime without `stop`.

    let text = run("position startpos\ngo movetime 600000\nstop\nquit\n", &mut engine);

    assert_eq!(
        count_bestmoves(&text),
        1,
        "stop should cancel the search and report exactly one bestmove, not hang for 600s"
    );
}

#[test]
fn event_loop_quit_mid_search_cancels_without_hanging() {
    let mut engine = Engine::default();

    // The real assertion here is that this returns at all (within
    // the test harness's own timeout) rather than blocking for
    // 600 seconds -- `quit` must cancel and join, not wait out the
    // search.
    run("position startpos\ngo movetime 600000\nquit\n", &mut engine);
}

#[test]
fn event_loop_stop_racing_natural_completion_still_reports_one_bestmove() {
    // A `stop` that is read after the search has *already* completed:
    // there is nothing left to stop.
    let mut engine = Engine::default();

    let text = run_promptly("position startpos\ngo depth 2\nstop\nquit\n", &mut engine);

    assert_eq!(count_bestmoves(&text), 1);
}

#[test]
fn event_loop_a_stopped_search_does_not_leak_cancellation_into_the_next_go() {
    // If `go`'s `StopSignal` weren't fresh per search, a second `go`
    // after a `stop`
    // could see a signal that's already been requested and abort
    // instantly instead of actually searching.
    let mut engine = Engine::default();

    let text = run("position startpos\ngo movetime 600000\nstop\ngo depth 3\nquit\n", &mut engine);

    assert_eq!(
        text.lines().filter(|l| l.starts_with("bestmove")).count(),
        2,
        "both the stopped first search and the second search should each report a bestmove"
    );
    // The second `go depth 3` must have actually searched (not
    // instantly aborted by a leaked stop signal) -- a real depth-3
    // search reports real info lines.
    assert!(
        text.lines().any(|l| l.starts_with("info depth 3")),
        "the second go should have run a real, uncancelled search; got: {text:?}"
    );
}

#[test]
fn event_loop_position_is_restored_after_a_cancelled_search() {
    let mut engine = Engine::default();
    let before = engine.position().clone();

    run("go movetime 600000\nstop\nquit\n", &mut engine);

    assert_eq!(
        engine.position(),
        &before,
        "a stopped search must not leave the position mutated -- search always \
         restores it via make/unmake, including on early cancellation"
    );
}

#[test]
fn event_loop_isready_while_a_search_is_active_finishes_the_search_first() {
    // `isready` (like any other command) needs exclusive access to
    // `Engine`, so it must join the outstanding search -- exactly
    // like `position`/`setoption`/another `go` would -- rather
    // than replying `readyok` while a worker still owns `Engine`.
    let mut engine = Engine::default();

    let text = run("position startpos\ngo movetime 600000\nisready\nquit\n", &mut engine);

    let bestmove_index = text.find("bestmove").expect("should have a bestmove");
    let readyok_index = text.find("readyok").expect("should have a readyok");
    assert!(
        bestmove_index < readyok_index,
        "the outstanding search's bestmove must be reported before readyok, \
         since isready had to join it first to get exclusive access to Engine; got: {text:?}"
    );
}

#[test]
fn event_loop_a_new_position_command_joins_the_outstanding_search_first() {
    let mut engine = Engine::default();

    let text = run("position startpos\ngo movetime 600000\nposition startpos moves e2e4\nquit\n", &mut engine);

    assert_eq!(
        count_bestmoves(&text),
        1,
        "the first go's search must be joined and report its bestmove"
    );
    assert_eq!(
        engine.position().to_fen(),
        {
            let mut position = Position::startpos();
            let mv = position
                .generate_legal_moves()
                .into_iter()
                .find(|mv| {
                    mv.from() == "e2".parse().unwrap() && mv.to() == "e4".parse().unwrap()
                })
                .unwrap();
            position.make_move(mv);
            position.to_fen()
        },
        "the new position command must still take effect after joining the old search"
    );
}

#[test]
fn stop_with_nothing_running_is_a_silent_no_op() {
    let input = "stop\nisready\nquit\n";
    let mut engine = Engine::default();
    let text = run(input, &mut engine);

    assert!(
        text.contains("readyok"),
        "stop must not disrupt the rest of the session"
    );
    assert!(
        !text.lines().any(|l| l.starts_with("bestmove")),
        "a stop with no search running must not conjure a bestmove out of nowhere"
    );
}
