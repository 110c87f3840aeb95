//! A UCI session: what a line of input, or a report from a running search,
//! makes the engine do and say.
//!
//! Whoever runs the session waits for events and hands them over one by one;
//! every answer holds the lines to write and what to do next. A search runs
//! elsewhere, with the engine handed over to it for as long as it runs, so at
//! any moment either the session or a search has the engine, never both.

use super::command::{
    self, GoCommand, PositionCommand, PositionCommandError, PositionCommandView, UciCommand,
    UciCommandView, UciMove,
};
use super::output;
use crate::chess::fen::FenErrorView;
use crate::chess::position::{Position, PositionView};
use crate::diagnostics::{self, Diagnostic, DiagnosticLevel, DiagnosticView};
use crate::engine::{Engine, EngineView, EvaluatorKind, IllegalMoveError, OpeningBookKind};
use crate::search::deadline::StopSignal;
use crate::search::looks::{self, Looks, Note};
use crate::search::reports::{self, Reports};
use crate::search::time_manager::{TimeManagerConfig, DEFAULT_MOVE_OVERHEAD_MS};
use crate::search::{SearchOptions, SearchResult, SearchResultView};
use crate::text;
use crate::time::Duration;
use vstd::prelude::*;

verus! {

pub const ENGINE_NAME: &'static str = "bee-chess";

pub const ENGINE_AUTHOR: &'static str = "bragehk, johsol and sebasabe";

/// The depth of a `go` that sets no limit at all.
pub const DEFAULT_DEPTH: u32 = 4;

/// The characters of several lines.
pub open spec fn line_views(lines: Seq<String>) -> Seq<Seq<char>> {
    Seq::new(lines.len(), |i: int| lines[i]@)
}

/// Appending a line appends its characters.
proof fn lemma_line_views_push(lines: Seq<String>, line: String)
    ensures
        line_views(lines.push(line)) == line_views(lines).push(line@),
{
    assert(line_views(lines.push(line)) =~= line_views(lines).push(line@));
}

/// What the engine says of itself and of its options.
pub open spec fn handshake() -> Seq<Seq<char>> {
    seq![
        "id name "@ + ENGINE_NAME@,
        "id author "@ + ENGINE_AUTHOR@,
        "option name Evaluator type combo default Positional var Positional var Material var Experimental"@,
        "option name UseTT type check default true"@,
        "option name UseQuiescence type check default true"@,
        "option name UseEnhancedQuiescence type check default true"@,
        "option name OpeningBook type combo default None var None var Cow"@,
        "option name MoveOverhead type spin default "@ + text::decimal(
            DEFAULT_MOVE_OVERHEAD_MS as nat,
        ) + " min 0 max 1000"@,
        "uciok"@,
    ]
}

/// The lines that answer `uci`.
///
/// The experimental search feature switches default to `true` (the normal,
/// strongest configuration). No book is the default; a book is an opt-in.
/// `MoveOverhead` is in milliseconds reserved every move for
/// protocol/process/network delay.
fn handshake_lines() -> (lines: Vec<String>)
    ensures
        line_views(lines@) == handshake(),
{
    let mut name = String::new();
    name.append("id name ");
    name.append(ENGINE_NAME);
    let mut author = String::new();
    author.append("id author ");
    author.append(ENGINE_AUTHOR);
    let mut overhead = String::new();
    overhead.append("option name MoveOverhead type spin default ");
    text::push_u64(&mut overhead, DEFAULT_MOVE_OVERHEAD_MS);
    overhead.append(" min 0 max 1000");
    assert(name@ =~= handshake()[0]);
    assert(author@ =~= handshake()[1]);
    assert(overhead@ =~= handshake()[7]);
    let mut lines: Vec<String> = Vec::new();
    lines.push(name);
    lines.push(author);
    lines.push(
        "option name Evaluator type combo default Positional var Positional var Material var Experimental".to_owned(),
    );
    lines.push("option name UseTT type check default true".to_owned());
    lines.push("option name UseQuiescence type check default true".to_owned());
    lines.push("option name UseEnhancedQuiescence type check default true".to_owned());
    lines.push("option name OpeningBook type combo default None var None var Cow".to_owned());
    lines.push(overhead);
    lines.push("uciok".to_owned());
    assert(line_views(lines@) =~= handshake());
    lines
}

/// The boolean that a text spells, whatever the case of its letters and the
/// white space around it.
pub open spec fn read_check(value: Seq<char>) -> Option<bool> {
    let word = text::lowered(text::trimmed(value));
    if word == "true"@ {
        Some(true)
    } else if word == "false"@ {
        Some(false)
    } else {
        None
    }
}

/// Parses a UCI `check`-type option's value (`true`/`false`, per the
/// protocol's own boolean spelling), case-insensitively.
pub fn parse_uci_check(value: &str) -> (checked: Option<bool>)
    ensures
        checked == read_check(value@),
{
    let word: Vec<char> = text::lowercase(&text::trim(&text::chars_of(value)));
    if text::chars_equal(&word, "true") {
        Some(true)
    } else if text::chars_equal(&word, "false") {
        Some(false)
    } else {
        None
    }
}

/// The options that can be set.
#[derive(Clone, Copy, PartialEq, Eq, Structural)]
pub enum OptionKind {
    Evaluator,
    UseTt,
    UseQuiescence,
    UseEnhancedQuiescence,
    OpeningBook,
    MoveOverhead,
}

impl OptionKind {
    /// The option that a name stands for, whatever the case of its letters.
    pub open spec fn named(name: Seq<char>) -> Option<OptionKind> {
        let word = text::lowered(name);
        if word == "evaluator"@ {
            Some(OptionKind::Evaluator)
        } else if word == "usett"@ {
            Some(OptionKind::UseTt)
        } else if word == "usequiescence"@ {
            Some(OptionKind::UseQuiescence)
        } else if word == "useenhancedquiescence"@ {
            Some(OptionKind::UseEnhancedQuiescence)
        } else if word == "openingbook"@ {
            Some(OptionKind::OpeningBook)
        } else if word == "moveoverhead"@ {
            Some(OptionKind::MoveOverhead)
        } else {
            None
        }
    }

    /// What a diagnostic about an invalid value of this option starts with.
    pub open spec fn complaint(self) -> Seq<char> {
        match self {
            OptionKind::Evaluator => "ignored invalid Evaluator value: "@,
            OptionKind::UseTt => "ignored invalid UseTT value: "@,
            OptionKind::UseQuiescence => "ignored invalid UseQuiescence value: "@,
            OptionKind::UseEnhancedQuiescence => "ignored invalid UseEnhancedQuiescence value: "@,
            OptionKind::OpeningBook => "ignored invalid OpeningBook value: "@,
            OptionKind::MoveOverhead => "ignored invalid MoveOverhead value: "@,
        }
    }

    /// The engine with this option set, if the value is valid.
    pub open spec fn set_to(self, engine: EngineView, value: Seq<char>) -> Option<EngineView> {
        match self {
            OptionKind::Evaluator => match EvaluatorKind::named(value) {
                Some(evaluator) => Some(EngineView { evaluator, ..engine }),
                None => None,
            },
            OptionKind::UseTt => match read_check(value) {
                Some(use_tt) => Some(
                    EngineView { options: SearchOptions { use_tt, ..engine.options }, ..engine },
                ),
                None => None,
            },
            OptionKind::UseQuiescence => match read_check(value) {
                Some(use_quiescence) => Some(
                    EngineView {
                        options: SearchOptions { use_quiescence, ..engine.options },
                        ..engine
                    },
                ),
                None => None,
            },
            OptionKind::UseEnhancedQuiescence => match read_check(value) {
                Some(use_enhanced_quiescence) => Some(
                    EngineView {
                        options: SearchOptions { use_enhanced_quiescence, ..engine.options },
                        ..engine
                    },
                ),
                None => None,
            },
            OptionKind::OpeningBook => match OpeningBookKind::named(value) {
                Some(book) => Some(EngineView { book, ..engine }),
                None => None,
            },
            OptionKind::MoveOverhead => match text::parsed_number(
                text::trimmed(value),
                u64::MAX as nat,
            ) {
                Some(ms) => Some(
                    EngineView {
                        config: TimeManagerConfig {
                            move_overhead: Duration::of(ms * 1_000_000),
                            ..engine.config
                        },
                        ..engine
                    },
                ),
                None => None,
            },
        }
    }

    fn parse(name: &str) -> (kind: Option<OptionKind>)
        ensures
            kind == OptionKind::named(name@),
    {
        let word: Vec<char> = text::lowercase(&text::chars_of(name));
        if text::chars_equal(&word, "evaluator") {
            Some(OptionKind::Evaluator)
        } else if text::chars_equal(&word, "usett") {
            Some(OptionKind::UseTt)
        } else if text::chars_equal(&word, "usequiescence") {
            Some(OptionKind::UseQuiescence)
        } else if text::chars_equal(&word, "useenhancedquiescence") {
            Some(OptionKind::UseEnhancedQuiescence)
        } else if text::chars_equal(&word, "openingbook") {
            Some(OptionKind::OpeningBook)
        } else if text::chars_equal(&word, "moveoverhead") {
            Some(OptionKind::MoveOverhead)
        } else {
            None
        }
    }

    fn complaint_start(self) -> (start: &'static str)
        ensures
            start@ == self.complaint(),
    {
        match self {
            OptionKind::Evaluator => "ignored invalid Evaluator value: ",
            OptionKind::UseTt => "ignored invalid UseTT value: ",
            OptionKind::UseQuiescence => "ignored invalid UseQuiescence value: ",
            OptionKind::UseEnhancedQuiescence => "ignored invalid UseEnhancedQuiescence value: ",
            OptionKind::OpeningBook => "ignored invalid OpeningBook value: ",
            OptionKind::MoveOverhead => "ignored invalid MoveOverhead value: ",
        }
    }
}

/// Two texts one after the other.
fn joined(start: &str, rest: &str) -> (whole: String)
    ensures
        whole@ == start@ + rest@,
{
    let mut whole = String::new();
    whole.append(start);
    whole.append(rest);
    assert(whole@ =~= start@ + rest@);
    whole
}

/// The engine after a `setoption`: a valid value is set, an invalid one and
/// an unknown option are ignored with a diagnostic.
pub open spec fn option_set(engine: EngineView, name: Seq<char>, value: Seq<char>) -> EngineView {
    match OptionKind::named(name) {
        Some(kind) => match kind.set_to(engine, value) {
            Some(changed) => changed,
            None => engine.noted(DiagnosticLevel::Warn, kind.complaint() + value),
        },
        None => engine.noted(DiagnosticLevel::Info, "ignored unknown UCI option: "@ + name),
    }
}

/// Sets an option, or says whether that failed.
fn try_option(engine: &mut Engine, kind: OptionKind, value: &str) -> (done: bool)
    ensures
        match kind.set_to(old(engine)@, value@) {
            Some(changed) => done && final(engine)@ == changed,
            None => !done && final(engine)@ == old(engine)@,
        },
{
    match kind {
        OptionKind::Evaluator => match EvaluatorKind::parse(value) {
            Some(evaluator) => {
                engine.set_evaluator(evaluator);
                true
            },
            None => false,
        },
        OptionKind::UseTt => match parse_uci_check(value) {
            Some(on) => {
                engine.set_use_tt(on);
                true
            },
            None => false,
        },
        OptionKind::UseQuiescence => match parse_uci_check(value) {
            Some(on) => {
                engine.set_use_quiescence(on);
                true
            },
            None => false,
        },
        OptionKind::UseEnhancedQuiescence => match parse_uci_check(value) {
            Some(on) => {
                engine.set_use_enhanced_quiescence(on);
                true
            },
            None => false,
        },
        OptionKind::OpeningBook => match OpeningBookKind::parse(value) {
            Some(book) => {
                engine.set_opening_book(book);
                true
            },
            None => false,
        },
        OptionKind::MoveOverhead => match text::parse_u64_max(
            &text::trim(&text::chars_of(value)),
            u64::MAX,
        ) {
            Some(ms) => {
                engine.set_move_overhead(Duration::from_millis(ms));
                true
            },
            None => false,
        },
    }
}

/// Carries out a `setoption`.
fn set_option(engine: &mut Engine, name: &str, value: &str)
    ensures
        final(engine)@ == option_set(old(engine)@, name@, value@),
{
    match OptionKind::parse(name) {
        Some(kind) => {
            if !try_option(engine, kind, value) {
                engine.note(DiagnosticLevel::Warn, joined(kind.complaint_start(), value));
            }
        },
        None => {
            engine.note(DiagnosticLevel::Info, joined("ignored unknown UCI option: ", name));
        },
    }
}

/// The engine after playing the moves from the `k`-th on, up to the first one
/// that is not legal, and that move.
pub open spec fn after_moves(engine: EngineView, moves: Seq<UciMove>, k: nat) -> (
    EngineView,
    Option<UciMove>,
)
    decreases moves.len() - k,
{
    if k >= moves.len() {
        (engine, None)
    } else {
        let mv = moves[k as int];
        match engine.legal_match(mv.from.idx(), mv.to.idx(), mv.promotion) {
            Some(found) => after_moves(engine.played(found), moves, k + 1),
            None => (engine, Some(mv)),
        }
    }
}

/// Why a `position` command could not be fully applied.
pub enum PositionFailure {
    InvalidFen(FenErrorView),
    IllegalMove(UciMove),
}

/// The engine after a `position` command, and what went wrong, if anything:
/// an invalid FEN changes nothing, and an illegal move leaves the position
/// where the moves before it lead.
pub open spec fn after_position(engine: EngineView, command: PositionCommandView) -> (
    EngineView,
    Option<PositionFailure>,
) {
    match command {
        PositionCommandView::StartPos { moves } => {
            let (end, illegal) = after_moves(engine.moved_to(PositionView::start()), moves, 0);
            (end, match illegal {
                Some(mv) => Some(PositionFailure::IllegalMove(mv)),
                None => None,
            })
        },
        PositionCommandView::Fen { fen, moves } => match PositionView::parse(fen) {
            Ok(p) => {
                let (end, illegal) = after_moves(engine.moved_to(p), moves, 0);
                (end, match illegal {
                    Some(mv) => Some(PositionFailure::IllegalMove(mv)),
                    None => None,
                })
            },
            Err(error) => (engine, Some(PositionFailure::InvalidFen(error))),
        },
    }
}

/// Plays moves one after another, up to the first that is not legal.
fn play_moves(engine: &mut Engine, moves: &Vec<UciMove>) -> (result: Result<(), IllegalMoveError>)
    ensures
        ({
            let (end, illegal) = after_moves(old(engine)@, moves@, 0);
            &&& final(engine)@ == end
            &&& match illegal {
                Some(mv) => result == Err::<(), IllegalMoveError>(
                    IllegalMoveError { from: mv.from, to: mv.to, promotion: mv.promotion },
                ),
                None => result is Ok,
            }
        }),
{
    let mut k: usize = 0;
    while k < moves.len()
        invariant
            k <= moves.len(),
            after_moves(old(engine)@, moves@, 0) == after_moves(engine@, moves@, k as nat),
        decreases moves.len() - k,
    {
        let mv = moves[k];
        match engine.apply_move(mv.from, mv.to, mv.promotion) {
            Ok(()) => {},
            Err(error) => {
                return Err(error);
            },
        }
        k += 1;
    }
    Ok(())
}

impl PositionCommandError {
    /// What the error says.
    pub open spec fn failure(self) -> PositionFailure {
        match self {
            PositionCommandError::InvalidFen(error) => PositionFailure::InvalidFen(error@),
            PositionCommandError::IllegalMove(error) => PositionFailure::IllegalMove(
                UciMove { from: error.from, to: error.to, promotion: error.promotion },
            ),
        }
    }
}

impl PositionCommand {
    /// Puts the engine at the position this command describes: the base
    /// position with every move in `moves` applied in order via `Engine`'s
    /// legal-move lookup. Returns `Err` (with the engine unchanged for FEN
    /// errors, or the moves partially applied for an illegal
    /// move) if the FEN is invalid or a move doesn't match any legal
    /// move at the point it's applied.
    pub fn resolve(&self, engine: &mut Engine) -> (result: Result<(), PositionCommandError>)
        ensures
            ({
                let (end, failure) = after_position(old(engine)@, self@);
                &&& final(engine)@ == end
                &&& match result {
                    Ok(()) => failure is None,
                    Err(error) => failure == Some(error.failure()),
                }
            }),
    {
        let played = match self {
            PositionCommand::StartPos { moves } => {
                engine.set_position(Position::startpos());
                play_moves(engine, moves)
            },
            PositionCommand::Fen { fen, moves } => match Position::from_fen(fen.as_str()) {
                Ok(position) => {
                    engine.set_position(position);
                    play_moves(engine, moves)
                },
                Err(error) => {
                    return Err(PositionCommandError::InvalidFen(error));
                },
            },
        };
        match played {
            Ok(()) => Ok(()),
            Err(error) => Err(PositionCommandError::IllegalMove(error)),
        }
    }
}

/// The diagnostic for a `position` command that could not be fully applied.
pub open spec fn failure_text(failure: PositionFailure) -> Seq<char> {
    match failure {
        PositionFailure::InvalidFen(error) => output::invalid_fen_text(error),
        PositionFailure::IllegalMove(mv) => output::illegal_move_text(
            IllegalMoveError { from: mv.from, to: mv.to, promotion: mv.promotion },
        ),
    }
}

fn failure_line(error: &PositionCommandError) -> (line: String)
    ensures
        line@ == failure_text(error.failure()),
{
    match error {
        PositionCommandError::InvalidFen(reason) => output::invalid_fen_line(reason),
        PositionCommandError::IllegalMove(reason) => output::illegal_move_line(reason),
    }
}

/// What to do after an event.
#[derive(Debug, Clone, Copy, PartialEq, Eq, Structural)]
pub enum Action {
    /// Wait for the next event.
    Wait,
    /// Hand the engine over to a new search, with a fresh stop signal.
    Start(GoCommand),
    /// Have the running search stop, wait until it has, and take the engine
    /// back.
    Join,
    /// End the session.
    Exit,
}

/// What a command makes the engine do and say.
pub struct Outcome {
    pub engine: EngineView,
    pub lines: Seq<Seq<char>>,
    pub action: Action,
}

/// What the command itself does and says, before any diagnostics are shown.
pub open spec fn performed(engine: EngineView, command: UciCommandView) -> Outcome {
    match command {
        UciCommandView::Uci => Outcome { engine, lines: handshake(), action: Action::Wait },
        UciCommandView::IsReady => Outcome {
            engine,
            lines: seq!["readyok"@],
            action: Action::Wait,
        },
        UciCommandView::Debug(on) => Outcome {
            engine: EngineView { debug: on, ..engine },
            lines: Seq::empty(),
            action: Action::Wait,
        },
        UciCommandView::SetOption { name, value } => Outcome {
            engine: option_set(engine, name, value),
            lines: Seq::empty(),
            action: Action::Wait,
        },
        UciCommandView::NewGame | UciCommandView::Stop => Outcome {
            engine,
            lines: Seq::empty(),
            action: Action::Wait,
        },
        UciCommandView::Position(args) => {
            let (end, failure) = after_position(engine, args);
            Outcome {
                engine: match failure {
                    Some(reason) => end.noted(DiagnosticLevel::Warn, failure_text(reason)),
                    None => end,
                },
                lines: Seq::empty(),
                action: Action::Wait,
            }
        },
        UciCommandView::Go(args) => Outcome {
            engine,
            lines: Seq::empty(),
            action: Action::Start(args),
        },
        UciCommandView::Quit => Outcome { engine, lines: Seq::empty(), action: Action::Exit },
        UciCommandView::Unknown(line) => Outcome {
            engine: engine.noted(
                DiagnosticLevel::Info,
                "ignored unknown UCI command: "@ + line,
            ),
            lines: Seq::empty(),
            action: Action::Wait,
        },
    }
}

/// The `info string` lines for the first `n` diagnostics.
pub open spec fn shown(diagnostics: Seq<DiagnosticView>, n: nat) -> Seq<Seq<char>>
    decreases n,
{
    if n == 0 {
        Seq::empty()
    } else {
        shown(diagnostics, (n - 1) as nat).push("info string "@ + diagnostics[n - 1].message)
    }
}

/// What a command makes the engine do and say. Diagnostics are cleared after
/// every command, and shown if debug mode is on; a `go` takes them along, and
/// a `quit` does not wait for them.
#[verifier::opaque]
pub open spec fn executed(engine: EngineView, command: UciCommandView) -> Outcome {
    let done = performed(engine, command);
    if done.action == Action::Wait {
        Outcome {
            engine: EngineView { diagnostics: Seq::empty(), ..done.engine },
            lines: if done.engine.debug {
                done.lines + shown(done.engine.diagnostics, done.engine.diagnostics.len())
            } else {
                done.lines
            },
            action: done.action,
        }
    } else {
        done
    }
}

/// What to write and what to do after an event.
#[derive(Debug)]
pub struct Reply {
    pub lines: Vec<String>,
    pub action: Action,
}

/// Carries out the command itself.
fn perform(engine: &mut Engine, command: &UciCommand) -> (reply: Reply)
    ensures
        ({
            let done = performed(old(engine)@, command@);
            &&& final(engine)@ == done.engine
            &&& line_views(reply.lines@) == done.lines
            &&& reply.action == done.action
        }),
{
    let mut lines: Vec<String> = Vec::new();
    let mut action = Action::Wait;
    assert(line_views(lines@) =~= Seq::<Seq<char>>::empty());
    match command {
        UciCommand::Uci => {
            lines = handshake_lines();
        },
        UciCommand::IsReady => {
            lines.push("readyok".to_owned());
            assert(line_views(lines@) =~= seq!["readyok"@]);
        },
        UciCommand::Debug(on) => {
            engine.set_debug(*on);
        },
        UciCommand::SetOption { name, value } => {
            set_option(engine, name.as_str(), value.as_str());
        },
        UciCommand::NewGame => {
            engine.new_game();
        },
        UciCommand::Position(args) => {
            if let Err(error) = args.resolve(engine) {
                engine.note(DiagnosticLevel::Warn, failure_line(&error));
            }
        },
        UciCommand::Go(args) => {
            action = Action::Start(*args);
        },
        // A stop with nothing running is a normal, silent no-op, per UCI's
        // general tolerance of commands that don't currently apply.
        UciCommand::Stop => {},
        UciCommand::Quit => {
            action = Action::Exit;
        },
        // Unrecognized commands are ignored, per UCI convention -- but
        // worth a diagnostic when debug is on, since a silently-ignored
        // typo is otherwise invisible.
        UciCommand::Unknown(line) => {
            engine.note(
                DiagnosticLevel::Info,
                joined("ignored unknown UCI command: ", line.as_str()),
            );
        },
    }
    Reply { lines, action }
}

/// Clears the engine's diagnostics, showing them if debug mode is on.
fn show_diagnostics(engine: &mut Engine, lines: &mut Vec<String>)
    ensures
        final(engine)@ == (EngineView { diagnostics: Seq::empty(), ..old(engine)@ }),
        line_views(final(lines)@) == (if old(engine)@.debug {
            line_views(old(lines)@) + shown(
                old(engine)@.diagnostics,
                old(engine)@.diagnostics.len(),
            )
        } else {
            line_views(old(lines)@)
        }),
{
    let debug = engine.debug();
    let taken: Vec<Diagnostic> = engine.take_diagnostics();
    if !debug {
        return;
    }
    let ghost views = diagnostics::diagnostic_views(taken@);
    let mut k: usize = 0;
    assert(line_views(lines@) =~= line_views(old(lines)@) + shown(views, 0));
    while k < taken.len()
        invariant
            k <= taken.len(),
            views == diagnostics::diagnostic_views(taken@),
            line_views(lines@) == line_views(old(lines)@) + shown(views, k as nat),
        decreases taken.len() - k,
    {
        let line: String = joined("info string ", taken[k].message.as_str());
        proof {
            assert(views[k as int] == taken@[k as int]@);
            lemma_line_views_push(lines@, line);
            assert(line_views(lines@).push(line@) =~= line_views(old(lines)@) + shown(
                views,
                k as nat + 1,
            ));
        }
        lines.push(line);
        k += 1;
    }
}

/// Carries out a command and shows what there is to say about it.
pub fn execute(engine: &mut Engine, command: &UciCommand) -> (reply: Reply)
    ensures
        ({
            let done = executed(old(engine)@, command@);
            &&& final(engine)@ == done.engine
            &&& line_views(reply.lines@) == done.lines
            &&& reply.action == done.action
        }),
{
    proof {
        reveal(executed);
    }
    let done = perform(engine, command);
    let action = done.action;
    let mut lines: Vec<String> = done.lines;
    if action == Action::Wait {
        show_diagnostics(engine, &mut lines);
    }
    Reply { lines, action }
}

/// What a running search reports.
#[derive(Debug)]
pub enum SearchEvent {
    /// One completed depth's `info depth ...` line.
    Info(String),
    /// The search has produced its final answer -- exactly one of
    /// these is sent per `go`, always as the search's last message.
    Done(SearchResult),
}

/// Everything that can wake a session up: a new line of input (or the input
/// ending), or the running search reporting.
#[derive(Debug)]
pub enum Event {
    Line(String),
    /// The input ended -- treated like an implicit `quit` once any
    /// outstanding search is stopped and joined.
    InputEnded,
    Search(SearchEvent),
}

/// What a search report says.
pub enum SearchEventView {
    Info(Seq<char>),
    Done(SearchResultView),
}

/// What an event says.
pub enum EventView {
    Line(Seq<char>),
    InputEnded,
    Search(SearchEventView),
}

impl View for SearchEvent {
    type V = SearchEventView;

    open spec fn view(&self) -> SearchEventView {
        match self {
            SearchEvent::Info(line) => SearchEventView::Info(line@),
            SearchEvent::Done(result) => SearchEventView::Done(result@),
        }
    }
}

impl View for Event {
    type V = EventView;

    open spec fn view(&self) -> EventView {
        match self {
            Event::Line(line) => EventView::Line(line@),
            Event::InputEnded => EventView::InputEnded,
            Event::Search(event) => EventView::Search(event@),
        }
    }
}

impl SearchEventView {
    /// The line that a search report becomes.
    pub open spec fn written(self) -> Seq<char> {
        match self {
            SearchEventView::Info(line) => line,
            SearchEventView::Done(result) => output::bestmove_text(result.best_move),
        }
    }
}

/// What a session waits to do once the running search has stopped.
#[derive(Debug)]
pub enum Held {
    /// Carry out this line.
    Line(String),
    /// End.
    End,
}

/// What a session is doing.
#[derive(Debug)]
pub enum Phase {
    /// The session has the engine.
    Idle,
    /// A search has the engine.
    Searching,
    /// The search was told to stop and gave the engine back; its last
    /// reports are still to come.
    Finishing(Held),
}

/// What a session waits to do, as text.
pub enum HeldView {
    Line(Seq<char>),
    End,
}

/// What a session is doing, as text.
pub enum PhaseView {
    Idle,
    Searching,
    Finishing(HeldView),
}

impl View for Phase {
    type V = PhaseView;

    open spec fn view(&self) -> PhaseView {
        match self {
            Phase::Idle => PhaseView::Idle,
            Phase::Searching => PhaseView::Searching,
            Phase::Finishing(Held::Line(line)) => PhaseView::Finishing(HeldView::Line(line@)),
            Phase::Finishing(Held::End) => PhaseView::Finishing(HeldView::End),
        }
    }
}

/// What an event makes a session do: what it is doing then, the engine, the
/// lines to write, what to do next, and whether the event has to wait.
pub struct Stepped {
    pub phase: PhaseView,
    pub engine: EngineView,
    pub lines: Seq<Seq<char>>,
    pub action: Action,
    pub kept: bool,
}

/// Nothing changes but the phase, nothing is written.
pub open spec fn quietly(phase: PhaseView, engine: EngineView, action: Action) -> Stepped {
    Stepped { phase, engine, lines: Seq::empty(), action, kept: false }
}

/// A command is carried out, after some lines that are to be written first.
pub open spec fn commanded(engine: EngineView, line: Seq<char>, before: Seq<Seq<char>>) -> Stepped {
    let done = executed(engine, UciCommandView::read(line));
    Stepped {
        phase: if done.action is Start {
            PhaseView::Searching
        } else {
            PhaseView::Idle
        },
        engine: done.engine,
        lines: before + done.lines,
        action: done.action,
        kept: false,
    }
}

/// What was held back is done, after some lines that are to be written first.
pub open spec fn concluded(engine: EngineView, held: HeldView, before: Seq<Seq<char>>) -> Stepped {
    match held {
        HeldView::Line(line) => commanded(engine, line, before),
        HeldView::End => Stepped {
            phase: PhaseView::Idle,
            engine,
            lines: before,
            action: Action::Exit,
            kept: false,
        },
    }
}

/// The engine with a line of input echoed, if debug mode is on.
pub open spec fn echoed(engine: EngineView, line: Seq<char>) -> EngineView {
    if engine.debug {
        engine.noted(DiagnosticLevel::Debug, "received: "@ + line)
    } else {
        engine
    }
}

/// What an event, or the end of all events, makes a session do.
///
/// A running search is stopped before any line is carried out, since every
/// command needs the engine, and before the session ends. Its reports are
/// written as they come, up to its final answer; whatever else comes in
/// meanwhile has to wait.
pub open spec fn stepped(phase: PhaseView, engine: EngineView, received: Option<EventView>) -> Stepped {
    match phase {
        PhaseView::Idle => match received {
            Some(EventView::Line(line)) => commanded(
                echoed(engine, line),
                line,
                Seq::empty(),
            ),
            Some(EventView::Search(event)) => Stepped {
                lines: seq![event.written()],
                ..quietly(phase, engine, Action::Wait)
            },
            Some(EventView::InputEnded) | None => quietly(phase, engine, Action::Exit),
        },
        PhaseView::Searching => match received {
            Some(EventView::Line(line)) => quietly(
                PhaseView::Finishing(HeldView::Line(line)),
                engine,
                Action::Join,
            ),
            Some(EventView::Search(SearchEventView::Info(line))) => Stepped {
                lines: seq![line],
                ..quietly(phase, engine, Action::Wait)
            },
            Some(EventView::Search(SearchEventView::Done(result))) => Stepped {
                lines: seq![output::bestmove_text(result.best_move)],
                ..quietly(PhaseView::Idle, engine, Action::Join)
            },
            Some(EventView::InputEnded) | None => quietly(
                PhaseView::Finishing(HeldView::End),
                engine,
                Action::Join,
            ),
        },
        PhaseView::Finishing(held) => match received {
            Some(EventView::Search(SearchEventView::Info(line))) => Stepped {
                lines: seq![line],
                ..quietly(phase, engine, Action::Wait)
            },
            Some(EventView::Search(SearchEventView::Done(result))) => concluded(
                engine,
                held,
                seq![output::bestmove_text(result.best_move)],
            ),
            Some(_) => Stepped { kept: true, ..quietly(phase, engine, Action::Wait) },
            None => concluded(engine, held, Seq::empty()),
        },
    }
}

/// A UCI session: what it is doing, and the events that have to wait until a
/// search has finished.
#[derive(Debug)]
pub struct Session {
    phase: Phase,
    pending: Vec<Event>,
}

/// What several events say.
pub open spec fn event_views(events: Seq<Event>) -> Seq<EventView> {
    Seq::new(events.len(), |i: int| events[i]@)
}

/// What an optional event says.
pub open spec fn received_view(received: Option<Event>) -> Option<EventView> {
    match received {
        Some(event) => Some(event@),
        None => None,
    }
}

/// One line.
fn single(line: String) -> (lines: Vec<String>)
    ensures
        line_views(lines@) == seq![line@],
{
    let mut lines: Vec<String> = Vec::new();
    lines.push(line);
    assert(line_views(lines@) =~= seq![line@]);
    lines
}

/// The line that a search report becomes.
fn event_line(event: SearchEvent) -> (line: String)
    ensures
        line@ == event@.written(),
{
    match event {
        SearchEvent::Info(line) => line,
        SearchEvent::Done(result) => output::bestmove_line(result.best_move),
    }
}

/// Appends lines to others.
fn append_lines(lines: &mut Vec<String>, more: Vec<String>)
    ensures
        line_views(final(lines)@) == line_views(old(lines)@) + line_views(more@),
{
    let mut rest: Vec<String> = more;
    lines.append(&mut rest);
    assert(line_views(lines@) =~= line_views(old(lines)@) + line_views(more@));
}

impl Session {
    /// What the session is doing.
    pub closed spec fn doing(&self) -> PhaseView {
        self.phase@
    }

    /// The events that have to wait, oldest first.
    pub closed spec fn waiting(&self) -> Seq<EventView> {
        event_views(self.pending@)
    }

    /// A new session, with nothing going on.
    pub fn new() -> (session: Session)
        ensures
            session.doing() is Idle,
            session.waiting() == Seq::<EventView>::empty(),
    {
        let session = Session { phase: Phase::Idle, pending: Vec::new() };
        assert(session.waiting() =~= Seq::<EventView>::empty());
        session
    }

    /// The next event that had to wait, oldest first, unless the session
    /// still has to hear the last reports of a search. Whoever runs the
    /// session asks for these before waiting for anything new, so that
    /// nothing is lost or taken out of order.
    pub fn next_pending(&mut self) -> (event: Option<Event>)
        ensures
            final(self).doing() == old(self).doing(),
            old(self).doing() is Finishing || old(self).waiting().len() == 0 ==> event is None
                && final(self).waiting() == old(self).waiting(),
            !(old(self).doing() is Finishing) && old(self).waiting().len() > 0 ==> {
                &&& received_view(event) == Some(old(self).waiting()[0])
                &&& final(self).waiting() == old(self).waiting().skip(1)
            },
    {
        if let Phase::Finishing(_) = &self.phase {
            return None;
        }
        if self.pending.len() == 0 {
            return None;
        }
        let event = self.pending.remove(0);
        assert(self.waiting() =~= old(self).waiting().skip(1));
        Some(event)
    }

    /// Carries out a line, after some lines that are to be written first.
    fn command(&mut self, engine: &mut Engine, line: &str, before: Vec<String>) -> (reply: Reply)
        ensures
            ({
                let step = commanded(old(engine)@, line@, line_views(before@));
                &&& final(self).doing() == step.phase
                &&& final(self).waiting() == old(self).waiting()
                &&& final(engine)@ == step.engine
                &&& line_views(reply.lines@) == step.lines
                &&& reply.action == step.action
            }),
    {
        let command = UciCommand::parse(line);
        let done = execute(engine, &command);
        let action = done.action;
        let mut lines: Vec<String> = before;
        append_lines(&mut lines, done.lines);
        self.phase = match action {
            Action::Start(_) => Phase::Searching,
            _ => Phase::Idle,
        };
        Reply { lines, action }
    }

    /// Does what was held back, after some lines that are to be written
    /// first.
    fn conclude(&mut self, engine: &mut Engine, held: Held, before: Vec<String>) -> (reply: Reply)
        ensures
            ({
                let step = concluded(
                    old(engine)@,
                    match held {
                        Held::Line(line) => HeldView::Line(line@),
                        Held::End => HeldView::End,
                    },
                    line_views(before@),
                );
                &&& final(self).doing() == step.phase
                &&& final(self).waiting() == old(self).waiting()
                &&& final(engine)@ == step.engine
                &&& line_views(reply.lines@) == step.lines
                &&& reply.action == step.action
            }),
    {
        match held {
            Held::Line(line) => self.command(engine, line.as_str(), before),
            Held::End => {
                self.phase = Phase::Idle;
                Reply { lines: before, action: Action::Exit }
            },
        }
    }

    /// Takes in an event, or `None` once no more events can come.
    pub fn step(&mut self, engine: &mut Engine, received: Option<Event>) -> (reply: Reply)
        ensures
            ({
                let step = stepped(old(self).doing(), old(engine)@, received_view(received));
                &&& final(self).doing() == step.phase
                &&& final(engine)@ == step.engine
                &&& line_views(reply.lines@) == step.lines
                &&& reply.action == step.action
                &&& final(self).waiting() == (if step.kept {
                    old(self).waiting().push(received_view(received)->0)
                } else {
                    old(self).waiting()
                })
            }),
    {
        let mut phase = Phase::Idle;
        std::mem::swap(&mut self.phase, &mut phase);
        let none: Vec<String> = Vec::new();
        assert(line_views(none@) =~= Seq::<Seq<char>>::empty());
        match phase {
            Phase::Idle => match received {
                Some(Event::Line(line)) => {
                    if engine.debug() {
                        engine.note(DiagnosticLevel::Debug, joined("received: ", line.as_str()));
                    }
                    self.command(engine, line.as_str(), none)
                },
                Some(Event::Search(event)) => Reply {
                    lines: single(event_line(event)),
                    action: Action::Wait,
                },
                Some(Event::InputEnded) | None => Reply { lines: none, action: Action::Exit },
            },
            Phase::Searching => match received {
                Some(Event::Line(line)) => {
                    self.phase = Phase::Finishing(Held::Line(line));
                    Reply { lines: none, action: Action::Join }
                },
                Some(Event::Search(event)) => {
                    // A `Done` means the search has produced its final
                    // answer and ends on its own: the engine only has to
                    // be taken back.
                    let done = matches!(event, SearchEvent::Done(_));
                    let action = if done {
                        Action::Join
                    } else {
                        self.phase = Phase::Searching;
                        Action::Wait
                    };
                    Reply { lines: single(event_line(event)), action }
                },
                Some(Event::InputEnded) | None => {
                    self.phase = Phase::Finishing(Held::End);
                    Reply { lines: none, action: Action::Join }
                },
            },
            Phase::Finishing(held) => match received {
                Some(Event::Search(event)) => {
                    let done = matches!(event, SearchEvent::Done(_));
                    let lines: Vec<String> = single(event_line(event));
                    if done {
                        self.conclude(engine, held, lines)
                    } else {
                        self.phase = Phase::Finishing(held);
                        Reply { lines, action: Action::Wait }
                    }
                },
                Some(other) => {
                    self.phase = Phase::Finishing(held);
                    proof {
                        assert(event_views(self.pending@.push(other)) =~= event_views(
                            self.pending@,
                        ).push(other@));
                    }
                    self.pending.push(other);
                    Reply { lines: none, action: Action::Wait }
                },
                None => self.conclude(engine, held, none),
            },
        }
    }
}

/// The depth that is searched to when there is no time limit.
pub open spec fn depth_of(args: GoCommand) -> u32 {
    match args.depth {
        Some(depth) => depth,
        None => DEFAULT_DEPTH,
    }
}

/// Whether a `go` can be carried out: a fixed depth has to be searchable.
pub open spec fn startable(engine: EngineView, args: GoCommand) -> bool {
    args.movetime_ms is Some || args.clock_of(engine.position.side) is Some || engine.searchable(
        depth_of(args),
    )
}

/// What a `go` answers, as far as the clock and the stop signal do not decide
/// it: `movetime` goes before the clock, and the clock before `depth`.
pub open spec fn answers(engine: EngineView, args: GoCommand, result: SearchResultView) -> bool {
    match (args.movetime_ms, args.clock_of(engine.position.side)) {
        (Some(ms), _) => engine.answers_unless_stopped((ms * 1_000_000) as nat, result),
        (None, Some(control)) => engine.answers_on_clock(control, result),
        (None, None) => result == engine.searched(depth_of(args)),
    }
}

/// The results that are reported on the way to `result`: under a time limit
/// those of all depths that it completed, and with a fixed depth the result
/// alone. An answer without a search has none.
pub open spec fn reported(
    engine: EngineView,
    args: GoCommand,
    result: SearchResultView,
) -> Seq<SearchResultView> {
    if args.movetime_ms is Some || args.clock_of(engine.position.side) is Some {
        engine.reported(result)
    } else if result.depth > 0 {
        seq![result]
    } else {
        seq![]
    }
}

/// Whether the notes show how a `go` came to its answer: only a time limit is
/// ever looked at, with the stop signal on it.
pub open spec fn noted(
    engine: EngineView,
    args: GoCommand,
    stop: StopSignal,
    notes: Seq<Note>,
    result: SearchResultView,
) -> bool {
    match (args.movetime_ms, args.clock_of(engine.position.side)) {
        (Some(ms), _) => engine.stopped_by(notes, (ms * 1_000_000) as nat, stop, result),
        (None, Some(control)) => engine.clocked_by(notes, control, stop, result),
        (None, None) => notes.len() == 0,
    }
}

/// Whether some record shows how a `go` came to its answer.
pub open spec fn ended(
    engine: EngineView,
    args: GoCommand,
    stop: StopSignal,
    result: SearchResultView,
) -> bool {
    exists|looks: Looks| #[trigger]
        looks.kept() && noted(engine, args, stop, looks.notes(), result)
}

/// Whether a `go` can be carried out.
pub fn can_start(engine: &Engine, args: &GoCommand) -> (can: bool)
    ensures
        can == startable(engine@, *args),
{
    let depth: u32 = match args.depth {
        Some(depth) => depth,
        None => DEFAULT_DEPTH,
    };
    args.movetime_ms.is_some() || args.clock_for(engine.position().side_to_move()).is_some()
        || engine.can_search(depth)
}

/// Carries out a `go`: the search that runs while the session waits.
/// `on_depth_complete` hears of every completed depth; a book answer has none.
pub fn run_search<F: FnMut(&SearchResult)>(
    engine: &mut Engine,
    args: GoCommand,
    stop: StopSignal,
    on_depth_complete: F,
) -> (result: SearchResult)
    requires
        startable(old(engine)@, args),
        forall|r: &SearchResult| call_requires(on_depth_complete, (r,)),
    ensures
        final(engine)@ == old(engine)@,
        answers(old(engine)@, args, result@),
        forall|r: SearchResultView| #[trigger]
            reported(old(engine)@, args, result@).contains(r) ==> reports::received(
                on_depth_complete,
                r,
            ),
        ended(old(engine)@, args, stop, result@),
{
    let mut reports = Reports::new(on_depth_complete);
    let mut looks = Looks::new();
    let result = run_reported_search(engine, args, stop, &mut reports, &mut looks);
    proof {
        assert(reports.log() =~= reported(old(engine)@, args, result@));
        looks::lemma_since_nothing(looks.notes());
    }
    result
}

/// Carries out a `go` like `run_search`, and keeps a record of what it
/// reports: every completed depth, in order, and nothing else. A second record
/// holds what the deadlines were asked and answered on the way, and what was
/// decided between depths.
pub fn run_reported_search<F: FnMut(&SearchResult)>(
    engine: &mut Engine,
    args: GoCommand,
    stop: StopSignal,
    reports: &mut Reports<F>,
    looks: &mut Looks,
) -> (result: SearchResult)
    requires
        startable(old(engine)@, args),
        old(reports).wf(),
        old(looks).kept(),
    ensures
        final(engine)@ == old(engine)@,
        answers(old(engine)@, args, result@),
        final(reports).wf(),
        final(reports).receiver() == old(reports).receiver(),
        final(reports).log() == old(reports).log() + reported(old(engine)@, args, result@),
        final(looks).kept(),
        looks::extends(old(looks).notes(), final(looks).notes()),
        noted(
            old(engine)@,
            args,
            stop,
            looks::since(old(looks).notes(), final(looks).notes()),
            result@,
        ),
{
    if let Some(movetime_ms) = args.movetime_ms {
        let budget = Duration::from_millis(movetime_ms);
        return engine.deepen_for_time_with_stop(budget, stop, reports, looks);
    }
    if let Some(control) = args.clock_for(engine.position().side_to_move()) {
        return engine.deepen_with_clock(control, stop, reports, looks);
    }
    // Default to a shallow depth when no limit is given, since there's no
    // time-based stopping condition to fall back on instead.

    let depth: u32 = match args.depth {
        Some(depth) => depth,
        None => DEFAULT_DEPTH,
    };
    let result = engine.search(depth);
    proof {
        looks::lemma_since_now(looks.notes());
    }
    // Depth zero means this was a book hit, not a real search: there's no
    // depth/node count to report.
    if result.depth > 0 {
        reports.report(&result);
    }
    result
}

} // verus!
