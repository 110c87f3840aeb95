//! How commands are answered and what they change.

use super::command::{GoCommand, PositionCommandView, UciCommandView};
use super::output;
use super::session::{self, Action, PhaseView, HeldView, EventView, SearchEventView};
use crate::chess::position::PositionView;
use crate::engine::EngineView;
use crate::search::SearchResultView;
use vstd::prelude::*;

verus! {

/// Each command gets its answer: the handshake ends with `uciok`, a ping gets
/// `readyok` and nothing else, no other command is answered at once, but for what
/// debug mode shows. Only `go` starts a search and only `quit` ends the session.
pub proof fn how_commands_are_answered(engine: EngineView, command: UciCommandView)
    requires
        !engine.debug,
        !(command is Debug),
    ensures
        ({
            let done = session::executed(engine, command);
            &&& command is Uci ==> done.lines.len() > 1 && done.lines.last() == "uciok"@
            &&& command is IsReady ==> done.lines.len() == 1 && done.lines[0] == "readyok"@
            &&& !(command is Uci) && !(command is IsReady) ==> done.lines.len() == 0
            &&& command matches UciCommandView::Go(args) ==> done.action == Action::Start(args)
            &&& command is Quit <==> done.action == Action::Exit
            &&& !(command is Go) && !(command is Quit) ==> done.action == Action::Wait
        }),
{
    super::laws::diagnostics_need_debug_mode(engine, command);
    reveal(session::executed);
}

/// Commands change what they are about: `debug` the mode, `setoption` the settings,
/// `position` the game; all others leave everything but the diagnostics alone.
pub proof fn what_commands_change(engine: EngineView, command: UciCommandView)
    ensures
        ({
            let after = session::executed(engine, command).engine;
            &&& command matches UciCommandView::Debug(on) ==> after.debug == on
            &&& !(command is Debug) && !(command is Position) && !(command is SetOption) ==> after
                == (EngineView { diagnostics: after.diagnostics, ..engine })
            &&& command is Debug ==> after == (EngineView {
                debug: after.debug,
                diagnostics: after.diagnostics,
                ..engine
            })
            &&& !(command is Position) ==> after.position == engine.position && after.history
                == engine.history
            &&& !(command is SetOption) && !(command is Position) ==> after.evaluator
                == engine.evaluator && after.options == engine.options && after.book == engine.book
                && after.config == engine.config
        }),
{
    reveal(session::executed);
}

/// In debug mode what there is to say is shown as `info string` lines, in the order
/// in which it came up.
pub proof fn what_debug_mode_shows(
    diagnostics: Seq<crate::diagnostics::DiagnosticView>,
    n: nat,
    k: int,
)
    requires
        n <= diagnostics.len(),
        0 <= k < n,
    ensures
        session::shown(diagnostics, n).len() == n,
        session::shown(diagnostics, n)[k] == "info string "@ + diagnostics[k].message,
    decreases n,
{
    lemma_shown_len(diagnostics, n);
    if k < n - 1 {
        what_debug_mode_shows(diagnostics, (n - 1) as nat, k);
    } else {
        lemma_shown_len(diagnostics, (n - 1) as nat);
    }
}

proof fn lemma_shown_len(diagnostics: Seq<crate::diagnostics::DiagnosticView>, n: nat)
    ensures
        session::shown(diagnostics, n).len() == n,
    decreases n,
{
    if n > 0 {
        lemma_shown_len(diagnostics, (n - 1) as nat);
    }
}

/// A command that comes while a search runs waits for the search to end: it is kept,
/// the search is asked to stop, and the answer of the search is written first.
pub proof fn commands_wait_for_a_search(
    engine: EngineView,
    line: Seq<char>,
    result: SearchResultView,
)
    ensures
        ({
            let asked = session::stepped(
                PhaseView::Searching,
                engine,
                Some(EventView::Line(line)),
            );
            let done = session::stepped(
                asked.phase,
                engine,
                Some(EventView::Search(SearchEventView::Done(result))),
            );
            let alone = session::executed(engine, UciCommandView::read(line));
            &&& asked.lines.len() == 0
            &&& asked.action == Action::Join
            &&& done.lines.len() == 1 + alone.lines.len()
            &&& done.lines[0] == output::bestmove_text(result.best_move)
            &&& done.lines.skip(1) == alone.lines
            &&& done.action == alone.action
            &&& done.engine == alone.engine
        }),
{
    let alone = session::executed(engine, UciCommandView::read(line));
    let first = seq![output::bestmove_text(result.best_move)];
    assert((first + alone.lines).skip(1) =~= alone.lines);
}

/// Without anything running, a line is carried out at once.
pub proof fn idle_sessions_obey_at_once(engine: EngineView, line: Seq<char>)
    requires
        !engine.debug,
    ensures
        ({
            let step = session::stepped(PhaseView::Idle, engine, Some(EventView::Line(line)));
            let alone = session::executed(engine, UciCommandView::read(line));
            &&& step.lines == alone.lines
            &&& step.action == alone.action
            &&& step.engine == alone.engine
            &&& step.phase is Searching <==> alone.action is Start
        }),
{
    let alone = session::executed(engine, UciCommandView::read(line));
    assert(Seq::<Seq<char>>::empty() + alone.lines =~= alone.lines);
}

/// What a search reports is written as it comes, and its end by its best move; the
/// end of the input ends the session once no search runs.
pub proof fn reports_are_passed_on(phase: PhaseView, engine: EngineView, line: Seq<char>)
    ensures
        session::stepped(
            phase,
            engine,
            Some(EventView::Search(SearchEventView::Info(line))),
        ).lines == seq![line],
        session::stepped(
            phase,
            engine,
            Some(EventView::Search(SearchEventView::Info(line))),
        ).engine == engine,
        session::stepped(PhaseView::Idle, engine, Some(EventView::InputEnded)).action
            == Action::Exit,
        session::stepped(PhaseView::Searching, engine, Some(EventView::InputEnded)).action
            == Action::Join,
        session::stepped(PhaseView::Finishing(HeldView::End), engine, None).action == Action::Exit,
{
}

/// A time for the move goes before a clock, and both before a depth; a `go` that
/// names none of them searches four plies deep.
pub proof fn which_limit_of_a_go_counts(
    engine: EngineView,
    args: GoCommand,
    result: SearchResultView,
)
    requires
        session::answers(engine, args, result),
    ensures
        ({
            let clock = args.clock_of(engine.position.side);
            &&& args.movetime_ms matches Some(ms) ==> engine.answers_unless_stopped(
                (ms * 1_000_000) as nat,
                result,
            )
            &&& args.movetime_ms is None && clock is Some ==> engine.answers_on_clock(
                clock->0,
                result,
            )
            &&& args.movetime_ms is None && clock is None && args.depth is Some ==> result
                == engine.searched(args.depth->0)
            &&& args.movetime_ms is None && clock is None && args.depth is None ==> result
                == engine.searched(4)
        }),
{
}

/// A `position` command that is in order leaves the position and the whole game that
/// led to it; its settings stay.
pub proof fn positions_are_set_up(engine: EngineView, command: PositionCommandView)
    requires
        command matches PositionCommandView::StartPos { moves } ==> moves.len() == 0,
        command matches PositionCommandView::Fen { fen, moves } ==> moves.len() == 0
            && PositionView::parse(fen) is Ok,
    ensures
        ({
            let after = session::executed(engine, UciCommandView::Position(command)).engine;
            let p = match command {
                PositionCommandView::StartPos { .. } => PositionView::start(),
                PositionCommandView::Fen { fen, .. } => PositionView::parse(fen)->Ok_0,
            };
            &&& after.position == p
            &&& after.history == seq![p.hash()]
            &&& after.evaluator == engine.evaluator
            &&& after.options == engine.options
            &&& after.book == engine.book
            &&& after.config == engine.config
            &&& after.debug == engine.debug
        }),
{
    reveal(session::executed);
}

} // verus!
