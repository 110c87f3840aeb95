//! What holds of a UCI session as a whole.

use super::command::{GoCommand, PositionCommandView, UciCommandView, UciMove};
use super::output;
use super::session::{
    self, Action, EventView, HeldView, OptionKind, PhaseView, SearchEventView,
};
use crate::chess::moves::Move;
use crate::chess::position::PositionView;
use crate::diagnostics::DiagnosticView;
use crate::engine::EngineView;
use crate::engine_laws;
use crate::search::SearchResultView;
use crate::text;
use vstd::prelude::*;

verus! {

/// Whether a line says what move to play.
pub open spec fn is_bestmove(line: Seq<char>) -> bool {
    text::occurs_at(line, "bestmove"@, 0)
}

/// Whether none of the lines says what move to play.
pub open spec fn no_bestmove(lines: Seq<Seq<char>>) -> bool {
    forall|i: int| 0 <= i < lines.len() ==> !is_bestmove(#[trigger] lines[i])
}

/// A line that starts with another letter does not say what move to play.
proof fn lemma_other_letter(line: Seq<char>)
    requires
        line.len() > 0,
        line[0] != 'b',
    ensures
        !is_bestmove(line),
{
    reveal_strlit("bestmove");
    if is_bestmove(line) {
        assert(line.subrange(0, 8)[0] == "bestmove"@[0]);
    }
}

proof fn lemma_shown(diagnostics: Seq<DiagnosticView>, n: nat)
    requires
        n <= diagnostics.len(),
    ensures
        no_bestmove(session::shown(diagnostics, n)),
    decreases n,
{
    if n > 0 {
        lemma_shown(diagnostics, (n - 1) as nat);
        reveal_strlit("info string ");
        lemma_other_letter("info string "@ + diagnostics[n - 1].message);
    }
}

proof fn lemma_handshake()
    ensures
        no_bestmove(session::handshake()),
{
    reveal_strlit("id name ");
    reveal_strlit("id author ");
    reveal_strlit(
        "option name Evaluator type combo default Positional var Positional var Material var Experimental",
    );
    reveal_strlit("option name UseTT type check default true");
    reveal_strlit("option name UseQuiescence type check default true");
    reveal_strlit("option name UseEnhancedQuiescence type check default true");
    reveal_strlit("option name OpeningBook type combo default None var None var Cow");
    reveal_strlit("option name MoveOverhead type spin default ");
    reveal_strlit("uciok");
    let lines = session::handshake();
    assert forall|i: int| 0 <= i < lines.len() implies !is_bestmove(#[trigger] lines[i]) by {
        assert(lines[i].len() > 0 && lines[i][0] != 'b');
        lemma_other_letter(lines[i]);
    }
}

/// No command says by itself what move to play.
pub(crate) proof fn lemma_executed(engine: EngineView, command: UciCommandView)
    ensures
        no_bestmove(session::executed(engine, command).lines),
{
    reveal(session::executed);
    let done = session::performed(engine, command);
    lemma_handshake();
    reveal_strlit("readyok");
    lemma_other_letter("readyok"@);
    assert(no_bestmove(done.lines));
    lemma_shown(done.engine.diagnostics, done.engine.diagnostics.len());
}

/// The line that answers a search says what move to play.
pub(crate) proof fn lemma_bestmove_text(best_move: Option<Move>)
    ensures
        is_bestmove(output::bestmove_text(best_move)),
{
    reveal_strlit("bestmove");
    reveal_strlit("bestmove ");
    reveal_strlit("bestmove 0000");
    let line = output::bestmove_text(best_move);
    assert(line.subrange(0, 8) =~= "bestmove"@);
}

/// Every search is answered once: the final report of a search is written as
/// one `bestmove` line, before anything that waited for it, and no other
/// event makes the session write such a line.
pub proof fn bestmove_answers_each_search_once(
    phase: PhaseView,
    engine: EngineView,
    received: Option<EventView>,
)
    requires
        received matches Some(EventView::Search(SearchEventView::Info(line))) ==> !is_bestmove(line),
    ensures
        ({
            let step = session::stepped(phase, engine, received);
            match received {
                Some(EventView::Search(SearchEventView::Done(result))) => {
                    &&& step.lines.len() > 0
                    &&& step.lines[0] == output::bestmove_text(result.best_move)
                    &&& is_bestmove(step.lines[0])
                    &&& no_bestmove(step.lines.skip(1))
                },
                _ => no_bestmove(step.lines),
            }
        }),
{
    let step = session::stepped(phase, engine, received);
    match received {
        Some(EventView::Search(SearchEventView::Done(result))) => {
            lemma_bestmove_text(result.best_move);
            let first = seq![output::bestmove_text(result.best_move)];
            match phase {
                PhaseView::Finishing(HeldView::Line(line)) => {
                    let command = UciCommandView::read(line);
                    lemma_executed(engine, command);
                    assert(step.lines.skip(1) =~= session::executed(engine, command).lines);
                },
                _ => {
                    assert(step.lines =~= first);
                },
            }
        },
        Some(EventView::Line(line)) => {
            let command = UciCommandView::read(line);
            lemma_executed(session::echoed(engine, line), command);
            assert(Seq::<Seq<char>>::empty() + session::executed(
                session::echoed(engine, line),
                command,
            ).lines =~= session::executed(session::echoed(engine, line), command).lines);
        },
        None => {
            if let PhaseView::Finishing(HeldView::Line(line)) = phase {
                let command = UciCommandView::read(line);
                lemma_executed(engine, command);
                assert(Seq::<Seq<char>>::empty() + session::executed(engine, command).lines
                    =~= session::executed(engine, command).lines);
            }
        },
        _ => {},
    }
}

/// There is never more than one search: a search starts only when none is
/// running, one is running from then on, and it goes on running until it is
/// joined.
pub proof fn one_search_at_a_time(
    phase: PhaseView,
    engine: EngineView,
    received: Option<EventView>,
)
    ensures
        ({
            let step = session::stepped(phase, engine, received);
            &&& step.action is Start ==> !(phase is Searching) && step.phase is Searching
            &&& phase is Searching ==> (step.action == Action::Join <==> !(step.phase is Searching))
            &&& step.action == Action::Join ==> phase is Searching
            &&& step.phase is Searching ==> phase is Searching || step.action is Start
        }),
{
    reveal(session::executed);
}

/// While a search is running the session leaves the engine alone.
pub proof fn a_running_search_keeps_the_engine(engine: EngineView, received: Option<EventView>)
    ensures
        session::stepped(PhaseView::Searching, engine, received).engine == engine,
{
}

/// A `stop` with nothing running says nothing and changes nothing.
pub proof fn idle_stop_is_silent(engine: EngineView)
    requires
        engine.diagnostics.len() == 0,
    ensures
        session::executed(engine, UciCommandView::Stop).lines == Seq::<Seq<char>>::empty(),
        session::executed(engine, UciCommandView::Stop).engine == engine,
{
    reveal(session::executed);
    assert(engine.diagnostics =~= Seq::<DiagnosticView>::empty());
    assert(session::executed(engine, UciCommandView::Stop).lines =~= Seq::<Seq<char>>::empty());
}

/// Diagnostics do not pile up: after every command that does not start a
/// search or end the session there are none left, shown or not.
pub proof fn diagnostics_do_not_pile_up(engine: EngineView, command: UciCommandView)
    ensures
        session::executed(engine, command).action == Action::Wait ==> session::executed(
            engine,
            command,
        ).engine.diagnostics.len() == 0,
{
    reveal(session::executed);
}

/// Without debug mode no diagnostics are shown.
pub proof fn diagnostics_need_debug_mode(engine: EngineView, command: UciCommandView)
    requires
        !engine.debug,
        !(command is Debug),
    ensures
        session::executed(engine, command).lines == session::performed(engine, command).lines,
{
    reveal(session::executed);
    if let UciCommandView::Position(args) = command {
        let (start, moves) = match args {
            PositionCommandView::StartPos { moves } => (
                engine.moved_to(PositionView::start()),
                moves,
            ),
            PositionCommandView::Fen { fen, moves } => (
                match PositionView::parse(fen) {
                    Ok(p) => engine.moved_to(p),
                    Err(_) => engine,
                },
                moves,
            ),
        };
        lemma_moves_keep_debug(start, moves, 0);
    }
}

proof fn lemma_moves_keep_debug(engine: EngineView, moves: Seq<UciMove>, k: nat)
    ensures
        session::after_moves(engine, moves, k).0.debug == engine.debug,
    decreases moves.len() - k,
{
    if k < moves.len() {
        let mv = moves[k as int];
        if let Some(found) = engine.legal_match(mv.from.idx(), mv.to.idx(), mv.promotion) {
            lemma_moves_keep_debug(engine.played(found), moves, k + 1);
        }
    }
}

/// Where a list of moves leads depends on the position and history it starts
/// from alone.
pub(crate) proof fn lemma_same_moves(a: EngineView, b: EngineView, moves: Seq<UciMove>, k: nat)
    requires
        a.position == b.position,
        a.history == b.history,
    ensures
        session::after_moves(a, moves, k).0.position == session::after_moves(b, moves, k).0.position,
        session::after_moves(a, moves, k).0.history == session::after_moves(b, moves, k).0.history,
        session::after_moves(a, moves, k).1 == session::after_moves(b, moves, k).1,
    decreases moves.len() - k,
{
    if k < moves.len() {
        let mv = moves[k as int];
        if let Some(found) = a.legal_match(mv.from.idx(), mv.to.idx(), mv.promotion) {
            lemma_same_moves(a.played(found), b.played(found), moves, k + 1);
        }
    }
}

/// A `position` command resends the whole game: unless its FEN is invalid,
/// the position and the history after it do not depend on what was before.
pub proof fn position_commands_start_over(
    a: EngineView,
    b: EngineView,
    command: PositionCommandView,
)
    requires
        command matches PositionCommandView::Fen { fen, .. } ==> PositionView::parse(fen) is Ok,
    ensures
        session::after_position(a, command).0.position == session::after_position(
            b,
            command,
        ).0.position,
        session::after_position(a, command).0.history == session::after_position(
            b,
            command,
        ).0.history,
        session::after_position(a, command).1 == session::after_position(b, command).1,
{
    match command {
        PositionCommandView::StartPos { moves } => {
            let p = PositionView::start();
            lemma_same_moves(a.moved_to(p), b.moved_to(p), moves, 0);
        },
        PositionCommandView::Fen { fen, moves } => {
            let p = PositionView::parse(fen)->Ok_0;
            lemma_same_moves(a.moved_to(p), b.moved_to(p), moves, 0);
        },
    }
}

/// Whatever the limits of a `go`, and whatever the clock and the stop signal
/// say, its answer names a legal move exactly if there is one.
pub proof fn every_answer_is_a_legal_move(
    view: EngineView,
    args: GoCommand,
    result: SearchResultView,
)
    requires
        session::answers(view, args, result),
    ensures
        engine_laws::names_a_legal_move(view.position, result),
{
    match (args.movetime_ms, args.clock_of(view.position.side)) {
        (Some(ms), _) => {
            engine_laws::timed_answers_are_legal_moves(
                view,
                (ms * 1_000_000) as nat,
                None,
                result,
            );
        },
        (None, Some(control)) => {
            engine_laws::timed_answers_are_legal_moves(view, 0, Some(control), result);
        },
        (None, None) => {
            engine_laws::fixed_answers_are_legal_moves(view, session::depth_of(args));
        },
    }
}

/// An option whose value is invalid, or whose name is unknown, changes nothing
/// but the diagnostics.
pub proof fn invalid_options_keep_the_settings(view: EngineView, name: Seq<char>, value: Seq<char>)
    requires
        OptionKind::named(name) matches Some(kind) ==> kind.set_to(view, value) is None,
    ensures
        session::option_set(view, name, value) == (EngineView {
            diagnostics: session::option_set(view, name, value).diagnostics,
            ..view
        }),
{
}

} // verus!
