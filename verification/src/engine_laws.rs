//! What holds of an engine over any number of calls.

use crate::chess::piece::PieceKind;
use crate::chess::position::PositionView;
use crate::diagnostics::DiagnosticView;
use crate::engine::{self, EngineView, EvaluatorKind};
use crate::eval::{
    EvalOptions, Evaluator, ExperimentalEvaluator, MaterialEvaluator, PositionalEvaluator,
};
use crate::search::state::StateView;
use crate::search::time_manager::ClockTimeControl;
use crate::search::{laws, model, SearchOptions, SearchResultView};
use vstd::prelude::*;

verus! {

/// A call that may change an engine.
pub enum EngineCall {
    /// `set_position`.
    SetPosition(PositionView),
    /// `apply_move`, by the two squares and the promotion.
    ApplyMove(int, int, Option<PieceKind>),
    /// `search` and its forms with a time limit.
    Search,
    /// `new_game`.
    NewGame,
    /// `set_debug`, `set_evaluator` and the other settings.
    Configure(EngineView),
    /// `emit_diagnostic` and `note`.
    Emit(DiagnosticView),
    /// `take_diagnostics`.
    TakeDiagnostics,
}

/// An engine after a call.
pub open spec fn called(engine: EngineView, call: EngineCall) -> EngineView {
    match call {
        EngineCall::SetPosition(p) => engine.moved_to(p),
        EngineCall::ApplyMove(from, to, promotion) => match engine.legal_match(
            from,
            to,
            promotion,
        ) {
            Some(mv) => engine.played(mv),
            None => engine,
        },
        EngineCall::Search => engine,
        EngineCall::NewGame => engine,
        EngineCall::Configure(settings) => EngineView {
            position: engine.position,
            history: engine.history,
            diagnostics: engine.diagnostics,
            ..settings
        },
        EngineCall::Emit(diagnostic) => engine.noted(diagnostic.level, diagnostic.message),
        EngineCall::TakeDiagnostics => engine.drained(),
    }
}

/// An engine after some calls, one after another.
pub open spec fn run(engine: EngineView, calls: Seq<EngineCall>) -> EngineView
    decreases calls.len(),
{
    if calls.len() == 0 {
        engine
    } else {
        called(run(engine, calls.drop_last()), calls.last())
    }
}

/// Whether a call plays a move: one that is refused does not.
pub open spec fn plays(engine: EngineView, call: EngineCall) -> bool {
    call matches EngineCall::ApplyMove(from, to, promotion) && engine.legal_match(
        from,
        to,
        promotion,
    ) is Some
}

/// The positions of the game that an engine is in after some calls: the one
/// that was set last, or else the first, and one more after each move played.
pub open spec fn game(engine: EngineView, calls: Seq<EngineCall>) -> Seq<PositionView>
    decreases calls.len(),
{
    if calls.len() == 0 {
        seq![engine.position]
    } else {
        let before = run(engine, calls.drop_last());
        match calls.last() {
            EngineCall::SetPosition(p) => seq![p],
            call => if plays(before, call) {
                game(engine, calls.drop_last()).push(called(before, call).position)
            } else {
                game(engine, calls.drop_last())
            },
        }
    }
}

/// The diagnostics that some calls emit, in order.
pub open spec fn emitted(calls: Seq<EngineCall>) -> Seq<DiagnosticView>
    decreases calls.len(),
{
    if calls.len() == 0 {
        seq![]
    } else {
        match calls.last() {
            EngineCall::Emit(diagnostic) => emitted(calls.drop_last()).push(diagnostic),
            _ => emitted(calls.drop_last()),
        }
    }
}

/// After any calls to an engine at the start of a game, the history holds the
/// hashes of the game's positions, in order, and the game ends with the
/// current position: searches, settings, refused moves and `new_game` leave no
/// trace, and setting a position starts anew.
pub proof fn history_records_the_game(engine: EngineView, calls: Seq<EngineCall>)
    requires
        engine.history == seq![engine.position.hash()],
    ensures
        game(engine, calls).len() > 0,
        run(engine, calls).position == game(engine, calls).last(),
        run(engine, calls).history == game(engine, calls).map_values(
            |p: PositionView| p.hash(),
        ),
    decreases calls.len(),
{
    let hash = |p: PositionView| p.hash();
    let played = game(engine, calls);
    if calls.len() == 0 {
        assert(played.map_values(hash) =~= engine.history);
    } else {
        let before = run(engine, calls.drop_last());
        let earlier = game(engine, calls.drop_last());
        history_records_the_game(engine, calls.drop_last());
        if calls.last() is SetPosition {
            assert(played.map_values(hash) =~= run(engine, calls).history);
        } else if plays(before, calls.last()) {
            assert(played.map_values(hash) =~= earlier.map_values(hash).push(
                called(before, calls.last()).position.hash(),
            ));
        }
    }
}

/// After any calls to an engine at the start of a game, a repetition is
/// reported exactly if at least three positions of the game, the current one
/// among them, have the hash of the current one.
pub proof fn repetition_counts_the_positions_of_the_game(
    engine: EngineView,
    calls: Seq<EngineCall>,
)
    requires
        engine.history == seq![engine.position.hash()],
    ensures
        run(engine, calls).is_repeated_twice() <==> game(engine, calls).filter(
            |p: PositionView| p.hash() == run(engine, calls).position.hash(),
        ).len() >= 3,
{
    let played = game(engine, calls);
    let current = run(engine, calls).position.hash();
    history_records_the_game(engine, calls);
    lemma_occurrences(played, run(engine, calls).history, current);
}

/// Counting hashes is counting the positions that have them.
proof fn lemma_occurrences(positions: Seq<PositionView>, hashes: Seq<u64>, hash: u64)
    requires
        hashes == positions.map_values(|p: PositionView| p.hash()),
    ensures
        model::occurrences(hashes, hash, hashes.len()) == positions.filter(
            |p: PositionView| p.hash() == hash,
        ).len(),
    decreases positions.len(),
{
    reveal(Seq::filter);
    if positions.len() > 0 {
        let shorter = hashes.drop_last();
        assert(shorter =~= positions.drop_last().map_values(|p: PositionView| p.hash()));
        lemma_occurrences(positions.drop_last(), shorter, hash);
        lemma_same_occurrences(hashes, shorter, hash, shorter.len());
    }
}

proof fn lemma_same_occurrences(a: Seq<u64>, b: Seq<u64>, hash: u64, n: nat)
    requires
        n <= a.len(),
        n <= b.len(),
        forall|k: int| 0 <= k < n ==> a[k] == b[k],
    ensures
        model::occurrences(a, hash, n) == model::occurrences(b, hash, n),
    decreases n,
{
    if n > 0 {
        lemma_same_occurrences(a, b, hash, (n - 1) as nat);
    }
}

/// As long as nothing takes them, the diagnostics that are emitted pile up, in
/// order, behind those that were there.
pub proof fn diagnostics_pile_up_in_order(engine: EngineView, calls: Seq<EngineCall>)
    requires
        forall|k: int| 0 <= k < calls.len() ==> !(#[trigger] calls[k] is TakeDiagnostics),
    ensures
        run(engine, calls).diagnostics == engine.diagnostics + emitted(calls),
    decreases calls.len(),
{
    if calls.len() == 0 {
        assert(engine.diagnostics + emitted(calls) =~= engine.diagnostics);
    } else {
        let earlier = calls.drop_last();
        assert forall|k: int| 0 <= k < earlier.len() implies !(
        #[trigger] earlier[k] is TakeDiagnostics) by {
            assert(earlier[k] == calls[k]);
        }
        diagnostics_pile_up_in_order(engine, earlier);
        assert(run(engine, calls).diagnostics =~= engine.diagnostics + emitted(calls));
    }
}

/// Taking the diagnostics after some calls gives those that the calls emitted,
/// each once and in order, behind those that were there; and taking them again,
/// after calls that emit none, gives none.
pub proof fn diagnostics_are_taken_once(
    engine: EngineView,
    calls: Seq<EngineCall>,
    later: Seq<EngineCall>,
)
    requires
        forall|k: int| 0 <= k < calls.len() ==> !(#[trigger] calls[k] is TakeDiagnostics),
        forall|k: int|
            0 <= k < later.len() ==> !(#[trigger] later[k] is TakeDiagnostics),
    ensures
        run(engine, calls).diagnostics == engine.diagnostics + emitted(calls),
        run(run(engine, calls).drained(), later).diagnostics == emitted(later),
        emitted(later).len() == 0 ==> run(run(engine, calls).drained(), later).diagnostics.len()
            == 0,
{
    diagnostics_pile_up_in_order(engine, calls);
    diagnostics_pile_up_in_order(run(engine, calls).drained(), later);
    assert(Seq::<DiagnosticView>::empty() + emitted(later) =~= emitted(later));
}

/// Whether a result names a legal move exactly if there is one.
pub open spec fn names_a_legal_move(p: PositionView, result: SearchResultView) -> bool {
    &&& result.best_move is None <==> p.legal_moves().len() == 0
    &&& result.best_move matches Some(mv) ==> p.legal_moves().contains(mv)
}

proof fn lemma_deepened<E: Evaluator>(
    evaluator: E,
    p: PositionView,
    depth: nat,
    options: SearchOptions,
    line: Seq<u64>,
)
    ensures
        names_a_legal_move(
            p,
            crate::search::iterative::iterate(evaluator, p, depth, options, line),
        ),
{
    if depth <= 1 {
        laws::search_answers_with_a_legal_move(evaluator, p, 1, StateView::fresh(options), line);
    } else {
        laws::search_answers_with_a_legal_move(
            evaluator,
            p,
            depth as u32,
            model::deepened(evaluator, p, (depth - 1) as nat, options, line).state,
            line,
        );
    }
}

/// What the opening book offers is legal.
proof fn lemma_book_offer(p: PositionView, k: nat)
    ensures
        crate::book::cow_offer(p, k) matches Some(mv) ==> p.legal_moves().contains(mv),
    decreases 6 - k,
{
    if k < 6 {
        lemma_book_offer(p, k + 1);
    }
}

proof fn lemma_unsearched(engine: EngineView)
    ensures
        engine.book_offer() matches Some(mv) ==> names_a_legal_move(
            engine.position,
            engine::unsearched(Some(mv)),
        ),
        names_a_legal_move(engine.position, engine.fallback()),
{
    let moves = engine.position.legal_moves();
    lemma_book_offer(engine.position, 0);
    if let Some(mv) = engine.book_offer() {
        let k = choose|k: int| 0 <= k < moves.len() && moves[k] == mv;
        assert(moves.len() > 0);
    }
    if moves.len() > 0 {
        assert(moves.contains(moves[0]));
    }
}

/// What deepening to any depth finds names a legal move exactly if there is
/// one.
pub proof fn deepening_finds_legal_moves(engine: EngineView, depth: nat)
    ensures
        names_a_legal_move(engine.position, engine.deepened(depth)),
{
    let p = engine.position;
    let options = engine.options;
    let line = engine.line();
    match engine.evaluator {
        EvaluatorKind::Experimental => {
            lemma_deepened(ExperimentalEvaluator, p, depth, options, line);
        },
        EvaluatorKind::Material => {
            lemma_deepened(MaterialEvaluator, p, depth, options, line);
        },
        EvaluatorKind::Positional => {
            let positional = PositionalEvaluator { options: EvalOptions { use_mobility: true } };
            lemma_deepened(positional, p, depth, options, line);
        },
    }
}

/// Whatever the time limit, and whatever the clock and the stop signal say, a
/// timed search answers with a legal move exactly if there is one.
pub proof fn timed_answers_are_legal_moves(
    engine: EngineView,
    budget_ns: nat,
    control: Option<ClockTimeControl>,
    result: SearchResultView,
)
    requires
        engine.answers_in_time(budget_ns, result) || engine.answers_unless_stopped(
            budget_ns,
            result,
        ) || (control matches Some(clock) && engine.answers_on_clock(clock, result)),
    ensures
        names_a_legal_move(engine.position, result),
{
    lemma_unsearched(engine);
    deepening_finds_legal_moves(engine, result.depth as nat);
}

/// A search to a fixed depth answers with a legal move exactly if there is one.
pub proof fn fixed_answers_are_legal_moves(engine: EngineView, depth: u32)
    ensures
        names_a_legal_move(engine.position, engine.searched(depth)),
{
    let p = engine.position;
    let line = engine.line();
    let fresh = StateView::fresh(engine.options);
    lemma_unsearched(engine);
    match engine.evaluator {
        EvaluatorKind::Experimental => {
            laws::search_answers_with_a_legal_move(ExperimentalEvaluator, p, depth, fresh, line);
        },
        EvaluatorKind::Material => {
            laws::search_answers_with_a_legal_move(MaterialEvaluator, p, depth, fresh, line);
        },
        EvaluatorKind::Positional => {
            let positional = PositionalEvaluator { options: EvalOptions { use_mobility: true } };
            laws::search_answers_with_a_legal_move(positional, p, depth, fresh, line);
        },
    }
}

} // verus!
