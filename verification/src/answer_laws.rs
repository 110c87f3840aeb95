//! What an engine answers with, depending on its settings.

use crate::chess::moves::Move;
use crate::engine::{EngineView, EvaluatorKind, OpeningBookKind};
use crate::eval::{EvalOptions, ExperimentalEvaluator, MaterialEvaluator, PositionalEvaluator};
use crate::search::state::StateView;
use crate::search::{iterative, model};
use vstd::prelude::*;

verus! {

/// Each evaluator is used under its own name, the positional one with mobility, in
/// searches of a fixed depth and in deepening.
pub proof fn evaluators_are_used_by_name(view: EngineView, depth: u32, plies: nat)
    requires
        view.book_offer() is None,
    ensures
        ({
            let p = view.position;
            let line = view.line();
            let fresh = StateView::fresh(view.options);
            let positional = PositionalEvaluator { options: EvalOptions { use_mobility: true } };
            &&& view.evaluator == EvaluatorKind::Material ==> {
                &&& view.searched(depth) == model::root(
                    MaterialEvaluator,
                    p,
                    depth,
                    fresh,
                    line,
                ).result
                &&& view.deepened(plies) == iterative::iterate(
                    MaterialEvaluator,
                    p,
                    plies,
                    view.options,
                    line,
                )
            }
            &&& view.evaluator == EvaluatorKind::Experimental ==> {
                &&& view.searched(depth) == model::root(
                    ExperimentalEvaluator,
                    p,
                    depth,
                    fresh,
                    line,
                ).result
                &&& view.deepened(plies) == iterative::iterate(
                    ExperimentalEvaluator,
                    p,
                    plies,
                    view.options,
                    line,
                )
            }
            &&& view.evaluator == EvaluatorKind::Positional ==> {
                &&& view.searched(depth) == model::root(positional, p, depth, fresh, line).result
                &&& view.deepened(plies) == iterative::iterate(
                    positional,
                    p,
                    plies,
                    view.options,
                    line,
                )
            }
        }),
{
}

/// A book's offer is played without a search: the result names the move, no nodes,
/// no depth and no score. No book offers nothing.
pub proof fn books_are_asked_first(view: EngineView, depth: u32)
    ensures
        view.book == OpeningBookKind::NoBook ==> view.book_offer() is None,
        view.book_offer() matches Some(mv) ==> {
            let answer = view.searched(depth);
            &&& answer.best_move == Some(mv)
            &&& answer.pv == seq![mv]
            &&& answer.nodes == 0
            &&& answer.depth == 0
            &&& answer.score == 0
        },
{
}

/// An engine that has no time to search still plays the first legal move if there is
/// one.
pub proof fn what_is_played_without_time(view: EngineView)
    ensures
        view.position.legal_moves().len() > 0 ==> view.fallback().best_move == Some(
            view.position.legal_moves()[0],
        ),
        view.position.legal_moves().len() == 0 ==> view.fallback().best_move is None,
        view.fallback().nodes == 0,
        view.fallback().depth == 0,
{
}

/// A position that stands for the third time, counting the present one, is a
/// repetition.
pub proof fn third_time_is_a_repetition(view: EngineView, i: int, j: int, k: int)
    requires
        0 <= i < j < k < view.history.len(),
        view.history[i] == view.position.hash(),
        view.history[j] == view.position.hash(),
        view.history[k] == view.position.hash(),
    ensures
        view.is_repeated_twice(),
{
    lemma_counted(view.history, view.position.hash(), seq![i, j, k], view.history.len());
}

/// Occurrences at increasing places are all counted.
proof fn lemma_counted(history: Seq<u64>, hash: u64, places: Seq<int>, n: nat)
    requires
        n <= history.len(),
        forall|a: int, b: int| 0 <= a < b < places.len() ==> places[a] < places[b],
        forall|a: int|
            0 <= a < places.len() ==> 0 <= #[trigger] places[a] < n && history[places[a]] == hash,
    ensures
        model::occurrences(history, hash, n) >= places.len(),
    decreases n,
{
    if places.len() > 0 {
        let last = places.last();
        assert(0 <= places[places.len() - 1] < n);
        let rest = (n - 1) as nat;
        if last == n - 1 {
            let fewer = places.drop_last();
            assert forall|a: int| 0 <= a < fewer.len() implies 0 <= #[trigger] fewer[a] < rest
                && history[fewer[a]] == hash by {
                assert(places[a] < places[places.len() - 1]);
            }
            lemma_counted(history, hash, fewer, rest);
        } else {
            assert forall|a: int| 0 <= a < places.len() implies 0 <= #[trigger] places[a] < rest
                && history[places[a]] == hash by {
                if a < places.len() - 1 {
                    assert(places[a] < places[places.len() - 1]);
                }
            }
            lemma_counted(history, hash, places, rest);
        }
    }
}

/// A position that stood twice at most is no repetition.
pub proof fn twice_is_no_repetition(view: EngineView, i: int, j: int)
    requires
        forall|k: int|
            0 <= k < view.history.len() && #[trigger] view.history[k] == view.position.hash() ==> k
                == i || k == j,
    ensures
        !view.is_repeated_twice(),
{
    lemma_not_counted(view.history, view.position.hash(), i, j, view.history.len());
}

proof fn lemma_not_counted(history: Seq<u64>, hash: u64, i: int, j: int, n: nat)
    requires
        n <= history.len(),
        forall|k: int|
            0 <= k < history.len() && #[trigger] history[k] == hash ==> k == i || k == j,
    ensures
        model::occurrences(history, hash, n) <= (if i < n {
            1int
        } else {
            0
        }) + (if j < n {
            1int
        } else {
            0
        }),
    decreases n,
{
    if n > 0 {
        lemma_not_counted(history, hash, i, j, (n - 1) as nat);
        assert(history[n - 1] == hash ==> n - 1 == i || n - 1 == j);
    }
}

/// A move leads to the position after it, which is added to the record of the game.
pub proof fn moves_are_recorded(view: EngineView, mv: Move)
    ensures
        view.played(mv).position == view.position.made(mv),
        view.played(mv).history.len() == view.history.len() + 1,
        view.played(mv).history.last() == view.position.made(mv).hash(),
        view.played(mv).history.drop_last() == view.history,
{
    assert(view.played(mv).history.drop_last() =~= view.history);
}

} // verus!
