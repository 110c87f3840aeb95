//! What a search counts, and what it keeps from depth to depth.

use super::model::{self, RootProgress};
use super::state::StateView;
use super::{Score, SearchOptions, SCORE_INF};
use crate::chess::moves::Move;
use crate::chess::position::PositionView;
use crate::eval::Evaluator;
use vstd::prelude::*;

verus! {

/// A node where nothing is left to search, because the game is over or the depth is
/// used up, counts as one, without the table and without quiescence.
pub proof fn a_last_node_counts_once<E: Evaluator>(
    evaluator: E,
    p: PositionView,
    alpha: Score,
    beta: Score,
    ply: u32,
    nodes: u64,
    state: StateView,
    path: Seq<u64>,
)
    requires
        nodes < u64::MAX,
        !state.options.use_tt,
        !state.options.use_quiescence,
    ensures
        model::node(evaluator, p, 0, alpha, beta, ply, nodes, state, path, true).nodes == nodes + 1,
        model::node(evaluator, p, 0, alpha, beta, ply, nodes, state, path, true).state == state,
{
}

/// Each quiescence node that searches nothing counts as one.
pub proof fn a_quiet_node_counts_once<E: Evaluator>(
    evaluator: E,
    p: PositionView,
    alpha: Score,
    beta: Score,
    ply: u32,
    start_ply: u32,
    nodes: u64,
    state: StateView,
    path: Seq<u64>,
)
    requires
        nodes < u64::MAX,
        model::rule_draw(p, path) || p.legal_moves().len() == 0 || (!p.checked(p.side)
            && evaluator.value(p) >= beta),
    ensures
        model::quiet_node(
            evaluator,
            p,
            alpha,
            beta,
            ply,
            start_ply,
            nodes,
            state,
            path,
        ).nodes == nodes + 1,
{
}

proof fn lemma_root_moves<E: Evaluator>(
    evaluator: E,
    p: PositionView,
    path: Seq<u64>,
    moves: Seq<Move>,
    index: nat,
    progress: RootProgress,
)
    requires
        index <= moves.len(),
        progress.nodes + (moves.len() - index) <= u64::MAX,
        !progress.state.options.use_tt,
        !progress.state.options.use_quiescence,
    ensures
        model::root_moves(evaluator, p, 1, path, moves, index, progress).nodes == progress.nodes + (
        moves.len() - index),
    decreases moves.len() - index,
{
    reveal_with_fuel(model::root_moves, 2);
    if index < moves.len() {
        let mv = moves[index as int];
        let q = p.made(mv);
        let line = path.push(q.hash());
        let low = model::neg(SCORE_INF);
        let high = model::neg(progress.alpha);
        a_last_node_counts_once(
            evaluator,
            q,
            low,
            high,
            1,
            progress.nodes,
            progress.state,
            line,
        );
        let child = model::node(
            evaluator,
            q,
            0,
            low,
            high,
            1,
            progress.nodes,
            progress.state,
            line,
            true,
        );
        let score = model::neg(child.score);
        let better = score > progress.best;
        let next = RootProgress {
            alpha: model::higher(progress.alpha, score),
            best: if better {
                score
            } else {
                progress.best
            },
            best_move: if better {
                mv
            } else {
                progress.best_move
            },
            pv: if better {
                child.pv.insert(0, mv)
            } else {
                progress.pv
            },
            nodes: child.nodes,
            state: child.state,
            clock_due: progress.clock_due || child.clock_due,
        };
        lemma_root_moves(evaluator, p, path, moves, index + 1, next);
    }
}

/// A search of one ply, without the table and without quiescence, visits the root and
/// the position after each legal move.
pub proof fn one_ply_visits_every_move<E: Evaluator>(
    evaluator: E,
    p: PositionView,
    state: StateView,
    path: Seq<u64>,
)
    requires
        !state.options.use_tt,
        !state.options.use_quiescence,
        !model::rule_draw(p, path),
        p.legal_moves().len() < u64::MAX,
    ensures
        model::root(evaluator, p, 1, state, path).result.nodes == 1 + p.legal_moves().len(),
{
    reveal(model::root);
    let start = state.counters_reset();
    let moves = p.legal_moves();
    if moves.len() > 0 {
        let ordered = super::ordering::ordered(p, moves, start, 0, start.root_best);
        super::ordering::lemma_ordered_members(p, moves, start, 0, start.root_best);
        assert(ordered.len() == moves.len());
        lemma_root_moves(
            evaluator,
            p,
            path,
            ordered,
            0,
            RootProgress {
                alpha: (-SCORE_INF) as i32,
                best: (-SCORE_INF) as i32,
                best_move: ordered[0],
                pv: Seq::empty(),
                nodes: 0,
                state: start,
                clock_due: false,
            },
        );
    }
}

/// Every attempt counts one and nothing else, and so does every success; a search
/// starts counting from zero and keeps what it has learnt.
pub proof fn what_is_counted(state: StateView)
    requires
        state.lmr.attempts < u64::MAX,
        state.lmr.researches < u64::MAX,
        state.null_move.attempts < u64::MAX,
        state.null_move.cutoffs < u64::MAX,
    ensures
        ({
            let tried = model::lmr_attempted(state);
            let again = model::lmr_researched(state);
            let passed = model::null_attempted(state);
            let cut = model::null_cut(state);
            let fresh = state.counters_reset();
            &&& tried.lmr.attempts == state.lmr.attempts + 1
            &&& tried.lmr.researches == state.lmr.researches
            &&& tried == (StateView { lmr: tried.lmr, ..state })
            &&& again.lmr.attempts == state.lmr.attempts
            &&& again.lmr.researches == state.lmr.researches + 1
            &&& again == (StateView { lmr: again.lmr, ..state })
            &&& passed.null_move.attempts == state.null_move.attempts + 1
            &&& passed.null_move.cutoffs == state.null_move.cutoffs
            &&& passed == (StateView { null_move: passed.null_move, ..state })
            &&& cut.null_move.attempts == state.null_move.attempts
            &&& cut.null_move.cutoffs == state.null_move.cutoffs + 1
            &&& cut == (StateView { null_move: cut.null_move, ..state })
            &&& fresh.lmr.attempts == 0 && fresh.lmr.researches == 0
            &&& fresh.null_move.attempts == 0 && fresh.null_move.cutoffs == 0
            &&& fresh.delta_pruning.attempts == 0 && fresh.delta_pruning.pruned == 0
            &&& fresh.see_pruning.attempts == 0 && fresh.see_pruning.pruned == 0
            &&& fresh.table == state.table && fresh.killers == state.killers && fresh.history
                == state.history && fresh.root_best == state.root_best && fresh.options
                == state.options
        }),
{
}

/// Of the captures that pruning looks at it counts each once, and those that it
/// skips once more.
pub proof fn what_pruning_counts(
    p: PositionView,
    mv: Move,
    stand_pat: Score,
    alpha: Score,
    evading: bool,
    state: StateView,
)
    requires
        state.delta_pruning.attempts < u64::MAX,
        state.delta_pruning.pruned < u64::MAX,
        state.see_pruning.attempts < u64::MAX,
        state.see_pruning.pruned < u64::MAX,
    ensures
        ({
            let delta = model::delta_counted(p, mv, stand_pat, alpha, evading, state);
            let see = model::see_counted(p, mv, evading, state);
            let asked = model::considers_delta(p, mv, alpha, evading, state);
            let skipped = model::delta_prunes(p, mv, stand_pat, alpha, evading, state);
            let tried = model::considers_see(p, mv, evading, state);
            let lost = model::see_prunes(p, mv, evading, state);
            &&& delta == (StateView { delta_pruning: delta.delta_pruning, ..state })
            &&& delta.delta_pruning.attempts - state.delta_pruning.attempts == (if asked {
                1int
            } else {
                0
            })
            &&& delta.delta_pruning.pruned - state.delta_pruning.pruned == (if skipped {
                1int
            } else {
                0
            })
            &&& see == (StateView { see_pruning: see.see_pruning, ..state })
            &&& see.see_pruning.attempts - state.see_pruning.attempts == (if tried {
                1int
            } else {
                0
            })
            &&& see.see_pruning.pruned - state.see_pruning.pruned == (if lost {
                1int
            } else {
                0
            })
        }),
{
}

/// A move that reaches beta ends the search of its node: no further node is visited,
/// and what the cutoff teaches, killer and history, is kept. A move that does not
/// teaches nothing by itself.
pub proof fn a_cutoff_ends_a_node_and_is_learnt_from<E: Evaluator>(
    evaluator: E,
    p: PositionView,
    depth: u32,
    beta: Score,
    ply: u32,
    path: Seq<u64>,
    moves: Seq<Move>,
    index: nat,
    progress: model::Progress,
)
    requires
        depth > 0,
        index < moves.len(),
        progress.alpha < beta,
    ensures
        ({
            let mv = moves[index as int];
            let child = model::child_node(
                evaluator,
                p,
                depth,
                progress.alpha,
                beta,
                ply,
                path,
                mv,
                index as int,
                progress.nodes,
                progress.state,
            );
            let end = model::all_moves(
                evaluator,
                p,
                depth,
                beta,
                ply,
                path,
                moves,
                index,
                progress,
            );
            &&& model::neg(child.score) >= beta ==> end.nodes == child.nodes && end.state
                == child.state.after_cutoff(p, mv, ply as int, depth) && end.best >= beta
            &&& model::neg(child.score) < beta && index + 1 == moves.len() ==> end.nodes
                == child.nodes && end.state == child.state
        }),
{
    let mv = moves[index as int];
    let child = model::child_node(
        evaluator,
        p,
        depth,
        progress.alpha,
        beta,
        ply,
        path,
        mv,
        index as int,
        progress.nodes,
        progress.state,
    );
    let next = model::advanced(progress, mv, child);
    if index + 1 == moves.len() && next.alpha < beta {
        assert(model::all_moves(evaluator, p, depth, beta, ply, path, moves, index + 1, next)
            == next);
    }
}

/// A deeper search goes on with what the one before it has learnt, and first tries
/// the move that was best there.
pub proof fn deepening_goes_on_with_what_it_learnt<E: Evaluator>(
    evaluator: E,
    p: PositionView,
    depth: nat,
    options: SearchOptions,
    path: Seq<u64>,
)
    requires
        1 <= depth < u32::MAX,
    ensures
        ({
            let before = model::deepened(evaluator, p, depth, options, path);
            let after = model::deepened(evaluator, p, depth + 1, options, path);
            &&& after == model::root(evaluator, p, (depth + 1) as u32, before.state, path)
            &&& p.legal_moves().len() > 0 && !model::rule_draw(p, path) ==> before.state.root_best
                == before.result.best_move && before.result.best_move is Some
        }),
{
    reveal(model::root);
    let before = model::deepened(evaluator, p, depth, options, path);
    assert(model::deepened(evaluator, p, depth + 1, options, path) == model::root(
        evaluator,
        p,
        (depth + 1) as u32,
        before.state,
        path,
    ));
}

} // verus!
