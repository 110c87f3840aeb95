//! The line that a search reports can be played.

use super::model::{self, Progress, QuietProgress, RootProgress, MAX_QUIESCENCE_PLY};
use super::ordering;
use super::state::StateView;
use super::{Score, SCORE_INF};
use crate::chess::moves::Move;
use crate::chess::position::PositionView;
use crate::eval::Evaluator;
use vstd::prelude::*;

verus! {

/// Whether the moves can be played one after the other; with `but_last`, the
/// last one need not be legal.
pub open spec fn playable(p: PositionView, line: Seq<Move>, but_last: bool) -> bool
    decreases line.len(),
{
    line.len() == 0 || (but_last && line.len() == 1) || (p.legal_moves().contains(line[0])
        && playable(p.made(line[0]), line.skip(1), but_last))
}

/// A legal move before a line that can be played after it.
proof fn lemma_longer_line(p: PositionView, mv: Move, line: Seq<Move>, but_last: bool)
    requires
        p.legal_moves().contains(mv),
        playable(p.made(mv), line, but_last),
    ensures
        playable(p, line.insert(0, mv), but_last),
{
    assert(line.insert(0, mv).skip(1) =~= line);
}

/// Quiescence changes no options.
#[verifier::spinoff_prover]
proof fn lemma_quiet_options<E: Evaluator>(
    evaluator: E,
    p: PositionView,
    alpha: Score,
    beta: Score,
    ply: u32,
    start_ply: u32,
    nodes: u64,
    state: StateView,
    path: Seq<u64>,
)
    ensures
        model::quiet_node(
            evaluator,
            p,
            alpha,
            beta,
            ply,
            start_ply,
            nodes,
            state,
            path,
        ).state.options == state.options,
    decreases
            (if model::quiet_depth(ply, start_ply) < MAX_QUIESCENCE_PLY {
                (MAX_QUIESCENCE_PLY - model::quiet_depth(ply, start_ply)) as nat
            } else {
                0nat
            }),
            1nat,
            0nat,
{
    let evading = model::evades(p, state);
    let stand_pat = evaluator.value(p);
    lemma_quiet_moves_options(
        evaluator,
        p,
        stand_pat,
        beta,
        ply,
        start_ply,
        path,
        evading,
        model::noisy_moves(p, state),
        0,
        QuietProgress {
            alpha: if evading {
                alpha
            } else {
                model::higher(alpha, stand_pat)
            },
            best: if evading {
                (-SCORE_INF) as i32
            } else {
                stand_pat
            },
            nodes: nodes.wrapping_add(1),
            state,
            clock_due: false,
        },
    );
}

#[verifier::spinoff_prover]
proof fn lemma_quiet_moves_options<E: Evaluator>(
    evaluator: E,
    p: PositionView,
    stand_pat: Score,
    beta: Score,
    ply: u32,
    start_ply: u32,
    path: Seq<u64>,
    evading: bool,
    moves: Seq<Move>,
    index: nat,
    progress: QuietProgress,
)
    ensures
        model::quiet_moves(
            evaluator,
            p,
            stand_pat,
            beta,
            ply,
            start_ply,
            path,
            evading,
            moves,
            index,
            progress,
        ).state.options == progress.state.options,
    decreases
            (if model::quiet_depth(ply, start_ply) < MAX_QUIESCENCE_PLY {
                (MAX_QUIESCENCE_PLY - model::quiet_depth(ply, start_ply)) as nat
            } else {
                0nat
            }),
            0nat,
            moves.len() - index,
{
    if index < moves.len() && model::quiet_depth(ply, start_ply) < MAX_QUIESCENCE_PLY {
        let mv = moves[index as int];
        let counted = model::delta_counted(
            p,
            mv,
            stand_pat,
            progress.alpha,
            evading,
            progress.state,
        );
        let seen = model::see_counted(p, mv, evading, counted);
        assert(counted.options == progress.state.options);
        assert(seen.options == progress.state.options);
        if model::delta_prunes(p, mv, stand_pat, progress.alpha, evading, progress.state) {
            lemma_quiet_moves_options(
                evaluator,
                p,
                stand_pat,
                beta,
                ply,
                start_ply,
                path,
                evading,
                moves,
                index + 1,
                QuietProgress { state: counted, ..progress },
            );
        } else if model::see_prunes(p, mv, evading, counted) {
            lemma_quiet_moves_options(
                evaluator,
                p,
                stand_pat,
                beta,
                ply,
                start_ply,
                path,
                evading,
                moves,
                index + 1,
                QuietProgress { state: seen, ..progress },
            );
        } else {
            let q = p.made(mv);
            let line = path.push(q.hash());
            let below = ply.wrapping_add(1);
            assert(model::quiet_depth(below, start_ply) == model::quiet_depth(ply, start_ply) + 1);
            lemma_quiet_options(
                evaluator,
                q,
                model::neg(beta),
                model::neg(progress.alpha),
                below,
                start_ply,
                progress.nodes,
                seen,
                line,
            );
            let child = model::quiet_node(
                evaluator,
                q,
                model::neg(beta),
                model::neg(progress.alpha),
                below,
                start_ply,
                progress.nodes,
                seen,
                line,
            );
            let score = model::neg(child.score);
            let next = QuietProgress {
                alpha: model::higher(progress.alpha, score),
                best: model::higher(progress.best, score),
                nodes: child.nodes,
                state: child.state,
                clock_due: progress.clock_due || child.clock_due,
            };
            if next.alpha < beta {
                lemma_quiet_moves_options(
                    evaluator,
                    p,
                    stand_pat,
                    beta,
                    ply,
                    start_ply,
                    path,
                    evading,
                    moves,
                    index + 1,
                    next,
                );
            }
        }
    }
}

/// What is found at a node is a line that can be played, and no options change.
#[verifier::spinoff_prover]
proof fn lemma_node_line<E: Evaluator>(
    evaluator: E,
    p: PositionView,
    depth: u32,
    alpha: Score,
    beta: Score,
    ply: u32,
    nodes: u64,
    state: StateView,
    path: Seq<u64>,
    allow_null: bool,
)
    ensures
        ({
            let found = model::node(
                evaluator,
                p,
                depth,
                alpha,
                beta,
                ply,
                nodes,
                state,
                path,
                allow_null,
            );
            &&& playable(p, found.pv, state.options.use_tt)
            &&& found.state.options == state.options
        }),
    decreases depth, 3nat, 0nat,
{
    let visited = nodes.wrapping_add(1);
    let probe = model::probe_node(p, depth, alpha, beta, ply, state, path);
    assert(probe.state.options == state.options);
    if !model::rule_draw(p, path) && probe.found is None && p.legal_moves().len() > 0 {
        if depth == 0 {
            lemma_quiet_options(
                evaluator,
                p,
                probe.alpha,
                probe.beta,
                ply,
                ply,
                visited,
                probe.state,
                path,
            );
        } else {
            lemma_null_options(
                evaluator,
                p,
                depth,
                probe.beta,
                ply,
                visited,
                probe.state,
                path,
                allow_null,
            );
            let passed = model::null_try(
                evaluator,
                p,
                depth,
                probe.beta,
                ply,
                visited,
                probe.state,
                path,
                allow_null,
            );
            if passed.cutoff is None {
                let ordered = ordering::ordered(
                    p,
                    p.legal_moves(),
                    passed.state,
                    ply as int,
                    probe.tt_move,
                );
                ordering::lemma_ordered_members(
                    p,
                    p.legal_moves(),
                    passed.state,
                    ply as int,
                    probe.tt_move,
                );
                assert forall|k: int| 0 <= k < ordered.len() implies p.legal_moves().contains(
                    #[trigger] ordered[k],
                ) by {
                    assert(ordered.contains(ordered[k]));
                }
                lemma_all_moves_line(
                    evaluator,
                    p,
                    depth,
                    probe.beta,
                    ply,
                    path,
                    ordered,
                    0,
                    Progress {
                        alpha: probe.alpha,
                        best: (-SCORE_INF) as i32,
                        best_move: None,
                        pv: Seq::empty(),
                        nodes: passed.nodes,
                        state: passed.state,
                        clock_due: false,
                    },
                );
            }
        }
    }
}

#[verifier::spinoff_prover]
proof fn lemma_null_options<E: Evaluator>(
    evaluator: E,
    p: PositionView,
    depth: u32,
    beta: Score,
    ply: u32,
    nodes: u64,
    state: StateView,
    path: Seq<u64>,
    allow_null: bool,
)
    ensures
        model::null_try(
            evaluator,
            p,
            depth,
            beta,
            ply,
            nodes,
            state,
            path,
            allow_null,
        ).state.options == state.options,
    decreases depth, 2nat, 0nat,
{
    if model::tries_null(p, depth, beta, state, allow_null) {
        let reduction = model::null_reduction(depth, state.options.use_adaptive_null_move);
        lemma_node_line(
            evaluator,
            p.passed(),
            (depth - 1 - reduction) as u32,
            model::neg(beta),
            model::neg(beta).wrapping_add(1),
            ply.wrapping_add(1),
            nodes,
            model::null_attempted(state),
            path,
            false,
        );
    }
}

#[verifier::spinoff_prover]
proof fn lemma_all_moves_line<E: Evaluator>(
    evaluator: E,
    p: PositionView,
    depth: u32,
    beta: Score,
    ply: u32,
    path: Seq<u64>,
    moves: Seq<Move>,
    index: nat,
    progress: Progress,
)
    requires
        forall|k: int| 0 <= k < moves.len() ==> p.legal_moves().contains(#[trigger] moves[k]),
        playable(p, progress.pv, progress.state.options.use_tt),
    ensures
        ({
            let end = model::all_moves(
                evaluator,
                p,
                depth,
                beta,
                ply,
                path,
                moves,
                index,
                progress,
            );
            &&& playable(p, end.pv, progress.state.options.use_tt)
            &&& end.state.options == progress.state.options
        }),
    decreases depth, 2nat, moves.len() - index,
{
    if index < moves.len() && depth > 0 {
        let mv = moves[index as int];
        lemma_child_line(
            evaluator,
            p,
            depth,
            progress.alpha,
            beta,
            ply,
            path,
            mv,
            index as int,
            progress.nodes,
            progress.state,
        );
        let child = model::child_node(
            evaluator,
            p,
            depth,
            progress.alpha,
            beta,
            ply,
            path,
            mv,
            index as int,
            progress.nodes,
            progress.state,
        );
        let next = model::advanced(progress, mv, child);
        lemma_longer_line(p, mv, child.pv, progress.state.options.use_tt);
        if next.alpha < beta {
            lemma_all_moves_line(evaluator, p, depth, beta, ply, path, moves, index + 1, next);
        }
    }
}

#[verifier::spinoff_prover]
proof fn lemma_child_line<E: Evaluator>(
    evaluator: E,
    p: PositionView,
    depth: u32,
    alpha: Score,
    beta: Score,
    ply: u32,
    path: Seq<u64>,
    mv: Move,
    index: int,
    nodes: u64,
    state: StateView,
)
    requires
        depth > 0,
    ensures
        ({
            let child = model::child_node(
                evaluator,
                p,
                depth,
                alpha,
                beta,
                ply,
                path,
                mv,
                index,
                nodes,
                state,
            );
            &&& playable(p.made(mv), child.pv, state.options.use_tt)
            &&& child.state.options == state.options
        }),
    decreases depth, 1nat, 0nat,
{
    let q = p.made(mv);
    let line = path.push(q.hash());
    let below = ply.wrapping_add(1);
    let full = (depth - 1) as u32;
    if index == 0 {
        lemma_node_line(
            evaluator,
            q,
            full,
            model::neg(beta),
            model::neg(alpha),
            below,
            nodes,
            state,
            line,
            true,
        );
    } else {
        lemma_scout_line(evaluator, p, depth, alpha, ply, path, mv, index, nodes, state);
        let scout = model::scout_node(
            evaluator,
            p,
            depth,
            alpha,
            ply,
            path,
            mv,
            index,
            nodes,
            state,
        );
        lemma_node_line(
            evaluator,
            q,
            full,
            model::neg(beta),
            model::neg(alpha),
            below,
            scout.nodes,
            scout.state,
            line,
            true,
        );
    }
}

#[verifier::spinoff_prover]
proof fn lemma_scout_line<E: Evaluator>(
    evaluator: E,
    p: PositionView,
    depth: u32,
    alpha: Score,
    ply: u32,
    path: Seq<u64>,
    mv: Move,
    index: int,
    nodes: u64,
    state: StateView,
)
    requires
        depth > 0,
    ensures
        ({
            let scout = model::scout_node(
                evaluator,
                p,
                depth,
                alpha,
                ply,
                path,
                mv,
                index,
                nodes,
                state,
            );
            &&& playable(p.made(mv), scout.pv, state.options.use_tt)
            &&& scout.state.options == state.options
        }),
    decreases depth, 0nat, 0nat,
{
    let q = p.made(mv);
    let line = path.push(q.hash());
    let below = ply.wrapping_add(1);
    let full = (depth - 1) as u32;
    let low = model::neg(alpha).wrapping_sub(1);
    let high = model::neg(alpha);
    if model::reduces(p, depth, ply, state, mv, index) {
        let counted = model::lmr_attempted(state);
        lemma_node_line(
            evaluator,
            q,
            (depth - 2) as u32,
            low,
            high,
            below,
            nodes,
            counted,
            line,
            true,
        );
        let reduced = model::node(
            evaluator,
            q,
            (depth - 2) as u32,
            low,
            high,
            below,
            nodes,
            counted,
            line,
            true,
        );
        lemma_node_line(
            evaluator,
            q,
            full,
            low,
            high,
            below,
            reduced.nodes,
            model::lmr_researched(reduced.state),
            line,
            true,
        );
    } else {
        lemma_node_line(evaluator, q, full, low, high, below, nodes, state, line, true);
    }
}

#[verifier::spinoff_prover]
proof fn lemma_root_moves_line<E: Evaluator>(
    evaluator: E,
    p: PositionView,
    depth: u32,
    path: Seq<u64>,
    moves: Seq<Move>,
    index: nat,
    progress: RootProgress,
)
    requires
        forall|k: int| 0 <= k < moves.len() ==> p.legal_moves().contains(#[trigger] moves[k]),
        playable(p, progress.pv, progress.state.options.use_tt),
    ensures
        ({
            let end = model::root_moves(evaluator, p, depth, path, moves, index, progress);
            &&& playable(p, end.pv, progress.state.options.use_tt)
            &&& end.state.options == progress.state.options
        }),
    decreases moves.len() - index,
{
    reveal(model::root_moves);
    if index < moves.len() {
        let mv = moves[index as int];
        let q = p.made(mv);
        lemma_node_line(
            evaluator,
            q,
            (depth - 1) as u32,
            model::neg(SCORE_INF),
            model::neg(progress.alpha),
            1,
            progress.nodes,
            progress.state,
            path.push(q.hash()),
            true,
        );
        let child = model::node(
            evaluator,
            q,
            (depth - 1) as u32,
            model::neg(SCORE_INF),
            model::neg(progress.alpha),
            1,
            progress.nodes,
            progress.state,
            path.push(q.hash()),
            true,
        );
        let score = model::neg(child.score);
        let better = score > progress.best;
        let next = RootProgress {
            alpha: model::higher(progress.alpha, score),
            best: if better {
                score
            } else {
                progress.best
            },
            best_move: if better {
                mv
            } else {
                progress.best_move
            },
            pv: if better {
                child.pv.insert(0, mv)
            } else {
                progress.pv
            },
            nodes: child.nodes,
            state: child.state,
            clock_due: progress.clock_due || child.clock_due,
        };
        lemma_longer_line(p, mv, child.pv, progress.state.options.use_tt);
        lemma_root_moves_line(evaluator, p, depth, path, moves, index + 1, next);
    }
}

/// The line that a search reports can be played from the position searched:
/// all of it without the transposition table, and all but perhaps its last
/// move with it. That last move may come out of the table, where it was put
/// for a position with the same key. A search changes no options.
pub proof fn the_reported_line_is_playable<E: Evaluator>(
    evaluator: E,
    p: PositionView,
    depth: u32,
    state: StateView,
    path: Seq<u64>,
)
    ensures
        ({
            let found = model::root(evaluator, p, depth, state, path);
            &&& playable(p, found.result.pv, state.options.use_tt)
            &&& found.state.options == state.options
        }),
{
    reveal(model::root);
    let moves = p.legal_moves();
    if moves.len() > 0 && !model::rule_draw(p, path) {
        let start = state.counters_reset();
        let ordered = ordering::ordered(p, moves, start, 0, start.root_best);
        ordering::lemma_ordered_members(p, moves, start, 0, start.root_best);
        assert forall|k: int| 0 <= k < ordered.len() implies moves.contains(
            #[trigger] ordered[k],
        ) by {
            assert(ordered.contains(ordered[k]));
        }
        lemma_root_moves_line(
            evaluator,
            p,
            depth,
            path,
            ordered,
            0,
            RootProgress {
                alpha: (-SCORE_INF) as i32,
                best: (-SCORE_INF) as i32,
                best_move: ordered[0],
                pv: Seq::empty(),
                nodes: 0,
                state: start,
                clock_due: false,
            },
        );
    } else if moves.len() > 0 {
        let line = seq![moves[0]];
        assert(moves.contains(line[0]));
        assert(line.skip(1) =~= Seq::<Move>::empty());
        reveal_with_fuel(playable, 2);
    }
}

} // verus!
