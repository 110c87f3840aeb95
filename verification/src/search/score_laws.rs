//! With an evaluator that keeps clear of the scores of mates, every score that
//! a search finds is one of an evaluation or of a mate that is still to come,
//! and the line that a search reports is never empty.

use super::model::{
    self, Outcome, Progress, QuietProgress, RootProgress, MAX_QUIESCENCE_PLY,
};
use super::state::StateView;
use super::tt::TableView;
use super::{ordering, quiet_laws};
use super::{Score, SearchOptions, MATE_THRESHOLD, SCORE_INF, SCORE_MATE};
use crate::chess::moves::Move;
use crate::chess::position::PositionView;
use crate::eval::Evaluator;
use vstd::prelude::*;

verus! {

/// Whether an evaluation cannot be taken for a mate.
pub open spec fn ordinary(score: int) -> bool {
    -MATE_THRESHOLD < score < MATE_THRESHOLD
}

/// Whether the evaluator keeps clear of the scores of mates at every position
/// that is reached within `depth` plies, by legal moves and by passing.
#[verifier::opaque]
pub open spec fn calm<E: Evaluator>(evaluator: E, p: PositionView, depth: nat) -> bool
    decreases depth,
{
    &&& ordinary(evaluator.value(p) as int)
    &&& depth > 0 ==> calm(evaluator, p.passed(), (depth - 1) as nat)
    &&& depth > 0 ==> forall|k: int|
        0 <= k < p.legal_moves().len() ==> calm(
            evaluator,
            p.made(#[trigger] p.legal_moves()[k]),
            (depth - 1) as nat,
        )
}

/// Whether a score at `ply` is an ordinary one or that of a mate at `ply` or
/// deeper.
pub open spec fn plausible(score: int, ply: int) -> bool {
    &&& -SCORE_MATE <= score <= SCORE_MATE
    &&& score >= MATE_THRESHOLD ==> score + ply <= SCORE_MATE
    &&& score <= -MATE_THRESHOLD ==> -score + ply <= SCORE_MATE
}

/// Whether all scores that a table holds are plausible.
#[verifier::opaque]
pub open spec fn plausible_table(table: TableView) -> bool {
    forall|key: u128| #[trigger]
        table.entries.contains_key(key) ==> plausible(table.entries[key].score as int, 0)
}

/// The plies that a search to `depth` may go.
pub open spec fn reach(depth: nat) -> nat {
    depth + MAX_QUIESCENCE_PLY as nat
}

/// How deep a search may go before the distances of mates run out.
pub open spec fn in_reach(ply: int, depth: int) -> bool {
    ply + depth < 50_000
}

/// An evaluator that keeps clear of the scores of mates everywhere does so
/// wherever a search comes.
pub proof fn bounded_evaluators_are_calm<E: Evaluator>(evaluator: E, p: PositionView, depth: nat)
    requires
        forall|q: PositionView| ordinary(#[trigger] evaluator.value(q) as int),
    ensures
        calm(evaluator, p, depth),
    decreases depth,
{
    reveal(calm);
    if depth > 0 {
        bounded_evaluators_are_calm(evaluator, p.passed(), (depth - 1) as nat);
        assert forall|k: int| 0 <= k < p.legal_moves().len() implies calm(
            evaluator,
            p.made(#[trigger] p.legal_moves()[k]),
            (depth - 1) as nat,
        ) by {
            bounded_evaluators_are_calm(
                evaluator,
                p.made(p.legal_moves()[k]),
                (depth - 1) as nat,
            );
        }
    }
}

/// What is calm to some depth is calm to a lower one.
proof fn lemma_calm_shallower<E: Evaluator>(evaluator: E, p: PositionView, deep: nat, depth: nat)
    requires
        calm(evaluator, p, deep),
        depth <= deep,
    ensures
        calm(evaluator, p, depth),
    decreases depth,
{
    reveal(calm);
    if depth > 0 {
        lemma_calm_shallower(evaluator, p.passed(), (deep - 1) as nat, (depth - 1) as nat);
        assert forall|k: int| 0 <= k < p.legal_moves().len() implies calm(
            evaluator,
            p.made(#[trigger] p.legal_moves()[k]),
            (depth - 1) as nat,
        ) by {
            lemma_calm_shallower(
                evaluator,
                p.made(p.legal_moves()[k]),
                (deep - 1) as nat,
                (depth - 1) as nat,
            );
        }
    }
}

/// A legal move leads from a calm position to one.
proof fn lemma_calm_move<E: Evaluator>(evaluator: E, p: PositionView, depth: nat, mv: Move)
    requires
        depth > 0,
        calm(evaluator, p, depth),
        p.legal_moves().contains(mv),
    ensures
        calm(evaluator, p.made(mv), (depth - 1) as nat),
{
    reveal(calm);
    let k = choose|k: int| 0 <= k < p.legal_moves().len() && p.legal_moves()[k] == mv;
    assert(calm(evaluator, p.made(p.legal_moves()[k]), (depth - 1) as nat));
}

/// The evaluator keeps clear of the scores of mates here and after passing.
proof fn lemma_calm_here<E: Evaluator>(evaluator: E, p: PositionView, depth: nat)
    requires
        calm(evaluator, p, depth),
    ensures
        ordinary(evaluator.value(p) as int),
        depth > 0 ==> calm(evaluator, p.passed(), (depth - 1) as nat),
{
    reveal(calm);
}

/// What is plausible one ply deeper is plausible with the opposite sign here.
proof fn lemma_neg(score: Score, ply: int)
    requires
        plausible(score as int, ply + 1),
    ensures
        plausible(model::neg(score) as int, ply),
        model::neg(score) > -SCORE_INF,
{
}

/// What quiescence finds is plausible.
proof fn lemma_quiet_score<E: Evaluator>(
    evaluator: E,
    p: PositionView,
    alpha: Score,
    beta: Score,
    ply: u32,
    start_ply: u32,
    nodes: u64,
    state: StateView,
    path: Seq<u64>,
)
    requires
        start_ply <= ply <= start_ply + MAX_QUIESCENCE_PLY,
        in_reach(start_ply as int, 0),
        calm(evaluator, p, (start_ply + MAX_QUIESCENCE_PLY - ply) as nat),
        plausible_table(state.table),
    ensures
        ({
            let found = model::quiet_node(
                evaluator,
                p,
                alpha,
                beta,
                ply,
                start_ply,
                nodes,
                state,
                path,
            );
            &&& plausible(found.score as int, ply as int)
            &&& plausible_table(found.state.table)
        }),
    decreases start_ply + MAX_QUIESCENCE_PLY - ply, 1nat, 0nat,
{
    lemma_calm_here(evaluator, p, (start_ply + MAX_QUIESCENCE_PLY - ply) as nat);
    let evading = model::evades(p, state);
    let stand_pat = evaluator.value(p);
    let moves = model::noisy_moves(p, state);
    if !model::rule_draw(p, path) && p.legal_moves().len() > 0 && (evading || stand_pat < beta)
        && model::quiet_depth(ply, start_ply) < MAX_QUIESCENCE_PLY {
        quiet_laws::lemma_noisy_members(p, state);
        assert forall|k: int| 0 <= k < moves.len() implies p.legal_moves().contains(
            #[trigger] moves[k],
        ) by {
            assert(moves.contains(moves[k]));
        }
        if evading {
            assert(p.legal_moves().contains(p.legal_moves()[0]));
            assert(moves.contains(p.legal_moves()[0]));
        }
        lemma_quiet_moves_score(
            evaluator,
            p,
            stand_pat,
            beta,
            ply,
            start_ply,
            path,
            evading,
            moves,
            0,
            QuietProgress {
                alpha: if evading {
                    alpha
                } else {
                    model::higher(alpha, stand_pat)
                },
                best: if evading {
                    (-SCORE_INF) as i32
                } else {
                    stand_pat
                },
                nodes: nodes.wrapping_add(1),
                state,
                clock_due: false,
            },
        );
    }
}

proof fn lemma_quiet_moves_score<E: Evaluator>(
    evaluator: E,
    p: PositionView,
    stand_pat: Score,
    beta: Score,
    ply: u32,
    start_ply: u32,
    path: Seq<u64>,
    evading: bool,
    moves: Seq<Move>,
    index: nat,
    progress: QuietProgress,
)
    requires
        start_ply <= ply < start_ply + MAX_QUIESCENCE_PLY,
        in_reach(start_ply as int, 0),
        calm(evaluator, p, (start_ply + MAX_QUIESCENCE_PLY - ply) as nat),
        forall|k: int| 0 <= k < moves.len() ==> p.legal_moves().contains(#[trigger] moves[k]),
        plausible_table(progress.state.table),
        plausible(progress.best as int, ply as int) || (evading && index < moves.len()
            && progress.best == -SCORE_INF),
    ensures
        ({
            let end = model::quiet_moves(
                evaluator,
                p,
                stand_pat,
                beta,
                ply,
                start_ply,
                path,
                evading,
                moves,
                index,
                progress,
            );
            &&& plausible(end.best as int, ply as int)
            &&& plausible_table(end.state.table)
        }),
    decreases start_ply + MAX_QUIESCENCE_PLY - ply, 0nat, moves.len() - index,
{
    if index < moves.len() {
        let mv = moves[index as int];
        let counted = model::delta_counted(
            p,
            mv,
            stand_pat,
            progress.alpha,
            evading,
            progress.state,
        );
        let seen = model::see_counted(p, mv, evading, counted);
        assert(counted.table == progress.state.table);
        assert(seen.table == progress.state.table);
        if model::delta_prunes(p, mv, stand_pat, progress.alpha, evading, progress.state) {
            lemma_quiet_moves_score(
                evaluator,
                p,
                stand_pat,
                beta,
                ply,
                start_ply,
                path,
                evading,
                moves,
                index + 1,
                QuietProgress { state: counted, ..progress },
            );
        } else if model::see_prunes(p, mv, evading, counted) {
            lemma_quiet_moves_score(
                evaluator,
                p,
                stand_pat,
                beta,
                ply,
                start_ply,
                path,
                evading,
                moves,
                index + 1,
                QuietProgress { state: seen, ..progress },
            );
        } else {
            let q = p.made(mv);
            let line = path.push(q.hash());
            let below = ply.wrapping_add(1);
            lemma_calm_move(evaluator, p, (start_ply + MAX_QUIESCENCE_PLY - ply) as nat, mv);
            lemma_quiet_score(
                evaluator,
                q,
                model::neg(beta),
                model::neg(progress.alpha),
                below,
                start_ply,
                progress.nodes,
                seen,
                line,
            );
            let child = model::quiet_node(
                evaluator,
                q,
                model::neg(beta),
                model::neg(progress.alpha),
                below,
                start_ply,
                progress.nodes,
                seen,
                line,
            );
            lemma_neg(child.score, ply as int);
            let score = model::neg(child.score);
            let next = QuietProgress {
                alpha: model::higher(progress.alpha, score),
                best: model::higher(progress.best, score),
                nodes: child.nodes,
                state: child.state,
                clock_due: progress.clock_due || child.clock_due,
            };
            if next.alpha < beta {
                lemma_quiet_moves_score(
                    evaluator,
                    p,
                    stand_pat,
                    beta,
                    ply,
                    start_ply,
                    path,
                    evading,
                    moves,
                    index + 1,
                    next,
                );
            }
        }
    }
}

/// Looking a node up keeps the table plausible, and what is found there is.
proof fn lemma_probe(
    p: PositionView,
    depth: u32,
    alpha: Score,
    beta: Score,
    ply: u32,
    state: StateView,
    path: Seq<u64>,
)
    requires
        in_reach(ply as int, 0),
        plausible_table(state.table),
    ensures
        ({
            let probe = model::probe_node(p, depth, alpha, beta, ply, state, path);
            &&& plausible_table(probe.state.table)
            &&& probe.found matches Some((score, pv)) ==> plausible(score as int, ply as int)
        }),
{
    reveal(plausible_table);
    let key = super::tt::packed(model::node_key(p, path));
    if state.table.entries.contains_key(key) {
        assert(plausible(state.table.entries[key].score as int, 0));
    }
}

/// Storing a plausible score keeps the table plausible.
proof fn lemma_remembered(
    p: PositionView,
    depth: u32,
    alpha: Score,
    beta: Score,
    ply: u32,
    path: Seq<u64>,
    progress: Progress,
)
    requires
        in_reach(ply as int, 0),
        plausible_table(progress.state.table),
        plausible(progress.best as int, ply as int),
    ensures
        plausible_table(
            model::remembered(p, depth, alpha, beta, ply, path, progress).table,
        ),
{
    reveal(plausible_table);
    assert(plausible(model::to_table(progress.best, ply) as int, 0));
}

/// What is found at a node is plausible.
proof fn lemma_node_score<E: Evaluator>(
    evaluator: E,
    p: PositionView,
    depth: u32,
    alpha: Score,
    beta: Score,
    ply: u32,
    nodes: u64,
    state: StateView,
    path: Seq<u64>,
    allow_null: bool,
)
    requires
        in_reach(ply as int, depth as int),
        calm(evaluator, p, reach(depth as nat)),
        plausible_table(state.table),
    ensures
        ({
            let found = model::node(
                evaluator,
                p,
                depth,
                alpha,
                beta,
                ply,
                nodes,
                state,
                path,
                allow_null,
            );
            &&& plausible(found.score as int, ply as int)
            &&& plausible_table(found.state.table)
        }),
    decreases depth, 3nat, 0nat,
{
    let visited = nodes.wrapping_add(1);
    let probe = model::probe_node(p, depth, alpha, beta, ply, state, path);
    lemma_probe(p, depth, alpha, beta, ply, state, path);
    lemma_calm_here(evaluator, p, reach(depth as nat));
    if !model::rule_draw(p, path) && probe.found is None && p.legal_moves().len() > 0 {
        if depth == 0 {
            lemma_quiet_score(
                evaluator,
                p,
                probe.alpha,
                probe.beta,
                ply,
                ply,
                visited,
                probe.state,
                path,
            );
        } else {
            lemma_null_score(
                evaluator,
                p,
                depth,
                probe.beta,
                ply,
                visited,
                probe.state,
                path,
                allow_null,
            );
            let passed = model::null_try(
                evaluator,
                p,
                depth,
                probe.beta,
                ply,
                visited,
                probe.state,
                path,
                allow_null,
            );
            if passed.cutoff is None {
                let ordered = ordering::ordered(
                    p,
                    p.legal_moves(),
                    passed.state,
                    ply as int,
                    probe.tt_move,
                );
                ordering::lemma_ordered_members(
                    p,
                    p.legal_moves(),
                    passed.state,
                    ply as int,
                    probe.tt_move,
                );
                assert forall|k: int| 0 <= k < ordered.len() implies p.legal_moves().contains(
                    #[trigger] ordered[k],
                ) by {
                    assert(ordered.contains(ordered[k]));
                }
                let start = Progress {
                    alpha: probe.alpha,
                    best: (-SCORE_INF) as i32,
                    best_move: None,
                    pv: Seq::empty(),
                    nodes: passed.nodes,
                    state: passed.state,
                    clock_due: false,
                };
                lemma_all_moves_score(
                    evaluator,
                    p,
                    depth,
                    probe.beta,
                    ply,
                    path,
                    ordered,
                    0,
                    start,
                );
                let end = model::all_moves(
                    evaluator,
                    p,
                    depth,
                    probe.beta,
                    ply,
                    path,
                    ordered,
                    0,
                    start,
                );
                lemma_remembered(p, depth, alpha, beta, ply, path, end);
            }
        }
    }
}

proof fn lemma_null_score<E: Evaluator>(
    evaluator: E,
    p: PositionView,
    depth: u32,
    beta: Score,
    ply: u32,
    nodes: u64,
    state: StateView,
    path: Seq<u64>,
    allow_null: bool,
)
    requires
        in_reach(ply as int, depth as int),
        calm(evaluator, p, reach(depth as nat)),
        plausible_table(state.table),
    ensures
        ({
            let passed = model::null_try(
                evaluator,
                p,
                depth,
                beta,
                ply,
                nodes,
                state,
                path,
                allow_null,
            );
            &&& passed.cutoff matches Some(score) ==> plausible(score as int, ply as int)
            &&& plausible_table(passed.state.table)
        }),
    decreases depth, 2nat, 0nat,
{
    if model::tries_null(p, depth, beta, state, allow_null) {
        let reduction = model::null_reduction(depth, state.options.use_adaptive_null_move);
        let left = (depth - 1 - reduction) as u32;
        let counted = model::null_attempted(state);
        assert(counted.table == state.table);
        lemma_calm_here(evaluator, p, reach(depth as nat));
        lemma_calm_shallower(
            evaluator,
            p.passed(),
            (reach(depth as nat) - 1) as nat,
            reach(left as nat),
        );
        lemma_node_score(
            evaluator,
            p.passed(),
            left,
            model::neg(beta),
            model::neg(beta).wrapping_add(1),
            ply.wrapping_add(1),
            nodes,
            counted,
            path,
            false,
        );
        let child = model::node(
            evaluator,
            p.passed(),
            left,
            model::neg(beta),
            model::neg(beta).wrapping_add(1),
            ply.wrapping_add(1),
            nodes,
            counted,
            path,
            false,
        );
        lemma_neg(child.score, ply as int);
    }
}

proof fn lemma_all_moves_score<E: Evaluator>(
    evaluator: E,
    p: PositionView,
    depth: u32,
    beta: Score,
    ply: u32,
    path: Seq<u64>,
    moves: Seq<Move>,
    index: nat,
    progress: Progress,
)
    requires
        depth > 0,
        in_reach(ply as int, depth as int),
        calm(evaluator, p, reach(depth as nat)),
        forall|k: int| 0 <= k < moves.len() ==> p.legal_moves().contains(#[trigger] moves[k]),
        plausible_table(progress.state.table),
        plausible(progress.best as int, ply as int) || (index < moves.len() && progress.best
            == -SCORE_INF),
    ensures
        ({
            let end = model::all_moves(
                evaluator,
                p,
                depth,
                beta,
                ply,
                path,
                moves,
                index,
                progress,
            );
            &&& plausible(end.best as int, ply as int)
            &&& plausible_table(end.state.table)
        }),
    decreases depth, 2nat, moves.len() - index,
{
    if index < moves.len() {
        let mv = moves[index as int];
        lemma_child_score(
            evaluator,
            p,
            depth,
            progress.alpha,
            beta,
            ply,
            path,
            mv,
            index as int,
            progress.nodes,
            progress.state,
        );
        let child = model::child_node(
            evaluator,
            p,
            depth,
            progress.alpha,
            beta,
            ply,
            path,
            mv,
            index as int,
            progress.nodes,
            progress.state,
        );
        assert(plausible(child.score as int, ply + 1) && plausible_table(child.state.table)) by {
            reveal(plausible_below);
        }
        let next = model::advanced(progress, mv, child);
        lemma_neg(child.score, ply as int);
        if next.alpha < beta {
            lemma_all_moves_score(evaluator, p, depth, beta, ply, path, moves, index + 1, next);
        }
    }
}

/// Whether a score and a table are plausible one ply below `ply`.
#[verifier::opaque]
spec fn plausible_below(score: Score, table: TableView, ply: u32) -> bool {
    plausible(score as int, ply + 1) && plausible_table(table)
}

/// Whether what a child of a node at `ply` finds is plausible.
spec fn plausible_child(child: Outcome, ply: u32) -> bool {
    plausible_below(child.score, child.state.table, ply)
}

/// What is found after a legal move is plausible, however deep it is searched.
proof fn lemma_after_move<E: Evaluator>(
    evaluator: E,
    p: PositionView,
    depth: u32,
    left: u32,
    alpha: Score,
    beta: Score,
    ply: u32,
    path: Seq<u64>,
    mv: Move,
    nodes: u64,
    state: StateView,
)
    requires
        left < depth,
        in_reach(ply as int, depth as int),
        calm(evaluator, p, reach(depth as nat)),
        p.legal_moves().contains(mv),
        plausible_table(state.table),
    ensures
        plausible_child(
            model::node(
                evaluator,
                p.made(mv),
                left,
                alpha,
                beta,
                ply.wrapping_add(1),
                nodes,
                state,
                path.push(p.made(mv).hash()),
                true,
            ),
            ply,
        ),
    decreases depth, 0nat, 0nat,
{
    reveal(plausible_below);
    let q = p.made(mv);
    lemma_calm_move(evaluator, p, reach(depth as nat), mv);
    lemma_calm_shallower(evaluator, q, (reach(depth as nat) - 1) as nat, reach(left as nat));
    lemma_node_score(
        evaluator,
        q,
        left,
        alpha,
        beta,
        ply.wrapping_add(1),
        nodes,
        state,
        path.push(q.hash()),
        true,
    );
}

#[verifier::rlimit(30)]
#[verifier::spinoff_prover]
proof fn lemma_child_score<E: Evaluator>(
    evaluator: E,
    p: PositionView,
    depth: u32,
    alpha: Score,
    beta: Score,
    ply: u32,
    path: Seq<u64>,
    mv: Move,
    index: int,
    nodes: u64,
    state: StateView,
)
    requires
        depth > 0,
        in_reach(ply as int, depth as int),
        calm(evaluator, p, reach(depth as nat)),
        p.legal_moves().contains(mv),
        plausible_table(state.table),
    ensures
        plausible_child(
            model::child_node(
                evaluator,
                p,
                depth,
                alpha,
                beta,
                ply,
                path,
                mv,
                index,
                nodes,
                state,
            ),
            ply,
        ),
    decreases depth, 1nat, 1nat,
{
    let full = (depth - 1) as u32;
    let low = model::neg(beta);
    let high = model::neg(alpha);
    if index == 0 {
        lemma_after_move(evaluator, p, depth, full, low, high, ply, path, mv, nodes, state);
    } else {
        lemma_scout_score(evaluator, p, depth, alpha, ply, path, mv, index, nodes, state);
        let scout = model::scout_node(
            evaluator,
            p,
            depth,
            alpha,
            ply,
            path,
            mv,
            index,
            nodes,
            state,
        );
        assert(plausible_table(scout.state.table)) by {
            reveal(plausible_below);
        }
        lemma_after_move(
            evaluator,
            p,
            depth,
            full,
            low,
            high,
            ply,
            path,
            mv,
            scout.nodes,
            scout.state,
        );
    }
}

#[verifier::rlimit(30)]
#[verifier::spinoff_prover]
proof fn lemma_scout_score<E: Evaluator>(
    evaluator: E,
    p: PositionView,
    depth: u32,
    alpha: Score,
    ply: u32,
    path: Seq<u64>,
    mv: Move,
    index: int,
    nodes: u64,
    state: StateView,
)
    requires
        depth > 0,
        in_reach(ply as int, depth as int),
        calm(evaluator, p, reach(depth as nat)),
        p.legal_moves().contains(mv),
        plausible_table(state.table),
    ensures
        plausible_child(
            model::scout_node(
                evaluator,
                p,
                depth,
                alpha,
                ply,
                path,
                mv,
                index,
                nodes,
                state,
            ),
            ply,
        ),
    decreases depth, 1nat, 0nat,
{
    let q = p.made(mv);
    let full = (depth - 1) as u32;
    let low = model::neg(alpha).wrapping_sub(1);
    let high = model::neg(alpha);
    if model::reduces(p, depth, ply, state, mv, index) {
        let less = (depth - 2) as u32;
        let counted = model::lmr_attempted(state);
        assert(counted.table == state.table);
        lemma_after_move(evaluator, p, depth, less, low, high, ply, path, mv, nodes, counted);
        let reduced = model::node(
            evaluator,
            q,
            less,
            low,
            high,
            ply.wrapping_add(1),
            nodes,
            counted,
            path.push(q.hash()),
            true,
        );
        let again = model::lmr_researched(reduced.state);
        assert(plausible_table(again.table)) by {
            reveal(plausible_below);
        }
        lemma_after_move(
            evaluator,
            p,
            depth,
            full,
            low,
            high,
            ply,
            path,
            mv,
            reduced.nodes,
            again,
        );
    } else {
        lemma_after_move(evaluator, p, depth, full, low, high, ply, path, mv, nodes, state);
    }
}

proof fn lemma_root_moves_score<E: Evaluator>(
    evaluator: E,
    p: PositionView,
    depth: u32,
    path: Seq<u64>,
    moves: Seq<Move>,
    index: nat,
    progress: RootProgress,
)
    requires
        depth > 0,
        in_reach(0, depth as int),
        calm(evaluator, p, reach(depth as nat)),
        forall|k: int| 0 <= k < moves.len() ==> p.legal_moves().contains(#[trigger] moves[k]),
        plausible_table(progress.state.table),
        (plausible(progress.best as int, 0) && progress.pv.len() > 0) || (index < moves.len()
            && progress.best == -SCORE_INF),
    ensures
        ({
            let end = model::root_moves(evaluator, p, depth, path, moves, index, progress);
            &&& plausible(end.best as int, 0)
            &&& end.pv.len() > 0
            &&& plausible_table(end.state.table)
        }),
    decreases moves.len() - index,
{
    reveal(model::root_moves);
    if index < moves.len() {
        let mv = moves[index as int];
        let q = p.made(mv);
        lemma_calm_move(evaluator, p, reach(depth as nat), mv);
        lemma_node_score(
            evaluator,
            q,
            (depth - 1) as u32,
            model::neg(SCORE_INF),
            model::neg(progress.alpha),
            1,
            progress.nodes,
            progress.state,
            path.push(q.hash()),
            true,
        );
        let child = model::node(
            evaluator,
            q,
            (depth - 1) as u32,
            model::neg(SCORE_INF),
            model::neg(progress.alpha),
            1,
            progress.nodes,
            progress.state,
            path.push(q.hash()),
            true,
        );
        lemma_neg(child.score, 0);
        let score = model::neg(child.score);
        let better = score > progress.best;
        let next = RootProgress {
            alpha: model::higher(progress.alpha, score),
            best: if better {
                score
            } else {
                progress.best
            },
            best_move: if better {
                mv
            } else {
                progress.best_move
            },
            pv: if better {
                child.pv.insert(0, mv)
            } else {
                progress.pv
            },
            nodes: child.nodes,
            state: child.state,
            clock_due: progress.clock_due || child.clock_due,
        };
        lemma_root_moves_score(evaluator, p, depth, path, moves, index + 1, next);
    }
}

/// Whatever features are on: if there is a legal move and the evaluator keeps
/// clear of the scores of mates, the line that a search reports is not empty
/// and starts with the best move, and the score is an ordinary one or that of
/// a mate. The table is left fit for the next search.
pub proof fn the_reported_line_is_not_empty<E: Evaluator>(
    evaluator: E,
    p: PositionView,
    depth: u32,
    state: StateView,
    path: Seq<u64>,
)
    requires
        depth > 0,
        in_reach(0, depth as int),
        calm(evaluator, p, reach(depth as nat)),
        plausible_table(state.table),
    ensures
        ({
            let found = model::root(evaluator, p, depth, state, path);
            &&& p.legal_moves().len() > 0 ==> found.result.pv.len() > 0 && found.result.best_move
                == Some(found.result.pv[0])
            &&& plausible(found.result.score as int, 0)
            &&& plausible_table(found.state.table)
        }),
{
    super::laws::search_answers_with_a_legal_move(evaluator, p, depth, state, path);
    reveal(model::root);
    let moves = p.legal_moves();
    if moves.len() > 0 && !model::rule_draw(p, path) {
        let start = state.counters_reset();
        let ordered = ordering::ordered(p, moves, start, 0, start.root_best);
        ordering::lemma_ordered_members(p, moves, start, 0, start.root_best);
        assert forall|k: int| 0 <= k < ordered.len() implies moves.contains(
            #[trigger] ordered[k],
        ) by {
            assert(ordered.contains(ordered[k]));
        }
        lemma_root_moves_score(
            evaluator,
            p,
            depth,
            path,
            ordered,
            0,
            RootProgress {
                alpha: (-SCORE_INF) as i32,
                best: (-SCORE_INF) as i32,
                best_move: ordered[0],
                pv: Seq::empty(),
                nodes: 0,
                state: start,
                clock_due: false,
            },
        );
    }
}

/// Likewise at every depth of deepening, which starts with an empty table.
pub proof fn every_depth_reports_a_line<E: Evaluator>(
    evaluator: E,
    p: PositionView,
    depth: nat,
    options: SearchOptions,
    path: Seq<u64>,
)
    requires
        depth > 0,
        in_reach(0, depth as int),
        calm(evaluator, p, reach(depth)),
    ensures
        ({
            let found = model::deepened(evaluator, p, depth, options, path);
            &&& p.legal_moves().len() > 0 ==> found.result.pv.len() > 0 && found.result.best_move
                == Some(found.result.pv[0])
            &&& plausible(found.result.score as int, 0)
            &&& plausible_table(found.state.table)
        }),
    decreases depth,
{
    if depth <= 1 {
        reveal(plausible_table);
        the_reported_line_is_not_empty(evaluator, p, 1, StateView::fresh(options), path);
    } else {
        let before = (depth - 1) as nat;
        lemma_calm_shallower(evaluator, p, reach(depth), reach(before));
        every_depth_reports_a_line(evaluator, p, before, options, path);
        the_reported_line_is_not_empty(
            evaluator,
            p,
            depth as u32,
            model::deepened(evaluator, p, before, options, path).state,
            path,
        );
    }
}

} // verus!
