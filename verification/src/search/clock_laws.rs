//! When a search looks at the clock: at fixed intervals of visited nodes.

use super::deadline::CHECK_INTERVAL_NODES;
use super::iterative;
use super::model::{self, Progress, QuietProgress, RootProgress, MAX_QUIESCENCE_PLY};
use super::ordering;
use super::state::StateView;
use super::{Score, SCORE_INF};
use crate::chess::moves::Move;
use crate::chess::position::PositionView;
use crate::eval::Evaluator;
use vstd::prelude::*;

verus! {

/// How many more nodes can be visited before a look at the clock falls due.
pub open spec fn left_unwatched(nodes: u64) -> int {
    (CHECK_INTERVAL_NODES - nodes % CHECK_INTERVAL_NODES) % CHECK_INTERVAL_NODES as int
}

/// Whether visiting so many nodes leads from one count to another, with a look
/// at the clock exactly if they are more than could be visited without.
pub open spec fn counted(from: u64, visits: nat, to: u64, clock_due: bool) -> bool {
    &&& to == (from + visits) % 0x1_0000_0000_0000_0000
    &&& clock_due <==> visits > left_unwatched(from)
}

/// Whether that holds of some number of visits.
pub open spec fn counts_on(from: u64, to: u64, clock_due: bool) -> bool {
    exists|visits: nat| #[trigger] counted(from, visits, to, clock_due)
}

proof fn lemma_no_visit(nodes: u64)
    ensures
        counts_on(nodes, nodes, false),
{
    assert(counted(nodes, 0, nodes, false));
}

proof fn lemma_one_visit(nodes: u64)
    ensures
        counts_on(
            nodes,
            nodes.wrapping_add(1),
            super::deadline::is_check_boundary(nodes),
        ),
{
    assert(counted(
        nodes,
        1,
        nodes.wrapping_add(1),
        super::deadline::is_check_boundary(nodes),
    ));
}

/// Counts add up.
proof fn lemma_counts_add(a: u64, b: u64, c: u64, first: bool, second: bool)
    requires
        counts_on(a, b, first),
        counts_on(b, c, second),
    ensures
        counts_on(a, c, first || second),
{
    let x = choose|visits: nat| #[trigger] counted(a, visits, b, first);
    let y = choose|visits: nat| #[trigger] counted(b, visits, c, second);
    lemma_counted_add(a, b, c, first, second, x, y);
}

proof fn lemma_counted_add(a: u64, b: u64, c: u64, first: bool, second: bool, x: nat, y: nat)
    requires
        counted(a, x, b, first),
        counted(b, y, c, second),
    ensures
        counted(a, x + y, c, first || second),
{
}

/// Quiescence counts on.
#[verifier::spinoff_prover]
proof fn lemma_quiet_counts<E: Evaluator>(
    evaluator: E,
    p: PositionView,
    alpha: Score,
    beta: Score,
    ply: u32,
    start_ply: u32,
    nodes: u64,
    state: StateView,
    path: Seq<u64>,
)
    ensures
        ({
            let found = model::quiet_node(
                evaluator,
                p,
                alpha,
                beta,
                ply,
                start_ply,
                nodes,
                state,
                path,
            );
            counts_on(nodes, found.nodes, found.clock_due)
        }),
    decreases 
            (if model::quiet_depth(ply, start_ply) < MAX_QUIESCENCE_PLY {
                (MAX_QUIESCENCE_PLY - model::quiet_depth(ply, start_ply)) as nat
            } else {
                0nat
            }),
            1nat,
            0nat,
{
    let visited = nodes.wrapping_add(1);
    let due = super::deadline::is_check_boundary(nodes);
    let evading = model::evades(p, state);
    let stand_pat = evaluator.value(p);
    let moves = model::noisy_moves(p, state);
    let start = QuietProgress {
        alpha: if evading {
            alpha
        } else {
            model::higher(alpha, stand_pat)
        },
        best: if evading {
            (-SCORE_INF) as i32
        } else {
            stand_pat
        },
        nodes: visited,
        state,
        clock_due: false,
    };
    lemma_one_visit(nodes);
    lemma_no_visit(visited);
    lemma_quiet_moves_counts(
        evaluator,
        p,
        stand_pat,
        beta,
        ply,
        start_ply,
        path,
        evading,
        moves,
        0,
        start,
        visited,
    );
    let end = model::quiet_moves(
        evaluator,
        p,
        stand_pat,
        beta,
        ply,
        start_ply,
        path,
        evading,
        moves,
        0,
        start,
    );
    lemma_counts_add(nodes, visited, end.nodes, due, end.clock_due);
}

#[verifier::spinoff_prover]
proof fn lemma_quiet_moves_counts<E: Evaluator>(
    evaluator: E,
    p: PositionView,
    stand_pat: Score,
    beta: Score,
    ply: u32,
    start_ply: u32,
    path: Seq<u64>,
    evading: bool,
    moves: Seq<Move>,
    index: nat,
    progress: QuietProgress,
    from: u64,
)
    requires
        counts_on(from, progress.nodes, progress.clock_due),
    ensures
        ({
            let end = model::quiet_moves(
                evaluator,
                p,
                stand_pat,
                beta,
                ply,
                start_ply,
                path,
                evading,
                moves,
                index,
                progress,
            );
            counts_on(from, end.nodes, end.clock_due)
        }),
    decreases
            (if model::quiet_depth(ply, start_ply) < MAX_QUIESCENCE_PLY {
                (MAX_QUIESCENCE_PLY - model::quiet_depth(ply, start_ply)) as nat
            } else {
                0nat
            }),
            0nat,
            moves.len() - index,
{
    if index < moves.len() && model::quiet_depth(ply, start_ply) < MAX_QUIESCENCE_PLY {
        let mv = moves[index as int];
        let weighed = model::delta_counted(
            p,
            mv,
            stand_pat,
            progress.alpha,
            evading,
            progress.state,
        );
        let seen = model::see_counted(p, mv, evading, weighed);
        if model::delta_prunes(p, mv, stand_pat, progress.alpha, evading, progress.state) {
            lemma_quiet_moves_counts(
                evaluator,
                p,
                stand_pat,
                beta,
                ply,
                start_ply,
                path,
                evading,
                moves,
                index + 1,
                QuietProgress { state: weighed, ..progress },
                from,
            );
        } else if model::see_prunes(p, mv, evading, weighed) {
            lemma_quiet_moves_counts(
                evaluator,
                p,
                stand_pat,
                beta,
                ply,
                start_ply,
                path,
                evading,
                moves,
                index + 1,
                QuietProgress { state: seen, ..progress },
                from,
            );
        } else {
            let q = p.made(mv);
            let line = path.push(q.hash());
            let below = ply.wrapping_add(1);
            assert(model::quiet_depth(below, start_ply) == model::quiet_depth(ply, start_ply) + 1);
            lemma_quiet_counts(
                evaluator,
                q,
                model::neg(beta),
                model::neg(progress.alpha),
                below,
                start_ply,
                progress.nodes,
                seen,
                line,
            );
            let child = model::quiet_node(
                evaluator,
                q,
                model::neg(beta),
                model::neg(progress.alpha),
                below,
                start_ply,
                progress.nodes,
                seen,
                line,
            );
            let score = model::neg(child.score);
            let next = QuietProgress {
                alpha: model::higher(progress.alpha, score),
                best: model::higher(progress.best, score),
                nodes: child.nodes,
                state: child.state,
                clock_due: progress.clock_due || child.clock_due,
            };
            lemma_counts_add(
                from,
                progress.nodes,
                child.nodes,
                progress.clock_due,
                child.clock_due,
            );
            if next.alpha < beta {
                lemma_quiet_moves_counts(
                    evaluator,
                    p,
                    stand_pat,
                    beta,
                    ply,
                    start_ply,
                    path,
                    evading,
                    moves,
                    index + 1,
                    next,
                    from,
                );
            }
        }
    }
}

/// A search of a node counts on.
#[verifier::spinoff_prover]
proof fn lemma_node_counts<E: Evaluator>(
    evaluator: E,
    p: PositionView,
    depth: u32,
    alpha: Score,
    beta: Score,
    ply: u32,
    nodes: u64,
    state: StateView,
    path: Seq<u64>,
    allow_null: bool,
)
    ensures
        ({
            let found = model::node(
                evaluator,
                p,
                depth,
                alpha,
                beta,
                ply,
                nodes,
                state,
                path,
                allow_null,
            );
            counts_on(nodes, found.nodes, found.clock_due)
        }),
    decreases depth, 3nat, 0nat,
{
    let visited = nodes.wrapping_add(1);
    let probe = model::probe_node(p, depth, alpha, beta, ply, state, path);
    let due = super::deadline::is_check_boundary(nodes);
    lemma_one_visit(nodes);
    lemma_no_visit(visited);
    if !model::rule_draw(p, path) && probe.found is None && p.legal_moves().len() > 0 {
        if depth == 0 {
            lemma_quiet_counts(
                evaluator,
                p,
                probe.alpha,
                probe.beta,
                ply,
                ply,
                visited,
                probe.state,
                path,
            );
            let end = model::leaf(
                evaluator,
                p,
                probe.alpha,
                probe.beta,
                ply,
                visited,
                probe.state,
                path,
            );
            lemma_counts_add(nodes, visited, end.nodes, due, end.clock_due);
        } else {
            lemma_null_counts(
                evaluator,
                p,
                depth,
                probe.beta,
                ply,
                visited,
                probe.state,
                path,
                allow_null,
            );
            let passed = model::null_try(
                evaluator,
                p,
                depth,
                probe.beta,
                ply,
                visited,
                probe.state,
                path,
                allow_null,
            );
            lemma_counts_add(nodes, visited, passed.nodes, due, passed.clock_due);
            if passed.cutoff is None {
                let ordered = ordering::ordered(
                    p,
                    p.legal_moves(),
                    passed.state,
                    ply as int,
                    probe.tt_move,
                );
                let start = Progress {
                    alpha: probe.alpha,
                    best: (-SCORE_INF) as i32,
                    best_move: None,
                    pv: Seq::empty(),
                    nodes: passed.nodes,
                    state: passed.state,
                    clock_due: false,
                };
                lemma_no_visit(passed.nodes);
                lemma_all_moves_counts(
                    evaluator,
                    p,
                    depth,
                    probe.beta,
                    ply,
                    path,
                    ordered,
                    0,
                    start,
                    passed.nodes,
                );
                let end = model::all_moves(
                    evaluator,
                    p,
                    depth,
                    probe.beta,
                    ply,
                    path,
                    ordered,
                    0,
                    start,
                );
                lemma_counts_add(
                    nodes,
                    passed.nodes,
                    end.nodes,
                    due || passed.clock_due,
                    end.clock_due,
                );
            }
        }
    }
}

#[verifier::spinoff_prover]
proof fn lemma_null_counts<E: Evaluator>(
    evaluator: E,
    p: PositionView,
    depth: u32,
    beta: Score,
    ply: u32,
    nodes: u64,
    state: StateView,
    path: Seq<u64>,
    allow_null: bool,
)
    ensures
        ({
            let passed = model::null_try(
                evaluator,
                p,
                depth,
                beta,
                ply,
                nodes,
                state,
                path,
                allow_null,
            );
            counts_on(nodes, passed.nodes, passed.clock_due)
        }),
    decreases depth, 2nat, 0nat,
{
    lemma_no_visit(nodes);
    if model::tries_null(p, depth, beta, state, allow_null) {
        let reduction = model::null_reduction(depth, state.options.use_adaptive_null_move);
        lemma_node_counts(
            evaluator,
            p.passed(),
            (depth - 1 - reduction) as u32,
            model::neg(beta),
            model::neg(beta).wrapping_add(1),
            ply.wrapping_add(1),
            nodes,
            model::null_attempted(state),
            path,
            false,
        );
    }
}

#[verifier::spinoff_prover]
proof fn lemma_all_moves_counts<E: Evaluator>(
    evaluator: E,
    p: PositionView,
    depth: u32,
    beta: Score,
    ply: u32,
    path: Seq<u64>,
    moves: Seq<Move>,
    index: nat,
    progress: Progress,
    from: u64,
)
    requires
        counts_on(from, progress.nodes, progress.clock_due),
    ensures
        ({
            let end = model::all_moves(
                evaluator,
                p,
                depth,
                beta,
                ply,
                path,
                moves,
                index,
                progress,
            );
            counts_on(from, end.nodes, end.clock_due)
        }),
    decreases depth, 2nat, moves.len() - index,
{
    if index < moves.len() && depth > 0 {
        let mv = moves[index as int];
        lemma_child_counts(
            evaluator,
            p,
            depth,
            progress.alpha,
            beta,
            ply,
            path,
            mv,
            index as int,
            progress.nodes,
            progress.state,
        );
        let child = model::child_node(
            evaluator,
            p,
            depth,
            progress.alpha,
            beta,
            ply,
            path,
            mv,
            index as int,
            progress.nodes,
            progress.state,
        );
        let next = model::advanced(progress, mv, child);
        lemma_counts_add(from, progress.nodes, child.nodes, progress.clock_due, child.clock_due);
        if next.alpha < beta {
            lemma_all_moves_counts(
                evaluator,
                p,
                depth,
                beta,
                ply,
                path,
                moves,
                index + 1,
                next,
                from,
            );
        }
    }
}

#[verifier::rlimit(30)]
#[verifier::spinoff_prover]
proof fn lemma_child_counts<E: Evaluator>(
    evaluator: E,
    p: PositionView,
    depth: u32,
    alpha: Score,
    beta: Score,
    ply: u32,
    path: Seq<u64>,
    mv: Move,
    index: int,
    nodes: u64,
    state: StateView,
)
    requires
        depth > 0,
    ensures
        ({
            let child = model::child_node(
                evaluator,
                p,
                depth,
                alpha,
                beta,
                ply,
                path,
                mv,
                index,
                nodes,
                state,
            );
            counts_on(nodes, child.nodes, child.clock_due)
        }),
    decreases depth, 1nat, 0nat,
{
    let q = p.made(mv);
    let line = path.push(q.hash());
    let below = ply.wrapping_add(1);
    let full = (depth - 1) as u32;
    if index == 0 {
        lemma_node_counts(
            evaluator,
            q,
            full,
            model::neg(beta),
            model::neg(alpha),
            below,
            nodes,
            state,
            line,
            true,
        );
    } else {
        lemma_scout_counts(evaluator, p, depth, alpha, ply, path, mv, index, nodes, state);
        let scout = model::scout_node(
            evaluator,
            p,
            depth,
            alpha,
            ply,
            path,
            mv,
            index,
            nodes,
            state,
        );
        lemma_node_counts(
            evaluator,
            q,
            full,
            model::neg(beta),
            model::neg(alpha),
            below,
            scout.nodes,
            scout.state,
            line,
            true,
        );
        let again = model::node(
            evaluator,
            q,
            full,
            model::neg(beta),
            model::neg(alpha),
            below,
            scout.nodes,
            scout.state,
            line,
            true,
        );
        lemma_counts_add(nodes, scout.nodes, again.nodes, scout.clock_due, again.clock_due);
    }
}

#[verifier::rlimit(30)]
#[verifier::spinoff_prover]
proof fn lemma_scout_counts<E: Evaluator>(
    evaluator: E,
    p: PositionView,
    depth: u32,
    alpha: Score,
    ply: u32,
    path: Seq<u64>,
    mv: Move,
    index: int,
    nodes: u64,
    state: StateView,
)
    requires
        depth > 0,
    ensures
        ({
            let scout = model::scout_node(
                evaluator,
                p,
                depth,
                alpha,
                ply,
                path,
                mv,
                index,
                nodes,
                state,
            );
            counts_on(nodes, scout.nodes, scout.clock_due)
        }),
    decreases depth, 0nat, 0nat,
{
    let q = p.made(mv);
    let line = path.push(q.hash());
    let below = ply.wrapping_add(1);
    let full = (depth - 1) as u32;
    let low = model::neg(alpha).wrapping_sub(1);
    let high = model::neg(alpha);
    if model::reduces(p, depth, ply, state, mv, index) {
        let counted = model::lmr_attempted(state);
        lemma_node_counts(
            evaluator,
            q,
            (depth - 2) as u32,
            low,
            high,
            below,
            nodes,
            counted,
            line,
            true,
        );
        let reduced = model::node(
            evaluator,
            q,
            (depth - 2) as u32,
            low,
            high,
            below,
            nodes,
            counted,
            line,
            true,
        );
        lemma_node_counts(
            evaluator,
            q,
            full,
            low,
            high,
            below,
            reduced.nodes,
            model::lmr_researched(reduced.state),
            line,
            true,
        );
        let again = model::node(
            evaluator,
            q,
            full,
            low,
            high,
            below,
            reduced.nodes,
            model::lmr_researched(reduced.state),
            line,
            true,
        );
        lemma_counts_add(nodes, reduced.nodes, again.nodes, reduced.clock_due, again.clock_due);
    } else {
        lemma_node_counts(evaluator, q, full, low, high, below, nodes, state, line, true);
    }
}

/// A search counts the nodes that it visits, modulo 2^64, and a look at the
/// clock falls due exactly if it visits more of them than are left before the
/// next one. So without a stop signal a search that visits no more of them is
/// not cut off.
pub proof fn a_search_looks_at_the_clock_at_fixed_intervals<E: Evaluator>(
    evaluator: E,
    p: PositionView,
    depth: u32,
    alpha: Score,
    beta: Score,
    ply: u32,
    nodes: u64,
    state: StateView,
    path: Seq<u64>,
    allow_null: bool,
)
    ensures
        ({
            let found = model::node(
                evaluator,
                p,
                depth,
                alpha,
                beta,
                ply,
                nodes,
                state,
                path,
                allow_null,
            );
            counts_on(nodes, found.nodes, found.clock_due)
        }),
{
    lemma_node_counts(evaluator, p, depth, alpha, beta, ply, nodes, state, path, allow_null);
}

/// Likewise for quiescence.
pub proof fn quiescence_looks_at_the_clock_at_fixed_intervals<E: Evaluator>(
    evaluator: E,
    p: PositionView,
    alpha: Score,
    beta: Score,
    ply: u32,
    start_ply: u32,
    nodes: u64,
    state: StateView,
    path: Seq<u64>,
)
    ensures
        ({
            let found = model::quiet_node(
                evaluator,
                p,
                alpha,
                beta,
                ply,
                start_ply,
                nodes,
                state,
                path,
            );
            counts_on(nodes, found.nodes, found.clock_due)
        }),
{
    lemma_quiet_counts(evaluator, p, alpha, beta, ply, start_ply, nodes, state, path);
}

/// A search of the root counts from zero, where a look at the clock falls due:
/// it takes at least one, unless the game is over or drawn already.
pub proof fn every_open_search_looks_at_the_clock<E: Evaluator>(
    evaluator: E,
    p: PositionView,
    depth: u32,
    state: StateView,
    path: Seq<u64>,
)
    ensures
        model::root(evaluator, p, depth, state, path).clock_due == !iterative::decided(p, path),
{
    reveal(model::root);
    reveal(model::root_moves);
    let moves = p.legal_moves();
    if moves.len() > 0 && !model::rule_draw(p, path) {
        let start = state.counters_reset();
        let ordered = ordering::ordered(p, moves, start, 0, start.root_best);
        ordering::lemma_ordered_members(p, moves, start, 0, start.root_best);
        let progress = RootProgress {
            alpha: (-SCORE_INF) as i32,
            best: (-SCORE_INF) as i32,
            best_move: ordered[0],
            pv: Seq::empty(),
            nodes: 0,
            state: start,
            clock_due: false,
        };
        let mv = ordered[0];
        let q = p.made(mv);
        let child = model::node(
            evaluator,
            q,
            (depth - 1) as u32,
            model::neg(SCORE_INF),
            model::neg(progress.alpha),
            1,
            0,
            start,
            path.push(q.hash()),
            true,
        );
        assert(child.clock_due);
        let score = model::neg(child.score);
        let better = score > progress.best;
        let next = RootProgress {
            alpha: model::higher(progress.alpha, score),
            best: if better {
                score
            } else {
                progress.best
            },
            best_move: if better {
                mv
            } else {
                progress.best_move
            },
            pv: if better {
                child.pv.insert(0, mv)
            } else {
                progress.pv
            },
            nodes: child.nodes,
            state: child.state,
            clock_due: true,
        };
        iterative::lemma_clock_stays_due(evaluator, p, depth, path, ordered, 1, next);
    }
}

} // verus!
