//! Quiescence without delta pruning finds the value of the captures that it
//! considers.

use super::model::{self, QuietProgress, MAX_QUIESCENCE_PLY};
use super::ordering;
use super::state::StateView;
use super::{laws, Score, SearchOptions, SCORE_INF};
use crate::chess::moves::Move;
use crate::chess::position::PositionView;
use crate::eval::Evaluator;
use vstd::prelude::*;

verus! {

/// Whether every evasion of a check is looked at.
pub open spec fn evades(options: SearchOptions, p: PositionView) -> bool {
    options.use_enhanced_quiescence && p.checked(p.side)
}

/// Whether quiescence looks at a legal move: every evasion, or else captures
/// and promotions, without captures that lose the exchange.
pub open spec fn looks_at(options: SearchOptions, p: PositionView, mv: Move) -> bool {
    if evades(options, p) {
        true
    } else if p.captures(mv) {
        !options.use_see || mv.kind().promotes_to() is Some || !model::loses_exchange(p, mv)
    } else {
        options.use_enhanced_quiescence && mv.kind().promotes_to() is Some
    }
}

/// What the side to move has without moving: the evaluator's score, unless it
/// has to evade a check.
pub open spec fn floor<E: Evaluator>(evaluator: E, options: SearchOptions, p: PositionView) -> int {
    if evades(options, p) {
        -SCORE_INF as int
    } else {
        evaluator.value(p) as int
    }
}

/// How many more plies quiescence may go.
pub open spec fn plies_left(ply: u32, start_ply: u32) -> nat {
    if model::quiet_depth(ply, start_ply) < MAX_QUIESCENCE_PLY {
        (MAX_QUIESCENCE_PLY - model::quiet_depth(ply, start_ply)) as nat
    } else {
        0
    }
}

/// The value of a position when each side may only make moves that quiescence
/// looks at, or stop.
pub open spec fn quiet_value<E: Evaluator>(
    evaluator: E,
    options: SearchOptions,
    p: PositionView,
    ply: u32,
    start_ply: u32,
    path: Seq<u64>,
) -> int
    decreases plies_left(ply, start_ply), p.legal_moves().len() + 3,
{
    if model::rule_draw(p, path) {
        0
    } else if p.legal_moves().len() == 0 {
        model::terminal_value(p, ply) as int
    } else if plies_left(ply, start_ply) == 0 {
        evaluator.value(p) as int
    } else {
        quiet_best(evaluator, options, p, ply, start_ply, path, p.legal_moves().len())
    }
}

/// The value of making a move and then going on quietly.
pub open spec fn quiet_move_value<E: Evaluator>(
    evaluator: E,
    options: SearchOptions,
    p: PositionView,
    ply: u32,
    start_ply: u32,
    path: Seq<u64>,
    mv: Move,
) -> int
    decreases plies_left(ply, start_ply), 1nat,
    when plies_left(ply, start_ply) > 0
{
    -quiet_value(
        evaluator,
        options,
        p.made(mv),
        ply.wrapping_add(1),
        start_ply,
        path.push(p.made(mv).hash()),
    )
}

/// The best of stopping and of the first `n` legal moves, as far as they are
/// looked at.
pub open spec fn quiet_best<E: Evaluator>(
    evaluator: E,
    options: SearchOptions,
    p: PositionView,
    ply: u32,
    start_ply: u32,
    path: Seq<u64>,
    n: nat,
) -> int
    decreases plies_left(ply, start_ply), n + 2,
    when plies_left(ply, start_ply) > 0
{
    if n == 0 {
        floor(evaluator, options, p)
    } else {
        let rest = quiet_best(evaluator, options, p, ply, start_ply, path, (n - 1) as nat);
        let mv = p.legal_moves()[n - 1];
        let value = quiet_move_value(evaluator, options, p, ply, start_ply, path, mv);
        if looks_at(options, p, mv) && value > rest {
            value
        } else {
            rest
        }
    }
}

/// The best value bounds all others and is one of them.
proof fn lemma_quiet_best<E: Evaluator>(
    evaluator: E,
    options: SearchOptions,
    p: PositionView,
    ply: u32,
    start_ply: u32,
    path: Seq<u64>,
    n: nat,
)
    requires
        plies_left(ply, start_ply) > 0,
        n <= p.legal_moves().len(),
    ensures
        quiet_best(evaluator, options, p, ply, start_ply, path, n) >= floor(evaluator, options, p),
        forall|k: int|
            0 <= k < n && looks_at(options, p, #[trigger] p.legal_moves()[k]) ==> quiet_move_value(
                evaluator,
                options,
                p,
                ply,
                start_ply,
                path,
                p.legal_moves()[k],
            ) <= quiet_best(evaluator, options, p, ply, start_ply, path, n),
        quiet_best(evaluator, options, p, ply, start_ply, path, n) > floor(evaluator, options, p)
            ==> exists|k: int|
            0 <= k < n && looks_at(options, p, #[trigger] p.legal_moves()[k]) && quiet_move_value(
                evaluator,
                options,
                p,
                ply,
                start_ply,
                path,
                p.legal_moves()[k],
            ) == quiet_best(evaluator, options, p, ply, start_ply, path, n),
    decreases n,
{
    if n > 0 {
        lemma_quiet_best(evaluator, options, p, ply, start_ply, path, (n - 1) as nat);
        let rest = quiet_best(evaluator, options, p, ply, start_ply, path, (n - 1) as nat);
        let mv = p.legal_moves()[n - 1];
        let value = quiet_move_value(evaluator, options, p, ply, start_ply, path, mv);
        if looks_at(options, p, mv) && value > rest {
            assert(p.legal_moves()[n - 1] == mv);
        } else if rest > floor(evaluator, options, p) {
            let k = choose|k: int|
                0 <= k < n - 1 && looks_at(options, p, #[trigger] p.legal_moves()[k])
                    && quiet_move_value(
                    evaluator,
                    options,
                    p,
                    ply,
                    start_ply,
                    path,
                    p.legal_moves()[k],
                ) == rest;
            assert(p.legal_moves()[k] == p.legal_moves()[k]);
        }
    }
}

/// The moves that quiescence goes through are the legal noisy ones.
pub(crate) proof fn lemma_noisy_members(p: PositionView, state: StateView)
    ensures
        forall|mv: Move|
            model::noisy_moves(p, state).contains(mv) <==> p.legal_moves().contains(mv)
                && model::is_noisy(p, state, mv),
{
    let keep = |mv: Move| model::is_noisy(p, state, mv);
    let kept = p.legal_moves().filter(keep);
    ordering::lemma_ordered_capture_members(p, kept, state.options);
    assert(model::noisy_moves(p, state) == ordering::ordered_captures(p, kept, state.options));
    assert forall|mv: Move|
        model::noisy_moves(p, state).contains(mv) <==> p.legal_moves().contains(mv)
            && model::is_noisy(p, state, mv) by {
        assert(keep(mv) == model::is_noisy(p, state, mv));
        if kept.contains(mv) {
            p.legal_moves().lemma_filter_contains_rev(keep, mv);
            let k = choose|k: int| 0 <= k < kept.len() && kept[k] == mv;
            p.legal_moves().lemma_filter_pred(keep, k);
        }
        if p.legal_moves().contains(mv) && keep(mv) {
            let k = choose|k: int| 0 <= k < p.legal_moves().len() && p.legal_moves()[k] == mv;
            p.legal_moves().lemma_filter_contains(keep, k);
        }
    }
}

/// The value of a tame position is within the widest window.
pub(crate) proof fn lemma_quiet_within<E: Evaluator>(
    evaluator: E,
    options: SearchOptions,
    p: PositionView,
    ply: u32,
    start_ply: u32,
    path: Seq<u64>,
)
    requires
        laws::tame(evaluator, p, plies_left(ply, start_ply)),
        ply + plies_left(ply, start_ply) < 61_000,
    ensures
        laws::within(quiet_value(evaluator, options, p, ply, start_ply, path)),
    decreases plies_left(ply, start_ply),
{
    let left = plies_left(ply, start_ply);
    if !model::rule_draw(p, path) {
        if p.legal_moves().len() == 0 {
            assert(ply as i32 == ply);
        } else if left > 0 {
            let moves = p.legal_moves();
            let below = ply.wrapping_add(1);
            assert(plies_left(below, start_ply) == left - 1);
            assert forall|k: int| 0 <= k < moves.len() implies laws::within(
                quiet_move_value(
                    evaluator,
                    options,
                    p,
                    ply,
                    start_ply,
                    path,
                    #[trigger] moves[k],
                ),
            ) by {
                let q = p.made(moves[k]);
                assert(laws::tame(evaluator, q, (left - 1) as nat));
                lemma_quiet_within(
                    evaluator,
                    options,
                    q,
                    below,
                    start_ply,
                    path.push(q.hash()),
                );
            }
            lemma_quiet_best(evaluator, options, p, ply, start_ply, path, moves.len());
            if evades(options, p) {
                assert(looks_at(options, p, moves[0]));
            }
        }
    }
}

/// Quiescence at a node finds its quiet value, or a bound on it beyond the
/// window.
#[verifier::rlimit(40)]
#[verifier::spinoff_prover]
pub proof fn quiescence_finds_the_quiet_value<E: Evaluator>(
    evaluator: E,
    p: PositionView,
    alpha: Score,
    beta: Score,
    ply: u32,
    start_ply: u32,
    nodes: u64,
    state: StateView,
    path: Seq<u64>,
)
    requires
        !state.options.use_delta_pruning,
        laws::tame(evaluator, p, plies_left(ply, start_ply)),
        -SCORE_INF <= alpha < beta <= SCORE_INF,
        ply + plies_left(ply, start_ply) < 61_000,
    ensures
        ({
            let found = model::quiet_node(
                evaluator,
                p,
                alpha,
                beta,
                ply,
                start_ply,
                nodes,
                state,
                path,
            );
            let value = quiet_value(evaluator, state.options, p, ply, start_ply, path);
            &&& found.state.options == state.options
            &&& laws::within(found.score as int)
            &&& laws::within(value)
            &&& laws::fits(found.score as int, alpha as int, beta as int, value)
        }),
    decreases plies_left(ply, start_ply), 1nat, 0nat,
{
    let options = state.options;
    let left = plies_left(ply, start_ply);
    let value = quiet_value(evaluator, options, p, ply, start_ply, path);
    lemma_quiet_within(evaluator, options, p, ply, start_ply, path);
    let evading = model::evades(p, state);
    let stand_pat = evaluator.value(p);
    if model::rule_draw(p, path) {
    } else if p.legal_moves().len() == 0 {
        assert(ply as i32 == ply);
    } else if left == 0 {
    } else if !evading && stand_pat >= beta {
        lemma_quiet_best(
            evaluator,
            options,
            p,
            ply,
            start_ply,
            path,
            p.legal_moves().len(),
        );
    } else {
        let legal = p.legal_moves();
        let moves = model::noisy_moves(p, state);
        let start = QuietProgress {
            alpha: if evading {
                alpha
            } else {
                model::higher(alpha, stand_pat)
            },
            best: if evading {
                (-SCORE_INF) as i32
            } else {
                stand_pat
            },
            nodes: nodes.wrapping_add(1),
            state,
            clock_due: false,
        };
        lemma_noisy_members(p, state);
        assert forall|j: int| 0 <= j < moves.len() implies legal.contains(#[trigger] moves[j]) by {
            assert(moves.contains(moves[j]));
        }
        lemma_quiet_moves(
            evaluator,
            p,
            stand_pat,
            alpha,
            beta,
            ply,
            start_ply,
            path,
            moves,
            0,
            start,
        );
        let end = model::quiet_moves(
            evaluator,
            p,
            stand_pat,
            beta,
            ply,
            start_ply,
            path,
            evading,
            moves,
            0,
            start,
        );
        lemma_quiet_best(evaluator, options, p, ply, start_ply, path, legal.len());
        // What is worth how much among the moves gone through holds among the
        // legal ones.
        assert forall|j: int|
            0 <= j < moves.len() && looks_at(options, p, #[trigger] moves[j]) implies quiet_move_value(
            evaluator,
            options,
            p,
            ply,
            start_ply,
            path,
            moves[j],
        ) <= value by {
            let k = choose|k: int| 0 <= k < legal.len() && legal[k] == moves[j];
            assert(looks_at(options, p, legal[k]));
        }
        assert forall|k: int|
            0 <= k < legal.len() && looks_at(options, p, #[trigger] legal[k])
                && end.alpha < beta implies quiet_move_value(
            evaluator,
            options,
            p,
            ply,
            start_ply,
            path,
            legal[k],
        ) <= end.best by {
            assert(legal.contains(legal[k]));
            assert(model::is_noisy(p, state, legal[k]));
            assert(moves.contains(legal[k]));
            let j = choose|j: int| 0 <= j < moves.len() && moves[j] == legal[k];
            assert(looks_at(options, p, moves[j]));
        }
        if evading {
            assert(legal.contains(legal[0]));
            assert(model::is_noisy(p, state, legal[0]));
            assert(moves.contains(legal[0]));
        }
        if value > floor(evaluator, options, p) {
            let k = choose|k: int|
                0 <= k < legal.len() && looks_at(options, p, #[trigger] legal[k])
                    && quiet_move_value(
                    evaluator,
                    options,
                    p,
                    ply,
                    start_ply,
                    path,
                    legal[k],
                ) == value;
            assert(end.alpha < beta ==> value <= end.best);
        }
    }
}

/// Going through moves one by one: without a cutoff none of those looked at is
/// worth more than the best score, and a best score above the first alpha is
/// the floor or the worth of one of them; a cutoff is justified by a move
/// worth at least the best score.
#[verifier::rlimit(40)]
#[verifier::spinoff_prover]
proof fn lemma_quiet_moves<E: Evaluator>(
    evaluator: E,
    p: PositionView,
    stand_pat: Score,
    alpha: Score,
    beta: Score,
    ply: u32,
    start_ply: u32,
    path: Seq<u64>,
    moves: Seq<Move>,
    index: nat,
    progress: QuietProgress,
)
    requires
        !progress.state.options.use_delta_pruning,
        plies_left(ply, start_ply) > 0,
        laws::tame(evaluator, p, plies_left(ply, start_ply)),
        -SCORE_INF <= alpha < beta <= SCORE_INF,
        ply + plies_left(ply, start_ply) < 61_000,
        index <= moves.len(),
        forall|j: int| 0 <= j < moves.len() ==> p.legal_moves().contains(#[trigger] moves[j]),
        forall|j: int|
            0 <= j < moves.len() ==> model::is_noisy(p, progress.state, #[trigger] moves[j]),
        progress.alpha == model::higher(alpha, progress.best),
        progress.alpha < beta,
        floor(evaluator, progress.state.options, p) <= progress.best < SCORE_INF,
        -SCORE_INF <= progress.best,
        index > 0 && evades(progress.state.options, p) ==> progress.best > -SCORE_INF,
        forall|j: int|
            0 <= j < index && looks_at(progress.state.options, p, #[trigger] moves[j])
                ==> quiet_move_value(
                evaluator,
                progress.state.options,
                p,
                ply,
                start_ply,
                path,
                moves[j],
            ) <= progress.best,
        progress.best > alpha && progress.best > floor(evaluator, progress.state.options, p)
            ==> exists|j: int|
            0 <= j < index && looks_at(progress.state.options, p, #[trigger] moves[j])
                && quiet_move_value(
                evaluator,
                progress.state.options,
                p,
                ply,
                start_ply,
                path,
                moves[j],
            ) == progress.best,
    ensures
        ({
            let options = progress.state.options;
            let end = model::quiet_moves(
                evaluator,
                p,
                stand_pat,
                beta,
                ply,
                start_ply,
                path,
                evades(options, p),
                moves,
                index,
                progress,
            );
            &&& end.state.options == options
            &&& floor(evaluator, options, p) <= end.best < SCORE_INF
            &&& -SCORE_INF <= end.best
            &&& moves.len() > 0 && evades(options, p) ==> end.best > -SCORE_INF
            &&& end.alpha == model::higher(alpha, end.best)
            &&& end.alpha >= beta ==> exists|j: int|
                0 <= j < moves.len() && looks_at(options, p, #[trigger] moves[j])
                    && quiet_move_value(
                    evaluator,
                    options,
                    p,
                    ply,
                    start_ply,
                    path,
                    moves[j],
                ) >= end.best
            &&& end.alpha < beta ==> forall|j: int|
                0 <= j < moves.len() && looks_at(options, p, #[trigger] moves[j])
                    ==> quiet_move_value(
                    evaluator,
                    options,
                    p,
                    ply,
                    start_ply,
                    path,
                    moves[j],
                ) <= end.best
            &&& end.alpha < beta && end.best > alpha && end.best > floor(evaluator, options, p)
                ==> exists|j: int|
                0 <= j < moves.len() && looks_at(options, p, #[trigger] moves[j])
                    && quiet_move_value(
                    evaluator,
                    options,
                    p,
                    ply,
                    start_ply,
                    path,
                    moves[j],
                ) == end.best
        }),
    decreases plies_left(ply, start_ply), 0nat, moves.len() - index,
{
    if index < moves.len() {
        let options = progress.state.options;
        let evading = evades(options, p);
        let mv = moves[index as int];
        let counted = model::delta_counted(
            p,
            mv,
            stand_pat,
            progress.alpha,
            evading,
            progress.state,
        );
        let seen = model::see_counted(p, mv, evading, counted);
        assert(!model::delta_prunes(p, mv, stand_pat, progress.alpha, evading, progress.state));
        assert(counted == progress.state);
        assert(seen.options == options);
        assert(model::is_noisy(p, progress.state, mv));
        assert(looks_at(options, p, mv) == !model::see_prunes(p, mv, evading, counted));
        if model::see_prunes(p, mv, evading, counted) {
            let next = QuietProgress { state: seen, ..progress };
            assert forall|j: int| 0 <= j < moves.len() implies model::is_noisy(
                p,
                next.state,
                #[trigger] moves[j],
            ) by {
                assert(model::is_noisy(p, progress.state, moves[j]));
            }
            lemma_quiet_moves(
                evaluator,
                p,
                stand_pat,
                alpha,
                beta,
                ply,
                start_ply,
                path,
                moves,
                index + 1,
                next,
            );
        } else {
            let q = p.made(mv);
            let line = path.push(q.hash());
            let below = ply.wrapping_add(1);
            let left = plies_left(ply, start_ply);
            assert(plies_left(below, start_ply) == left - 1);
            assert(laws::tame(evaluator, q, (left - 1) as nat)) by {
                assert(p.legal_moves().contains(moves[index as int]));
                let k = choose|k: int|
                    0 <= k < p.legal_moves().len() && p.legal_moves()[k] == mv;
                assert(laws::tame(evaluator, p.made(p.legal_moves()[k]), (left - 1) as nat));
            }
            laws::lemma_neg(beta);
            laws::lemma_neg(progress.alpha);
            quiescence_finds_the_quiet_value(
                evaluator,
                q,
                model::neg(beta),
                model::neg(progress.alpha),
                below,
                start_ply,
                progress.nodes,
                seen,
                line,
            );
            let child = model::quiet_node(
                evaluator,
                q,
                model::neg(beta),
                model::neg(progress.alpha),
                below,
                start_ply,
                progress.nodes,
                seen,
                line,
            );
            laws::lemma_neg(child.score);
            let score = model::neg(child.score);
            let value = quiet_move_value(evaluator, options, p, ply, start_ply, path, mv);
            let next = QuietProgress {
                alpha: model::higher(progress.alpha, score),
                best: model::higher(progress.best, score),
                nodes: child.nodes,
                state: child.state,
                clock_due: progress.clock_due || child.clock_due,
            };
            assert(laws::fits(score as int, progress.alpha as int, beta as int, value));
            if next.alpha >= beta {
                assert(value >= next.best);
                assert(looks_at(options, p, moves[index as int]));
            } else {
                assert forall|j: int|
                    0 <= j < index + 1 && looks_at(
                        options,
                        p,
                        #[trigger] moves[j],
                    ) implies quiet_move_value(
                    evaluator,
                    options,
                    p,
                    ply,
                    start_ply,
                    path,
                    moves[j],
                ) <= next.best by {
                    if j < index {
                        assert(looks_at(options, p, moves[j]));
                    }
                }
                if next.best > alpha && next.best > floor(evaluator, options, p) {
                    if score > progress.best {
                        assert(looks_at(options, p, moves[index as int]));
                    } else {
                        let j = choose|j: int|
                            0 <= j < index && looks_at(options, p, #[trigger] moves[j])
                                && quiet_move_value(
                                evaluator,
                                options,
                                p,
                                ply,
                                start_ply,
                                path,
                                moves[j],
                            ) == progress.best;
                        assert(looks_at(options, p, moves[j]));
                    }
                }
                assert forall|j: int| 0 <= j < moves.len() implies model::is_noisy(
                    p,
                    next.state,
                    #[trigger] moves[j],
                ) by {
                    assert(model::is_noisy(p, progress.state, moves[j]));
                }
                lemma_quiet_moves(
                    evaluator,
                    p,
                    stand_pat,
                    alpha,
                    beta,
                    ply,
                    start_ply,
                    path,
                    moves,
                    index + 1,
                    next,
                );
            }
        }
    }
}

} // verus!
