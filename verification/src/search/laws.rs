//! What holds of the search as a whole.

use super::model::{self, Progress, QuietProgress, RootProgress, MAX_QUIESCENCE_PLY};
use super::ordering;
use super::quiet_laws;
use super::state::StateView;
use super::{Score, SearchOptions, MATE_THRESHOLD, SCORE_INF};
use crate::chess::moves::Move;
use crate::chess::position::PositionView;
use crate::eval::Evaluator;
use vstd::prelude::*;

verus! {

/// Whether the table, reductions and null moves are off, and captures are not
/// pruned by a margin, so that the search is plain alpha-beta.
pub open spec fn plain(options: SearchOptions) -> bool {
    !options.use_tt && !options.use_lmr && !options.use_null_move && (!options.use_quiescence
        || !options.use_delta_pruning)
}

/// How far a search to `depth` looks at most.
pub open spec fn horizon(options: SearchOptions, depth: nat) -> nat {
    if options.use_quiescence {
        depth + MAX_QUIESCENCE_PLY as nat
    } else {
        depth
    }
}

/// What a position at the end of the search counts: its quiet value, or what
/// the evaluator says.
pub open spec fn leaf_value<E: Evaluator>(
    evaluator: E,
    options: SearchOptions,
    p: PositionView,
    ply: u32,
    path: Seq<u64>,
) -> int {
    if options.use_quiescence {
        quiet_laws::quiet_value(evaluator, options, p, ply, ply, path)
    } else {
        evaluator.value(p) as int
    }
}

/// A score strictly within the widest window.
pub open spec fn within(score: int) -> bool {
    -SCORE_INF < score < SCORE_INF
}

/// Whether the evaluator stays within the widest window at every position of
/// the game tree to the given depth.
pub open spec fn tame<E: Evaluator>(evaluator: E, p: PositionView, depth: nat) -> bool
    decreases depth,
{
    within(evaluator.value(p) as int) && (depth > 0 ==> forall|k: int|
        0 <= k < p.legal_moves().len() ==> tame(
            evaluator,
            p.made(#[trigger] p.legal_moves()[k]),
            (depth - 1) as nat,
        ))
}

/// The value of a position by full enumeration of the game tree to `depth`
/// plies: draws by rule count zero, games that are over count as such, and
/// leaves count their leaf value.
pub open spec fn minimax<E: Evaluator>(
    evaluator: E,
    options: SearchOptions,
    p: PositionView,
    depth: nat,
    ply: u32,
    path: Seq<u64>,
) -> int
    decreases depth, p.legal_moves().len() + 3,
{
    if model::rule_draw(p, path) {
        0
    } else if p.legal_moves().len() == 0 {
        model::terminal_value(p, ply) as int
    } else if depth == 0 {
        leaf_value(evaluator, options, p, ply, path)
    } else {
        best_value(evaluator, options, p, depth, ply, path, p.legal_moves(), p.legal_moves().len())
    }
}

/// The value of playing `mv` and then searching on.
pub open spec fn move_value<E: Evaluator>(
    evaluator: E,
    options: SearchOptions,
    p: PositionView,
    depth: nat,
    ply: u32,
    path: Seq<u64>,
    mv: Move,
) -> int
    decreases depth, 1nat,
    when depth > 0
{
    -minimax(
        evaluator,
        options,
        p.made(mv),
        (depth - 1) as nat,
        ply.wrapping_add(1),
        path.push(p.made(mv).hash()),
    )
}

/// The best value among the first `n` of the given moves.
pub open spec fn best_value<E: Evaluator>(
    evaluator: E,
    options: SearchOptions,
    p: PositionView,
    depth: nat,
    ply: u32,
    path: Seq<u64>,
    moves: Seq<Move>,
    n: nat,
) -> int
    decreases depth, n + 2,
    when depth > 0
{
    if n == 0 {
        -SCORE_INF as int
    } else {
        let rest = best_value(evaluator, options, p, depth, ply, path, moves, (n - 1) as nat);
        let value = move_value(evaluator, options, p, depth, ply, path, moves[n - 1]);
        if value > rest {
            value
        } else {
            rest
        }
    }
}

proof fn lemma_best_value<E: Evaluator>(
    evaluator: E,
    options: SearchOptions,
    p: PositionView,
    depth: nat,
    ply: u32,
    path: Seq<u64>,
    moves: Seq<Move>,
    n: nat,
)
    requires
        depth > 0,
        n <= moves.len(),
    ensures
        forall|k: int|
            0 <= k < n ==> move_value(evaluator, options, p, depth, ply, path, #[trigger] moves[k])
                <= best_value(evaluator, options, p, depth, ply, path, moves, n),
        best_value(evaluator, options, p, depth, ply, path, moves, n) > -SCORE_INF ==> exists|k: int|
            0 <= k < n && move_value(evaluator, options, p, depth, ply, path, #[trigger] moves[k])
                == best_value(evaluator, options, p, depth, ply, path, moves, n),
        best_value(evaluator, options, p, depth, ply, path, moves, n) >= -SCORE_INF,
    decreases n,
{
    if n > 0 {
        lemma_best_value(evaluator, options, p, depth, ply, path, moves, (n - 1) as nat);
        let rest = best_value(evaluator, options, p, depth, ply, path, moves, (n - 1) as nat);
        let value = move_value(evaluator, options, p, depth, ply, path, moves[n - 1]);
        if value > rest {
            assert(moves[n - 1] == moves[n - 1]);
        } else if rest > -SCORE_INF {
            let k = choose|k: int|
                0 <= k < n - 1 && move_value(evaluator, options, p, depth, ply, path, #[trigger] moves[k])
                    == rest;
            assert(moves[k] == moves[k]);
        }
    }
}

/// Whether a search result fits the true value: exact within the window, and a
/// bound on the right side outside of it.
pub open spec fn fits(score: int, alpha: int, beta: int, value: int) -> bool {
    &&& score <= alpha ==> value <= score
    &&& score >= beta ==> value >= score
    &&& alpha < score < beta ==> value == score
}

/// Negation does not wrap around within the widest window.
pub(crate) proof fn lemma_neg(score: Score)
    requires
        -SCORE_INF <= score <= SCORE_INF,
    ensures
        model::neg(score) == -score,
{
}

/// Plain alpha-beta at a node finds the true value, or a bound on it beyond
/// the window.
#[verifier::rlimit(60)]
#[verifier::spinoff_prover]
proof fn lemma_node<E: Evaluator>(
    evaluator: E,
    p: PositionView,
    depth: u32,
    alpha: Score,
    beta: Score,
    ply: u32,
    nodes: u64,
    state: StateView,
    path: Seq<u64>,
    allow_null: bool,
)
    requires
        plain(state.options),
        tame(evaluator, p, horizon(state.options, depth as nat)),
        -SCORE_INF <= alpha < beta <= SCORE_INF,
        ply + depth < 60_000,
    ensures
        ({
            let found = model::node(
                evaluator,
                p,
                depth,
                alpha,
                beta,
                ply,
                nodes,
                state,
                path,
                allow_null,
            );
            let value = minimax(evaluator, state.options, p, depth as nat, ply, path);
            &&& found.state.options == state.options
            &&& within(found.score as int)
            &&& within(value)
            &&& fits(found.score as int, alpha as int, beta as int, value)
        }),
    decreases depth, 3nat, 0nat,
{
    let options = state.options;
    let visited = nodes.wrapping_add(1);
    if !model::rule_draw(p, path) && p.legal_moves().len() > 0 && depth > 0 {
        let legal = p.legal_moves();
        let d = depth as nat;
        let moves = ordering::ordered(p, legal, state, ply as int, None);
        ordering::lemma_ordered_members(p, legal, state, ply as int, None);
        let start = Progress {
            alpha,
            best: (-SCORE_INF) as i32,
            best_move: None,
            pv: Seq::empty(),
            nodes: visited,
            state,
            clock_due: false,
        };
        assert(!model::tries_null(p, depth, beta, state, allow_null));
        lemma_tame_moves(evaluator, p, horizon(options, d), moves);
        lemma_values_within(evaluator, options, p, depth, ply, path, moves);
        lemma_all_moves(evaluator, p, depth, alpha, beta, ply, path, moves, 0, start);
        let end = model::all_moves(evaluator, p, depth, beta, ply, path, moves, 0, start);
        lemma_best_value(evaluator, options, p, d, ply, path, legal, legal.len());
        let value = minimax(evaluator, options, p, d, ply, path);
        assert(value == best_value(evaluator, options, p, d, ply, path, legal, legal.len()));
        // A value among the ordered moves is one among the legal moves.
        assert forall|j: int| 0 <= j < moves.len() implies move_value(
            evaluator,
            options,
            p,
            d,
            ply,
            path,
            #[trigger] moves[j],
        ) <= value by {
            assert(moves.contains(moves[j]));
            assert(legal.contains(moves[j]));
            let k = choose|k: int| 0 <= k < legal.len() && legal[k] == moves[j];
            assert(move_value(evaluator, options, p, d, ply, path, legal[k]) <= value);
        }
        assert forall|k: int| 0 <= k < legal.len() && end.alpha < beta implies move_value(
            evaluator,
            options,
            p,
            d,
            ply,
            path,
            #[trigger] legal[k],
        ) <= end.best by {
            assert(legal.contains(legal[k]));
            assert(moves.contains(legal[k]));
            let j = choose|j: int| 0 <= j < moves.len() && moves[j] == legal[k];
            assert(move_value(evaluator, options, p, d, ply, path, moves[j]) <= end.best);
        }
        assert(value > -SCORE_INF) by {
            assert(within(move_value(evaluator, options, p, d, ply, path, moves[0])));
        }
        let top = choose|k: int|
            0 <= k < legal.len() && move_value(evaluator, options, p, d, ply, path, #[trigger] legal[k])
                == value;
        assert(legal.contains(legal[top]));
        assert(moves.contains(legal[top]));
        let same = choose|j: int| 0 <= j < moves.len() && moves[j] == legal[top];
        assert(within(move_value(evaluator, options, p, d, ply, path, moves[same])));
    } else if !model::rule_draw(p, path) && p.legal_moves().len() == 0 {
        assert(ply as i32 == ply);
    } else if !model::rule_draw(p, path) && options.use_quiescence {
        assert(quiet_laws::plies_left(ply, ply) == MAX_QUIESCENCE_PLY);
        quiet_laws::quiescence_finds_the_quiet_value(
            evaluator,
            p,
            alpha,
            beta,
            ply,
            ply,
            visited,
            state,
            path,
        );
    }
}

/// Every legal move of a tame position, in whatever order, leads to one.
proof fn lemma_tame_moves<E: Evaluator>(evaluator: E, p: PositionView, depth: nat, moves: Seq<Move>)
    requires
        depth > 0,
        tame(evaluator, p, depth),
        forall|mv: Move| moves.contains(mv) ==> p.legal_moves().contains(mv),
    ensures
        forall|j: int|
            0 <= j < moves.len() ==> tame(
                evaluator,
                p.made(#[trigger] moves[j]),
                (depth - 1) as nat,
            ),
{
    assert forall|j: int| 0 <= j < moves.len() implies tame(
        evaluator,
        p.made(#[trigger] moves[j]),
        (depth - 1) as nat,
    ) by {
        assert(moves.contains(moves[j]));
        assert(p.legal_moves().contains(moves[j]));
        let k = choose|k: int| 0 <= k < p.legal_moves().len() && p.legal_moves()[k] == moves[j];
        assert(tame(evaluator, p.made(p.legal_moves()[k]), (depth - 1) as nat));
    }
}

/// Searching the moves of a node one by one: without a cutoff no move is worth
/// more than the best score, and a best score above the first alpha is the
/// worth of some move; a cutoff is justified by a move worth at least the best
/// score.
#[verifier::rlimit(60)]
#[verifier::spinoff_prover]
proof fn lemma_all_moves<E: Evaluator>(
    evaluator: E,
    p: PositionView,
    depth: u32,
    alpha: Score,
    beta: Score,
    ply: u32,
    path: Seq<u64>,
    moves: Seq<Move>,
    index: nat,
    progress: Progress,
)
    requires
        depth > 0,
        plain(progress.state.options),
        -SCORE_INF <= alpha < beta <= SCORE_INF,
        ply + depth < 60_000,
        index <= moves.len(),
        forall|j: int|
            0 <= j < moves.len() ==> tame(
                evaluator,
                p.made(#[trigger] moves[j]),
                horizon(progress.state.options, (depth - 1) as nat),
            ),
        progress.alpha == model::higher(alpha, progress.best),
        progress.alpha < beta,
        -SCORE_INF <= progress.best < SCORE_INF,
        index > 0 ==> progress.best > -SCORE_INF,
        forall|j: int|
            0 <= j < index ==> move_value(evaluator, progress.state.options, p, depth as nat, ply, path, #[trigger] moves[j])
                <= progress.best,
        progress.best > alpha ==> exists|j: int|
            0 <= j < index && move_value(
                evaluator,
                progress.state.options,
                p,
                depth as nat,
                ply,
                path,
                #[trigger] moves[j],
            ) == progress.best,
    ensures
        ({
            let end = model::all_moves(
                evaluator,
                p,
                depth,
                beta,
                ply,
                path,
                moves,
                index,
                progress,
            );
            &&& end.state.options == progress.state.options
            &&& -SCORE_INF <= end.best < SCORE_INF
            &&& moves.len() > 0 ==> end.best > -SCORE_INF
            &&& end.alpha == model::higher(alpha, end.best)
            &&& end.alpha >= beta ==> exists|j: int|
                0 <= j < moves.len() && move_value(
                    evaluator,
                    progress.state.options,
                    p,
                    depth as nat,
                    ply,
                    path,
                    #[trigger] moves[j],
                ) >= end.best
            &&& end.alpha < beta ==> forall|j: int|
                0 <= j < moves.len() ==> move_value(
                    evaluator,
                    progress.state.options,
                    p,
                    depth as nat,
                    ply,
                    path,
                    #[trigger] moves[j],
                ) <= end.best
            &&& end.alpha < beta && end.best > alpha ==> exists|j: int|
                0 <= j < moves.len() && move_value(
                    evaluator,
                    progress.state.options,
                    p,
                    depth as nat,
                    ply,
                    path,
                    #[trigger] moves[j],
                ) == end.best
        }),
    decreases depth, 2nat, moves.len() - index,
{
    let options = progress.state.options;
    if index < moves.len() {
        let mv = moves[index as int];
        let d = depth as nat;
        let child = model::child_node(
            evaluator,
            p,
            depth,
            progress.alpha,
            beta,
            ply,
            path,
            mv,
            index as int,
            progress.nodes,
            progress.state,
        );
        lemma_child(
            evaluator,
            p,
            depth,
            progress.alpha,
            beta,
            ply,
            path,
            mv,
            index as int,
            progress.nodes,
            progress.state,
        );
        let next = model::advanced(progress, mv, child);
        let value = move_value(evaluator, options, p, d, ply, path, mv);
        lemma_neg(child.score);
        if next.alpha >= beta {
            assert(value >= next.best);
        } else {
            assert forall|j: int| 0 <= j < index + 1 implies move_value(
                evaluator,
                options,
                p,
                d,
                ply,
                path,
                #[trigger] moves[j],
            ) <= next.best by {
                if j < index {
                    assert(move_value(evaluator, options, p, d, ply, path, moves[j]) <= progress.best);
                }
            }
            if next.best > alpha {
                if next.best > progress.best {
                    assert(move_value(evaluator, options, p, d, ply, path, moves[index as int]) == next.best);
                } else {
                    let j = choose|j: int|
                        0 <= j < index && move_value(
                            evaluator,
                            options,
                            p,
                            d,
                            ply,
                            path,
                            #[trigger] moves[j],
                        ) == progress.best;
                    assert(move_value(evaluator, options, p, d, ply, path, moves[j]) == next.best);
                }
            }
            lemma_all_moves(
                evaluator,
                p,
                depth,
                alpha,
                beta,
                ply,
                path,
                moves,
                index + 1,
                next,
            );
        }
    }
}

/// The worth of every move is within the widest window.
proof fn lemma_values_within<E: Evaluator>(
    evaluator: E,
    options: SearchOptions,
    p: PositionView,
    depth: u32,
    ply: u32,
    path: Seq<u64>,
    moves: Seq<Move>,
)
    requires
        depth > 0,
        ply + depth < 60_000,
        forall|j: int|
            0 <= j < moves.len() ==> tame(
                evaluator,
                p.made(#[trigger] moves[j]),
                horizon(options, (depth - 1) as nat),
            ),
    ensures
        forall|j: int|
            0 <= j < moves.len() ==> within(
                move_value(evaluator, options, p, depth as nat, ply, path, #[trigger] moves[j]),
            ),
    decreases depth, 1nat, 0nat,
{
    assert forall|j: int| 0 <= j < moves.len() implies within(
        move_value(evaluator, options, p, depth as nat, ply, path, #[trigger] moves[j]),
    ) by {
        let q = p.made(moves[j]);
        lemma_minimax_within(
            evaluator,
            options,
            q,
            (depth - 1) as nat,
            (ply + 1) as u32,
            path.push(q.hash()),
        );
    }
}

/// The value of a tame position is within the widest window.
proof fn lemma_minimax_within<E: Evaluator>(
    evaluator: E,
    options: SearchOptions,
    p: PositionView,
    depth: nat,
    ply: u32,
    path: Seq<u64>,
)
    requires
        tame(evaluator, p, horizon(options, depth)),
        ply + depth < 60_000,
    ensures
        within(minimax(evaluator, options, p, depth, ply, path)),
    decreases depth,
{
    if model::rule_draw(p, path) {
    } else if p.legal_moves().len() == 0 {
        assert(ply as i32 == ply);
    } else if depth > 0 {
        let moves = p.legal_moves();
        assert forall|j: int| 0 <= j < moves.len() implies within(
            move_value(evaluator, options, p, depth, ply, path, #[trigger] moves[j]),
        ) by {
            let q = p.made(moves[j]);
            assert(tame(evaluator, q, horizon(options, (depth - 1) as nat)));
            lemma_minimax_within(
                evaluator,
                options,
                q,
                (depth - 1) as nat,
                (ply + 1) as u32,
                path.push(q.hash()),
            );
        }
        lemma_best_value(evaluator, options, p, depth, ply, path, moves, moves.len());
        assert(move_value(evaluator, options, p, depth, ply, path, moves[0]) > -SCORE_INF);
    } else if options.use_quiescence {
        assert(quiet_laws::plies_left(ply, ply) == MAX_QUIESCENCE_PLY);
        quiet_laws::lemma_quiet_within(evaluator, options, p, ply, ply, path);
    }
}

/// Searching one move finds its worth, or a bound on it beyond the window.
#[verifier::rlimit(60)]
#[verifier::spinoff_prover]
proof fn lemma_child<E: Evaluator>(
    evaluator: E,
    p: PositionView,
    depth: u32,
    alpha: Score,
    beta: Score,
    ply: u32,
    path: Seq<u64>,
    mv: Move,
    index: int,
    nodes: u64,
    state: StateView,
)
    requires
        depth > 0,
        plain(state.options),
        tame(evaluator, p.made(mv), horizon(state.options, (depth - 1) as nat)),
        -SCORE_INF <= alpha < beta <= SCORE_INF,
        ply + depth < 60_000,
    ensures
        ({
            let child = model::child_node(
                evaluator,
                p,
                depth,
                alpha,
                beta,
                ply,
                path,
                mv,
                index,
                nodes,
                state,
            );
            &&& child.state.options == state.options
            &&& within(child.score as int)
            &&& fits(
                -child.score,
                alpha as int,
                beta as int,
                move_value(evaluator, state.options, p, depth as nat, ply, path, mv),
            )
        }),
    decreases depth, 1nat, 0nat,
{
    let options = state.options;
    let q = p.made(mv);
    let line = path.push(q.hash());
    let below = (ply + 1) as u32;
    let full = (depth - 1) as u32;
    lemma_neg(alpha);
    lemma_neg(beta);
    if index == 0 {
        lemma_node(
            evaluator,
            q,
            full,
            model::neg(beta),
            model::neg(alpha),
            below,
            nodes,
            state,
            line,
            true,
        );
    } else {
        let low = model::neg(alpha).wrapping_sub(1);
        if alpha < SCORE_INF {
            let scout = model::scout_node(
                evaluator,
                p,
                depth,
                alpha,
                ply,
                path,
                mv,
                index,
                nodes,
                state,
            );
            assert(!model::reduces(p, depth, ply, state, mv, index));
            lemma_scout_window(
                evaluator,
                q,
                full,
                alpha,
                below,
                nodes,
                state,
                line,
            );
            lemma_neg(scout.score);
            if alpha < -scout.score < beta {
                lemma_node(
                    evaluator,
                    q,
                    full,
                    model::neg(beta),
                    model::neg(alpha),
                    below,
                    scout.nodes,
                    scout.state,
                    line,
                    true,
                );
            }
        }
    }
}

/// A null-window search tells on which side of alpha the value lies.
proof fn lemma_scout_window<E: Evaluator>(
    evaluator: E,
    q: PositionView,
    depth: u32,
    alpha: Score,
    ply: u32,
    nodes: u64,
    state: StateView,
    path: Seq<u64>,
)
    requires
        plain(state.options),
        tame(evaluator, q, horizon(state.options, depth as nat)),
        -SCORE_INF <= alpha < SCORE_INF,
        ply + depth < 60_000,
    ensures
        ({
            let found = model::node(
                evaluator,
                q,
                depth,
                model::neg(alpha).wrapping_sub(1),
                model::neg(alpha),
                ply,
                nodes,
                state,
                path,
                true,
            );
            let value = -minimax(evaluator, state.options, q, depth as nat, ply, path);
            &&& found.state.options == state.options
            &&& within(found.score as int)
            &&& -found.score <= alpha ==> value <= -found.score
            &&& -found.score > alpha ==> value >= -found.score
        }),
    decreases depth, 4nat, 0nat,
{
    let options = state.options;
    lemma_neg(alpha);
    lemma_node(
        evaluator,
        q,
        depth,
        model::neg(alpha).wrapping_sub(1),
        model::neg(alpha),
        ply,
        nodes,
        state,
        path,
        true,
    );
}

/// Searching the moves at the root one by one: the best score so far is the
/// best worth of the moves searched so far.
#[verifier::rlimit(30)]
#[verifier::spinoff_prover]
proof fn lemma_root_moves<E: Evaluator>(
    evaluator: E,
    p: PositionView,
    depth: u32,
    path: Seq<u64>,
    moves: Seq<Move>,
    index: nat,
    progress: RootProgress,
)
    requires
        depth > 0,
        depth < 60_000,
        plain(progress.state.options),
        index <= moves.len(),
        forall|j: int|
            0 <= j < moves.len() ==> tame(
                evaluator,
                p.made(#[trigger] moves[j]),
                horizon(progress.state.options, (depth - 1) as nat),
            ),
        progress.alpha == progress.best,
        -SCORE_INF <= progress.best < SCORE_INF,
        progress.best == best_value(evaluator, progress.state.options, p, depth as nat, 0, path, moves, index),
    ensures
        model::root_moves(evaluator, p, depth, path, moves, index, progress).best == best_value(
            evaluator,
            progress.state.options,
            p,
            depth as nat,
            0,
            path,
            moves,
            moves.len(),
        ),
    decreases moves.len() - index,
{
    let options = progress.state.options;
    reveal(model::root_moves);
    if index < moves.len() {
        let mv = moves[index as int];
        let q = p.made(mv);
        let d = depth as nat;
        lemma_neg(progress.alpha);
        lemma_neg(SCORE_INF);
        lemma_node(
            evaluator,
            q,
            (depth - 1) as u32,
            model::neg(SCORE_INF),
            model::neg(progress.alpha),
            1,
            progress.nodes,
            progress.state,
            path.push(q.hash()),
            true,
        );
        let child = model::node(
            evaluator,
            q,
            (depth - 1) as u32,
            model::neg(SCORE_INF),
            model::neg(progress.alpha),
            1,
            progress.nodes,
            progress.state,
            path.push(q.hash()),
            true,
        );
        let score = model::neg(child.score);
        lemma_neg(child.score);
        let better = score > progress.best;
        let next = RootProgress {
            alpha: model::higher(progress.alpha, score),
            best: if better {
                score
            } else {
                progress.best
            },
            best_move: if better {
                mv
            } else {
                progress.best_move
            },
            pv: if better {
                child.pv.insert(0, mv)
            } else {
                progress.pv
            },
            nodes: child.nodes,
            state: child.state,
            clock_due: progress.clock_due || child.clock_due,
        };
        let value = move_value(evaluator, options, p, d, 0, path, mv);
        assert(value == -minimax(evaluator, options, q, (d - 1) as nat, 1, path.push(q.hash())));
        assert(next.best == best_value(evaluator, options, p, d, 0, path, moves, index + 1));
        lemma_root_moves(evaluator, p, depth, path, moves, index + 1, next);
    }
}

/// The best value does not depend on the order of the moves.
proof fn lemma_best_value_of_members<E: Evaluator>(
    evaluator: E,
    options: SearchOptions,
    p: PositionView,
    depth: nat,
    ply: u32,
    path: Seq<u64>,
    a: Seq<Move>,
    b: Seq<Move>,
)
    requires
        depth > 0,
        forall|mv: Move| a.contains(mv) ==> b.contains(mv),
    ensures
        best_value(evaluator, options, p, depth, ply, path, a, a.len()) <= best_value(
            evaluator,
            options,
            p,
            depth,
            ply,
            path,
            b,
            b.len(),
        ),
{
    lemma_best_value(evaluator, options, p, depth, ply, path, a, a.len());
    lemma_best_value(evaluator, options, p, depth, ply, path, b, b.len());
    let best = best_value(evaluator, options, p, depth, ply, path, a, a.len());
    if best > -SCORE_INF {
        let k = choose|k: int|
            0 <= k < a.len() && move_value(evaluator, options, p, depth, ply, path, #[trigger] a[k]) == best;
        assert(a.contains(a[k]));
        assert(b.contains(a[k]));
        let j = choose|j: int| 0 <= j < b.len() && b[j] == a[k];
        assert(move_value(evaluator, options, p, depth, ply, path, b[j]) == best);
    }
}

/// Alpha-beta without selective features changes nothing but the effort: with
/// an evaluator that stays within the widest window, the score of a search is
/// the minimax value of the position, with or without quiescence at its end.
pub proof fn plain_search_finds_the_minimax_value<E: Evaluator>(
    evaluator: E,
    p: PositionView,
    depth: u32,
    state: StateView,
    path: Seq<u64>,
)
    requires
        plain(state.options),
        tame(evaluator, p, horizon(state.options, depth as nat)),
        0 < depth < 60_000,
        p.legal_moves().len() > 0 || !model::rule_draw(p, path),
    ensures
        model::root(evaluator, p, depth, state, path).result.score == minimax(
            evaluator,
            state.options,
            p,
            depth as nat,
            0,
            path,
        ),
{
    let options = state.options;
    reveal(model::root);
    let moves = p.legal_moves();
    if moves.len() > 0 && !model::rule_draw(p, path) {
        let d = depth as nat;
        let start = state.counters_reset();
        let ordered = ordering::ordered(p, moves, start, 0, start.root_best);
        ordering::lemma_ordered_members(p, moves, start, 0, start.root_best);
        lemma_tame_moves(evaluator, p, horizon(options, d), ordered);
        lemma_root_moves(
            evaluator,
            p,
            depth,
            path,
            ordered,
            0,
            RootProgress {
                alpha: (-SCORE_INF) as i32,
                best: (-SCORE_INF) as i32,
                best_move: ordered[0],
                pv: Seq::empty(),
                nodes: 0,
                state: start,
                clock_due: false,
            },
        );
        lemma_best_value_of_members(evaluator, options, p, d, 0, path, moves, ordered);
        lemma_best_value_of_members(evaluator, options, p, d, 0, path, ordered, moves);
    }
}

/// The best move at the root is one of the moves searched, and the line found
/// starts with it.
proof fn lemma_root_line<E: Evaluator>(
    evaluator: E,
    p: PositionView,
    depth: u32,
    path: Seq<u64>,
    moves: Seq<Move>,
    index: nat,
    progress: RootProgress,
)
    requires
        index <= moves.len(),
        moves.contains(progress.best_move),
        progress.pv.len() > 0 ==> progress.pv[0] == progress.best_move,
    ensures
        ({
            let end = model::root_moves(evaluator, p, depth, path, moves, index, progress);
            &&& moves.contains(end.best_move)
            &&& end.pv.len() > 0 ==> end.pv[0] == end.best_move
        }),
    decreases moves.len() - index,
{
    reveal(model::root_moves);
    if index < moves.len() {
        let mv = moves[index as int];
        let q = p.made(mv);
        let child = model::node(
            evaluator,
            q,
            (depth - 1) as u32,
            model::neg(SCORE_INF),
            model::neg(progress.alpha),
            1,
            progress.nodes,
            progress.state,
            path.push(q.hash()),
            true,
        );
        let score = model::neg(child.score);
        let better = score > progress.best;
        let next = RootProgress {
            alpha: model::higher(progress.alpha, score),
            best: if better {
                score
            } else {
                progress.best
            },
            best_move: if better {
                mv
            } else {
                progress.best_move
            },
            pv: if better {
                child.pv.insert(0, mv)
            } else {
                progress.pv
            },
            nodes: child.nodes,
            state: child.state,
            clock_due: progress.clock_due || child.clock_due,
        };
        assert(moves.contains(mv));
        assert(child.pv.insert(0, mv)[0] == mv);
        lemma_root_line(evaluator, p, depth, path, moves, index + 1, next);
    }
}

/// Whatever features are on, a search answers with a legal move exactly if
/// there is one, its line starts with that move, and a game that is over or
/// drawn is scored as such.
pub proof fn search_answers_with_a_legal_move<E: Evaluator>(
    evaluator: E,
    p: PositionView,
    depth: u32,
    state: StateView,
    path: Seq<u64>,
)
    ensures
        ({
            let result = model::root(evaluator, p, depth, state, path).result;
            &&& result.best_move is None <==> p.legal_moves().len() == 0
            &&& result.best_move matches Some(mv) ==> p.legal_moves().contains(mv)
            &&& result.pv.len() > 0 ==> result.best_move == Some(result.pv[0])
            &&& p.legal_moves().len() == 0 ==> result.score == model::terminal_value(p, 0)
            &&& p.legal_moves().len() > 0 && model::rule_draw(p, path) ==> result.score == 0
        }),
{
    reveal(model::root);
    let moves = p.legal_moves();
    if moves.len() > 0 && !model::rule_draw(p, path) {
        let start = state.counters_reset();
        let ordered = ordering::ordered(p, moves, start, 0, start.root_best);
        ordering::lemma_ordered_members(p, moves, start, 0, start.root_best);
        assert(ordered.contains(ordered[0]));
        lemma_root_line(
            evaluator,
            p,
            depth,
            path,
            ordered,
            0,
            RootProgress {
                alpha: (-SCORE_INF) as i32,
                best: (-SCORE_INF) as i32,
                best_move: ordered[0],
                pv: Seq::empty(),
                nodes: 0,
                state: start,
                clock_due: false,
            },
        );
    } else if moves.len() > 0 {
        assert(moves.contains(moves[0]));
    }
}

/// Searching more captures never lowers the best score so far.
proof fn lemma_quiet_best_grows<E: Evaluator>(
    evaluator: E,
    p: PositionView,
    stand_pat: Score,
    beta: Score,
    ply: u32,
    start_ply: u32,
    path: Seq<u64>,
    evading: bool,
    moves: Seq<Move>,
    index: nat,
    progress: QuietProgress,
)
    ensures
        model::quiet_moves(
            evaluator,
            p,
            stand_pat,
            beta,
            ply,
            start_ply,
            path,
            evading,
            moves,
            index,
            progress,
        ).best >= progress.best,
    decreases moves.len() - index,
{
    if index < moves.len() && model::quiet_depth(ply, start_ply) < MAX_QUIESCENCE_PLY {
        let mv = moves[index as int];
        let counted = model::delta_counted(
            p,
            mv,
            stand_pat,
            progress.alpha,
            evading,
            progress.state,
        );
        let seen = model::see_counted(p, mv, evading, counted);
        let next = if model::delta_prunes(
            p,
            mv,
            stand_pat,
            progress.alpha,
            evading,
            progress.state,
        ) {
            QuietProgress { state: counted, ..progress }
        } else if model::see_prunes(p, mv, evading, counted) {
            QuietProgress { state: seen, ..progress }
        } else {
            let q = p.made(mv);
            let child = model::quiet_node(
                evaluator,
                q,
                model::neg(beta),
                model::neg(progress.alpha),
                ply.wrapping_add(1),
                start_ply,
                progress.nodes,
                seen,
                path.push(q.hash()),
            );
            let score = model::neg(child.score);
            QuietProgress {
                alpha: model::higher(progress.alpha, score),
                best: model::higher(progress.best, score),
                nodes: child.nodes,
                state: child.state,
                clock_due: progress.clock_due || child.clock_due,
            }
        };
        assert(next.best >= progress.best);
        lemma_quiet_best_grows(
            evaluator,
            p,
            stand_pat,
            beta,
            ply,
            start_ply,
            path,
            evading,
            moves,
            index + 1,
            next,
        );
    }
}

/// Nobody has to capture: as long as the game goes on and no check has to be
/// evaded, quiescence scores a position at least as high as the evaluator.
pub proof fn standing_pat_is_a_floor<E: Evaluator>(
    evaluator: E,
    p: PositionView,
    alpha: Score,
    beta: Score,
    ply: u32,
    start_ply: u32,
    nodes: u64,
    state: StateView,
    path: Seq<u64>,
)
    requires
        !model::rule_draw(p, path),
        p.legal_moves().len() > 0,
        !model::evades(p, state),
    ensures
        model::quiet_node(
            evaluator,
            p,
            alpha,
            beta,
            ply,
            start_ply,
            nodes,
            state,
            path,
        ).score >= evaluator.value(p),
{
    let stand_pat = evaluator.value(p);
    lemma_quiet_best_grows(
        evaluator,
        p,
        stand_pat,
        beta,
        ply,
        start_ply,
        path,
        false,
        model::noisy_moves(p, state),
        0,
        QuietProgress {
            alpha: model::higher(alpha, stand_pat),
            best: stand_pat,
            nodes: nodes.wrapping_add(1),
            state,
            clock_due: false,
        },
    );
}

/// A score taken out of the table at the ply where it was put in is the score
/// that was put in: mate distances are made relative to the node and back.
pub proof fn table_scores_round_trip(score: Score, ply: u32)
    requires
        score >= MATE_THRESHOLD ==> score + ply <= i32::MAX,
        score <= -MATE_THRESHOLD ==> score - ply >= i32::MIN,
    ensures
        model::from_table(model::to_table(score, ply), ply) == score,
{
    if score >= MATE_THRESHOLD || score <= -MATE_THRESHOLD {
        assert(ply as i32 == ply);
    }
}

} // verus!
