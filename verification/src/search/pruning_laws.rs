//! When the search may look less far than it was asked to, and when not.

use super::model::{self, Progress};
use super::state::StateView;
use super::{exchange_laws, Score, MATE_THRESHOLD, SCORE_MATE};
use crate::chess::moves::Move;
use crate::chess::piece::{Color, PieceKind};
use crate::chess::position::PositionView;
use crate::eval::Evaluator;
use vstd::prelude::*;

verus! {

/// Whether `color` has nothing but pawns and kings.
pub open spec fn only_pawns_and_king(p: PositionView, color: Color) -> bool {
    forall|i: int|
        0 <= i < 64 ==> (#[trigger] p.board[i] matches Some(piece) ==> piece.color != color
            || piece.kind == PieceKind::Pawn || piece.kind == PieceKind::King)
}

/// Passing the turn is never tried in check, with nothing but pawns, twice in a
/// row, in a window for mates, close to the leaves, or when it is switched off;
/// the search then goes on as if there were no such thing.
pub proof fn when_the_turn_is_not_passed<E: Evaluator>(
    evaluator: E,
    p: PositionView,
    depth: u32,
    beta: Score,
    ply: u32,
    nodes: u64,
    state: StateView,
    path: Seq<u64>,
    allow_null: bool,
)
    requires
        p.checked(p.side) || only_pawns_and_king(p, p.side) || !allow_null || beta
            >= MATE_THRESHOLD || beta <= -MATE_THRESHOLD || depth < 4
            || !state.options.use_null_move,
    ensures
        ({
            let tried = model::null_try(
                evaluator,
                p,
                depth,
                beta,
                ply,
                nodes,
                state,
                path,
                allow_null,
            );
            &&& tried.cutoff is None
            &&& tried.nodes == nodes
            &&& tried.state == state
            &&& !tried.clock_due
        }),
{
    if only_pawns_and_king(p, p.side) {
        assert(!p.has_pieces(p.side)) by {
            if p.has_pieces(p.side) {
                let i = choose|i: int|
                    0 <= i < 64 && (#[trigger] p.board[i] matches Some(piece) && piece.color
                        == p.side && piece.kind != PieceKind::Pawn && piece.kind
                        != PieceKind::King);
                assert(p.board[i] is Some);
            }
        }
    }
}

/// Otherwise the turn is passed and what follows searched three plies less deep,
/// or four from depth seven on if that is adaptive, with a null window at beta
/// and no second pass; a score that still reaches beta cuts the node off, and
/// nothing else does.
#[verifier::spinoff_prover]
pub proof fn what_passing_the_turn_shows<E: Evaluator>(
    evaluator: E,
    p: PositionView,
    depth: u32,
    beta: Score,
    ply: u32,
    nodes: u64,
    state: StateView,
    path: Seq<u64>,
    k: int,
)
    requires
        !p.checked(p.side),
        0 <= k < 64,
        p.board[k] matches Some(piece) && piece.color == p.side && piece.kind != PieceKind::Pawn
            && piece.kind != PieceKind::King,
        -MATE_THRESHOLD < beta < MATE_THRESHOLD,
        depth >= 4,
        state.options.use_null_move,
    ensures
        ({
            let tried = model::null_try(evaluator, p, depth, beta, ply, nodes, state, path, true);
            let less = if state.options.use_adaptive_null_move && depth >= 7 {
                4int
            } else {
                3
            };
            let child = model::node(
                evaluator,
                p.passed(),
                (depth - less) as u32,
                (-beta) as i32,
                (1 - beta) as i32,
                ply.wrapping_add(1),
                nodes,
                model::null_attempted(state),
                path,
                false,
            );
            &&& tried.nodes == child.nodes
            &&& model::neg(child.score) >= beta ==> tried.cutoff == Some(model::neg(child.score))
            &&& model::neg(child.score) < beta ==> tried.cutoff is None && tried.state
                == child.state
        }),
{
    assert(p.has_pieces(p.side));
    assert(model::neg(beta) == -beta);
    assert(model::neg(beta).wrapping_add(1) == 1 - beta);
}

/// Passing the turn moves nothing: only the turn, the chance to take in passing
/// and the clocks change.
pub proof fn what_passing_the_turn_changes(p: PositionView)
    ensures
        p.passed().board == p.board,
        p.passed().rights == p.rights,
        p.passed().side == p.side.other(),
        p.passed().ep is None,
        p.half < u32::MAX ==> p.passed().half == p.half + 1,
        p.full < u32::MAX ==> p.passed().full == p.full + (if p.side == Color::Black {
            1int
        } else {
            0
        }),
{
}

/// A node that passing the turn cuts off has that score; one with no table entry,
/// moves to make and depth left that it does not cut off is decided by its moves.
#[verifier::spinoff_prover]
pub proof fn a_pass_that_reaches_beta_ends_a_node<E: Evaluator>(
    evaluator: E,
    p: PositionView,
    depth: u32,
    alpha: Score,
    beta: Score,
    ply: u32,
    nodes: u64,
    state: StateView,
    path: Seq<u64>,
    allow_null: bool,
)
    requires
        !state.options.use_tt,
        !model::rule_draw(p, path),
        p.legal_moves().len() > 0,
        depth > 0,
    ensures
        ({
            let found = model::node(
                evaluator,
                p,
                depth,
                alpha,
                beta,
                ply,
                nodes,
                state,
                path,
                allow_null,
            );
            let tried = model::null_try(
                evaluator,
                p,
                depth,
                beta,
                ply,
                nodes.wrapping_add(1),
                state,
                path,
                allow_null,
            );
            tried.cutoff matches Some(score) ==> found.score == score && found.score >= beta
                && found.pv.len() == 0
        }),
{
}

/// Which moves are searched to the full depth at once: the first four, captures,
/// promotions, killers, moves out of and into check, all moves close to the
/// leaves, and all of them if reductions are switched off.
pub proof fn which_moves_are_not_reduced<E: Evaluator>(
    evaluator: E,
    p: PositionView,
    depth: u32,
    alpha: Score,
    ply: u32,
    path: Seq<u64>,
    mv: Move,
    index: int,
    nodes: u64,
    state: StateView,
)
    requires
        depth > 0,
        index < 4 || depth < 3 || p.captures(mv) || mv.kind().promotes_to() is Some
            || state.is_killer(ply as int, mv) || p.checked(p.side) || p.made(mv).checked(
            p.side.other(),
        ) || !state.options.use_lmr,
    ensures
        model::scout_node(evaluator, p, depth, alpha, ply, path, mv, index, nodes, state)
            == model::node(
            evaluator,
            p.made(mv),
            (depth - 1) as u32,
            model::neg(alpha).wrapping_sub(1),
            model::neg(alpha),
            ply.wrapping_add(1),
            nodes,
            state,
            path.push(p.made(mv).hash()),
            true,
        ),
{
}

/// A late quiet move is first searched one ply less deep than the others; if it
/// does not beat alpha there, that is its result, and if it does, the result is
/// that of a search to the full depth.
#[verifier::spinoff_prover]
pub proof fn what_reductions_decide<E: Evaluator>(
    evaluator: E,
    p: PositionView,
    depth: u32,
    alpha: Score,
    ply: u32,
    path: Seq<u64>,
    mv: Move,
    index: int,
    nodes: u64,
    state: StateView,
)
    requires
        depth >= 3,
        index >= 4,
        !p.captures(mv),
        mv.kind().promotes_to() is None,
        !state.is_killer(ply as int, mv),
        !p.checked(p.side),
        !p.made(mv).checked(p.side.other()),
        state.options.use_lmr,
    ensures
        ({
            let scout = model::scout_node(
                evaluator,
                p,
                depth,
                alpha,
                ply,
                path,
                mv,
                index,
                nodes,
                state,
            );
            let reduced = model::node(
                evaluator,
                p.made(mv),
                (depth - 2) as u32,
                model::neg(alpha).wrapping_sub(1),
                model::neg(alpha),
                ply.wrapping_add(1),
                nodes,
                model::lmr_attempted(state),
                path.push(p.made(mv).hash()),
                true,
            );
            let again = model::node(
                evaluator,
                p.made(mv),
                (depth - 1) as u32,
                model::neg(alpha).wrapping_sub(1),
                model::neg(alpha),
                ply.wrapping_add(1),
                reduced.nodes,
                model::lmr_researched(reduced.state),
                path.push(p.made(mv).hash()),
                true,
            );
            &&& model::neg(reduced.score) <= alpha ==> scout.score == reduced.score
            &&& model::neg(reduced.score) > alpha ==> scout.score == again.score
        }),
{
}

/// What is remembered of a move that cut a node off: nothing of captures and
/// promotions; a quiet move becomes the newest killer of its ply, with the one
/// before it as the second, and its history grows by the square of the depth.
/// Nothing else changes.
pub proof fn what_a_cutoff_teaches(
    state: StateView,
    p: PositionView,
    mv: Move,
    ply: u32,
    depth: u32,
    other: int,
    slot: int,
)
    requires
        state.history.len() == 4096,
        0 <= other,
        0 <= slot < 4096,
    ensures
        ({
            let after = state.after_cutoff(p, mv, ply as int, depth);
            let quiet = !p.captures(mv) && mv.kind().promotes_to() is None;
            let here = mv.src() * 64 + mv.dst();
            &&& !quiet ==> after == state
            &&& quiet ==> {
                &&& after.killers.len() > ply
                &&& after.killers[ply as int].0 == Some(mv)
                &&& ply < state.killers.len() && state.killers[ply as int].0 != Some(mv)
                    ==> after.killers[ply as int].1 == state.killers[ply as int].0
                &&& ply < state.killers.len() && state.killers[ply as int].0 == Some(mv)
                    ==> after.killers[ply as int] == state.killers[ply as int]
                &&& other != ply && other < state.killers.len() ==> after.killers[other]
                    == state.killers[other]
                &&& slot != here ==> after.history[slot] == state.history[slot]
                &&& depth < 1000 && -1_000_000_000 < state.history[here] < 1_000_000_000
                    ==> after.history[here] == state.history[here] + depth * depth
                &&& after.history[here] >= state.history[here]
            }
            &&& after.table == state.table
            &&& after.options == state.options
            &&& after.root_best == state.root_best
        }),
{
    broadcast use crate::chess::moves::lemma_move_squares;

    assert(0 <= mv.src() * 64 + mv.dst() < 4096);
    assert(0 <= depth * depth) by (nonlinear_arith)
        requires
            depth >= 0,
    ;
    if depth < 1000 {
        assert(depth * depth < 1_000_000) by (nonlinear_arith)
            requires
                0 <= depth < 1000,
        ;
    }
}

/// A capture is left out of quiescence by its margin only if there are heavy
/// pieces on the board, it does not promote, no check has to be evaded, alpha is
/// no mate, and even what it takes and two pawns more leave the score below
/// alpha; and then it is left out, if that is switched on.
pub proof fn which_captures_are_hopeless(
    p: PositionView,
    mv: Move,
    stand_pat: Score,
    alpha: Score,
    evading: bool,
    state: StateView,
)
    requires
        -1_000_000 < stand_pat < 1_000_000,
    ensures
        model::delta_prunes(p, mv, stand_pat, alpha, evading, state) <==> {
            &&& state.options.use_delta_pruning
            &&& !evading
            &&& p.captures(mv)
            &&& mv.kind().promotes_to() is None
            &&& -MATE_THRESHOLD < alpha < MATE_THRESHOLD
            &&& exists|i: int|
                0 <= i < 64 && (#[trigger] p.board[i] matches Some(piece) && (piece.kind
                    == PieceKind::Rook || piece.kind == PieceKind::Queen))
            &&& stand_pat + exchange_laws::taken(p, mv) + 200 < alpha
        },
{
    exchange_laws::captures_take_something(p, mv);
}

/// A capture is left out by its exchange only if that loses material, it does not
/// promote, and no check has to be evaded; and then it is left out, if that is
/// switched on.
pub proof fn which_captures_lose(p: PositionView, mv: Move, evading: bool, state: StateView)
    ensures
        model::see_prunes(p, mv, evading, state) <==> {
            &&& state.options.use_see
            &&& !evading
            &&& p.captures(mv)
            &&& mv.kind().promotes_to() is None
            &&& super::exchange::exchange_result(p, mv) < 0
        },
{
}

/// What quiescence looks at: in check, if it knows about checks, every legal
/// move, and otherwise captures, and promotions if it knows about these.
pub proof fn what_quiescence_searches(p: PositionView, state: StateView, mv: Move)
    ensures
        model::noisy_moves(p, state).contains(mv) <==> p.legal_moves().contains(mv) && (p.captures(
            mv,
        ) || (state.options.use_enhanced_quiescence && (p.checked(p.side) || mv.kind().promotes_to()
            is Some))),
{
    let noisy = |m: Move| model::is_noisy(p, state, m);
    let legal = p.legal_moves();
    let kept = legal.filter(noisy);
    super::ordering::lemma_ordered_capture_members(p, kept, state.options);
    if kept.contains(mv) {
        let i = choose|i: int| 0 <= i < kept.len() && kept[i] == mv;
        legal.lemma_filter_pred(noisy, i);
        legal.lemma_filter_contains_rev(noisy, mv);
    }
    if legal.contains(mv) && noisy(mv) {
        let i = choose|i: int| 0 <= i < legal.len() && legal[i] == mv;
        legal.lemma_filter_contains(noisy, i);
    }
}

/// Quiescence ends four plies below where it started, with the evaluator's score,
/// and a side that is not in check may always keep that score.
pub proof fn where_quiescence_ends<E: Evaluator>(
    evaluator: E,
    p: PositionView,
    alpha: Score,
    beta: Score,
    ply: u32,
    start_ply: u32,
    nodes: u64,
    state: StateView,
    path: Seq<u64>,
)
    requires
        !model::rule_draw(p, path),
        p.legal_moves().len() > 0,
        start_ply <= ply,
        ply - start_ply >= 4 || (evaluator.value(p) >= beta && !p.checked(p.side)),
    ensures
        ({
            let found = model::quiet_node(
                evaluator,
                p,
                alpha,
                beta,
                ply,
                start_ply,
                nodes,
                state,
                path,
            );
            &&& found.score == evaluator.value(p)
            &&& found.nodes == nodes.wrapping_add(1)
            &&& found.state == state
        }),
{
}

proof fn lemma_occurrences(path: Seq<u64>, hash: u64, n: nat)
    requires
        n <= path.len(),
    ensures
        model::occurrences(path, hash, n) == path.take(n as int).to_multiset().count(hash),
    decreases n,
{
    broadcast use vstd::seq_lib::group_to_multiset_ensures;

    if n > 0 {
        lemma_occurrences(path, hash, (n - 1) as nat);
        assert(path.take(n as int) =~= path.take(n - 1).push(path[n - 1]));
    } else {
        assert(path.take(0) =~= Seq::<u64>::empty());
    }
}

/// A position is drawn by rule just if a hundred plies have passed without a
/// capture or pawn move, or if it stands on its path for the third time.
pub proof fn when_a_position_is_drawn(p: PositionView, path: Seq<u64>)
    ensures
        model::rule_draw(p, path) <==> p.half >= 100 || path.to_multiset().count(p.hash()) >= 3,
{
    lemma_occurrences(path, p.hash(), path.len());
    assert(path.take(path.len() as int) =~= path);
}

/// A drawn node scores zero however it looks, and a node without legal moves is a
/// mate so many plies from the root as it lies below it, or a stalemate.
pub proof fn what_finished_games_score<E: Evaluator>(
    evaluator: E,
    p: PositionView,
    depth: u32,
    alpha: Score,
    beta: Score,
    ply: u32,
    nodes: u64,
    state: StateView,
    path: Seq<u64>,
    allow_null: bool,
)
    requires
        ply < 1000,
    ensures
        ({
            let found = model::node(
                evaluator,
                p,
                depth,
                alpha,
                beta,
                ply,
                nodes,
                state,
                path,
                allow_null,
            );
            &&& model::rule_draw(p, path) ==> found.score == 0 && found.pv.len() == 0
            &&& !model::rule_draw(p, path) && p.legal_moves().len() == 0 && !state.options.use_tt
                ==> {
                &&& p.checked(p.side) ==> found.score == ply - SCORE_MATE
                    && super::mate_distance(found.score as int) == Some(-(ply as int))
                &&& !p.checked(p.side) ==> found.score == 0
            }
        }),
{
    assert(ply as i32 == ply);
}

/// The history that a search starts from ends with the position that is searched,
/// and is the game as it was told otherwise.
pub proof fn searches_start_from_the_current_position(p: PositionView, history: Seq<u64>)
    ensures
        model::with_current(p, history).len() > 0,
        model::with_current(p, history).last() == p.hash(),
        model::with_current(p, history) == history || model::with_current(p, history)
            == history.push(p.hash()),
        history.len() > 0 && history.last() == p.hash() ==> model::with_current(p, history)
            == history,
{
}

/// A search to some depth reports that depth and the best move that the next one
/// tries first, counts the root as a node, and starts with its counters at zero.
pub proof fn what_the_root_reports<E: Evaluator>(
    evaluator: E,
    p: PositionView,
    depth: u32,
    state: StateView,
    path: Seq<u64>,
)
    ensures
        ({
            let found = model::root(evaluator, p, depth, state, path);
            &&& found.result.depth == depth
            &&& p.legal_moves().len() == 0 ==> found.result.best_move is None && found.result.pv.len()
                == 0 && found.result.nodes == 1
            &&& p.legal_moves().len() > 0 ==> found.result.best_move is Some
            &&& p.legal_moves().len() > 0 && model::rule_draw(p, path) ==> found.result.score == 0
                && found.result.nodes == 1
            &&& p.legal_moves().len() > 0 && !model::rule_draw(p, path) ==> found.state.root_best
                == found.result.best_move
        }),
{
    reveal(model::root);
}

/// The best move of a node is the one whose reply leaves the opponent worst off:
/// one more move becomes the best just if it scores higher than all before it,
/// and then the line starts with it.
pub proof fn better_moves_replace_worse_ones(progress: Progress, mv: Move, child: model::Outcome)
    requires
        child.score > i32::MIN,
    ensures
        ({
            let next = model::advanced(progress, mv, child);
            let score = -child.score;
            &&& score > progress.best ==> next.best == score && next.best_move == Some(mv)
                && next.pv.len() == child.pv.len() + 1 && next.pv[0] == mv && next.pv.skip(1)
                == child.pv
            &&& score <= progress.best ==> next.best == progress.best && next.best_move
                == progress.best_move && next.pv == progress.pv
            &&& next.alpha >= progress.alpha && next.alpha >= score && (next.alpha == progress.alpha
                || next.alpha == score)
            &&& next.nodes == child.nodes
            &&& next.state == child.state
        }),
{
    let inserted = child.pv.insert(0, mv);
    assert(inserted.skip(1) =~= child.pv);
}

} // verus!
