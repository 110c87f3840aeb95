//! Searching the root: to a fixed depth, or deeper and deeper until time is up.

use super::deadline::{Deadline, StopSignal, Stopwatch};
use super::looks::{self, Looks, Note, Plan};
use super::model::{self, RootProgress};
use super::ordering;
use super::reports::{self, Reports};
use super::state::{SearchState, StateView};
use super::time_manager::{
    self, estimate_next_depth_cost, next_depth_is_affordable, nodes_per_second, TimeBudget,
    TimeManagementTelemetry,
};
use super::{alpha_beta, Score, SearchOptions, SearchResult, SearchResultView, SCORE_INF};
use crate::chess::moves::Move;
use crate::chess::position::{Position, PositionView};
use crate::eval::Evaluator;
use crate::time::Duration;
use vstd::prelude::*;

verus! {

broadcast use crate::chess::position::lemma_board_len;

/// A practical ceiling for iterative deepening. Positions where every move
/// immediately reaches a rule draw can otherwise complete arbitrarily large
/// nominal depths in constant time, producing meaningless values in UCI
/// telemetry and experiment aggregates.
pub const MAX_ITERATIVE_DEPTH: u32 = 128;

/// Whether a root can be searched to `depth`: there has to be at least one ply
/// to search, unless the game is over or drawn already.
pub open spec fn searchable(p: PositionView, depth: u32, path: Seq<u64>) -> bool {
    depth > 0 || p.legal_moves().len() == 0 || model::rule_draw(p, path)
}

/// Whether there is nothing to search: the game is over or drawn already.
pub open spec fn decided(p: PositionView, path: Seq<u64>) -> bool {
    p.legal_moves().len() == 0 || model::rule_draw(p, path)
}

/// The result of deepening up to `depth`.
pub open spec fn iterate<E: Evaluator>(
    evaluator: E,
    p: PositionView,
    depth: nat,
    options: SearchOptions,
    path: Seq<u64>,
) -> SearchResultView {
    model::deepened(evaluator, p, depth, options, path).result
}

/// The results of deepening to 1, 2, ... and finally `depth`.
pub open spec fn depth_results<E: Evaluator>(
    evaluator: E,
    p: PositionView,
    depth: nat,
    options: SearchOptions,
    path: Seq<u64>,
) -> Seq<SearchResultView> {
    Seq::new(depth, |k: int| iterate(evaluator, p, (k + 1) as nat, options, path))
}

/// One more depth adds its result to those of the depths before.
pub proof fn lemma_depth_results<E: Evaluator>(
    evaluator: E,
    p: PositionView,
    depth: nat,
    options: SearchOptions,
    path: Seq<u64>,
)
    ensures
        ({
            let before = depth_results(evaluator, p, depth, options, path);
            let after = depth_results(evaluator, p, depth + 1, options, path);
            let last = iterate(evaluator, p, depth + 1, options, path);
            &&& after == before.push(last)
            &&& after.len() == depth + 1
            &&& after.last() == last
            &&& depth > 0 ==> after[depth - 1] == iterate(evaluator, p, depth, options, path)
            &&& looks::settled(after) == settles(evaluator, p, depth + 1, options, path)
            &&& looks::looks_owed(after) == looks::looks_owed(before) + last.nodes - 1
            &&& depth > 0 ==> looks::looks_owed(after.skip(1)) == looks::looks_owed(before.skip(1))
                + last.nodes - 1
            &&& depth == 0 ==> looks::looks_owed(before) == 0 && looks::looks_owed(after.skip(1))
                == 0
        }),
{
    let before = depth_results(evaluator, p, depth, options, path);
    let last = iterate(evaluator, p, depth + 1, options, path);
    assert(depth_results(evaluator, p, depth + 1, options, path) =~= before.push(last));
    looks::lemma_looks_owed(before, last);
}

/// How many nodes a search to a depth has visited besides the root.
pub open spec fn nodes_below(outcome: Option<SearchResult>) -> u64 {
    match outcome {
        Some(result) => result.nodes.wrapping_sub(1),
        None => 0,
    }
}

/// Whether `f` was told of the results of all depths up to `depth`.
pub open spec fn all_received<E: Evaluator, F: FnMut(&SearchResult)>(
    f: F,
    evaluator: E,
    p: PositionView,
    depth: nat,
    options: SearchOptions,
    path: Seq<u64>,
) -> bool {
    forall|k: nat|
        1 <= k <= depth ==> reports::received(
            f,
            #[trigger] iterate(evaluator, p, k, options, path),
        )
}

/// Who was told of all depths, was told of each.
proof fn lemma_all_received<E: Evaluator, F: FnMut(&SearchResult)>(
    told: Reports<F>,
    evaluator: E,
    p: PositionView,
    depth: nat,
    options: SearchOptions,
    path: Seq<u64>,
)
    requires
        told.wf(),
        told.log() == depth_results(evaluator, p, depth, options, path),
    ensures
        all_received(told.receiver(), evaluator, p, depth, options, path),
{
    assert forall|k: nat| 1 <= k <= depth implies reports::received(
        told.receiver(),
        #[trigger] iterate(evaluator, p, k, options, path),
    ) by {
        assert(told.log()[k - 1] == iterate(evaluator, p, k, options, path));
    }
}

/// Whether one more depth changed nothing: the same move and score from the
/// same number of nodes.
pub open spec fn saturated(before: SearchResultView, after: SearchResultView) -> bool {
    after.nodes == before.nodes && after.score == before.score && after.best_move
        == before.best_move
}

/// Whether a result stands for a forced mate.
pub open spec fn finds_mate(result: SearchResultView) -> bool {
    super::mate_distance(result.score as int) is Some
}

/// Whether deepening stops after `depth` of its own accord: a mate has been
/// found, or the last depth changed nothing.
pub open spec fn settles<E: Evaluator>(
    evaluator: E,
    p: PositionView,
    depth: nat,
    options: SearchOptions,
    path: Seq<u64>,
) -> bool {
    finds_mate(iterate(evaluator, p, depth, options, path)) || (depth >= 2 && saturated(
        iterate(evaluator, p, (depth - 1) as nat, options, path),
        iterate(evaluator, p, depth, options, path),
    ))
}

/// How often the best move changed from one depth to the next, up to `depth`.
pub open spec fn move_changes<E: Evaluator>(
    evaluator: E,
    p: PositionView,
    depth: nat,
    options: SearchOptions,
    path: Seq<u64>,
) -> nat
    decreases depth,
{
    if depth <= 1 {
        0
    } else {
        move_changes(evaluator, p, (depth - 1) as nat, options, path) + (if iterate(
            evaluator,
            p,
            depth,
            options,
            path,
        ).best_move != iterate(evaluator, p, (depth - 1) as nat, options, path).best_move {
            1nat
        } else {
            0
        })
    }
}

/// The nodes of all depths up to `depth` together, modulo 2^64.
pub open spec fn total_nodes<E: Evaluator>(
    evaluator: E,
    p: PositionView,
    depth: nat,
    options: SearchOptions,
    path: Seq<u64>,
) -> u64
    decreases depth,
{
    if depth <= 1 {
        iterate(evaluator, p, 1, options, path).nodes
    } else {
        total_nodes(evaluator, p, (depth - 1) as nat, options, path).wrapping_add(
            iterate(evaluator, p, depth, options, path).nodes,
        )
    }
}

/// The change of the score with the last depth, once there have been two.
pub open spec fn score_delta<E: Evaluator>(
    evaluator: E,
    p: PositionView,
    depth: nat,
    options: SearchOptions,
    path: Seq<u64>,
) -> Option<i32> {
    if depth <= 1 {
        None
    } else {
        Some(
            iterate(evaluator, p, depth, options, path).score.wrapping_sub(
                iterate(evaluator, p, (depth - 1) as nat, options, path).score,
            ),
        )
    }
}

/// What telemetry says of a search that completed `depth`, whatever the clock
/// said: the budget, the depth, how the results developed, and a node rate
/// that comes from all completed depths and some elapsed time.
pub open spec fn telemetry_fits<E: Evaluator>(
    telemetry: TimeManagementTelemetry,
    budget: TimeBudget,
    evaluator: E,
    p: PositionView,
    depth: nat,
    options: SearchOptions,
    path: Seq<u64>,
) -> bool {
    &&& telemetry.soft_ms == budget.soft.ms() % 0x1_0000_0000_0000_0000
    &&& telemetry.hard_ms == budget.hard.ms() % 0x1_0000_0000_0000_0000
    &&& telemetry.completed_depth == depth
    &&& telemetry.best_move_changes == move_changes(evaluator, p, depth, options, path)
    &&& telemetry.score_delta_cp == score_delta(evaluator, p, depth, options, path)
    &&& exists|elapsed_ms: nat|
        telemetry.avg_nps == #[trigger] super::time_manager::node_rate(
            total_nodes(evaluator, p, depth, options, path) as nat,
            elapsed_ms,
        )
}

/// Whether the notes show how deepening under a budget came to its outcome: as
/// `looks::ends_under_budget` says, with the times that the telemetry gives
/// read off the watches at the end.
pub open spec fn budget_noted<E: Evaluator>(
    notes: Seq<Note>,
    budget: TimeBudget,
    stop: StopSignal,
    evaluator: E,
    p: PositionView,
    options: SearchOptions,
    path: Seq<u64>,
    outcome: Option<(SearchResult, TimeManagementTelemetry)>,
) -> bool {
    let soft_ns = budget.soft.ns();
    let hard_ns = budget.hard.ns();
    match outcome {
        Some((result, telemetry)) => {
            &&& looks::ends_under_budget(
                notes,
                soft_ns,
                hard_ns,
                stop,
                depth_results(evaluator, p, result.depth as nat, options, path),
            )
            &&& exists|aborted: Duration, total: Duration|
                {
                    &&& #[trigger] looks::final_readings(notes, hard_ns, stop, aborted, total)
                    &&& telemetry.aborted_ms == aborted.ms() % 0x1_0000_0000_0000_0000
                    &&& telemetry.avg_nps == super::time_manager::node_rate(
                        total_nodes(evaluator, p, result.depth as nat, options, path) as nat,
                        total.ms(),
                    )
                }
        },
        None => looks::ends_under_budget(notes, soft_ns, hard_ns, stop, Seq::empty())
            && looks::before_readings(notes) == notes,
    }
}

/// How often the best move differs from that of the result before it.
pub open spec fn changes_among(results: Seq<SearchResultView>) -> nat
    decreases results.len(),
{
    if results.len() <= 1 {
        0
    } else {
        changes_among(results.drop_last()) + (if results.last().best_move
            != results.drop_last().last().best_move {
            1nat
        } else {
            0
        })
    }
}

proof fn lemma_changes_among<E: Evaluator>(
    evaluator: E,
    p: PositionView,
    depth: nat,
    options: SearchOptions,
    path: Seq<u64>,
)
    ensures
        changes_among(depth_results(evaluator, p, depth, options, path)) == move_changes(
            evaluator,
            p,
            depth,
            options,
            path,
        ),
    decreases depth,
{
    if depth > 1 {
        let all = depth_results(evaluator, p, depth, options, path);
        let before = (depth - 1) as nat;
        assert(all.drop_last() =~= depth_results(evaluator, p, before, options, path));
        lemma_changes_among(evaluator, p, before, options, path);
    }
}

/// Telemetry sums up what was reported: how many depths there were, how often
/// the best move changed from one report to the next, and by how much the
/// score did at the end. The last report is the result.
pub proof fn telemetry_sums_up_the_reports<E: Evaluator>(
    telemetry: TimeManagementTelemetry,
    budget: TimeBudget,
    evaluator: E,
    p: PositionView,
    depth: nat,
    options: SearchOptions,
    path: Seq<u64>,
)
    requires
        depth > 0,
        telemetry_fits(telemetry, budget, evaluator, p, depth, options, path),
    ensures
        ({
            let reported = depth_results(evaluator, p, depth, options, path);
            &&& reported.len() == telemetry.completed_depth
            &&& reported.last() == iterate(evaluator, p, depth, options, path)
            &&& telemetry.best_move_changes == changes_among(reported)
            &&& telemetry.score_delta_cp == (if reported.len() == 1 {
                None
            } else {
                Some(
                    reported.last().score.wrapping_sub(reported[reported.len() - 2].score),
                )
            })
        }),
{
    lemma_changes_among(evaluator, p, depth, options, path);
}

/// The hashes that led to a position, with the position's own at the end.
pub fn normalized_history(position: &Position, history: &[u64]) -> (path: Vec<u64>)
    ensures
        path@ == model::with_current(position@, history@),
{
    let current: u64 = position.zobrist_hash();
    let mut path: Vec<u64> = Vec::new();
    let mut k: usize = 0;
    while k < history.len()
        invariant
            k <= history.len(),
            path@ == history@.take(k as int),
        decreases history.len() - k,
    {
        path.push(history[k]);
        k += 1;
        assert(path@ =~= history@.take(k as int));
    }
    assert(path@ =~= history@);
    if path.len() == 0 || path[path.len() - 1] != current {
        path.push(current);
    }
    path
}

/// Searches `position` to exactly `depth` plies using negamax
/// alpha-beta, scoring leaves with `evaluator`. Returns the best move
/// found at the root (or `None` if the root position is checkmate or
/// stalemate), the score and principal variation of that line from
/// the root side to move's perspective, and the total number of nodes
/// visited.
///
/// `position` is restored to its exact starting state before this
/// returns.
///
/// This is fixed-depth: it always runs to completion at `depth`, with
/// no time limit. For time-bounded search that reports progress after
/// each completed depth, see `search_iterative`.
#[must_use]
pub fn search<E: Evaluator>(position: &mut Position, depth: u32, evaluator: &E) -> (result:
    SearchResult)
    requires
        searchable(old(position)@, depth, seq![old(position)@.hash()]),
    ensures
        final(position)@ == old(position)@,
        result@ == model::root(
            *evaluator,
            old(position)@,
            depth,
            StateView::fresh(SearchOptions::everything()),
            seq![old(position)@.hash()],
        ).result,
{
    let history: [u64; 1] = [position.zobrist_hash()];
    assert(history@ =~= seq![position@.hash()]);
    search_with_history(position, depth, evaluator, &history)
}

/// Fixed-depth search with the hashes that led to `position`, used to score
/// threefold repetition inside the tree. The final hash should be the current
/// position; it is added defensively if the caller omits it.
pub fn search_with_history<E: Evaluator>(
    position: &mut Position,
    depth: u32,
    evaluator: &E,
    history: &[u64],
) -> (result: SearchResult)
    requires
        searchable(old(position)@, depth, model::with_current(old(position)@, history@)),
    ensures
        final(position)@ == old(position)@,
        result@ == model::root(
            *evaluator,
            old(position)@,
            depth,
            StateView::fresh(SearchOptions::everything()),
            model::with_current(old(position)@, history@),
        ).result,
{
    search_with_options(position, depth, evaluator, history, SearchOptions::default())
}

/// Same as `search_with_history`, with explicit `SearchOptions` -- see
/// that type's docs.
pub fn search_with_options<E: Evaluator>(
    position: &mut Position,
    depth: u32,
    evaluator: &E,
    history: &[u64],
    options: SearchOptions,
) -> (result: SearchResult)
    requires
        searchable(old(position)@, depth, model::with_current(old(position)@, history@)),
    ensures
        final(position)@ == old(position)@,
        result@ == model::root(
            *evaluator,
            old(position)@,
            depth,
            StateView::fresh(options),
            model::with_current(old(position)@, history@),
        ).result,
{
    let mut state = SearchState::new(options);
    let mut path: Vec<u64> = normalized_history(position, history);
    // A fixed-depth search never times out: same code path as
    // search_iterative's per-depth search, just with an unlimited
    // deadline, so a single implementation serves both.
    search_to_depth(
        position,
        depth,
        evaluator,
        &Deadline::none(),
        &mut Looks::new(),
        &mut state,
        &mut path,
    ).unwrap()
}

/// Once a look at the clock has fallen due, searching more moves leaves it so.
pub(crate) proof fn lemma_clock_stays_due<E: Evaluator>(
    evaluator: E,
    p: PositionView,
    depth: u32,
    path: Seq<u64>,
    moves: Seq<Move>,
    index: nat,
    progress: RootProgress,
)
    ensures
        progress.clock_due ==> model::root_moves(
            evaluator,
            p,
            depth,
            path,
            moves,
            index,
            progress,
        ).clock_due,
    decreases moves.len() - index,
{
    reveal(model::root_moves);
    if index < moves.len() {
        let mv = moves[index as int];
        let q = p.made(mv);
        let child = model::node(
            evaluator,
            q,
            (depth - 1) as u32,
            model::neg(SCORE_INF),
            model::neg(progress.alpha),
            1,
            progress.nodes,
            progress.state,
            path.push(q.hash()),
            true,
        );
        let score = model::neg(child.score);
        let better = score > progress.best;
        let next = RootProgress {
            alpha: model::higher(progress.alpha, score),
            best: if better {
                score
            } else {
                progress.best
            },
            best_move: if better {
                mv
            } else {
                progress.best_move
            },
            pv: if better {
                child.pv.insert(0, mv)
            } else {
                progress.pv
            },
            nodes: child.nodes,
            state: child.state,
            clock_due: progress.clock_due || child.clock_due,
        };
        lemma_clock_stays_due(evaluator, p, depth, path, moves, index + 1, next);
    }
}

/// Searches to exactly `depth`, or returns `None` if `deadline` expired
/// partway through (in which case `position` is still fully restored,
/// but the search is incomplete and must be discarded by the caller).
pub fn search_to_depth<E: Evaluator>(
    position: &mut Position,
    depth: u32,
    evaluator: &E,
    deadline: &Deadline,
    looks: &mut Looks,
    state: &mut SearchState,
    path: &mut Vec<u64>,
) -> (outcome: Option<SearchResult>)
    requires
        old(state)@.table.wf(),
        old(looks).kept(),
        searchable(old(position)@, depth, old(path)@),
    ensures
        final(position)@ == old(position)@,
        final(path)@ == old(path)@,
        final(state)@.table.wf(),
        !deadline.can_expire() ==> outcome is Some,
        decided(old(position)@, old(path)@) ==> outcome is Some,
        deadline.has_no_time() && !decided(old(position)@, old(path)@) ==> outcome is None,
        ({
            let expected = model::root(
                *evaluator,
                old(position)@,
                depth,
                old(state)@,
                old(path)@,
            );
            &&& deadline.may_end(outcome is Some, expected.clock_due)
            &&& outcome matches Some(result) ==> {
                &&& result@ == expected.result
                &&& result.depth == depth
                &&& final(state)@ == expected.state
            }
        }),
        final(looks).kept(),
        looks::watched(
            old(looks).notes(),
            final(looks).notes(),
            *deadline,
            0,
            nodes_below(outcome),
            outcome is Some,
        ),
{
    proof {
        reveal(model::root);
        reveal(model::root_moves);
    }
    let ghost p = position@;
    let ghost start_notes = looks.notes();
    proof {
        looks::lemma_watched_nothing(start_notes, *deadline, 0);
    }
    let ghost line = path@;
    state.reset_counters();
    let ghost start = state@;
    let mut moves: Vec<Move> = position.generate_legal_moves();
    if moves.len() == 0 {
        // Root is checkmate or stalemate: nothing to play, but still a
        // well-defined score.
        let score: Score = alpha_beta::terminal_score(position, 0);
        let pv: Vec<Move> = Vec::new();
        return Some(state.report(None, score, 1, depth, pv));
    }
    // Checkmate/stalemate above take precedence; otherwise a claimable
    // repetition or fifty-move draw is an exact zero even though UCI still
    // needs a legal move to return.

    if alpha_beta::is_rule_draw(position, path) {
        let best_move = moves[0];
        let mut pv: Vec<Move> = Vec::new();
        pv.push(best_move);
        assert(pv@ =~= seq![best_move]);
        return Some(state.report(Some(best_move), 0, 1, depth, pv));
    }
    let ghost legal = moves@;
    let root_best = state.root_best;
    proof {
        ordering::lemma_ordered_members(p, legal, state@, 0, root_best);
    }
    ordering::order_moves(position, &mut moves, state, 0, root_best);
    proof {
        alpha_beta::lemma_all_playable(p, moves@, legal);
    }
    let mut best_move = moves[0];
    let mut best_score: Score = -SCORE_INF;
    let mut best_pv: Vec<Move> = Vec::new();
    let mut alpha: Score = -SCORE_INF;
    let mut nodes: u64 = 0;
    let ghost whole = model::root_moves(
        *evaluator,
        p,
        depth,
        line,
        moves@,
        0,
        RootProgress {
            alpha: (-SCORE_INF) as i32,
            best: (-SCORE_INF) as i32,
            best_move: moves@[0],
            pv: Seq::empty(),
            nodes: 0,
            state: start,
            clock_due: false,
        },
    );
    let ghost mut due = false;
    let mut index: usize = 0;
    while index < moves.len()
        invariant
            index <= moves.len(),
            moves.len() > 0,
            index == 0 ==> nodes == 0,
            index > 0 ==> !deadline.has_no_time(),
            !decided(p, line),
            depth > 0,
            position@ == p,
            path@ == line,
            p == old(position)@,
            line == old(path)@,
            p.board.len() == 64,
            state@.table.wf(),
            alpha_beta::all_playable(p, moves@),
            whole == model::root_moves(
                *evaluator,
                p,
                depth,
                line,
                moves@,
                index as nat,
                RootProgress {
                    alpha,
                    best: best_score,
                    best_move,
                    pv: best_pv@,
                    nodes,
                    state: state@,
                    clock_due: due,
                },
            ),
            deadline.has_no_time() ==> !due,
            start_notes == old(looks).notes(),
            looks.kept(),
            looks::watched(start_notes, looks.notes(), *deadline, 0, nodes, true),
            whole.clock_due == model::root(
                *evaluator,
                p,
                depth,
                old(state)@,
                line,
            ).clock_due,
        decreases moves.len() - index,
    {
        let mv = moves[index];
        proof {
            reveal(model::root_moves);
            crate::chess::make_unmake::unmake_restores(p, mv);
        }
        let undo = position.make_move(mv);
        path.push(position.zobrist_hash());
        assert(path@.drop_last() =~= line);
        let ghost child = model::node(
            *evaluator,
            position@,
            (depth - 1) as u32,
            model::neg(SCORE_INF),
            model::neg(alpha),
            1,
            nodes,
            state@,
            path@,
            true,
        );
        proof {
            let score = model::neg(child.score);
            let better = score > best_score;
            lemma_clock_stays_due(
                *evaluator,
                p,
                depth,
                line,
                moves@,
                index as nat + 1,
                RootProgress {
                    alpha: model::higher(alpha, score),
                    best: if better {
                        score
                    } else {
                        best_score
                    },
                    best_move: if better {
                        mv
                    } else {
                        best_move
                    },
                    pv: if better {
                        child.pv.insert(0, mv)
                    } else {
                        best_pv@
                    },
                    nodes: child.nodes,
                    state: child.state,
                    clock_due: due || child.clock_due,
                },
            );
            due = due || child.clock_due;
        }
        let ghost seen = looks.notes();
        let ghost visited = nodes;
        let outcome = alpha_beta::watched_negamax(
            position,
            depth - 1,
            alpha_beta::negate(SCORE_INF),
            alpha_beta::negate(alpha),
            1,
            evaluator,
            &mut nodes,
            deadline,
            looks,
            state,
            path,
            true,
        );
        path.pop();
        position.unmake_move(mv, undo);
        proof {
            looks::lemma_watched_on(
                start_notes,
                seen,
                looks.notes(),
                *deadline,
                0,
                visited,
                nodes,
                outcome is Some,
            );
            if outcome is None {
                looks::lemma_watched_anywhere(
                    start_notes,
                    looks.notes(),
                    *deadline,
                    0,
                    nodes,
                    0,
                );
            }
        }
        match outcome {
            None => {
                // Ran out of time partway through the root move loop.
                return None;
            },
            Some((child_score, child_pv)) => {
                let score: Score = alpha_beta::negate(child_score);
                if score > best_score {
                    best_score = score;
                    best_move = mv;
                    let mut line_pv: Vec<Move> = child_pv;
                    line_pv.insert(0, mv);
                    best_pv = line_pv;
                }
                alpha = alpha_beta::max_score(alpha, score);
                // No beta cutoff at the root: we need to have actually
                // compared every move to know which one is best, not just
                // that some move is "good enough."
            },
        }
        index += 1;
    }
    let ghost ended = state@;
    state.root_best = Some(best_move);
    assert(state@ =~= StateView { root_best: Some(best_move), ..ended });
    // One more node for the root position itself.
    Some(state.report(Some(best_move), best_score, nodes.wrapping_add(1), depth, best_pv))
}

/// Whether two optional moves are the same.
fn same_best(a: Option<Move>, b: Option<Move>) -> (same: bool)
    ensures
        same == (a == b),
{
    match (a, b) {
        (Some(x), Some(y)) => x == y,
        (None, None) => true,
        _ => false,
    }
}

/// Whether one more depth changed nothing.
fn is_saturated(before: &SearchResult, after: &SearchResult) -> (same: bool)
    ensures
        same == saturated(before@, after@),
{
    after.nodes == before.nodes && after.score == before.score && same_best(
        after.best_move,
        before.best_move,
    )
}

/// Searches `position` with iterative deepening (depth 1, then 2, then
/// 3, ...), stopping once `budget` has elapsed, and calling
/// `on_depth_complete` after each depth that finishes within budget.
/// Returns the result of the last depth that completed in time -- a
/// depth that was cut off partway through by the deadline is never
/// reported, since its score can't be trusted.
///
/// `budget` is used as both the soft and hard limit (see
/// `search_iterative_with_budget`'s docs for the distinction).
pub fn search_iterative<E: Evaluator, F: FnMut(&SearchResult)>(
    position: &mut Position,
    budget: Duration,
    evaluator: &E,
    on_depth_complete: F,
) -> (result: SearchResult)
    requires
        forall|r: &SearchResult| call_requires(on_depth_complete, (r,)),
    ensures
        final(position)@ == old(position)@,
        1 <= result.depth <= MAX_ITERATIVE_DEPTH,
        result@ == iterate(
            *evaluator,
            old(position)@,
            result.depth as nat,
            SearchOptions::everything(),
            seq![old(position)@.hash()],
        ),
        forall|k: nat|
            1 <= k < result.depth ==> !#[trigger] settles(
                *evaluator,
                old(position)@,
                k,
                SearchOptions::everything(),
                seq![old(position)@.hash()],
            ),
        budget.ns() == 0 && !decided(old(position)@, seq![old(position)@.hash()]) ==> result.depth == 1,
        budget.ns() == 0 ==> result.depth <= 2,
        all_received(
            on_depth_complete,
            *evaluator,
            old(position)@,
            result.depth as nat,
            SearchOptions::everything(),
            seq![old(position)@.hash()],
        ),
        looks::ended_in_time(
            budget.ns(),
            depth_results(
                *evaluator,
                old(position)@,
                result.depth as nat,
                SearchOptions::everything(),
                seq![old(position)@.hash()],
            ),
        ),
{
    let history: [u64; 1] = [position.zobrist_hash()];
    assert(history@ =~= seq![position@.hash()]);
    search_iterative_with_history(position, budget, evaluator, &history, on_depth_complete)
}

/// Same as `search_iterative`, with the hashes that led to `position`.
pub fn search_iterative_with_history<E: Evaluator, F: FnMut(&SearchResult)>(
    position: &mut Position,
    budget: Duration,
    evaluator: &E,
    history: &[u64],
    on_depth_complete: F,
) -> (result: SearchResult)
    requires
        forall|r: &SearchResult| call_requires(on_depth_complete, (r,)),
    ensures
        final(position)@ == old(position)@,
        1 <= result.depth <= MAX_ITERATIVE_DEPTH,
        result@ == iterate(
            *evaluator,
            old(position)@,
            result.depth as nat,
            SearchOptions::everything(),
            model::with_current(old(position)@, history@),
        ),
        forall|k: nat|
            1 <= k < result.depth ==> !#[trigger] settles(
                *evaluator,
                old(position)@,
                k,
                SearchOptions::everything(),
                model::with_current(old(position)@, history@),
            ),
        budget.ns() == 0 && !decided(old(position)@, model::with_current(old(position)@, history@)) ==> result.depth == 1,
        budget.ns() == 0 ==> result.depth <= 2,
        all_received(
            on_depth_complete,
            *evaluator,
            old(position)@,
            result.depth as nat,
            SearchOptions::everything(),
            model::with_current(old(position)@, history@),
        ),
        looks::ended_in_time(
            budget.ns(),
            depth_results(
                *evaluator,
                old(position)@,
                result.depth as nat,
                SearchOptions::everything(),
                model::with_current(old(position)@, history@),
            ),
        ),
{
    search_iterative_with_options(
        position,
        budget,
        evaluator,
        history,
        SearchOptions::default(),
        on_depth_complete,
    )
}

/// Same as `search_iterative_with_history`, with explicit
/// `SearchOptions`. `budget` is used as both the soft and hard limit -- see
/// `search_iterative_with_budget` for the real soft/hard split.
///
/// Depth 1 here always runs without a deadline and so always completes.
/// How deep the search gets beyond that is up to the clock; it stops of its
/// own accord once a mate is found, once a depth changes nothing, and at
/// `MAX_ITERATIVE_DEPTH`.
pub fn search_iterative_with_options<E: Evaluator, F: FnMut(&SearchResult)>(
    position: &mut Position,
    budget: Duration,
    evaluator: &E,
    history: &[u64],
    options: SearchOptions,
    on_depth_complete: F,
) -> (result: SearchResult)
    requires
        forall|r: &SearchResult| call_requires(on_depth_complete, (r,)),
    ensures
        final(position)@ == old(position)@,
        1 <= result.depth <= MAX_ITERATIVE_DEPTH,
        result@ == iterate(
            *evaluator,
            old(position)@,
            result.depth as nat,
            options,
            model::with_current(old(position)@, history@),
        ),
        forall|k: nat|
            1 <= k < result.depth ==> !#[trigger] settles(
                *evaluator,
                old(position)@,
                k,
                options,
                model::with_current(old(position)@, history@),
            ),
        budget.ns() == 0 && !decided(
            old(position)@,
            model::with_current(old(position)@, history@),
        ) ==> result.depth == 1,
        budget.ns() == 0 ==> result.depth <= 2,
        all_received(
            on_depth_complete,
            *evaluator,
            old(position)@,
            result.depth as nat,
            options,
            model::with_current(old(position)@, history@),
        ),
        looks::ended_in_time(
            budget.ns(),
            depth_results(
                *evaluator,
                old(position)@,
                result.depth as nat,
                options,
                model::with_current(old(position)@, history@),
            ),
        ),
{
    let mut reports = Reports::new(on_depth_complete);
    let mut looks = Looks::new();
    let result = deepen_with_options(
        position,
        budget,
        evaluator,
        history,
        options,
        &mut reports,
        &mut looks,
    );
    proof {
        lemma_all_received(
            reports,
            *evaluator,
            old(position)@,
            result.depth as nat,
            options,
            model::with_current(old(position)@, history@),
        );
        looks::lemma_since_nothing(looks.notes());
    }
    result
}

/// Deepens like `search_iterative_with_options`, and keeps a record of what it
/// reports: every completed depth, in order, and nothing else. A second record
/// holds what the deadline was asked and answered: deepening goes on until the
/// deadline says that it has expired, or until it ends of its own accord.
pub fn deepen_with_options<E: Evaluator, F: FnMut(&SearchResult)>(
    position: &mut Position,
    budget: Duration,
    evaluator: &E,
    history: &[u64],
    options: SearchOptions,
    reports: &mut Reports<F>,
    looks: &mut Looks,
) -> (result: SearchResult)
    requires
        old(reports).wf(),
        old(looks).kept(),
    ensures
        final(position)@ == old(position)@,
        1 <= result.depth <= MAX_ITERATIVE_DEPTH,
        result@ == iterate(
            *evaluator,
            old(position)@,
            result.depth as nat,
            options,
            model::with_current(old(position)@, history@),
        ),
        forall|k: nat|
            1 <= k < result.depth ==> !#[trigger] settles(
                *evaluator,
                old(position)@,
                k,
                options,
                model::with_current(old(position)@, history@),
            ),
        budget.ns() == 0 && !decided(
            old(position)@,
            model::with_current(old(position)@, history@),
        ) ==> result.depth == 1,
        budget.ns() == 0 ==> result.depth <= 2,
        final(reports).wf(),
        final(reports).receiver() == old(reports).receiver(),
        final(reports).log() == old(reports).log() + depth_results(
            *evaluator,
            old(position)@,
            result.depth as nat,
            options,
            model::with_current(old(position)@, history@),
        ),
        final(looks).kept(),
        looks::extends(old(looks).notes(), final(looks).notes()),
        looks::ends_in_time(
            looks::since(old(looks).notes(), final(looks).notes()),
            budget.ns(),
            depth_results(
                *evaluator,
                old(position)@,
                result.depth as nat,
                options,
                model::with_current(old(position)@, history@),
            ),
        ),
{
    let deadline = Deadline::from_now(budget);
    let mut state = SearchState::new(options);
    let mut path: Vec<u64> = normalized_history(position, history);
    let ghost p = position@;
    let ghost line = path@;
    let ghost asked = looks.notes();
    let mut depth: u32 = 1;
    let mut last_completed = search_to_depth(
        position,
        depth,
        evaluator,
        &Deadline::none(),
        &mut Looks::new(),
        &mut state,
        &mut path,
    ).unwrap();
    let ghost heard = reports.log();
    reports.report(&last_completed);
    assert(reports.log() =~= heard + depth_results(*evaluator, p, 1, options, line));
    let mut going = !super::is_mate_score(last_completed.score);
    proof {
        lemma_depth_results(*evaluator, p, 0, options, line);
    }
    while going
        invariant
            1 <= depth <= MAX_ITERATIVE_DEPTH,
            going ==> depth < MAX_ITERATIVE_DEPTH,
            position@ == p,
            path@ == line,
            p == old(position)@,
            line == model::with_current(p, history@),
            state@.table.wf(),
            last_completed@ == model::deepened(*evaluator, p, depth as nat, options, line).result,
            going ==> state@ == model::deepened(
                *evaluator,
                p,
                depth as nat,
                options,
                line,
            ).state,
            last_completed.depth == depth,
            forall|k: nat| 1 <= k < depth ==> !#[trigger] settles(*evaluator, p, k, options, line),
            going ==> !settles(*evaluator, p, depth as nat, options, line),
            reports.wf(),
            reports.receiver() == old(reports).receiver(),
            reports.log() == old(reports).log() + depth_results(
                *evaluator,
                p,
                depth as nat,
                options,
                line,
            ),
            budget.ns() == 0 ==> depth <= 2,
            budget.ns() == 0 && !decided(p, line) ==> depth == 1,
            budget.ns() == 0 && going ==> depth == 1,
            deadline.is_for(budget.ns(), None),
            asked == old(looks).notes(),
            looks.kept(),
            looks::extends(asked, looks.notes()),
            looks::all_ask(looks::since(asked, looks.notes()), budget.ns(), None),
            going ==> looks::all_go_on(looks::since(asked, looks.notes())),
            looks::since(asked, looks.notes()).len() >= looks::looks_owed(
                depth_results(*evaluator, p, depth as nat, options, line).skip(1),
            ),
            !going ==> looks::ends_in_time(
                looks::since(asked, looks.notes()),
                budget.ns(),
                depth_results(*evaluator, p, depth as nat, options, line),
            ),
        decreases MAX_ITERATIVE_DEPTH - depth, (if going { 1nat } else { 0nat }),
    {
        let ghost seen = looks.notes();
        let outcome = search_to_depth(
            position,
            depth + 1,
            evaluator,
            &deadline,
            looks,
            &mut state,
            &mut path,
        );
        proof {
            lemma_depth_results(*evaluator, p, depth as nat, options, line);
            looks::lemma_searched_asking(
                asked,
                seen,
                looks.notes(),
                deadline,
                nodes_below(outcome),
                outcome is Some,
                budget.ns(),
                None,
            );
        }
        match outcome {
            Some(result) => {
                depth += 1;
                let found_mate = super::is_mate_score(result.score);
                let search_saturated = is_saturated(&last_completed, &result);
                last_completed = result;
                reports.report(&last_completed);
                assert(reports.log() =~= old(reports).log() + depth_results(
                    *evaluator,
                    p,
                    depth as nat,
                    options,
                    line,
                ));
                let ghost searched = looks.notes();
                let expired = looks.look(&deadline, 0);
                proof {
                    looks::lemma_looked(asked, searched, deadline, 0, expired, budget.ns(), None);
                }
                going = continues_deepening(depth, found_mate, search_saturated, expired, true);
            },
            None => {
                going = false;
            },
        }
    }
    last_completed
}

/// Same as `search_iterative_with_options`, but also honors `stop` --
/// see `StopSignal`'s docs. Depth 1 here is *not* exempt from the deadline:
/// once external cancellation is possible at all, even depth 1 must be
/// abortable, so `None` means not even depth 1 completed, and the caller is
/// responsible for having a fallback move ready. A game that is over or drawn
/// needs no time and always has a result; with anything to search and no time
/// at all there is none.
///
/// This stops of its own accord only once a mate is found, or at the largest
/// depth there is a number for.
pub fn search_iterative_with_stop<E: Evaluator, F: FnMut(&SearchResult)>(
    position: &mut Position,
    budget: Duration,
    evaluator: &E,
    history: &[u64],
    options: SearchOptions,
    stop: StopSignal,
    on_depth_complete: F,
) -> (outcome: Option<SearchResult>)
    requires
        forall|r: &SearchResult| call_requires(on_depth_complete, (r,)),
    ensures
        final(position)@ == old(position)@,
        decided(old(position)@, model::with_current(old(position)@, history@)) ==> outcome is Some,
        budget.ns() == 0 && !decided(
            old(position)@,
            model::with_current(old(position)@, history@),
        ) ==> outcome is None,
        outcome matches Some(result) ==> {
            let line = model::with_current(old(position)@, history@);
            &&& 1 <= result.depth
            &&& result@ == iterate(
                *evaluator,
                old(position)@,
                result.depth as nat,
                options,
                line,
            )
            &&& forall|k: nat|
                1 <= k < result.depth ==> !finds_mate(
                    #[trigger] iterate(*evaluator, old(position)@, k, options, line),
                )
            &&& budget.ns() == 0 ==> result.depth <= 2
            &&& all_received(
                on_depth_complete,
                *evaluator,
                old(position)@,
                result.depth as nat,
                options,
                line,
            )
        },
        looks::ended_unless_stopped(
            budget.ns(),
            stop,
            match outcome {
                Some(result) => depth_results(
                    *evaluator,
                    old(position)@,
                    result.depth as nat,
                    options,
                    model::with_current(old(position)@, history@),
                ),
                None => Seq::empty(),
            },
        ),
{
    let mut reports = Reports::new(on_depth_complete);
    let mut looks = Looks::new();
    let outcome = deepen_with_stop(
        position,
        budget,
        evaluator,
        history,
        options,
        stop,
        &mut reports,
        &mut looks,
    );
    proof {
        if let Some(result) = &outcome {
            lemma_all_received(
                reports,
                *evaluator,
                old(position)@,
                result.depth as nat,
                options,
                model::with_current(old(position)@, history@),
            );
        }
        looks::lemma_since_nothing(looks.notes());
    }
    outcome
}

/// Deepens like `search_iterative_with_stop`, and keeps a record of what it
/// reports: every completed depth, in order, and nothing else. A second record
/// holds what the deadline, with `stop` on it, was asked and answered:
/// deepening goes on until the deadline says that it has expired, or until it
/// ends of its own accord.
pub fn deepen_with_stop<E: Evaluator, F: FnMut(&SearchResult)>(
    position: &mut Position,
    budget: Duration,
    evaluator: &E,
    history: &[u64],
    options: SearchOptions,
    stop: StopSignal,
    reports: &mut Reports<F>,
    looks: &mut Looks,
) -> (outcome: Option<SearchResult>)
    requires
        old(reports).wf(),
        old(looks).kept(),
    ensures
        final(position)@ == old(position)@,
        decided(old(position)@, model::with_current(old(position)@, history@)) ==> outcome is Some,
        budget.ns() == 0 && !decided(
            old(position)@,
            model::with_current(old(position)@, history@),
        ) ==> outcome is None,
        outcome matches Some(result) ==> {
            let line = model::with_current(old(position)@, history@);
            &&& 1 <= result.depth
            &&& result@ == iterate(
                *evaluator,
                old(position)@,
                result.depth as nat,
                options,
                line,
            )
            &&& forall|k: nat|
                1 <= k < result.depth ==> !finds_mate(
                    #[trigger] iterate(*evaluator, old(position)@, k, options, line),
                )
            &&& budget.ns() == 0 ==> result.depth <= 2
        },
        final(reports).wf(),
        final(reports).receiver() == old(reports).receiver(),
        final(reports).log() == (match outcome {
            Some(result) => old(reports).log() + depth_results(
                *evaluator,
                old(position)@,
                result.depth as nat,
                options,
                model::with_current(old(position)@, history@),
            ),
            None => old(reports).log(),
        }),
        final(looks).kept(),
        looks::extends(old(looks).notes(), final(looks).notes()),
        looks::ends_unless_stopped(
            looks::since(old(looks).notes(), final(looks).notes()),
            budget.ns(),
            stop,
            match outcome {
                Some(result) => depth_results(
                    *evaluator,
                    old(position)@,
                    result.depth as nat,
                    options,
                    model::with_current(old(position)@, history@),
                ),
                None => Seq::empty(),
            },
        ),
{
    let deadline = Deadline::from_now(budget).with_stop_signal(stop);
    let mut state = SearchState::new(options);
    let mut path: Vec<u64> = normalized_history(position, history);
    let ghost p = position@;
    let ghost line = path@;
    let ghost asked = looks.notes();
    let mut depth: u32 = 1;
    let outcome = search_to_depth(
        position,
        depth,
        evaluator,
        &deadline,
        looks,
        &mut state,
        &mut path,
    );
    proof {
        lemma_depth_results(*evaluator, p, 0, options, line);
        looks::lemma_searched_asking(
            asked,
            asked,
            looks.notes(),
            deadline,
            nodes_below(outcome),
            outcome is Some,
            budget.ns(),
            Some(stop),
        );
    }
    let mut last_completed = match outcome {
        Some(result) => result,
        None => {
            return None;
        },
    };
    let ghost heard = reports.log();
    reports.report(&last_completed);
    assert(reports.log() =~= heard + depth_results(*evaluator, p, 1, options, line));
    let mut going = !super::is_mate_score(last_completed.score);
    while going
        invariant
            1 <= depth,
            going ==> depth < u32::MAX,
            budget.ns() > 0 || decided(p, line),
            position@ == p,
            path@ == line,
            p == old(position)@,
            line == model::with_current(p, history@),
            state@.table.wf(),
            last_completed@ == model::deepened(*evaluator, p, depth as nat, options, line).result,
            going ==> state@ == model::deepened(
                *evaluator,
                p,
                depth as nat,
                options,
                line,
            ).state,
            last_completed.depth == depth,
            forall|k: nat|
                1 <= k < depth ==> !finds_mate(
                    #[trigger] iterate(*evaluator, p, k, options, line),
                ),
            going ==> !finds_mate(iterate(*evaluator, p, depth as nat, options, line)),
            reports.wf(),
            reports.receiver() == old(reports).receiver(),
            reports.log() == old(reports).log() + depth_results(
                *evaluator,
                p,
                depth as nat,
                options,
                line,
            ),
            budget.ns() == 0 ==> depth <= 2,
            budget.ns() == 0 && going ==> depth == 1,
            deadline.is_for(budget.ns(), Some(stop)),
            asked == old(looks).notes(),
            looks.kept(),
            looks::extends(asked, looks.notes()),
            looks::all_ask(looks::since(asked, looks.notes()), budget.ns(), Some(stop)),
            going ==> looks::all_go_on(looks::since(asked, looks.notes())),
            looks::since(asked, looks.notes()).len() >= looks::looks_owed(
                depth_results(*evaluator, p, depth as nat, options, line),
            ),
            !going ==> looks::ends_unless_stopped(
                looks::since(asked, looks.notes()),
                budget.ns(),
                stop,
                depth_results(*evaluator, p, depth as nat, options, line),
            ),
        decreases u32::MAX - depth, (if going { 1nat } else { 0nat }),
    {
        let ghost seen = looks.notes();
        let outcome = search_to_depth(
            position,
            depth + 1,
            evaluator,
            &deadline,
            looks,
            &mut state,
            &mut path,
        );
        proof {
            lemma_depth_results(*evaluator, p, depth as nat, options, line);
            looks::lemma_searched_asking(
                asked,
                seen,
                looks.notes(),
                deadline,
                nodes_below(outcome),
                outcome is Some,
                budget.ns(),
                Some(stop),
            );
        }
        match outcome {
            Some(result) => {
                depth += 1;
                let found_mate = super::is_mate_score(result.score);
                last_completed = result;
                reports.report(&last_completed);
                assert(reports.log() =~= old(reports).log() + depth_results(
                    *evaluator,
                    p,
                    depth as nat,
                    options,
                    line,
                ));
                let ghost searched = looks.notes();
                let expired = looks.look(&deadline, 0);
                proof {
                    looks::lemma_looked(
                        asked,
                        searched,
                        deadline,
                        0,
                        expired,
                        budget.ns(),
                        Some(stop),
                    );
                }
                going = continues_until_stopped(depth, found_mate, expired);
            },
            None => {
                going = false;
            },
        }
    }
    Some(last_completed)
}

/// Whether another depth is started, given what is known after the last one.
pub fn continues_deepening(
    depth: u32,
    found_mate: bool,
    search_saturated: bool,
    soft_limit_reached: bool,
    next_depth_affordable: bool,
) -> (continues: bool)
    ensures
        continues == (depth < MAX_ITERATIVE_DEPTH && !found_mate && !search_saturated
            && !soft_limit_reached && next_depth_affordable),
{
    depth < MAX_ITERATIVE_DEPTH && !found_mate && !search_saturated && !soft_limit_reached
        && next_depth_affordable
}

/// Whether another depth is started by a search that only a mate, its deadline
/// and the largest depth there is a number for can end.
pub fn continues_until_stopped(depth: u32, found_mate: bool, expired: bool) -> (continues: bool)
    ensures
        continues == (depth < u32::MAX && !found_mate && !expired),
{
    depth < u32::MAX && !found_mate && !expired
}

/// Whether another depth is started under a [`TimeBudget`], given what is known
/// after the last one, the time spent so far, what the last depth and the one
/// before it took, and the hard limit: the next depth's cost is predicted, and
/// it is not started at all if it plausibly won't fit.
pub fn continues_under_budget(
    depth: u32,
    found_mate: bool,
    search_saturated: bool,
    soft_limit_reached: bool,
    elapsed_ms: u64,
    last_depth_ms: u64,
    previous_depth_ms: Option<u64>,
    hard_ms: u64,
) -> (continues: bool)
    ensures
        continues == (depth < MAX_ITERATIVE_DEPTH && !found_mate && !search_saturated
            && !soft_limit_reached && time_manager::affordable(
            elapsed_ms as nat,
            time_manager::at_most_u64(
                time_manager::projected_cost(last_depth_ms as nat, previous_depth_ms),
            ),
            hard_ms as nat,
        )),
{
    let estimated_next_ms: u64 = estimate_next_depth_cost(last_depth_ms, previous_depth_ms);
    let affordable = next_depth_is_affordable(elapsed_ms, estimated_next_ms, hard_ms);
    continues_deepening(depth, found_mate, search_saturated, soft_limit_reached, affordable)
}

/// Searches `position` with iterative deepening under a real soft/hard
/// [`TimeBudget`] (see that type's docs for what each half
/// means).
///
/// A cut-off depth's result is always discarded, *including depth 1*: under
/// an extreme time control even one ply is not guaranteed to
/// finish before the hard limit, and then `None` is returned. A game that is
/// over or drawn needs no time and always has a result; with anything to
/// search and a hard limit of nothing there is none.
///
/// `stop` (see `StopSignal`'s docs) is attached to both the soft and
/// hard deadlines, so an external UCI `stop` cancels this exactly like
/// crossing the hard limit does.
///
/// Returns the `SearchResult` alongside a
/// [`TimeManagementTelemetry`] record of how the budget was
/// actually spent getting there.
///
/// Once the soft deadline hasn't been reached yet, this also estimates
/// the next depth's likely cost (from the last two completed depths'
/// own timings, see [`estimate_next_depth_cost`]) and skips
/// starting it at all if that estimate suggests it plausibly can't
/// finish before the hard deadline. This never replaces the hard
/// deadline itself as the correctness backstop.
pub fn search_iterative_with_budget<E: Evaluator, F: FnMut(&SearchResult)>(
    position: &mut Position,
    budget: TimeBudget,
    evaluator: &E,
    history: &[u64],
    options: SearchOptions,
    stop: StopSignal,
    on_depth_complete: F,
) -> (outcome: Option<(SearchResult, TimeManagementTelemetry)>)
    requires
        forall|r: &SearchResult| call_requires(on_depth_complete, (r,)),
    ensures
        final(position)@ == old(position)@,
        decided(old(position)@, model::with_current(old(position)@, history@)) ==> outcome is Some,
        budget.hard.ns() == 0 && !decided(
            old(position)@,
            model::with_current(old(position)@, history@),
        ) ==> outcome is None,
        outcome matches Some((result, telemetry)) ==> {
            let p = old(position)@;
            let line = model::with_current(p, history@);
            let depth = result.depth as nat;
            &&& 1 <= depth <= MAX_ITERATIVE_DEPTH
            &&& result@ == iterate(*evaluator, p, depth, options, line)
            &&& forall|k: nat|
                1 <= k < depth ==> !#[trigger] settles(*evaluator, p, k, options, line)
            &&& telemetry_fits(telemetry, budget, *evaluator, p, depth, options, line)
            &&& depth == MAX_ITERATIVE_DEPTH || settles(*evaluator, p, depth, options, line)
                ==> telemetry.aborted_ms == 0
            &&& budget.soft.ns() == 0 ==> depth <= 2
            &&& all_received(on_depth_complete, *evaluator, p, depth, options, line)
        },
        exists|looks: Looks| #[trigger]
            looks.kept() && budget_noted(
                looks.notes(),
                budget,
                stop,
                *evaluator,
                old(position)@,
                options,
                model::with_current(old(position)@, history@),
                outcome,
            ),
{
    let mut reports = Reports::new(on_depth_complete);
    let mut looks = Looks::new();
    let outcome = deepen_with_budget(
        position,
        budget,
        evaluator,
        history,
        options,
        stop,
        &mut reports,
        &mut looks,
    );
    proof {
        if let Some((result, _)) = &outcome {
            lemma_all_received(
                reports,
                *evaluator,
                old(position)@,
                result.depth as nat,
                options,
                model::with_current(old(position)@, history@),
            );
        }
        looks::lemma_since_nothing(looks.notes());
    }
    outcome
}

/// Deepens like `search_iterative_with_budget`, and keeps a record of what it
/// reports: every completed depth, in order, and nothing else. A second record
/// holds what the two deadlines, with `stop` on both, were asked and answered,
/// and from what it was decided whether another depth is started: deepening
/// goes on until the hard deadline says that it has expired, or until it is
/// decided that it ends.
pub fn deepen_with_budget<E: Evaluator, F: FnMut(&SearchResult)>(
    position: &mut Position,
    budget: TimeBudget,
    evaluator: &E,
    history: &[u64],
    options: SearchOptions,
    stop: StopSignal,
    reports: &mut Reports<F>,
    looks: &mut Looks,
) -> (outcome: Option<(SearchResult, TimeManagementTelemetry)>)
    requires
        old(reports).wf(),
        old(looks).kept(),
    ensures
        final(position)@ == old(position)@,
        decided(old(position)@, model::with_current(old(position)@, history@)) ==> outcome is Some,
        budget.hard.ns() == 0 && !decided(
            old(position)@,
            model::with_current(old(position)@, history@),
        ) ==> outcome is None,
        outcome matches Some((result, telemetry)) ==> {
            let p = old(position)@;
            let line = model::with_current(p, history@);
            let depth = result.depth as nat;
            &&& 1 <= depth <= MAX_ITERATIVE_DEPTH
            &&& result@ == iterate(*evaluator, p, depth, options, line)
            &&& forall|k: nat|
                1 <= k < depth ==> !#[trigger] settles(*evaluator, p, k, options, line)
            &&& telemetry_fits(telemetry, budget, *evaluator, p, depth, options, line)
            &&& depth == MAX_ITERATIVE_DEPTH || settles(*evaluator, p, depth, options, line)
                ==> telemetry.aborted_ms == 0
            &&& budget.soft.ns() == 0 ==> depth <= 2
        },
        final(reports).wf(),
        final(reports).receiver() == old(reports).receiver(),
        final(reports).log() == (match outcome {
            Some((result, _)) => old(reports).log() + depth_results(
                *evaluator,
                old(position)@,
                result.depth as nat,
                options,
                model::with_current(old(position)@, history@),
            ),
            None => old(reports).log(),
        }),
        final(looks).kept(),
        looks::extends(old(looks).notes(), final(looks).notes()),
        budget_noted(
            looks::since(old(looks).notes(), final(looks).notes()),
            budget,
            stop,
            *evaluator,
            old(position)@,
            options,
            model::with_current(old(position)@, history@),
            outcome,
        ),
{
    let ghost asked = looks.notes();
    let search_start = looks.start();
    let soft_deadline = Deadline::from_now(budget.soft).with_stop_signal(stop.clone());
    let hard_deadline = Deadline::from_now(budget.hard).with_stop_signal(stop);
    let hard_ms: u64 = budget.hard.as_millis_u64();
    let mut state = SearchState::new(options);
    let mut path: Vec<u64> = normalized_history(position, history);
    let ghost p = position@;
    let ghost line = path@;
    let mut best_move_changes: u32 = 0;
    let mut last_score_delta: Option<Score> = None;
    // The last two completed depths' own wall-clock durations, oldest
    // first -- exactly what `estimate_next_depth_cost` needs to
    // project the next depth's likely cost.
    let mut previous_depth_ms: Option<u64> = None;
    let mut depth: u32 = 1;
    let depth_1_start = looks.start();
    let ghost started = looks.notes();
    let outcome = search_to_depth(
        position,
        depth,
        evaluator,
        &hard_deadline,
        looks,
        &mut state,
        &mut path,
    );
    proof {
        lemma_depth_results(*evaluator, p, 0, options, line);
        looks::lemma_since_now(asked);
        looks::lemma_noted_under_limits(
            asked,
            asked,
            Note::Start { watch: search_start },
            budget.soft.ns(),
            budget.hard.ns(),
            stop,
        );
        looks::lemma_noted_under_limits(
            asked,
            asked.push(Note::Start { watch: search_start }),
            Note::Start { watch: depth_1_start },
            budget.soft.ns(),
            budget.hard.ns(),
            stop,
        );
        looks::lemma_searched_under_limits(
            asked,
            started,
            looks.notes(),
            hard_deadline,
            nodes_below(outcome),
            outcome is Some,
            budget.soft.ns(),
            budget.hard.ns(),
            stop,
        );
    }
    let mut last_completed = match outcome {
        Some(result) => result,
        None => {
            return None;
        },
    };
    let ghost searched = looks.notes();
    let mut last_depth_ms: u64 = looks.took(&depth_1_start);
    proof {
        let earlier = looks::since(asked, searched);
        let note = Note::Took { watch: depth_1_start, ms: last_depth_ms };
        assert(earlier.push(note).take(earlier.len() as int) =~= earlier);
        looks::lemma_noted_under_limits(
            asked,
            searched,
            note,
            budget.soft.ns(),
            budget.hard.ns(),
            stop,
        );
    }
    let mut nodes_so_far: u64 = last_completed.nodes;
    let ghost heard = reports.log();
    reports.report(&last_completed);
    assert(reports.log() =~= heard + depth_results(*evaluator, p, 1, options, line));
    // If depth 1 already found a forced mate, searching deeper cannot
    // improve on "I have found a way to win," and every ply deeper is
    // meaningfully more expensive.
    let mut going = !super::is_mate_score(last_completed.score);
    let mut aborted_on: Option<Stopwatch> = None;
    while going
        invariant
            1 <= depth <= MAX_ITERATIVE_DEPTH,
            going ==> depth < MAX_ITERATIVE_DEPTH,
            position@ == p,
            path@ == line,
            p == old(position)@,
            line == model::with_current(p, history@),
            state@.table.wf(),
            last_completed@ == model::deepened(*evaluator, p, depth as nat, options, line).result,
            going ==> state@ == model::deepened(
                *evaluator,
                p,
                depth as nat,
                options,
                line,
            ).state,
            last_completed.depth == depth,
            forall|k: nat| 1 <= k < depth ==> !#[trigger] settles(*evaluator, p, k, options, line),
            going ==> !settles(*evaluator, p, depth as nat, options, line),
            aborted_on is None || (depth < MAX_ITERATIVE_DEPTH && !settles(
                *evaluator,
                p,
                depth as nat,
                options,
                line,
            )),
            going ==> aborted_on is None,
            aborted_on is Some ==> looks::last_start(looks::since(asked, looks.notes()))
                == aborted_on,
            !going ==> (aborted_on is Some) == looks::cut_off(
                looks::since(asked, looks.notes()),
                budget.hard.ns(),
                stop,
            ),
            !(looks::since(asked, looks.notes()).last() is Reading),
            best_move_changes == move_changes(*evaluator, p, depth as nat, options, line),
            best_move_changes <= depth,
            last_score_delta == score_delta(*evaluator, p, depth as nat, options, line),
            nodes_so_far == total_nodes(*evaluator, p, depth as nat, options, line),
            reports.wf(),
            reports.receiver() == old(reports).receiver(),
            reports.log() == old(reports).log() + depth_results(
                *evaluator,
                p,
                depth as nat,
                options,
                line,
            ),
            budget.soft.ns() == 0 ==> depth <= 2,
            budget.soft.ns() == 0 && going ==> depth == 1,
            soft_deadline.is_for(budget.soft.ns(), Some(stop)),
            hard_deadline.is_for(budget.hard.ns(), Some(stop)),
            hard_ms == (budget.hard.ns() / 1_000_000) % 0x1_0000_0000_0000_0000,
            asked == old(looks).notes(),
            looks.kept(),
            looks::extends(asked, looks.notes()),
            looks::all_under_limits(
                looks::since(asked, looks.notes()),
                budget.soft.ns(),
                budget.hard.ns(),
                stop,
            ),
            going ==> looks::all_go_on(looks::since(asked, looks.notes())),
            looks::since(asked, looks.notes()).len() >= looks::looks_owed(
                depth_results(*evaluator, p, depth as nat, options, line),
            ),
            looks::since(asked, looks.notes()).len() > 1,
            looks::since(asked, looks.notes())[0] == (Note::Start { watch: search_start }),
            going ==> {
                let latest = looks::since(asked, looks.notes()).last();
                latest is Took || latest is Plan
            },
            looks::timings(looks::since(asked, looks.notes())).len() == depth,
            looks::timings(looks::since(asked, looks.notes())).last() == last_depth_ms,
            !going ==> looks::ends_under_budget(
                looks::since(asked, looks.notes()),
                budget.soft.ns(),
                budget.hard.ns(),
                stop,
                depth_results(*evaluator, p, depth as nat, options, line),
            ),
        decreases MAX_ITERATIVE_DEPTH - depth, (if going { 1nat } else { 0nat }),
    {
        let ghost seen = looks.notes();
        let depth_start = looks.start();
        let ghost started = looks.notes();
        let outcome = search_to_depth(
            position,
            depth + 1,
            evaluator,
            &hard_deadline,
            looks,
            &mut state,
            &mut path,
        );
        proof {
            lemma_depth_results(*evaluator, p, depth as nat, options, line);
            looks::lemma_noted_under_limits(
                asked,
                seen,
                Note::Start { watch: depth_start },
                budget.soft.ns(),
                budget.hard.ns(),
                stop,
            );
            looks::lemma_searched_under_limits(
                asked,
                started,
                looks.notes(),
                hard_deadline,
                nodes_below(outcome),
                outcome is Some,
                budget.soft.ns(),
                budget.hard.ns(),
                stop,
            );
        }
        match outcome {
            Some(result) => {
                depth += 1;
                let found_mate = super::is_mate_score(result.score);
                let search_saturated = is_saturated(&last_completed, &result);
                last_score_delta = Some(result.score.wrapping_sub(last_completed.score));
                if !same_best(result.best_move, last_completed.best_move) {
                    best_move_changes += 1;
                }
                nodes_so_far = nodes_so_far.wrapping_add(result.nodes);
                last_completed = result;
                previous_depth_ms = Some(last_depth_ms);
                let ghost searched = looks.notes();
                last_depth_ms = looks.took(&depth_start);
                reports.report(&last_completed);
                assert(reports.log() =~= old(reports).log() + depth_results(
                    *evaluator,
                    p,
                    depth as nat,
                    options,
                    line,
                ));
                // Only the soft deadline is checked between depths --
                // crossing it just means "don't start another depth," not
                // "abort the one that just finished." The next depth's cost
                // is predicted, and it is not started at all if it
                // plausibly won't fit.
                let soft_limit_reached = looks.look(&soft_deadline, 0);
                let elapsed_ms: u64 = looks.spent(&search_start);
                let plan = Plan {
                    depth,
                    found_mate,
                    search_saturated,
                    soft_limit_reached,
                    elapsed_ms,
                    last_depth_ms,
                    previous_depth_ms,
                    hard_ms,
                };
                proof {
                    looks::lemma_planned(
                        asked,
                        searched,
                        Note::Took { watch: depth_start, ms: last_depth_ms },
                        soft_deadline,
                        Note::Spent { watch: search_start, ms: elapsed_ms },
                        plan,
                        budget.soft.ns(),
                        budget.hard.ns(),
                        stop,
                        depth_results(*evaluator, p, depth as nat, options, line),
                    );
                }
                going = looks.decide(plan);
            },
            None => {
                // This depth was cut off by the hard limit (or an
                // external stop) -- its result is discarded, but the
                // wall-clock time spent computing it wasn't free.
                aborted_on = Some(depth_start);
                going = false;
            },
        }
    }
    let ghost searched = looks.notes();
    let aborted = match aborted_on {
        Some(watch) => {
            let aborted = looks.read(&watch);
            proof {
                looks::lemma_read(asked, searched, watch, aborted);
            }
            aborted
        },
        None => Duration::zero(),
    };
    let ghost read = looks.notes();
    let elapsed = looks.read(&search_start);
    proof {
        looks::lemma_read(asked, read, search_start, elapsed);
        assert(looks::final_readings(
            looks::since(asked, looks.notes()),
            budget.hard.ns(),
            stop,
            aborted,
            elapsed,
        ));
    }
    let telemetry = TimeManagementTelemetry {
        soft_ms: budget.soft.as_millis_u64(),
        hard_ms,
        completed_depth: depth,
        aborted_ms: aborted.as_millis_u64(),
        best_move_changes,
        score_delta_cp: last_score_delta,
        avg_nps: nodes_per_second(nodes_so_far, elapsed),
    };
    Some((last_completed, telemetry))
}

} // verus!
