//! What deepening counts and compares from one depth to the next.

use super::deadline::Stopwatch;
use super::iterative::{self, MAX_ITERATIVE_DEPTH};
use super::looks::{self, Note, Plan};
use super::time_manager;
use super::{SearchOptions, SearchResultView, SCORE_MATE};
use crate::chess::position::PositionView;
use crate::eval::Evaluator;
use vstd::prelude::*;

verus! {

/// The score of a finished depth is set against that of the depth before: the
/// difference, added to the earlier score, gives the later one.
pub proof fn score_changes_add_up<E: Evaluator>(
    evaluator: E,
    p: PositionView,
    depth: nat,
    options: SearchOptions,
    path: Seq<u64>,
)
    requires
        depth >= 2,
    ensures
        ({
            let before = iterative::iterate(evaluator, p, (depth - 1) as nat, options, path).score;
            let after = iterative::iterate(evaluator, p, depth, options, path).score;
            -1_000_000_000 <= before <= 1_000_000_000 && -1_000_000_000 <= after <= 1_000_000_000
                ==> (iterative::score_delta(evaluator, p, depth, options, path) matches Some(delta)
                && before + delta == after)
        }),
        iterative::score_delta(evaluator, p, 1, options, path) is None,
{
}

/// A best move that never changes counts no change, one that changes with every
/// depth counts one for each depth but the first, and a further depth adds one
/// change at most.
pub proof fn move_changes_are_counted<E: Evaluator>(
    evaluator: E,
    p: PositionView,
    depth: nat,
    options: SearchOptions,
    path: Seq<u64>,
)
    requires
        depth >= 1,
    ensures
        ({
            let changes = iterative::move_changes(evaluator, p, depth, options, path);
            let best = |k: nat| iterative::iterate(evaluator, p, k, options, path).best_move;
            &&& changes < depth
            &&& changes == 0 <==> forall|k: nat| 1 <= k <= depth ==> #[trigger] best(k) == best(1)
            &&& changes == depth - 1 <==> forall|k: nat|
                1 < k <= depth ==> #[trigger] best(k) != best((k - 1) as nat)
        }),
        iterative::move_changes(evaluator, p, depth, options, path) <= iterative::move_changes(
            evaluator,
            p,
            depth + 1,
            options,
            path,
        ) <= iterative::move_changes(evaluator, p, depth, options, path) + 1,
    decreases depth,
{
    let best = |k: nat| iterative::iterate(evaluator, p, k, options, path).best_move;
    if depth > 1 {
        let before = (depth - 1) as nat;
        move_changes_are_counted(evaluator, p, before, options, path);
        assert(best(depth) == iterative::iterate(evaluator, p, depth, options, path).best_move);
        assert(best(before) == iterative::iterate(evaluator, p, before, options, path).best_move);
        if forall|k: nat| 1 <= k <= before ==> #[trigger] best(k) == best(1) {
            assert(best(before) == best(1));
        }
    }
}

/// Depths of equally many nodes are added up: so many times the nodes of one.
pub proof fn nodes_are_added_up<E: Evaluator>(
    evaluator: E,
    p: PositionView,
    depth: nat,
    options: SearchOptions,
    path: Seq<u64>,
    each: u64,
)
    requires
        depth >= 1,
        depth * each <= u64::MAX,
        forall|k: nat|
            1 <= k <= depth ==> (#[trigger] iterative::iterate(
                evaluator,
                p,
                k,
                options,
                path,
            )).nodes == each,
    ensures
        iterative::total_nodes(evaluator, p, depth, options, path) == depth * each,
    decreases depth,
{
    assert(iterative::iterate(evaluator, p, depth, options, path).nodes == each);
    if depth > 1 {
        let before = (depth - 1) as nat;
        assert(depth * each == before * each + each) by (nonlinear_arith)
            requires
                depth == before + 1,
        ;
        nodes_are_added_up(evaluator, p, before, options, path, each);
    } else {
        assert(1 * each == each);
    }
}

/// Deepening under a time limit is over once a mate is found, for either side, or
/// once a depth repeats the one before in nodes, score and move. No advantage of
/// less than two hundred pawns ends it while any of these three still changes.
pub proof fn when_deepening_is_over<E: Evaluator>(
    evaluator: E,
    p: PositionView,
    depth: nat,
    options: SearchOptions,
    path: Seq<u64>,
    plies: int,
)
    requires
        depth >= 1,
        0 <= plies < 500,
    ensures
        ({
            let over = iterative::settles(evaluator, p, depth, options, path);
            let now = iterative::iterate(evaluator, p, depth, options, path);
            let before = iterative::iterate(evaluator, p, (depth - 1) as nat, options, path);
            let same = now.nodes == before.nodes && now.score == before.score && now.best_move
                == before.best_move;
            &&& now.score == SCORE_MATE - plies || now.score == plies - SCORE_MATE ==> over
            &&& -20_000 <= now.score <= 20_000 ==> (over <==> depth >= 2 && same)
        }),
{
    super::mates_are_told_from_scores(plies, 0);
    let now = iterative::iterate(evaluator, p, depth, options, path);
    if -20_000 <= now.score <= 20_000 {
        super::mates_are_told_from_scores(0, now.score as int);
    }
}

/// Under a clock another depth is started just when nothing has settled the search,
/// the soft target is not reached, and the time spent so far and the predicted cost
/// with fifteen percent on top fit into the hard limit.
pub proof fn when_another_depth_is_started(plan: Plan)
    requires
        plan.elapsed_ms < 0x100_0000_0000,
        plan.hard_ms < 0x100_0000_0000,
        plan.last_depth_ms < 0x40_0000_0000,
    ensures
        ({
            let cost = time_manager::projected_cost(
                plan.last_depth_ms as nat,
                plan.previous_depth_ms,
            );
            plan.continues() <==> {
                &&& plan.depth < MAX_ITERATIVE_DEPTH
                &&& !plan.found_mate
                &&& !plan.search_saturated
                &&& !plan.soft_limit_reached
                &&& 100 * plan.elapsed_ms + 115 * cost <= 100 * plan.hard_ms
            }
        }),
        plan.continues() ==> 2 * plan.elapsed_ms + 3 * plan.last_depth_ms <= 2 * plan.hard_ms,
{
    let cost = time_manager::projected_cost(plan.last_depth_ms as nat, plan.previous_depth_ms);
    time_manager::growth_is_clamped(plan.last_depth_ms as nat, plan.previous_depth_ms);
    time_manager::the_safety_margin_is_fifteen_percent(
        plan.elapsed_ms as nat,
        cost,
        plan.hard_ms as nat,
    );
}

/// The times that the depths took are kept in order.
pub proof fn times_are_kept_in_order(notes: Seq<Note>, watch: Stopwatch, ms: u64)
    ensures
        ({
            let more = looks::timings(notes.push(Note::Took { watch, ms }));
            &&& more.len() == looks::timings(notes).len() + 1
            &&& more.last() == ms
            &&& more.drop_last() == looks::timings(notes)
        }),
        looks::last_start(notes.push(Note::Start { watch })) == Some(watch),
        looks::timings(notes.push(Note::Start { watch })) == looks::timings(notes),
{
    let took = notes.push(Note::Took { watch, ms });
    let started = notes.push(Note::Start { watch });
    assert(took.drop_last() =~= notes);
    assert(started.drop_last() =~= notes);
    assert(looks::timings(took).drop_last() =~= looks::timings(notes));
}

} // verus!
