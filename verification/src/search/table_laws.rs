//! What the transposition table may and may not do to a search.

use super::model::{self, Progress};
use super::state::StateView;
use super::tt::{Bound, TableView, TtEntry, TtKey, TtReuse};
use super::{Score, MATE_THRESHOLD, SCORE_MATE};
use crate::chess::position::PositionView;
use crate::eval::Evaluator;
use vstd::prelude::*;

verus! {

/// A score that mate distances can be added to and taken from at any ply that a
/// search reaches, without becoming or ceasing to be a mate.
pub open spec fn well_inside(score: int, ply: u32) -> bool {
    ply < 1000 && -SCORE_MATE <= score <= SCORE_MATE
}

/// An entry that was searched to less than the wanted depth decides nothing and
/// leaves the window alone; all it gives is the move to try first.
pub proof fn a_shallower_entry_only_suggests_a_move(
    p: PositionView,
    depth: u32,
    alpha: Score,
    beta: Score,
    ply: u32,
    state: StateView,
    path: Seq<u64>,
    entry: TtEntry,
)
    requires
        state.options.use_tt,
        state.table.found(model::node_key(p, path)) == Some(entry),
        entry.depth < depth,
    ensures
        ({
            let probe = model::probe_node(p, depth, alpha, beta, ply, state, path);
            &&& probe.found is None
            &&& probe.alpha == alpha
            &&& probe.beta == beta
            &&& probe.tt_move == entry.best_move
        }),
{
}

/// An exact entry that was searched at least as deep as wanted is the answer:
/// its score, and its move as the line.
pub proof fn an_exact_entry_of_enough_depth_is_the_answer(
    p: PositionView,
    depth: u32,
    alpha: Score,
    beta: Score,
    ply: u32,
    state: StateView,
    path: Seq<u64>,
    entry: TtEntry,
)
    requires
        state.options.use_tt,
        state.table.found(model::node_key(p, path)) == Some(entry),
        entry.depth >= depth,
        entry.bound == Bound::Exact,
    ensures
        model::probe_node(p, depth, alpha, beta, ply, state, path).found matches Some((score, line))
            && {
            &&& -MATE_THRESHOLD < entry.score < MATE_THRESHOLD ==> score == entry.score
            &&& entry.best_move matches Some(mv) ==> line.len() == 1 && line[0] == mv
            &&& entry.best_move is None ==> line.len() == 0
        },
{
}

/// A lower bound of enough depth is the answer if it reaches beta, and raises
/// alpha to itself otherwise; it never touches beta.
pub proof fn a_lower_bound_of_enough_depth_raises_alpha(
    p: PositionView,
    depth: u32,
    alpha: Score,
    beta: Score,
    ply: u32,
    state: StateView,
    path: Seq<u64>,
    entry: TtEntry,
)
    requires
        state.options.use_tt,
        state.table.found(model::node_key(p, path)) == Some(entry),
        entry.depth >= depth,
        entry.bound == Bound::Lower,
        -MATE_THRESHOLD < entry.score < MATE_THRESHOLD,
        alpha < beta,
    ensures
        ({
            let probe = model::probe_node(p, depth, alpha, beta, ply, state, path);
            &&& probe.beta == beta
            &&& (probe.found is Some) == (entry.score >= beta)
            &&& probe.found matches Some((score, line)) ==> score == entry.score && line.len() == 0
            &&& probe.alpha >= alpha && probe.alpha >= entry.score
            &&& probe.alpha == alpha || probe.alpha == entry.score
        }),
{
}

/// An upper bound of enough depth is the answer if it does not exceed alpha, and
/// lowers beta to itself otherwise; it never touches alpha.
pub proof fn an_upper_bound_of_enough_depth_lowers_beta(
    p: PositionView,
    depth: u32,
    alpha: Score,
    beta: Score,
    ply: u32,
    state: StateView,
    path: Seq<u64>,
    entry: TtEntry,
)
    requires
        state.options.use_tt,
        state.table.found(model::node_key(p, path)) == Some(entry),
        entry.depth >= depth,
        entry.bound == Bound::Upper,
        -MATE_THRESHOLD < entry.score < MATE_THRESHOLD,
        alpha < beta,
    ensures
        ({
            let probe = model::probe_node(p, depth, alpha, beta, ply, state, path);
            &&& probe.alpha == alpha
            &&& (probe.found is Some) == (entry.score <= alpha)
            &&& probe.found matches Some((score, line)) ==> score == entry.score && line.len() == 0
            &&& probe.beta <= beta && probe.beta <= entry.score
            &&& probe.beta == beta || probe.beta == entry.score
        }),
{
}

/// Without an entry, or with the table switched off, a lookup changes nothing
/// about the search of a node, and a lookup never changes anything but the table.
pub proof fn without_an_entry_nothing_changes(
    p: PositionView,
    depth: u32,
    alpha: Score,
    beta: Score,
    ply: u32,
    state: StateView,
    path: Seq<u64>,
)
    ensures
        ({
            let probe = model::probe_node(p, depth, alpha, beta, ply, state, path);
            &&& !state.options.use_tt || state.table.found(model::node_key(p, path)) is None ==> {
                &&& probe.found is None
                &&& probe.alpha == alpha
                &&& probe.beta == beta
                &&& probe.tt_move is None
            }
            &&& !state.options.use_tt ==> probe.state == state
            &&& probe.state == (StateView { table: probe.state.table, ..state })
            &&& probe.state.table.found(model::node_key(p, path)) == state.table.found(
                model::node_key(p, path),
            )
        }),
{
}

/// Nodes that the table takes for the same have the same hash, the same
/// halfmove clock, and have occurred equally often on their paths.
pub proof fn table_keys_tell_nodes_apart(
    p: PositionView,
    q: PositionView,
    here: Seq<u64>,
    there: Seq<u64>,
)
    requires
        model::node_key(p, here) == model::node_key(q, there),
    ensures
        p.hash() == q.hash(),
        p.half == q.half,
        model::rule_draw(p, here) == model::rule_draw(q, there),
{
}

/// A mate that was found so many plies below a node stays that many plies below
/// it, wherever in the tree the entry is used again: stored at one ply and taken
/// out at another, a mate score moves by exactly the difference, towards zero
/// further down. Other scores stay as they are.
pub proof fn mates_are_kept_relative_to_their_node(score: Score, stored_at: u32, used_at: u32)
    requires
        well_inside(score as int, stored_at),
        used_at < 1000,
    ensures
        ({
            let used = model::from_table(model::to_table(score, stored_at), used_at);
            &&& score >= MATE_THRESHOLD ==> used - score == stored_at - used_at
            &&& score <= -MATE_THRESHOLD ==> used - score == used_at - stored_at
            &&& -MATE_THRESHOLD < score < MATE_THRESHOLD ==> used == score
        }),
{
    assert(stored_at as i32 == stored_at);
    assert(used_at as i32 == used_at);
}

/// What is kept of a searched node: unless the table has something deeper, its
/// depth, its best move, and its score as an exact one if it lies inside the
/// window, as an upper bound if it failed low, and as a lower bound if it
/// reached beta.
pub proof fn a_searched_node_is_remembered(
    p: PositionView,
    depth: u32,
    alpha: Score,
    beta: Score,
    ply: u32,
    path: Seq<u64>,
    progress: Progress,
)
    requires
        progress.state.options.use_tt,
        progress.state.table.policy == TtReuse::PerSearch,
        progress.state.table.found(model::node_key(p, path)) matches Some(old_entry)
            ==> old_entry.depth <= depth,
        well_inside(progress.best as int, ply),
    ensures
        model::remembered(p, depth, alpha, beta, ply, path, progress).table.found(
            model::node_key(p, path),
        ) matches Some(entry) && {
            &&& entry.depth == depth
            &&& entry.best_move == progress.best_move
            &&& entry.bound == Bound::Exact <==> alpha < progress.best < beta
            &&& entry.bound == Bound::Upper <==> progress.best <= alpha
            &&& entry.bound == Bound::Lower <==> alpha < progress.best && progress.best >= beta
            &&& model::from_table(entry.score, ply) == progress.best
        },
{
    super::laws::table_scores_round_trip(progress.best, ply);
}

/// Something deeper stays in the table.
pub proof fn a_deeper_entry_is_not_forgotten(
    p: PositionView,
    depth: u32,
    alpha: Score,
    beta: Score,
    ply: u32,
    path: Seq<u64>,
    progress: Progress,
    kept: TtEntry,
)
    requires
        progress.state.table.policy == TtReuse::PerSearch,
        progress.state.table.found(model::node_key(p, path)) == Some(kept),
        kept.depth > depth,
    ensures
        model::remembered(p, depth, alpha, beta, ply, path, progress).table.found(
            model::node_key(p, path),
        ) == Some(kept),
{
}

/// Asking again for a node that was just searched, with the same window and no
/// more depth, gives the same score out of the table.
pub proof fn a_node_is_not_searched_twice(
    p: PositionView,
    depth: u32,
    again: u32,
    alpha: Score,
    beta: Score,
    ply: u32,
    path: Seq<u64>,
    progress: Progress,
)
    requires
        progress.state.options.use_tt,
        progress.state.table.policy == TtReuse::PerSearch,
        progress.state.table.found(model::node_key(p, path)) matches Some(old_entry)
            ==> old_entry.depth <= depth,
        well_inside(progress.best as int, ply),
        again <= depth,
        alpha < beta,
    ensures
        model::probe_node(
            p,
            again,
            alpha,
            beta,
            ply,
            model::remembered(p, depth, alpha, beta, ply, path, progress),
            path,
        ).found matches Some((score, _)) && score == progress.best,
{
    super::laws::table_scores_round_trip(progress.best, ply);
}

/// And asking for more depth searches it again, with the window as it is and the
/// best move first.
pub proof fn a_node_is_searched_again_for_more_depth(
    p: PositionView,
    depth: u32,
    deeper: u32,
    alpha: Score,
    beta: Score,
    ply: u32,
    path: Seq<u64>,
    progress: Progress,
)
    requires
        progress.state.options.use_tt,
        progress.state.table.policy == TtReuse::PerSearch,
        progress.state.table.found(model::node_key(p, path)) matches Some(old_entry)
            ==> old_entry.depth <= depth,
        deeper > depth,
    ensures
        ({
            let probe = model::probe_node(
                p,
                deeper,
                alpha,
                beta,
                ply,
                model::remembered(p, depth, alpha, beta, ply, path, progress),
                path,
            );
            &&& probe.found is None
            &&& probe.alpha == alpha
            &&& probe.beta == beta
            &&& probe.tt_move == progress.best_move
        }),
{
}

/// Per search, the table keeps the deeper of two entries of a position, and of
/// two equally deep ones the later.
pub proof fn the_deeper_entry_stays(table: TableView, key: TtKey, entry: TtEntry)
    requires
        table.policy == TtReuse::PerSearch,
    ensures
        table.stored(key, entry).found(key) matches Some(kept) && {
            &&& kept.depth >= entry.depth
            &&& match table.found(key) {
                Some(old_entry) if old_entry.depth > entry.depth => kept == old_entry,
                _ => kept == (TtEntry { generation: table.generation, ..entry }),
            }
        },
{
}

/// A search that starts per game finds everything that earlier searches left;
/// one that starts per search finds nothing.
pub proof fn what_a_new_search_finds(table: TableView, key: TtKey)
    ensures
        table.policy == TtReuse::PerSearch ==> table.begun().found(key) is None,
        table.policy == TtReuse::PerGame && table.generation < u64::MAX ==> match table.found(key) {
            Some(entry) => table.begun().found(key) == Some(
                TtEntry { generation: (table.generation + 1) as u64, ..entry },
            ),
            None => table.begun().found(key) is None,
        },
{
}

/// An entry that was last used one search earlier counts for as much as one
/// that is eight plies shallower.
pub proof fn a_search_of_age_costs_eight_plies(table: TableView, entry: TtEntry)
    requires
        entry.generation <= table.generation,
        table.generation - entry.generation < u32::MAX,
        entry.generation > 0,
        entry.depth >= 8,
    ensures
        table.priority(TtEntry { generation: (entry.generation - 1) as u64, ..entry })
            == table.priority(TtEntry { depth: (entry.depth - 8) as u32, ..entry }),
        table.priority(entry) > table.priority(
            TtEntry { generation: (entry.generation - 1) as u64, ..entry },
        ),
        table.generation == entry.generation ==> table.priority(entry) == entry.depth,
{
}

proof fn lemma_scanned_is_least(table: TableView, victim: int, cursor: int, n: nat)
    requires
        table.keys.len() > 0,
        0 <= victim < table.keys.len(),
        0 <= cursor < table.keys.len(),
    ensures
        ({
            let (found, _) = table.scanned(victim, cursor, n);
            &&& 0 <= found < table.keys.len()
            &&& table.priority(table.entries[table.keys[found]]) <= table.priority(
                table.entries[table.keys[victim]],
            )
        }),
    decreases n,
{
    if n > 0 {
        let better = if table.priority(table.entries[table.keys[cursor]]) < table.priority(
            table.entries[table.keys[victim]],
        ) {
            cursor
        } else {
            victim
        };
        vstd::arithmetic::div_mod::lemma_mod_bound(cursor + 1, table.keys.len() as int);
        lemma_scanned_is_least(
            table,
            better,
            (cursor + 1) % (table.keys.len() as int),
            (n - 1) as nat,
        );
    }
}

/// Per game, storing an entry pushes out at most entries that are worth no more
/// than it, and none at all while there is room.
pub proof fn nothing_more_valuable_is_evicted(
    table: TableView,
    key: TtKey,
    entry: TtEntry,
    other: TtKey,
)
    requires
        table.wf(),
        table.policy == TtReuse::PerGame,
        other != key,
        table.entries.contains_key(super::tt::packed(other)),
        !table.stored(key, entry).entries.contains_key(super::tt::packed(other)),
    ensures
        table.keys.len() == table.capacity,
        table.priority(table.entries[super::tt::packed(other)]) <= table.priority(
            TtEntry { generation: table.generation, ..entry },
        ),
        table.stored(key, entry).found(key) == Some(
            TtEntry { generation: table.generation, ..entry },
        ),
{
    if super::tt::packed(key) == super::tt::packed(other) {
        super::tt::packed_is_injective(key, other);
    }
    lemma_scanned_is_least(table, table.cursor, table.cursor, table.sample_size());
}

/// Per game, an entry takes the place of another one of the same position if the
/// games that led there differ or if it is worth at least as much, and is
/// dropped otherwise.
pub proof fn entries_of_one_position_compete(
    table: TableView,
    key: TtKey,
    entry: TtEntry,
    old_entry: TtEntry,
)
    requires
        table.policy == TtReuse::PerGame,
        table.found(key) == Some(old_entry),
    ensures
        ({
            let current = TtEntry { generation: table.generation, ..entry };
            let held = table.entries[super::tt::packed(key)];
            table.stored(key, entry).found(key) == Some(
                if held.history == entry.history && table.priority(current) < table.priority(held) {
                    old_entry
                } else {
                    current
                },
            )
        }),
{
}

/// A node that an entry decides costs one node and nothing else: no move is
/// searched, and its score is that of the entry.
pub proof fn a_known_node_is_not_searched<E: Evaluator>(
    evaluator: E,
    p: PositionView,
    depth: u32,
    alpha: Score,
    beta: Score,
    ply: u32,
    nodes: u64,
    state: StateView,
    path: Seq<u64>,
    allow_null: bool,
    entry: TtEntry,
)
    requires
        state.options.use_tt,
        !model::rule_draw(p, path),
        state.table.found(model::node_key(p, path)) == Some(entry),
        entry.depth >= depth,
        -MATE_THRESHOLD < entry.score < MATE_THRESHOLD,
        entry.bound == Bound::Exact || (entry.bound == Bound::Lower && entry.score >= beta) || (
        entry.bound == Bound::Upper && entry.score <= alpha),
    ensures
        ({
            let found = model::node(
                evaluator,
                p,
                depth,
                alpha,
                beta,
                ply,
                nodes,
                state,
                path,
                allow_null,
            );
            &&& found.score == entry.score
            &&& found.nodes == nodes.wrapping_add(1)
            &&& found.state == (StateView { table: found.state.table, ..state })
        }),
{
}

/// What the table keeps of a node whose moves were searched: at least its depth,
/// and if just that, then the score that the node was found to have, as exact,
/// lower or upper bound by how it lies to the window that the node was asked
/// with, whatever the table had made of that window.
pub proof fn a_searched_node_is_kept_as_it_was_asked<E: Evaluator>(
    evaluator: E,
    p: PositionView,
    depth: u32,
    alpha: Score,
    beta: Score,
    ply: u32,
    nodes: u64,
    state: StateView,
    path: Seq<u64>,
)
    requires
        !model::rule_draw(p, path),
        p.legal_moves().len() > 0,
        depth > 0,
        model::probe_node(p, depth, alpha, beta, ply, state, path).found is None,
        !state.options.use_null_move,
        ({
            let found = model::node(
                evaluator,
                p,
                depth,
                alpha,
                beta,
                ply,
                nodes,
                state,
                path,
                false,
            );
            &&& found.state.options.use_tt
            &&& found.state.table.policy == TtReuse::PerSearch
            &&& well_inside(found.score as int, ply)
        }),
    ensures
        ({
            let found = model::node(
                evaluator,
                p,
                depth,
                alpha,
                beta,
                ply,
                nodes,
                state,
                path,
                false,
            );
            found.state.table.found(model::node_key(p, path)) matches Some(entry) && {
                &&& entry.depth >= depth
                &&& entry.depth == depth ==> {
                    &&& model::from_table(entry.score, ply) == found.score
                    &&& entry.bound == Bound::Exact <==> alpha < found.score < beta
                    &&& entry.bound == Bound::Upper <==> found.score <= alpha
                    &&& entry.bound == Bound::Lower <==> alpha < found.score && found.score >= beta
                }
            }
        }),
{
    let probe = model::probe_node(p, depth, alpha, beta, ply, state, path);
    let visited = nodes.wrapping_add(1);
    let end = model::all_moves(
        evaluator,
        p,
        depth,
        probe.beta,
        ply,
        path,
        super::ordering::ordered(p, p.legal_moves(), probe.state, ply as int, probe.tt_move),
        0,
        Progress {
            alpha: probe.alpha,
            best: (-super::SCORE_INF) as i32,
            best_move: None,
            pv: Seq::empty(),
            nodes: visited,
            state: probe.state,
            clock_due: false,
        },
    );
    let found = model::node(evaluator, p, depth, alpha, beta, ply, nodes, state, path, false);
    assert(found.score == end.best);
    assert(found.state == model::remembered(p, depth, alpha, beta, ply, path, end));
    super::laws::table_scores_round_trip(end.best, ply);
}

} // verus!
