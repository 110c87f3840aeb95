//! Negamax alpha-beta/PVS search with iterative deepening, quiescence,
//! move ordering (TT move, MVV-LVA, killers, and history), a bounded
//! transposition table, and repetition/fifty-move draw scoring.
//!
//! Iterative deepening deliberately keeps a full root window rather than
//! adding aspiration windows: PVS already supplies narrow windows below the
//! root, while a full root window avoids deadline-expensive fail-high/low
//! re-searches when the score changes sharply between depths.
//!
//! Time-bounded search polls a `Deadline` periodically from inside negamax
//! and unwinds early when it's passed. A partially-searched depth is
//! discarded rather than reported: alpha-beta's cutoffs assume a subtree was
//! fully explored, so a score produced after bailing out partway through one
//! is not trustworthy the way a fully-completed depth's score is.
//!
//! What a completed search finds is said by `super::model`.

use super::deadline::Deadline;
use super::looks::{self, Looks};
use super::exchange;
use super::model::{self, Outcome, Progress, QuietOutcome, QuietProgress, DELTA_MARGIN, MAX_QUIESCENCE_PLY};
use super::ordering;
use super::state::{add_clamped, record_cutoff, SearchState, StateView};
use super::tt::{Bound, TtEntry, TtKey};
use super::{Score, MATE_THRESHOLD, SCORE_INF, SCORE_MATE};
use crate::chess::moves::Move;
use crate::chess::position::{Position, PositionView};
use crate::eval::Evaluator;
use vstd::prelude::*;

verus! {

broadcast use {
    crate::chess::moves::lemma_move_squares,
    crate::chess::position::lemma_board_len,
};

/// A score seen from the other side.
pub(crate) fn negate(score: Score) -> (negated: Score)
    ensures
        negated == model::neg(score),
{
    0i32.wrapping_sub(score)
}

/// The larger of two scores.
pub(crate) fn max_score(a: Score, b: Score) -> (result: Score)
    ensures
        result == model::higher(a, b),
{
    if a >= b {
        a
    } else {
        b
    }
}

/// How often `hash` occurs in `path`, up to 255.
pub fn repetition_count(path: &Vec<u64>, hash: u64) -> (count: u8)
    ensures
        count == model::repetitions(path@, hash),
{
    let mut count: usize = 0;
    let mut k: usize = 0;
    while k < path.len()
        invariant
            k <= path.len(),
            count <= k,
            count == model::occurrences(path@, hash, k as nat),
        decreases path.len() - k,
    {
        if path[k] == hash {
            count += 1;
        }
        k += 1;
    }
    if count > 255 {
        255
    } else {
        count as u8
    }
}

/// Whether the game can be claimed a draw here.
pub fn is_rule_draw(position: &Position, path: &Vec<u64>) -> (draw: bool)
    ensures
        draw == model::rule_draw(position@, path@),
{
    position.halfmove_clock() >= 100 || repetition_count(path, position.zobrist_hash()) >= 3
}

/// The score for a position with no legal moves: checkmate (ply-
/// adjusted, from the perspective of the side to move, who is being
/// mated) or stalemate (an exact draw).
pub fn terminal_score(position: &Position, ply: u32) -> (score: Score)
    ensures
        score == model::terminal_value(position@, ply),
{
    if position.in_check() {
        let mated: Score = -SCORE_MATE;
        #[verifier::truncate]
        let distance: Score = ply as i32;
        mated.wrapping_add(distance)
    } else {
        0
    }
}

/// A score as the table keeps it: mate distances count from the position itself.
pub fn score_to_tt(score: Score, ply: u32) -> (stored: Score)
    ensures
        stored == model::to_table(score, ply),
{
    #[verifier::truncate]
    let distance: Score = ply as i32;
    if score >= MATE_THRESHOLD {
        score.wrapping_add(distance)
    } else if score <= -MATE_THRESHOLD {
        score.wrapping_sub(distance)
    } else {
        score
    }
}

/// A score from the table, with mate distances counted from the root again.
pub fn score_from_tt(score: Score, ply: u32) -> (restored: Score)
    ensures
        restored == model::from_table(score, ply),
{
    #[verifier::truncate]
    let distance: Score = ply as i32;
    if score >= MATE_THRESHOLD {
        score.wrapping_sub(distance)
    } else if score <= -MATE_THRESHOLD {
        score.wrapping_add(distance)
    } else {
        score
    }
}

/// How much shallower the search after a null move is.
pub fn null_move_reduction(depth: u32, adaptive: bool) -> (reduction: u32)
    ensures
        reduction == model::null_reduction(depth, adaptive),
        2 <= reduction <= 3,
{
    if adaptive && depth >= 7 {
        3
    } else {
        2
    }
}

/// What looking a node up in the table leads to.
struct TableProbe {
    tt_move: Option<Move>,
    alpha: Score,
    beta: Score,
    found: Option<(Score, Vec<Move>)>,
}

/// The result that a table lookup settles, if any.
spec fn found_view(found: Option<(Score, Vec<Move>)>) -> Option<(Score, Seq<Move>)> {
    match found {
        Some((score, pv)) => Some((score, pv@)),
        None => None,
    }
}

/// Whether an exec lookup agrees with what the model says of it.
spec fn probe_agrees(probe: TableProbe, state: StateView, expected: model::Probe) -> bool {
    &&& state == expected.state
    &&& probe.tt_move == expected.tt_move
    &&& probe.alpha == expected.alpha
    &&& probe.beta == expected.beta
    &&& found_view(probe.found) == expected.found
}

/// Whether what a search returned is what the model says, as far as it
/// finished, and whether it had to finish or to be cut off, as far as that
/// does not depend on what the clock and the stop signal say.
pub open spec fn agrees(
    deadline: Deadline,
    outcome: Option<(Score, Vec<Move>)>,
    nodes: u64,
    state: StateView,
    expected: Outcome,
) -> bool {
    &&& deadline.may_end(outcome is Some, expected.clock_due)
    &&& outcome matches Some((score, pv)) ==> {
        &&& score == expected.score
        &&& pv@ == expected.pv
        &&& nodes == expected.nodes
        &&& state == expected.state
    }
}

/// Likewise for quiescence.
pub open spec fn quiet_agrees(
    deadline: Deadline,
    outcome: Option<Score>,
    nodes: u64,
    state: StateView,
    expected: QuietOutcome,
) -> bool {
    &&& deadline.may_end(outcome is Some, expected.clock_due)
    &&& outcome matches Some(score) ==> {
        &&& score == expected.score
        &&& nodes == expected.nodes
        &&& state == expected.state
    }
}

/// What identifies this node to the table.
fn table_key(position: &Position, path: &Vec<u64>) -> (key: TtKey)
    ensures
        key == model::node_key(position@, path@),
{
    let hash: u64 = position.zobrist_hash();
    (hash, position.halfmove_clock(), repetition_count(path, hash))
}

/// Looks a node up in the table, if the table is used at all.
fn probe_table(
    position: &Position,
    key: TtKey,
    depth: u32,
    alpha: Score,
    beta: Score,
    ply: u32,
    state: &mut SearchState,
    path: &Vec<u64>,
) -> (probe: TableProbe)
    requires
        old(state)@.table.wf(),
        key == model::node_key(position@, path@),
    ensures
        final(state)@.table.wf(),
        probe_agrees(
            probe,
            final(state)@,
            model::probe_node(position@, depth, alpha, beta, ply, old(state)@, path@),
        ),
{
    // `UseTT` off means never probing or storing: move ordering falls back to
    // MVV-LVA/killers/history alone, exactly as if no entry had ever
    // been found.
    if !state.options.use_tt {
        return TableProbe { tt_move: None, alpha, beta, found: None };
    }
    let entry: TtEntry = match state.table.probe(&key) {
        Some(entry) => entry,
        None => {
            return TableProbe { tt_move: None, alpha, beta, found: None };
        },
    };
    let tt_move = entry.best_move;
    if entry.depth < depth {
        return TableProbe { tt_move, alpha, beta, found: None };
    }
    let score: Score = score_from_tt(entry.score, ply);
    match entry.bound {
        Bound::Exact => {
            let mut pv: Vec<Move> = Vec::new();
            if let Some(mv) = entry.best_move {
                pv.push(mv);
            }
            assert(pv@ =~= model::one_move(entry.best_move));
            TableProbe { tt_move, alpha, beta, found: Some((score, pv)) }
        },
        Bound::Lower => {
            let raised: Score = max_score(alpha, score);
            let found: Option<(Score, Vec<Move>)> = if raised >= beta {
                Some((score, Vec::new()))
            } else {
                None
            };
            TableProbe { tt_move, alpha: raised, beta, found }
        },
        Bound::Upper => {
            let lowered: Score = if beta <= score {
                beta
            } else {
                score
            };
            let found: Option<(Score, Vec<Move>)> = if alpha >= lowered {
                Some((score, Vec::new()))
            } else {
                None
            };
            TableProbe { tt_move, alpha, beta: lowered, found }
        },
    }
}

/// The recursive negamax search. `ply` is the distance from the root,
/// used only to ply-adjust mate scores (see `SCORE_MATE`'s docs) so a
/// shorter forced mate is always preferred over a longer one and a
/// losing side delays mate as long as possible.
///
/// Returns `None` if `deadline` expired during this call or any of its
/// children -- the caller must treat that as "this subtree's result is
/// unusable," not as a real (if pessimistic) score. Without a stop signal that
/// happens only where a look at the clock falls due. Otherwise the result,
/// the node count and the working memory are what `model::node` says.
///
/// Returns the score together with the remaining principal variation
/// below this node (not including this node's own move -- the caller
/// prepends that). Position and path are the same afterwards as before,
/// whether the search finished or not.
pub fn negamax<E: Evaluator>(
    position: &mut Position,
    depth: u32,
    alpha: Score,
    beta: Score,
    ply: u32,
    evaluator: &E,
    nodes: &mut u64,
    deadline: &Deadline,
    state: &mut SearchState,
    path: &mut Vec<u64>,
    allow_null: bool,
) -> (outcome: Option<(Score, Vec<Move>)>)
    requires
        old(state)@.table.wf(),
    ensures
        final(position)@ == old(position)@,
        final(path)@ == old(path)@,
        final(state)@.table.wf(),
        !deadline.can_expire() ==> outcome is Some,
        deadline.has_no_time() && super::deadline::is_check_boundary(*old(nodes)) ==> outcome is None,
        agrees(
            *deadline,
            outcome,
            *final(nodes),
            final(state)@,
            model::node(
                *evaluator,
                old(position)@,
                depth,
                alpha,
                beta,
                ply,
                *old(nodes),
                old(state)@,
                old(path)@,
                allow_null,
            ),
        ),
        exists|looks: Looks| #[trigger]
            looks.kept() && looks::watched(
                Seq::empty(),
                looks.notes(),
                *deadline,
                *old(nodes),
                *final(nodes),
                outcome is Some,
            ),
{
    let mut looks = Looks::new();
    watched_negamax(
        position,
        depth,
        alpha,
        beta,
        ply,
        evaluator,
        nodes,
        deadline,
        &mut looks,
        state,
        path,
        allow_null,
    )
}

/// Searches like `negamax`, and keeps a record of its looks at the deadline:
/// one at every node, up to the first that finds it expired.
#[verifier::rlimit(40)]
#[verifier::spinoff_prover]
pub fn watched_negamax<E: Evaluator>(
    position: &mut Position,
    depth: u32,
    alpha: Score,
    beta: Score,
    ply: u32,
    evaluator: &E,
    nodes: &mut u64,
    deadline: &Deadline,
    looks: &mut Looks,
    state: &mut SearchState,
    path: &mut Vec<u64>,
    allow_null: bool,
) -> (outcome: Option<(Score, Vec<Move>)>)
    requires
        old(state)@.table.wf(),
        old(looks).kept(),
    ensures
        final(position)@ == old(position)@,
        final(path)@ == old(path)@,
        final(state)@.table.wf(),
        !deadline.can_expire() ==> outcome is Some,
        deadline.has_no_time() && super::deadline::is_check_boundary(*old(nodes)) ==> outcome is None,
        agrees(
            *deadline,
            outcome,
            *final(nodes),
            final(state)@,
            model::node(
                *evaluator,
                old(position)@,
                depth,
                alpha,
                beta,
                ply,
                *old(nodes),
                old(state)@,
                old(path)@,
                allow_null,
            ),
        ),
        final(looks).kept(),
        looks::watched(
            old(looks).notes(),
            final(looks).notes(),
            *deadline,
            *old(nodes),
            *final(nodes),
            outcome is Some,
        ),
    decreases depth, 3nat, 0nat,
{
    let ghost start = looks.notes();
    let ghost from = *nodes;
    let expired = looks.look(deadline, *nodes);
    proof {
        looks::lemma_watched_one(start, *deadline, from, expired);
    }
    if expired {
        return None;
    }
    *nodes = (*nodes).wrapping_add(1);
    let ghost visited = *nodes;
    let ghost seen = looks.notes();
    let key: TtKey = table_key(position, path);
    let (_, halfmove_clock, repetitions) = key;
    if halfmove_clock >= 100 || repetitions >= 3 {
        return Some((0, Vec::new()));
    }
    let probe: TableProbe = probe_table(position, key, depth, alpha, beta, ply, state, path);
    if let Some((score, pv)) = probe.found {
        return Some((score, pv));
    }
    let mut moves: Vec<Move> = position.generate_legal_moves();
    if moves.len() == 0 {
        return Some((terminal_score(position, ply), Vec::new()));
    }
    if depth == 0 {
        if state.options.use_quiescence {
            let outcome = watched_quiescence(
                position,
                probe.alpha,
                probe.beta,
                ply,
                ply,
                evaluator,
                nodes,
                deadline,
                looks,
                path,
                state,
            );
            proof {
                looks::lemma_watched_on(
                    start,
                    seen,
                    looks.notes(),
                    *deadline,
                    from,
                    visited,
                    *nodes,
                    outcome is Some,
                );
            }
            return match outcome {
                Some(score) => Some((score, Vec::new())),
                None => None,
            };
        }
        return Some((evaluator.evaluate(position), Vec::new()));
    }
    let null_outcome = try_null_move(
        position,
        depth,
        probe.beta,
        ply,
        evaluator,
        nodes,
        deadline,
        looks,
        state,
        path,
        allow_null,
    );
    proof {
        looks::lemma_watched_on(
            start,
            seen,
            looks.notes(),
            *deadline,
            from,
            visited,
            *nodes,
            null_outcome is Some,
        );
    }
    let ghost visited = *nodes;
    let ghost seen = looks.notes();
    match null_outcome {
        None => {
            return None;
        },
        Some(Some(score)) => {
            return Some((score, Vec::new()));
        },
        Some(None) => {},
    }
    let ghost legal = moves@;
    proof {
        ordering::lemma_ordered_members(position@, legal, state@, ply as int, probe.tt_move);
    }
    ordering::order_moves(position, &mut moves, state, ply as usize, probe.tt_move);
    proof {
        lemma_all_playable(position@, moves@, legal);
    }
    let searched = search_moves(
        position,
        depth,
        probe.alpha,
        probe.beta,
        ply,
        evaluator,
        nodes,
        deadline,
        looks,
        state,
        path,
        &moves,
    );
    proof {
        looks::lemma_watched_on(
            start,
            seen,
            looks.notes(),
            *deadline,
            from,
            visited,
            *nodes,
            searched is Some,
        );
    }
    match searched {
        None => None,
        Some(end) => {
            store_result(position, key, depth, alpha, beta, ply, state, path, end.best, end.best_move);
            Some((end.best, end.pv))
        },
    }
}

/// Whether every one of these moves can be made and taken back here.
pub open spec fn all_playable(p: PositionView, moves: Seq<Move>) -> bool {
    forall|k: int| 0 <= k < moves.len() ==> p.reversible(#[trigger] moves[k])
}

/// Moves taken from the legal ones can be made and taken back.
pub proof fn lemma_all_playable(p: PositionView, moves: Seq<Move>, legal: Seq<Move>)
    requires
        p.board.len() == 64,
        legal == p.legal_moves(),
        forall|mv: Move| moves.contains(mv) ==> legal.contains(mv),
    ensures
        all_playable(p, moves),
{
    assert forall|k: int| 0 <= k < moves.len() implies p.reversible(#[trigger] moves[k]) by {
        assert(moves.contains(moves[k]));
        let j = choose|j: int| 0 <= j < legal.len() && legal[j] == moves[k];
        crate::chess::legality::legal_moves_are_reversible(p, j);
    }
}

/// Passes the turn, if that is to be tried, and searches with a null window.
/// `Some(Some(score))` means that the node is cut off with that score.
fn try_null_move<E: Evaluator>(
    position: &mut Position,
    depth: u32,
    beta: Score,
    ply: u32,
    evaluator: &E,
    nodes: &mut u64,
    deadline: &Deadline,
    looks: &mut Looks,
    state: &mut SearchState,
    path: &mut Vec<u64>,
    allow_null: bool,
) -> (outcome: Option<Option<Score>>)
    requires
        old(state)@.table.wf(),
        old(looks).kept(),
        depth > 0,
    ensures
        final(position)@ == old(position)@,
        final(path)@ == old(path)@,
        final(state)@.table.wf(),
        !deadline.can_expire() ==> outcome is Some,
        ({
            let expected = model::null_try(
                *evaluator,
                old(position)@,
                depth,
                beta,
                ply,
                *old(nodes),
                old(state)@,
                old(path)@,
                allow_null,
            );
            &&& deadline.may_end(outcome is Some, expected.clock_due)
            &&& outcome matches Some(cutoff) ==> {
                &&& cutoff == expected.cutoff
                &&& *final(nodes) == expected.nodes
                &&& final(state)@ == expected.state
            }
        }),
        final(looks).kept(),
        looks::watched(
            old(looks).notes(),
            final(looks).notes(),
            *deadline,
            *old(nodes),
            *final(nodes),
            outcome is Some,
        ),
    decreases depth, 2nat, 0nat,
{
    let reduction: u32 = null_move_reduction(depth, state.options.use_adaptive_null_move);
    let worthwhile = state.options.use_null_move && allow_null && depth >= 2 && depth - 2
        >= reduction && !position.in_check() && -MATE_THRESHOLD < beta && beta < MATE_THRESHOLD
        && exchange::has_non_pawn_material(position, position.side_to_move());
    if !worthwhile {
        proof {
            looks::lemma_watched_nothing(looks.notes(), *deadline, *nodes);
        }
        return Some(None);
    }
    state.null_move.attempts = state.null_move.attempts.wrapping_add(1);
    let ghost attempted = state@;
    assert(attempted =~= model::null_attempted(old(state)@));
    proof {
        crate::chess::make_unmake::unmake_null_restores(position@);
    }
    let undo = position.make_null_move();
    let outcome = watched_negamax(
        position,
        depth - 1 - reduction,
        negate(beta),
        negate(beta).wrapping_add(1),
        ply.wrapping_add(1),
        evaluator,
        nodes,
        deadline,
        looks,
        state,
        path,
        false,
    );
    position.unmake_null_move(undo);
    match outcome {
        None => None,
        Some((child_score, _)) => {
            let score: Score = negate(child_score);
            if score >= beta {
                let ghost before = state@;
                state.null_move.cutoffs = state.null_move.cutoffs.wrapping_add(1);
                assert(state@ =~= model::null_cut(before));
                Some(Some(score))
            } else {
                Some(None)
            }
        },
    }
}

/// The best of the searched moves.
struct Searched {
    best: Score,
    best_move: Option<Move>,
    pv: Vec<Move>,
}

/// Searches the moves of a node in order, until one of them reaches beta.
#[verifier::rlimit(40)]
#[verifier::spinoff_prover]
fn search_moves<E: Evaluator>(
    position: &mut Position,
    depth: u32,
    start_alpha: Score,
    beta: Score,
    ply: u32,
    evaluator: &E,
    nodes: &mut u64,
    deadline: &Deadline,
    looks: &mut Looks,
    state: &mut SearchState,
    path: &mut Vec<u64>,
    moves: &Vec<Move>,
) -> (outcome: Option<Searched>)
    requires
        old(state)@.table.wf(),
        old(looks).kept(),
        depth > 0,
        all_playable(old(position)@, moves@),
    ensures
        final(position)@ == old(position)@,
        final(path)@ == old(path)@,
        final(state)@.table.wf(),
        !deadline.can_expire() ==> outcome is Some,
        ({
            let expected = model::all_moves(
                *evaluator,
                old(position)@,
                depth,
                beta,
                ply,
                old(path)@,
                moves@,
                0,
                Progress {
                    alpha: start_alpha,
                    best: (-SCORE_INF) as i32,
                    best_move: None,
                    pv: Seq::empty(),
                    nodes: *old(nodes),
                    state: old(state)@,
                    clock_due: false,
                },
            );
            &&& deadline.may_end(outcome is Some, expected.clock_due)
            &&& outcome matches Some(searched) ==> {
                &&& searched.best == expected.best
                &&& searched.best_move == expected.best_move
                &&& searched.pv@ == expected.pv
                &&& *final(nodes) == expected.nodes
                &&& final(state)@ == expected.state
            }
        }),
        final(looks).kept(),
        looks::watched(
            old(looks).notes(),
            final(looks).notes(),
            *deadline,
            *old(nodes),
            *final(nodes),
            outcome is Some,
        ),
    decreases depth, 2nat, 0nat,
{
    let ghost p = position@;
    let ghost line = path@;
    let mut alpha: Score = start_alpha;
    let mut best: Score = -SCORE_INF;
    let mut best_move: Option<Move> = None;
    let mut best_pv: Vec<Move> = Vec::new();
    let ghost whole = model::all_moves(
        *evaluator,
        p,
        depth,
        beta,
        ply,
        line,
        moves@,
        0,
        Progress {
            alpha: start_alpha,
            best: (-SCORE_INF) as i32,
            best_move: None,
            pv: Seq::empty(),
            nodes: *nodes,
            state: state@,
            clock_due: false,
        },
    );
    let ghost mut due = false;
    let ghost start = looks.notes();
    let ghost from = *nodes;
    proof {
        looks::lemma_watched_nothing(start, *deadline, from);
    }
    let mut index: usize = 0;
    while index < moves.len()
        invariant
            index <= moves.len(),
            depth > 0,
            position@ == p,
            path@ == line,
            p == old(position)@,
            line == old(path)@,
            state@.table.wf(),
            all_playable(p, moves@),
            whole == model::all_moves(
                *evaluator,
                p,
                depth,
                beta,
                ply,
                line,
                moves@,
                0,
                Progress {
                    alpha: start_alpha,
                    best: (-SCORE_INF) as i32,
                    best_move: None,
                    pv: Seq::empty(),
                    nodes: *old(nodes),
                    state: old(state)@,
                    clock_due: false,
                },
            ),
            whole == model::all_moves(
                *evaluator,
                p,
                depth,
                beta,
                ply,
                line,
                moves@,
                index as nat,
                Progress {
                    alpha,
                    best,
                    best_move,
                    pv: best_pv@,
                    nodes: *nodes,
                    state: state@,
                    clock_due: due,
                },
            ),
            deadline.has_no_time() ==> !due,
            start == old(looks).notes(),
            from == *old(nodes),
            looks.kept(),
            looks::watched(start, looks.notes(), *deadline, from, *nodes, true),
        decreases moves.len() - index,
    {
        let mv = moves[index];
        let ghost child = model::child_node(
            *evaluator,
            p,
            depth,
            alpha,
            beta,
            ply,
            line,
            mv,
            index as int,
            *nodes,
            state@,
        );
        proof {
            let progress = Progress {
                alpha,
                best,
                best_move,
                pv: best_pv@,
                nodes: *nodes,
                state: state@,
                clock_due: due,
            };
            lemma_clock_stays_due(
                *evaluator,
                p,
                depth,
                beta,
                ply,
                line,
                moves@,
                index as nat + 1,
                model::advanced(progress, mv, child),
            );
            due = due || child.clock_due;
        }
        let ghost seen = looks.notes();
        let ghost visited = *nodes;
        let outcome = search_child(
            position,
            depth,
            alpha,
            beta,
            ply,
            evaluator,
            nodes,
            deadline,
            looks,
            state,
            path,
            mv,
            index,
        );
        proof {
            looks::lemma_watched_on(
                start,
                seen,
                looks.notes(),
                *deadline,
                from,
                visited,
                *nodes,
                outcome is Some,
            );
        }
        match outcome {
            None => {
                return None;
            },
            Some((child_score, child_pv)) => {
                let score: Score = negate(child_score);
                if score > best {
                    best = score;
                    best_move = Some(mv);
                    let mut line_pv: Vec<Move> = child_pv;
                    line_pv.insert(0, mv);
                    best_pv = line_pv;
                }
                alpha = max_score(alpha, score);
                if alpha >= beta {
                    // Beta cutoff: the opponent won't allow this line.
                    record_cutoff(position, state, mv, ply, depth);
                    return Some(Searched { best, best_move, pv: best_pv });
                }
            },
        }
        index += 1;
    }
    Some(Searched { best, best_move, pv: best_pv })
}

/// Once a look at the clock has fallen due, searching more moves leaves it so.
proof fn lemma_clock_stays_due<E: Evaluator>(
    evaluator: E,
    p: PositionView,
    depth: u32,
    beta: Score,
    ply: u32,
    path: Seq<u64>,
    moves: Seq<Move>,
    index: nat,
    progress: Progress,
)
    ensures
        progress.clock_due ==> model::all_moves(
            evaluator,
            p,
            depth,
            beta,
            ply,
            path,
            moves,
            index,
            progress,
        ).clock_due,
    decreases moves.len() - index,
{
    if index < moves.len() && depth > 0 {
        let mv = moves[index as int];
        let child = model::child_node(
            evaluator,
            p,
            depth,
            progress.alpha,
            beta,
            ply,
            path,
            mv,
            index as int,
            progress.nodes,
            progress.state,
        );
        let next = model::advanced(progress, mv, child);
        if next.alpha < beta {
            lemma_clock_stays_due(evaluator, p, depth, beta, ply, path, moves, index + 1, next);
        }
    }
}

/// Makes a move of a node, searches the position after it, and takes the move
/// back.
#[verifier::rlimit(30)]
#[verifier::spinoff_prover]
fn search_child<E: Evaluator>(
    position: &mut Position,
    depth: u32,
    alpha: Score,
    beta: Score,
    ply: u32,
    evaluator: &E,
    nodes: &mut u64,
    deadline: &Deadline,
    looks: &mut Looks,
    state: &mut SearchState,
    path: &mut Vec<u64>,
    mv: Move,
    index: usize,
) -> (outcome: Option<(Score, Vec<Move>)>)
    requires
        old(state)@.table.wf(),
        old(looks).kept(),
        depth > 0,
        old(position)@.reversible(mv),
    ensures
        final(position)@ == old(position)@,
        final(path)@ == old(path)@,
        final(state)@.table.wf(),
        !deadline.can_expire() ==> outcome is Some,
        agrees(
            *deadline,
            outcome,
            *final(nodes),
            final(state)@,
            model::child_node(
                *evaluator,
                old(position)@,
                depth,
                alpha,
                beta,
                ply,
                old(path)@,
                mv,
                index as int,
                *old(nodes),
                old(state)@,
            ),
        ),
        final(looks).kept(),
        looks::watched(
            old(looks).notes(),
            final(looks).notes(),
            *deadline,
            *old(nodes),
            *final(nodes),
            outcome is Some,
        ),
    decreases depth, 1nat, 0nat,
{
    let ghost p = position@;
    let ghost line = path@;
    let reducible = index > 0 && is_reducible(position, depth, ply, state, mv, index);
    proof {
        crate::chess::make_unmake::unmake_restores(p, mv);
    }
    let undo = position.make_move(mv);
    path.push(position.zobrist_hash());
    let ghost deeper = path@;
    assert(deeper.drop_last() =~= line);
    let outcome = if index == 0 {
        watched_negamax(
            position,
            depth - 1,
            negate(beta),
            negate(alpha),
            ply.wrapping_add(1),
            evaluator,
            nodes,
            deadline,
            looks,
            state,
            path,
            true,
        )
    } else {
        let use_reduction = reducible && !position.in_check();
        search_later_move(
            position,
            depth,
            alpha,
            beta,
            ply,
            evaluator,
            nodes,
            deadline,
            looks,
            state,
            path,
            use_reduction,
            Ghost(p),
            Ghost(line),
            Ghost(mv),
            Ghost(index as int),
        )
    };
    path.pop();
    position.unmake_move(mv, undo);
    outcome
}

/// Searches the position after a move that is not the first of its node. The
/// move has already been made.
///
/// Principal Variation Search: prove later moves fail low with a null window.
/// Late quiet moves get a conservative one-ply reduction; any reduced result
/// that challenges alpha is first verified at full depth before it can affect
/// the result.
#[verifier::rlimit(30)]
#[verifier::spinoff_prover]
fn search_later_move<E: Evaluator>(
    position: &mut Position,
    depth: u32,
    alpha: Score,
    beta: Score,
    ply: u32,
    evaluator: &E,
    nodes: &mut u64,
    deadline: &Deadline,
    looks: &mut Looks,
    state: &mut SearchState,
    path: &mut Vec<u64>,
    use_reduction: bool,
    Ghost(p): Ghost<PositionView>,
    Ghost(line): Ghost<Seq<u64>>,
    Ghost(mv): Ghost<Move>,
    Ghost(index): Ghost<int>,
) -> (outcome: Option<(Score, Vec<Move>)>)
    requires
        old(state)@.table.wf(),
        old(looks).kept(),
        depth > 0,
        index != 0,
        old(position)@ == p.made(mv),
        old(path)@ == line.push(p.made(mv).hash()),
        use_reduction == model::reduces(p, depth, ply, old(state)@, mv, index),
    ensures
        final(position)@ == old(position)@,
        final(path)@ == old(path)@,
        final(state)@.table.wf(),
        agrees(
            *deadline,
            outcome,
            *final(nodes),
            final(state)@,
            model::child_node(
                *evaluator,
                p,
                depth,
                alpha,
                beta,
                ply,
                line,
                mv,
                index,
                *old(nodes),
                old(state)@,
            ),
        ),
        final(looks).kept(),
        looks::watched(
            old(looks).notes(),
            final(looks).notes(),
            *deadline,
            *old(nodes),
            *final(nodes),
            outcome is Some,
        ),
    decreases depth, 0nat, 2nat,
{
    let ghost start = looks.notes();
    let ghost from = *nodes;
    let scout = search_scout(
        position,
        depth,
        alpha,
        ply,
        evaluator,
        nodes,
        deadline,
        looks,
        state,
        path,
        use_reduction,
        Ghost(p),
        Ghost(line),
        Ghost(mv),
        Ghost(index),
    );
    match scout {
        None => None,
        Some((child_score, child_pv)) => {
            let score: Score = negate(child_score);
            if score > alpha && score < beta {
                let ghost seen = looks.notes();
                let ghost visited = *nodes;
                let outcome = watched_negamax(
                    position,
                    depth - 1,
                    negate(beta),
                    negate(alpha),
                    ply.wrapping_add(1),
                    evaluator,
                    nodes,
                    deadline,
                    looks,
                    state,
                    path,
                    true,
                );
                proof {
                    looks::lemma_watched_on(
                        start,
                        seen,
                        looks.notes(),
                        *deadline,
                        from,
                        visited,
                        *nodes,
                        outcome is Some,
                    );
                }
                outcome
            } else {
                Some((child_score, child_pv))
            }
        },
    }
}

/// Whether a move is late and quiet enough for a reduction, as far as that can
/// be told before it is made.
fn is_reducible(
    position: &Position,
    depth: u32,
    ply: u32,
    state: &SearchState,
    mv: Move,
    index: usize,
) -> (reducible: bool)
    ensures
        (reducible && !position@.made(mv).checked(position@.side.other())) == model::reduces(
            position@,
            depth,
            ply,
            state@,
            mv,
            index as int,
        ),
{
    state.options.use_lmr && depth >= 3 && index >= 4 && !exchange::is_capture(position, mv)
        && mv.flag().promotion_kind().is_none() && !state.is_killer(ply, mv)
        && !position.in_check()
}

/// The null-window search of a later move, reduced and verified if it is a
/// late quiet one. The move has already been made.
#[verifier::rlimit(30)]
#[verifier::spinoff_prover]
fn search_scout<E: Evaluator>(
    position: &mut Position,
    depth: u32,
    alpha: Score,
    ply: u32,
    evaluator: &E,
    nodes: &mut u64,
    deadline: &Deadline,
    looks: &mut Looks,
    state: &mut SearchState,
    path: &mut Vec<u64>,
    use_reduction: bool,
    Ghost(p): Ghost<PositionView>,
    Ghost(line): Ghost<Seq<u64>>,
    Ghost(mv): Ghost<Move>,
    Ghost(index): Ghost<int>,
) -> (outcome: Option<(Score, Vec<Move>)>)
    requires
        old(state)@.table.wf(),
        old(looks).kept(),
        depth > 0,
        old(position)@ == p.made(mv),
        old(path)@ == line.push(p.made(mv).hash()),
        use_reduction == model::reduces(p, depth, ply, old(state)@, mv, index),
    ensures
        final(position)@ == old(position)@,
        final(path)@ == old(path)@,
        final(state)@.table.wf(),
        !deadline.can_expire() ==> outcome is Some,
        agrees(
            *deadline,
            outcome,
            *final(nodes),
            final(state)@,
            model::scout_node(
                *evaluator,
                p,
                depth,
                alpha,
                ply,
                line,
                mv,
                index,
                *old(nodes),
                old(state)@,
            ),
        ),
        final(looks).kept(),
        looks::watched(
            old(looks).notes(),
            final(looks).notes(),
            *deadline,
            *old(nodes),
            *final(nodes),
            outcome is Some,
        ),
    decreases depth, 0nat, 1nat,
{
    let low: Score = negate(alpha).wrapping_sub(1);
    let high: Score = negate(alpha);
    if !use_reduction {
        return watched_negamax(
            position,
            depth - 1,
            low,
            high,
            ply.wrapping_add(1),
            evaluator,
            nodes,
            deadline,
            looks,
            state,
            path,
            true,
        );
    }
    search_reduced(
        position,
        depth,
        alpha,
        ply,
        evaluator,
        nodes,
        deadline,
        looks,
        state,
        path,
        Ghost(p),
        Ghost(line),
        Ghost(mv),
        Ghost(index),
    )
}

/// The null-window search of a late quiet move, reduced and verified.
#[verifier::rlimit(30)]
#[verifier::spinoff_prover]
fn search_reduced<E: Evaluator>(
    position: &mut Position,
    depth: u32,
    alpha: Score,
    ply: u32,
    evaluator: &E,
    nodes: &mut u64,
    deadline: &Deadline,
    looks: &mut Looks,
    state: &mut SearchState,
    path: &mut Vec<u64>,
    Ghost(p): Ghost<PositionView>,
    Ghost(line): Ghost<Seq<u64>>,
    Ghost(mv): Ghost<Move>,
    Ghost(index): Ghost<int>,
) -> (outcome: Option<(Score, Vec<Move>)>)
    requires
        old(state)@.table.wf(),
        old(looks).kept(),
        depth > 0,
        old(position)@ == p.made(mv),
        old(path)@ == line.push(p.made(mv).hash()),
        model::reduces(p, depth, ply, old(state)@, mv, index),
    ensures
        final(position)@ == old(position)@,
        final(path)@ == old(path)@,
        final(state)@.table.wf(),
        !deadline.can_expire() ==> outcome is Some,
        agrees(
            *deadline,
            outcome,
            *final(nodes),
            final(state)@,
            model::scout_node(
                *evaluator,
                p,
                depth,
                alpha,
                ply,
                line,
                mv,
                index,
                *old(nodes),
                old(state)@,
            ),
        ),
        final(looks).kept(),
        looks::watched(
            old(looks).notes(),
            final(looks).notes(),
            *deadline,
            *old(nodes),
            *final(nodes),
            outcome is Some,
        ),
    decreases depth, 0nat, 0nat,
{
    let low: Score = negate(alpha).wrapping_sub(1);
    let high: Score = negate(alpha);
    state.lmr.attempts = state.lmr.attempts.wrapping_add(1);
    assert(state@ =~= model::lmr_attempted(old(state)@));
    let ghost start = looks.notes();
    let ghost from = *nodes;
    let reduced = watched_negamax(
        position,
        depth - 2,
        low,
        high,
        ply.wrapping_add(1),
        evaluator,
        nodes,
        deadline,
        looks,
        state,
        path,
        true,
    );
    match reduced {
        None => None,
        Some((child_score, child_pv)) => {
            if negate(child_score) > alpha {
                let ghost before = state@;
                state.lmr.researches = state.lmr.researches.wrapping_add(1);
                assert(state@ =~= model::lmr_researched(before));
                let ghost seen = looks.notes();
                let ghost visited = *nodes;
                let outcome = watched_negamax(
                    position,
                    depth - 1,
                    low,
                    high,
                    ply.wrapping_add(1),
                    evaluator,
                    nodes,
                    deadline,
                    looks,
                    state,
                    path,
                    true,
                );
                proof {
                    looks::lemma_watched_on(
                        start,
                        seen,
                        looks.notes(),
                        *deadline,
                        from,
                        visited,
                        *nodes,
                        outcome is Some,
                    );
                }
                outcome
            } else {
                Some((child_score, child_pv))
            }
        },
    }
}

/// Puts a searched node into the table, if the table is used at all.
fn store_result(
    position: &Position,
    key: TtKey,
    depth: u32,
    alpha: Score,
    beta: Score,
    ply: u32,
    state: &mut SearchState,
    path: &Vec<u64>,
    best: Score,
    best_move: Option<Move>,
)
    requires
        old(state)@.table.wf(),
        key == model::node_key(position@, path@),
    ensures
        final(state)@.table.wf(),
        forall|progress: Progress|
            progress.best == best && progress.best_move == best_move && progress.state == old(
                state,
            )@ ==> #[trigger] model::remembered(
                position@,
                depth,
                alpha,
                beta,
                ply,
                path@,
                progress,
            ) == final(state)@,
{
    if !state.options.use_tt {
        return;
    }
    let bound: Bound = if best <= alpha {
        Bound::Upper
    } else if best >= beta {
        Bound::Lower
    } else {
        Bound::Exact
    };
    let entry: TtEntry = TtEntry::new(depth, score_to_tt(best, ply), bound, best_move, 0);
    state.table.store(key, entry);
}

/// Quiescence search: from `depth == 0`, keeps searching captures only
/// (a "noisy" position with hanging material can't be trusted just
/// because the depth budget ran out mid-exchange) until the position is
/// "quiet" (no more captures to consider) or `MAX_QUIESCENCE_PLY` is
/// reached, then returns `evaluator`'s static score for that position.
///
/// This is a stand-pat alpha-beta: unlike `negamax`, a leaf here isn't
/// forced to make a move at all. `evaluator.evaluate(position)` (the
/// "stand-pat score") is itself a candidate result -- the side to move
/// can always just decline every further capture -- so it seeds `best`
/// and `alpha` before any capture is tried, and a capture is only worth
/// recursing into if it can beat that baseline.
///
/// `start_ply` is the ply this quiescence call tree was entered at (the
/// `ply` negamax was at when it hit `depth == 0`), used to measure
/// depth *within* quiescence against `MAX_QUIESCENCE_PLY` separately
/// from `ply`'s ordinary role of ply-adjusting mate scores.
///
/// Same `None`-means-deadline-expired contract as `negamax`; otherwise the
/// result is what `model::quiet_node` says.
pub fn quiescence<E: Evaluator>(
    position: &mut Position,
    alpha: Score,
    beta: Score,
    ply: u32,
    start_ply: u32,
    evaluator: &E,
    nodes: &mut u64,
    deadline: &Deadline,
    path: &mut Vec<u64>,
    state: &mut SearchState,
) -> (outcome: Option<Score>)
    requires
        old(state)@.table.wf(),
    ensures
        final(position)@ == old(position)@,
        final(path)@ == old(path)@,
        final(state)@.table.wf(),
        !deadline.can_expire() ==> outcome is Some,
        quiet_agrees(
            *deadline,
            outcome,
            *final(nodes),
            final(state)@,
            model::quiet_node(
                *evaluator,
                old(position)@,
                alpha,
                beta,
                ply,
                start_ply,
                *old(nodes),
                old(state)@,
                old(path)@,
            ),
        ),
        exists|looks: Looks| #[trigger]
            looks.kept() && looks::watched(
                Seq::empty(),
                looks.notes(),
                *deadline,
                *old(nodes),
                *final(nodes),
                outcome is Some,
            ),
{
    let mut looks = Looks::new();
    watched_quiescence(
        position,
        alpha,
        beta,
        ply,
        start_ply,
        evaluator,
        nodes,
        deadline,
        &mut looks,
        path,
        state,
    )
}

/// Searches like `quiescence`, and keeps a record of its looks at the deadline:
/// one at every node, up to the first that finds it expired.
pub fn watched_quiescence<E: Evaluator>(
    position: &mut Position,
    alpha: Score,
    beta: Score,
    ply: u32,
    start_ply: u32,
    evaluator: &E,
    nodes: &mut u64,
    deadline: &Deadline,
    looks: &mut Looks,
    path: &mut Vec<u64>,
    state: &mut SearchState,
) -> (outcome: Option<Score>)
    requires
        old(state)@.table.wf(),
        old(looks).kept(),
    ensures
        final(position)@ == old(position)@,
        final(path)@ == old(path)@,
        final(state)@.table.wf(),
        !deadline.can_expire() ==> outcome is Some,
        quiet_agrees(
            *deadline,
            outcome,
            *final(nodes),
            final(state)@,
            model::quiet_node(
                *evaluator,
                old(position)@,
                alpha,
                beta,
                ply,
                start_ply,
                *old(nodes),
                old(state)@,
                old(path)@,
            ),
        ),
        final(looks).kept(),
        looks::watched(
            old(looks).notes(),
            final(looks).notes(),
            *deadline,
            *old(nodes),
            *final(nodes),
            outcome is Some,
        ),
    decreases
            (if model::quiet_depth(ply, start_ply) < MAX_QUIESCENCE_PLY {
                (MAX_QUIESCENCE_PLY - model::quiet_depth(ply, start_ply)) as nat
            } else {
                0nat
            }),
            1nat,
{
    let ghost start = looks.notes();
    let ghost from = *nodes;
    let expired = looks.look(deadline, *nodes);
    proof {
        looks::lemma_watched_one(start, *deadline, from, expired);
    }
    if expired {
        return None;
    }
    *nodes = (*nodes).wrapping_add(1);
    let ghost visited = *nodes;
    let ghost seen = looks.notes();
    if is_rule_draw(position, path) {
        return Some(0);
    }
    // Checkmate/stalemate must still be detected even inside
    // quiescence: a position with no legal moves at all has no stand-pat
    // baseline to fall back on, so this needs the full legal
    // move list, not just captures.
    let moves: Vec<Move> = position.generate_legal_moves();
    if moves.len() == 0 {
        return Some(terminal_score(position, ply));
    }
    let must_evade_check = state.options.use_enhanced_quiescence && position.in_check();
    let stand_pat: Score = evaluator.evaluate(position);
    if !must_evade_check && stand_pat >= beta {
        // The opponent already wouldn't allow reaching this quiet line.
        return Some(stand_pat);
    }
    if ply.wrapping_sub(start_ply) >= MAX_QUIESCENCE_PLY {
        return Some(stand_pat);
    }
    let noisy: Vec<Move> = noisy_moves(position, &moves, state, must_evade_check);
    let start_alpha: Score = if must_evade_check {
        alpha
    } else {
        max_score(alpha, stand_pat)
    };
    let start_best: Score = if must_evade_check {
        -SCORE_INF
    } else {
        stand_pat
    };
    let outcome = search_noisy_moves(
        position,
        stand_pat,
        start_alpha,
        start_best,
        beta,
        ply,
        start_ply,
        evaluator,
        nodes,
        deadline,
        looks,
        path,
        state,
        must_evade_check,
        &noisy,
    );
    proof {
        looks::lemma_watched_on(
            start,
            seen,
            looks.notes(),
            *deadline,
            from,
            visited,
            *nodes,
            outcome is Some,
        );
    }
    outcome
}

/// The legal moves that quiescence searches, best first.
fn noisy_moves(position: &Position, moves: &Vec<Move>, state: &SearchState, must_evade_check: bool) -> (noisy:
    Vec<Move>)
    requires
        moves@ == position@.legal_moves(),
        must_evade_check == model::evades(position@, state@),
    ensures
        noisy@ == model::noisy_moves(position@, state@),
        all_playable(position@, noisy@),
{
    let ghost p = position@;
    let ghost keep = |mv: Move| model::is_noisy(p, state@, mv);
    let mut kept: Vec<Move> = Vec::new();
    let mut k: usize = 0;
    assert(moves@.take(0).filter(keep) =~= Seq::<Move>::empty()) by {
        reveal(Seq::filter);
    }
    while k < moves.len()
        invariant
            k <= moves.len(),
            p == position@,
            keep == (|mv: Move| model::is_noisy(p, state@, mv)),
            must_evade_check == model::evades(p, state@),
            kept@ == moves@.take(k as int).filter(keep),
        decreases moves.len() - k,
    {
        let mv = moves[k];
        if must_evade_check || exchange::is_capture(position, mv) || (
        state.options.use_enhanced_quiescence && mv.flag().promotion_kind().is_some()) {
            kept.push(mv);
        }
        proof {
            reveal(Seq::filter);
            assert(moves@.take(k + 1).drop_last() =~= moves@.take(k as int));
            assert(keep(mv) == model::is_noisy(p, state@, mv));
        }
        k += 1;
    }
    assert(moves@.take(k as int) =~= moves@);
    proof {
        ordering::lemma_ordered_capture_members(p, kept@, state.options);
        assert forall|mv: Move| kept@.contains(mv) implies moves@.contains(mv) by {
            moves@.lemma_filter_contains_rev(keep, mv);
        }
        lemma_all_playable(
            p,
            ordering::ordered_captures(p, kept@, state.options),
            moves@,
        );
    }
    ordering::order_captures(position, &kept, state.options)
}

/// Once a look at the clock has fallen due, searching more moves leaves it so.
proof fn lemma_quiet_clock_stays_due<E: Evaluator>(
    evaluator: E,
    p: PositionView,
    stand_pat: Score,
    beta: Score,
    ply: u32,
    start_ply: u32,
    path: Seq<u64>,
    evading: bool,
    moves: Seq<Move>,
    index: nat,
    progress: QuietProgress,
)
    ensures
        progress.clock_due ==> model::quiet_moves(
            evaluator,
            p,
            stand_pat,
            beta,
            ply,
            start_ply,
            path,
            evading,
            moves,
            index,
            progress,
        ).clock_due,
    decreases moves.len() - index,
{
    if index < moves.len() && model::quiet_depth(ply, start_ply) < MAX_QUIESCENCE_PLY {
        let mv = moves[index as int];
        let counted = model::delta_counted(
            p,
            mv,
            stand_pat,
            progress.alpha,
            evading,
            progress.state,
        );
        let seen = model::see_counted(p, mv, evading, counted);
        let next = if model::delta_prunes(
            p,
            mv,
            stand_pat,
            progress.alpha,
            evading,
            progress.state,
        ) {
            QuietProgress { state: counted, ..progress }
        } else if model::see_prunes(p, mv, evading, counted) {
            QuietProgress { state: seen, ..progress }
        } else {
            let q = p.made(mv);
            let child = model::quiet_node(
                evaluator,
                q,
                model::neg(beta),
                model::neg(progress.alpha),
                ply.wrapping_add(1),
                start_ply,
                progress.nodes,
                seen,
                path.push(q.hash()),
            );
            let score = model::neg(child.score);
            QuietProgress {
                alpha: model::higher(progress.alpha, score),
                best: model::higher(progress.best, score),
                nodes: child.nodes,
                state: child.state,
                clock_due: progress.clock_due || child.clock_due,
            }
        };
        lemma_quiet_clock_stays_due(
            evaluator,
            p,
            stand_pat,
            beta,
            ply,
            start_ply,
            path,
            evading,
            moves,
            index + 1,
            next,
        );
    }
}

/// Searches the moves of a quiescence node in order, until one of them reaches
/// beta, skipping those that pruning rules out.
fn search_noisy_moves<E: Evaluator>(
    position: &mut Position,
    stand_pat: Score,
    start_alpha: Score,
    start_best: Score,
    beta: Score,
    ply: u32,
    start_ply: u32,
    evaluator: &E,
    nodes: &mut u64,
    deadline: &Deadline,
    looks: &mut Looks,
    path: &mut Vec<u64>,
    state: &mut SearchState,
    must_evade_check: bool,
    moves: &Vec<Move>,
) -> (outcome: Option<Score>)
    requires
        old(state)@.table.wf(),
        old(looks).kept(),
        all_playable(old(position)@, moves@),
        model::quiet_depth(ply, start_ply) < MAX_QUIESCENCE_PLY,
    ensures
        final(position)@ == old(position)@,
        final(path)@ == old(path)@,
        final(state)@.table.wf(),
        !deadline.can_expire() ==> outcome is Some,
        ({
            let expected = model::quiet_moves(
                *evaluator,
                old(position)@,
                stand_pat,
                beta,
                ply,
                start_ply,
                old(path)@,
                must_evade_check,
                moves@,
                0,
                QuietProgress {
                    alpha: start_alpha,
                    best: start_best,
                    nodes: *old(nodes),
                    state: old(state)@,
                    clock_due: false,
                },
            );
            &&& deadline.may_end(outcome is Some, expected.clock_due)
            &&& outcome matches Some(score) ==> {
                &&& score == expected.best
                &&& *final(nodes) == expected.nodes
                &&& final(state)@ == expected.state
            }
        }),
        final(looks).kept(),
        looks::watched(
            old(looks).notes(),
            final(looks).notes(),
            *deadline,
            *old(nodes),
            *final(nodes),
            outcome is Some,
        ),
    decreases (MAX_QUIESCENCE_PLY - model::quiet_depth(ply, start_ply)) as nat, 0nat,
{
    let ghost p = position@;
    let ghost line = path@;
    let mut alpha: Score = start_alpha;
    let mut best: Score = start_best;
    let ghost whole = model::quiet_moves(
        *evaluator,
        p,
        stand_pat,
        beta,
        ply,
        start_ply,
        line,
        must_evade_check,
        moves@,
        0,
        QuietProgress {
            alpha: start_alpha,
            best: start_best,
            nodes: *nodes,
            state: state@,
            clock_due: false,
        },
    );
    let ghost mut due = false;
    let ghost start = looks.notes();
    let ghost from = *nodes;
    proof {
        looks::lemma_watched_nothing(start, *deadline, from);
    }
    let mut index: usize = 0;
    while index < moves.len()
        invariant
            index <= moves.len(),
            position@ == p,
            path@ == line,
            p == old(position)@,
            line == old(path)@,
            state@.table.wf(),
            all_playable(p, moves@),
            model::quiet_depth(ply, start_ply) < MAX_QUIESCENCE_PLY,
            whole == model::quiet_moves(
                *evaluator,
                p,
                stand_pat,
                beta,
                ply,
                start_ply,
                line,
                must_evade_check,
                moves@,
                0,
                QuietProgress {
                    alpha: start_alpha,
                    best: start_best,
                    nodes: *old(nodes),
                    state: old(state)@,
                    clock_due: false,
                },
            ),
            whole == model::quiet_moves(
                *evaluator,
                p,
                stand_pat,
                beta,
                ply,
                start_ply,
                line,
                must_evade_check,
                moves@,
                index as nat,
                QuietProgress { alpha, best, nodes: *nodes, state: state@, clock_due: due },
            ),
            deadline.has_no_time() ==> !due,
            start == old(looks).notes(),
            from == *old(nodes),
            looks.kept(),
            looks::watched(start, looks.notes(), *deadline, from, *nodes, true),
        decreases moves.len() - index,
    {
        let mv = moves[index];
        if should_delta_prune(position, mv, stand_pat, alpha, must_evade_check, state) {
            index += 1;
            continue;
        }
        if should_see_prune(position, mv, must_evade_check, state) {
            index += 1;
            continue;
        }
        proof {
            crate::chess::make_unmake::unmake_restores(p, mv);
        }
        let undo = position.make_move(mv);
        path.push(position.zobrist_hash());
        assert(path@.drop_last() =~= line);
        let ghost child = model::quiet_node(
            *evaluator,
            position@,
            model::neg(beta),
            model::neg(alpha),
            ply.wrapping_add(1),
            start_ply,
            *nodes,
            state@,
            path@,
        );
        proof {
            let score = model::neg(child.score);
            lemma_quiet_clock_stays_due(
                *evaluator,
                p,
                stand_pat,
                beta,
                ply,
                start_ply,
                line,
                must_evade_check,
                moves@,
                index as nat + 1,
                QuietProgress {
                    alpha: model::higher(alpha, score),
                    best: model::higher(best, score),
                    nodes: child.nodes,
                    state: child.state,
                    clock_due: due || child.clock_due,
                },
            );
            due = due || child.clock_due;
        }
        let ghost seen = looks.notes();
        let ghost visited = *nodes;
        let outcome = watched_quiescence(
            position,
            negate(beta),
            negate(alpha),
            ply.wrapping_add(1),
            start_ply,
            evaluator,
            nodes,
            deadline,
            looks,
            path,
            state,
        );
        path.pop();
        position.unmake_move(mv, undo);
        proof {
            looks::lemma_watched_on(
                start,
                seen,
                looks.notes(),
                *deadline,
                from,
                visited,
                *nodes,
                outcome is Some,
            );
        }
        match outcome {
            None => {
                return None;
            },
            Some(child_score) => {
                let score: Score = negate(child_score);
                best = max_score(best, score);
                alpha = max_score(alpha, score);
                if alpha >= beta {
                    // Beta cutoff, same reasoning as negamax's.
                    return Some(best);
                }
            },
        }
        index += 1;
    }
    Some(best)
}

/// Whether a capture is skipped because even winning what it captures, and a
/// margin on top, would leave the score below alpha. Not applied in check, to
/// promotions, with mate scores in play, or once the major pieces are gone.
pub fn should_delta_prune(
    position: &Position,
    mv: Move,
    stand_pat: Score,
    alpha: Score,
    must_evade_check: bool,
    state: &mut SearchState,
) -> (prune: bool)
    ensures
        prune == model::delta_prunes(
            position@,
            mv,
            stand_pat,
            alpha,
            must_evade_check,
            old(state)@,
        ),
        final(state)@ == model::delta_counted(
            position@,
            mv,
            stand_pat,
            alpha,
            must_evade_check,
            old(state)@,
        ),
{
    if !state.options.use_delta_pruning || must_evade_check || !exchange::is_capture(position, mv)
        || mv.flag().promotion_kind().is_some() || alpha >= MATE_THRESHOLD || alpha
        <= -MATE_THRESHOLD || !exchange::has_major_material(position) {
        return false;
    }
    state.delta_pruning.attempts = state.delta_pruning.attempts.wrapping_add(1);
    let captured: i32 = exchange::captured_value(position, mv);
    let reachable: Score = add_clamped(add_clamped(stand_pat, captured), DELTA_MARGIN);
    let prune = reachable < alpha;
    if prune {
        state.delta_pruning.pruned = state.delta_pruning.pruned.wrapping_add(1);
    }
    assert(state@ =~= model::delta_counted(
        position@,
        mv,
        stand_pat,
        alpha,
        must_evade_check,
        old(state)@,
    ));
    prune
}

/// Whether a capture can be skipped in quiescence
/// because SEE judges it a clear material loss. Unlike delta pruning
/// (a margin-based heuristic bounding the *best case* a capture could
/// possibly reach), this is exact: if the full simulated exchange on
/// the destination square nets negative material, no positional
/// compensation quiescence itself could ever discover changes that.
/// Not applied while in check or to promotions.
pub fn should_see_prune(
    position: &Position,
    mv: Move,
    must_evade_check: bool,
    state: &mut SearchState,
) -> (prune: bool)
    ensures
        prune == model::see_prunes(position@, mv, must_evade_check, old(state)@),
        final(state)@ == model::see_counted(position@, mv, must_evade_check, old(state)@),
{
    if !state.options.use_see || must_evade_check || !exchange::is_capture(position, mv)
        || mv.flag().promotion_kind().is_some() {
        return false;
    }
    state.see_pruning.attempts = state.see_pruning.attempts.wrapping_add(1);
    let prune = exchange::static_exchange_evaluation(position, mv) < 0;
    if prune {
        state.see_pruning.pruned = state.see_pruning.pruned.wrapping_add(1);
    }
    assert(state@ =~= model::see_counted(position@, mv, must_evade_check, old(state)@));
    prune
}

} // verus!
