//! What the search computes, as mathematical functions.
//!
//! The search is a deterministic function of the position, the hashes that
//! led to it, the evaluator, the window and the working memory it starts
//! from; only whether it is allowed to finish depends on the clock. These
//! functions say what it finds when it finishes.
//!
//! Scores are 32-bit numbers and counters 64-bit numbers; both wrap around at
//! the ends of their range.

use super::state::StateView;
use super::tt::{Bound, TtEntry, TtKey};
use super::{
    DeltaPruningStats, LmrStats, NullMoveStats, Score, SearchResultView, SeeStats, MATE_THRESHOLD,
    SCORE_INF, SCORE_MATE,
};
use crate::chess::moves::Move;
use crate::chess::position::PositionView;
use crate::eval::Evaluator;
use vstd::prelude::*;

verus! {

/// How many plies of captures quiescence searches at most.
pub const MAX_QUIESCENCE_PLY: u32 = 4;

/// How far below alpha a capture may leave the score and still be searched.
pub const DELTA_MARGIN: Score = 200;

/// A score seen from the other side.
pub open spec fn neg(score: Score) -> Score {
    0i32.wrapping_sub(score)
}

/// The larger of two scores.
pub open spec fn higher(a: Score, b: Score) -> Score {
    if a >= b {
        a
    } else {
        b
    }
}

/// The smaller of two scores.
pub open spec fn lower_of(a: Score, b: Score) -> Score {
    if a <= b {
        a
    } else {
        b
    }
}

/// How often `hash` occurs in the first `n` entries of `path`.
pub open spec fn occurrences(path: Seq<u64>, hash: u64, n: nat) -> nat
    decreases n,
{
    if n == 0 {
        0
    } else {
        occurrences(path, hash, (n - 1) as nat) + (if path[n - 1] == hash {
            1nat
        } else {
            0
        })
    }
}

/// How often `hash` occurs in `path`, up to 255.
pub open spec fn repetitions(path: Seq<u64>, hash: u64) -> u8 {
    let n = occurrences(path, hash, path.len());
    if n > 255 {
        255
    } else {
        n as u8
    }
}

/// Whether the game can be claimed a draw: fifty moves without a capture or
/// pawn move, or the third occurrence of the position.
pub open spec fn rule_draw(p: PositionView, path: Seq<u64>) -> bool {
    p.half >= 100 || repetitions(path, p.hash()) >= 3
}

/// The score of a position without legal moves: mated, or stalemate.
pub open spec fn terminal_value(p: PositionView, ply: u32) -> Score {
    if p.checked(p.side) {
        ((-SCORE_MATE) as i32).wrapping_add(ply as i32)
    } else {
        0
    }
}

/// The history of hashes with the current position at its end.
pub open spec fn with_current(p: PositionView, history: Seq<u64>) -> Seq<u64> {
    if history.len() > 0 && history.last() == p.hash() {
        history
    } else {
        history.push(p.hash())
    }
}

/// A score as the table keeps it: mate distances count from the position itself.
pub open spec fn to_table(score: Score, ply: u32) -> Score {
    if score >= MATE_THRESHOLD {
        score.wrapping_add(ply as i32)
    } else if score <= -MATE_THRESHOLD {
        score.wrapping_sub(ply as i32)
    } else {
        score
    }
}

/// A score from the table, with mate distances counted from the root again.
pub open spec fn from_table(score: Score, ply: u32) -> Score {
    if score >= MATE_THRESHOLD {
        score.wrapping_sub(ply as i32)
    } else if score <= -MATE_THRESHOLD {
        score.wrapping_add(ply as i32)
    } else {
        score
    }
}

/// What identifies a node to the table.
pub open spec fn node_key(p: PositionView, path: Seq<u64>) -> TtKey {
    (p.hash(), p.half, repetitions(path, p.hash()))
}

/// What looking a node up in the table leads to: a result, or a move to try
/// first and a narrower window.
pub struct Probe {
    pub state: StateView,
    pub tt_move: Option<Move>,
    pub alpha: Score,
    pub beta: Score,
    pub found: Option<(Score, Seq<Move>)>,
}

/// A list of one move, or of none.
pub open spec fn one_move(mv: Option<Move>) -> Seq<Move> {
    match mv {
        Some(m) => seq![m],
        None => Seq::empty(),
    }
}

/// Uses a table entry: only one that was searched deeply enough says anything
/// about the score.
pub open spec fn use_entry(
    state: StateView,
    entry: TtEntry,
    depth: u32,
    alpha: Score,
    beta: Score,
    ply: u32,
) -> Probe {
    let tt_move = entry.best_move;
    if entry.depth < depth {
        Probe { state, tt_move, alpha, beta, found: None }
    } else {
        let score = from_table(entry.score, ply);
        match entry.bound {
            Bound::Exact => Probe {
                state,
                tt_move,
                alpha,
                beta,
                found: Some((score, one_move(entry.best_move))),
            },
            Bound::Lower => {
                let raised = higher(alpha, score);
                Probe {
                    state,
                    tt_move,
                    alpha: raised,
                    beta,
                    found: if raised >= beta {
                        Some((score, Seq::empty()))
                    } else {
                        None
                    },
                }
            },
            Bound::Upper => {
                let lowered = lower_of(beta, score);
                Probe {
                    state,
                    tt_move,
                    alpha,
                    beta: lowered,
                    found: if alpha >= lowered {
                        Some((score, Seq::empty()))
                    } else {
                        None
                    },
                }
            },
        }
    }
}

/// Looks a node up in the table, if the table is used at all.
pub open spec fn probe_node(
    p: PositionView,
    depth: u32,
    alpha: Score,
    beta: Score,
    ply: u32,
    state: StateView,
    path: Seq<u64>,
) -> Probe {
    if state.options.use_tt {
        let key = node_key(p, path);
        let after = StateView { table: state.table.probed(key), ..state };
        match state.table.found(key) {
            Some(entry) => use_entry(after, entry, depth, alpha, beta, ply),
            None => Probe { state: after, tt_move: None, alpha, beta, found: None },
        }
    } else {
        Probe { state, tt_move: None, alpha, beta, found: None }
    }
}

/// What a search of one node finds.
pub struct Outcome {
    pub score: Score,
    pub pv: Seq<Move>,
    pub nodes: u64,
    pub state: StateView,
    /// Whether a look at the clock fell due.
    pub clock_due: bool,
}

/// How much shallower the search after a null move is.
pub open spec fn null_reduction(depth: u32, adaptive: bool) -> u32 {
    if adaptive && depth >= 7 {
        3
    } else {
        2
    }
}

/// Whether passing the turn is tried.
pub open spec fn tries_null(
    p: PositionView,
    depth: u32,
    beta: Score,
    state: StateView,
    allow_null: bool,
) -> bool {
    state.options.use_null_move && allow_null && depth >= null_reduction(
        depth,
        state.options.use_adaptive_null_move,
    ) + 2 && !p.checked(p.side) && -MATE_THRESHOLD < beta && beta < MATE_THRESHOLD && p.has_pieces(
        p.side,
    )
}

/// The result of trying to pass the turn: a score that cuts the node off, or
/// none.
pub struct NullTry {
    pub cutoff: Option<Score>,
    pub nodes: u64,
    pub state: StateView,
    /// Whether a look at the clock fell due.
    pub clock_due: bool,
}

/// The state with one more null move counted.
pub open spec fn null_attempted(state: StateView) -> StateView {
    StateView {
        null_move: NullMoveStats {
            attempts: state.null_move.attempts.wrapping_add(1),
            ..state.null_move
        },
        ..state
    }
}

/// The state with one more null-move cutoff counted.
pub open spec fn null_cut(state: StateView) -> StateView {
    StateView {
        null_move: NullMoveStats {
            cutoffs: state.null_move.cutoffs.wrapping_add(1),
            ..state.null_move
        },
        ..state
    }
}

/// The state with one more late-move reduction counted.
pub open spec fn lmr_attempted(state: StateView) -> StateView {
    StateView {
        lmr: LmrStats { attempts: state.lmr.attempts.wrapping_add(1), ..state.lmr },
        ..state
    }
}

/// The state with one more verification of a reduction counted.
pub open spec fn lmr_researched(state: StateView) -> StateView {
    StateView {
        lmr: LmrStats { researches: state.lmr.researches.wrapping_add(1), ..state.lmr },
        ..state
    }
}

/// Whether a move is neither a capture nor a promotion.
pub open spec fn is_quiet(p: PositionView, mv: Move) -> bool {
    !p.captures(mv) && mv.kind().promotes_to() is None
}

/// Whether the `index`-th move of a node is first searched one ply less deep.
pub open spec fn reduces(
    p: PositionView,
    depth: u32,
    ply: u32,
    state: StateView,
    mv: Move,
    index: int,
) -> bool {
    state.options.use_lmr && depth >= 3 && index >= 4 && is_quiet(p, mv) && !state.is_killer(
        ply as int,
        mv,
    ) && !p.checked(p.side) && !p.made(mv).checked(p.side.other())
}

/// How far the moves of a node have been searched.
pub struct Progress {
    pub alpha: Score,
    pub best: Score,
    pub best_move: Option<Move>,
    pub pv: Seq<Move>,
    pub nodes: u64,
    pub state: StateView,
    /// Whether a look at the clock fell due.
    pub clock_due: bool,
}

/// The progress after one more move with the given outcome.
pub open spec fn advanced(progress: Progress, mv: Move, child: Outcome) -> Progress {
    let score = neg(child.score);
    let better = score > progress.best;
    Progress {
        alpha: higher(progress.alpha, score),
        best: if better {
            score
        } else {
            progress.best
        },
        best_move: if better {
            Some(mv)
        } else {
            progress.best_move
        },
        pv: if better {
            child.pv.insert(0, mv)
        } else {
            progress.pv
        },
        nodes: child.nodes,
        state: child.state,
        clock_due: progress.clock_due || child.clock_due,
    }
}

/// How the best score of a node relates to its value, given the window it was
/// searched with.
pub open spec fn bound_of(best: Score, alpha: Score, beta: Score) -> Bound {
    if best <= alpha {
        Bound::Upper
    } else if best >= beta {
        Bound::Lower
    } else {
        Bound::Exact
    }
}

/// The state after a searched node has been put into the table.
pub open spec fn remembered(
    p: PositionView,
    depth: u32,
    alpha: Score,
    beta: Score,
    ply: u32,
    path: Seq<u64>,
    progress: Progress,
) -> StateView {
    if progress.state.options.use_tt {
        let entry = TtEntry {
            depth,
            score: to_table(progress.best, ply),
            bound: bound_of(progress.best, alpha, beta),
            best_move: progress.best_move,
            history: 0,
            generation: 0,
        };
        StateView {
            table: progress.state.table.stored(node_key(p, path), entry),
            ..progress.state
        }
    } else {
        progress.state
    }
}

/// What negamax finds at a node.
pub open spec fn node<E: Evaluator>(
    evaluator: E,
    p: PositionView,
    depth: u32,
    alpha: Score,
    beta: Score,
    ply: u32,
    nodes: u64,
    state: StateView,
    path: Seq<u64>,
    allow_null: bool,
) -> Outcome
    decreases depth, 3nat, 0nat,
{
    let visited = nodes.wrapping_add(1);
    let due = super::deadline::is_check_boundary(nodes);
    if rule_draw(p, path) {
        Outcome { score: 0, pv: Seq::empty(), nodes: visited, state, clock_due: due }
    } else {
        let probe = probe_node(p, depth, alpha, beta, ply, state, path);
        match probe.found {
            Some((score, pv)) => Outcome {
                score,
                pv,
                nodes: visited,
                state: probe.state,
                clock_due: due,
            },
            None => {
                if p.legal_moves().len() == 0 {
                    Outcome {
                        score: terminal_value(p, ply),
                        pv: Seq::empty(),
                        nodes: visited,
                        state: probe.state,
                        clock_due: due,
                    }
                } else if depth == 0 {
                    let end = leaf(
                        evaluator,
                        p,
                        probe.alpha,
                        probe.beta,
                        ply,
                        visited,
                        probe.state,
                        path,
                    );
                    Outcome { clock_due: due || end.clock_due, ..end }
                } else {
                    let passed = null_try(
                        evaluator,
                        p,
                        depth,
                        probe.beta,
                        ply,
                        visited,
                        probe.state,
                        path,
                        allow_null,
                    );
                    match passed.cutoff {
                        Some(score) => Outcome {
                            score,
                            pv: Seq::empty(),
                            nodes: passed.nodes,
                            state: passed.state,
                            clock_due: due || passed.clock_due,
                        },
                        None => {
                            let end = all_moves(
                                evaluator,
                                p,
                                depth,
                                probe.beta,
                                ply,
                                path,
                                super::ordering::ordered(
                                    p,
                                    p.legal_moves(),
                                    passed.state,
                                    ply as int,
                                    probe.tt_move,
                                ),
                                0,
                                Progress {
                                    alpha: probe.alpha,
                                    best: (-SCORE_INF) as i32,
                                    best_move: None,
                                    pv: Seq::empty(),
                                    nodes: passed.nodes,
                                    state: passed.state,
                                    clock_due: false,
                                },
                            );
                            Outcome {
                                score: end.best,
                                pv: end.pv,
                                nodes: end.nodes,
                                state: remembered(p, depth, alpha, beta, ply, path, end),
                                clock_due: due || passed.clock_due || end.clock_due,
                            }
                        },
                    }
                }
            },
        }
    }
}

/// What a node without remaining depth is worth: its quiescence score, or the
/// evaluator's.
pub open spec fn leaf<E: Evaluator>(
    evaluator: E,
    p: PositionView,
    alpha: Score,
    beta: Score,
    ply: u32,
    nodes: u64,
    state: StateView,
    path: Seq<u64>,
) -> Outcome {
    if state.options.use_quiescence {
        let q = quiet_node(evaluator, p, alpha, beta, ply, ply, nodes, state, path);
        Outcome {
            score: q.score,
            pv: Seq::empty(),
            nodes: q.nodes,
            state: q.state,
            clock_due: q.clock_due,
        }
    } else {
        Outcome {
            score: evaluator.value(p),
            pv: Seq::empty(),
            nodes,
            state,
            clock_due: false,
        }
    }
}

/// Passes the turn, if that is to be tried, and searches with a null window.
pub open spec fn null_try<E: Evaluator>(
    evaluator: E,
    p: PositionView,
    depth: u32,
    beta: Score,
    ply: u32,
    nodes: u64,
    state: StateView,
    path: Seq<u64>,
    allow_null: bool,
) -> NullTry
    decreases depth, 2nat, 0nat,
{
    if tries_null(p, depth, beta, state, allow_null) {
        let reduction = null_reduction(depth, state.options.use_adaptive_null_move);
        let child = node(
            evaluator,
            p.passed(),
            (depth - 1 - reduction) as u32,
            neg(beta),
            neg(beta).wrapping_add(1),
            ply.wrapping_add(1),
            nodes,
            null_attempted(state),
            path,
            false,
        );
        if neg(child.score) >= beta {
            NullTry {
                cutoff: Some(neg(child.score)),
                nodes: child.nodes,
                state: null_cut(child.state),
                clock_due: child.clock_due,
            }
        } else {
            NullTry {
                cutoff: None,
                nodes: child.nodes,
                state: child.state,
                clock_due: child.clock_due,
            }
        }
    } else {
        NullTry { cutoff: None, nodes, state, clock_due: false }
    }
}

/// Searches the moves of a node from the `index`-th on, until one of them
/// reaches beta.
pub open spec fn all_moves<E: Evaluator>(
    evaluator: E,
    p: PositionView,
    depth: u32,
    beta: Score,
    ply: u32,
    path: Seq<u64>,
    moves: Seq<Move>,
    index: nat,
    progress: Progress,
) -> Progress
    decreases depth, 2nat, moves.len() - index,
{
    if index >= moves.len() || depth == 0 {
        progress
    } else {
        let mv = moves[index as int];
        let child = child_node(
            evaluator,
            p,
            depth,
            progress.alpha,
            beta,
            ply,
            path,
            mv,
            index as int,
            progress.nodes,
            progress.state,
        );
        let next = advanced(progress, mv, child);
        if next.alpha >= beta {
            Progress { state: next.state.after_cutoff(p, mv, ply as int, depth), ..next }
        } else {
            all_moves(evaluator, p, depth, beta, ply, path, moves, index + 1, next)
        }
    }
}

/// Searches one move of a node. The first move gets the full window. Later
/// ones are first shown to fail low with a null window, late quiet ones at
/// reduced depth; what does not fail low is verified.
pub open spec fn child_node<E: Evaluator>(
    evaluator: E,
    p: PositionView,
    depth: u32,
    alpha: Score,
    beta: Score,
    ply: u32,
    path: Seq<u64>,
    mv: Move,
    index: int,
    nodes: u64,
    state: StateView,
) -> Outcome
    decreases depth, 1nat, 0nat,
    when depth > 0
{
    let q = p.made(mv);
    let line = path.push(q.hash());
    let below = ply.wrapping_add(1);
    let full = (depth - 1) as u32;
    if index == 0 {
        node(evaluator, q, full, neg(beta), neg(alpha), below, nodes, state, line, true)
    } else {
        let scout = scout_node(evaluator, p, depth, alpha, ply, path, mv, index, nodes, state);
        let score = neg(scout.score);
        if score > alpha && score < beta {
            let again = node(
                evaluator,
                q,
                full,
                neg(beta),
                neg(alpha),
                below,
                scout.nodes,
                scout.state,
                line,
                true,
            );
            Outcome { clock_due: scout.clock_due || again.clock_due, ..again }
        } else {
            scout
        }
    }
}

/// The null-window search of a later move, reduced and verified if it is a
/// late quiet one.
pub open spec fn scout_node<E: Evaluator>(
    evaluator: E,
    p: PositionView,
    depth: u32,
    alpha: Score,
    ply: u32,
    path: Seq<u64>,
    mv: Move,
    index: int,
    nodes: u64,
    state: StateView,
) -> Outcome
    decreases depth, 0nat, 0nat,
    when depth > 0
{
    let q = p.made(mv);
    let line = path.push(q.hash());
    let below = ply.wrapping_add(1);
    let full = (depth - 1) as u32;
    let low = neg(alpha).wrapping_sub(1);
    let high = neg(alpha);
    if reduces(p, depth, ply, state, mv, index) {
        let reduced = node(
            evaluator,
            q,
            (depth - 2) as u32,
            low,
            high,
            below,
            nodes,
            lmr_attempted(state),
            line,
            true,
        );
        if neg(reduced.score) > alpha {
            let again = node(
                evaluator,
                q,
                full,
                low,
                high,
                below,
                reduced.nodes,
                lmr_researched(reduced.state),
                line,
                true,
            );
            Outcome { clock_due: reduced.clock_due || again.clock_due, ..again }
        } else {
            reduced
        }
    } else {
        node(evaluator, q, full, low, high, below, nodes, state, line, true)
    }
}

/// What quiescence finds.
pub struct QuietOutcome {
    pub score: Score,
    pub nodes: u64,
    pub state: StateView,
    /// Whether a look at the clock fell due.
    pub clock_due: bool,
}

/// How far the captures of a quiescence node have been searched.
pub struct QuietProgress {
    pub alpha: Score,
    pub best: Score,
    pub nodes: u64,
    pub state: StateView,
    /// Whether a look at the clock fell due.
    pub clock_due: bool,
}

/// How many plies below its entry quiescence is.
pub open spec fn quiet_depth(ply: u32, start_ply: u32) -> u32 {
    ply.wrapping_sub(start_ply)
}

/// Whether quiescence has to search every evasion of a check.
pub open spec fn evades(p: PositionView, state: StateView) -> bool {
    state.options.use_enhanced_quiescence && p.checked(p.side)
}

/// Whether quiescence searches a move: a capture, a promotion, or any evasion.
pub open spec fn is_noisy(p: PositionView, state: StateView, mv: Move) -> bool {
    evades(p, state) || p.captures(mv) || (state.options.use_enhanced_quiescence
        && mv.kind().promotes_to() is Some)
}

/// The legal moves that quiescence searches, best first.
pub open spec fn noisy_moves(p: PositionView, state: StateView) -> Seq<Move> {
    super::ordering::ordered_captures(
        p,
        p.legal_moves().filter(|mv: Move| is_noisy(p, state, mv)),
        state.options,
    )
}

/// Whether delta pruning is considered for a move.
pub open spec fn considers_delta(
    p: PositionView,
    mv: Move,
    alpha: Score,
    evading: bool,
    state: StateView,
) -> bool {
    state.options.use_delta_pruning && !evading && p.captures(mv) && mv.kind().promotes_to() is None
        && -MATE_THRESHOLD < alpha && alpha < MATE_THRESHOLD && p.has_majors()
}

/// Whether even winning what a move captures leaves the score well below alpha.
pub open spec fn hopeless(p: PositionView, mv: Move, stand_pat: Score, alpha: Score) -> bool {
    let with_capture = super::state::clamped(
        stand_pat + super::exchange::victim_value(p, mv),
    );
    super::state::clamped(with_capture + DELTA_MARGIN) < alpha
}

/// The state after considering delta pruning.
pub open spec fn delta_counted(
    p: PositionView,
    mv: Move,
    stand_pat: Score,
    alpha: Score,
    evading: bool,
    state: StateView,
) -> StateView {
    if considers_delta(p, mv, alpha, evading, state) {
        StateView {
            delta_pruning: DeltaPruningStats {
                attempts: state.delta_pruning.attempts.wrapping_add(1),
                pruned: if hopeless(p, mv, stand_pat, alpha) {
                    state.delta_pruning.pruned.wrapping_add(1)
                } else {
                    state.delta_pruning.pruned
                },
            },
            ..state
        }
    } else {
        state
    }
}

/// Whether delta pruning skips a move.
pub open spec fn delta_prunes(
    p: PositionView,
    mv: Move,
    stand_pat: Score,
    alpha: Score,
    evading: bool,
    state: StateView,
) -> bool {
    considers_delta(p, mv, alpha, evading, state) && hopeless(p, mv, stand_pat, alpha)
}

/// Whether exchange pruning is considered for a move.
pub open spec fn considers_see(p: PositionView, mv: Move, evading: bool, state: StateView) -> bool {
    state.options.use_see && !evading && p.captures(mv) && mv.kind().promotes_to() is None
}

/// Whether the exchange that a move starts loses material.
pub open spec fn loses_exchange(p: PositionView, mv: Move) -> bool {
    super::exchange::exchange_result(p, mv) < 0
}

/// The state after considering exchange pruning.
pub open spec fn see_counted(p: PositionView, mv: Move, evading: bool, state: StateView) -> StateView {
    if considers_see(p, mv, evading, state) {
        StateView {
            see_pruning: SeeStats {
                attempts: state.see_pruning.attempts.wrapping_add(1),
                pruned: if loses_exchange(p, mv) {
                    state.see_pruning.pruned.wrapping_add(1)
                } else {
                    state.see_pruning.pruned
                },
            },
            ..state
        }
    } else {
        state
    }
}

/// Whether exchange pruning skips a move.
pub open spec fn see_prunes(p: PositionView, mv: Move, evading: bool, state: StateView) -> bool {
    considers_see(p, mv, evading, state) && loses_exchange(p, mv)
}

/// What quiescence finds at a node: the side to move may stand pat, unless it
/// has to evade a check, or try to do better by a capture.
pub open spec fn quiet_node<E: Evaluator>(
    evaluator: E,
    p: PositionView,
    alpha: Score,
    beta: Score,
    ply: u32,
    start_ply: u32,
    nodes: u64,
    state: StateView,
    path: Seq<u64>,
) -> QuietOutcome
    decreases
            (if quiet_depth(ply, start_ply) < MAX_QUIESCENCE_PLY {
                (MAX_QUIESCENCE_PLY - quiet_depth(ply, start_ply)) as nat
            } else {
                0nat
            }),
            1nat,
            0nat,
{
    let visited = nodes.wrapping_add(1);
    let due = super::deadline::is_check_boundary(nodes);
    if rule_draw(p, path) {
        QuietOutcome { score: 0, nodes: visited, state, clock_due: due }
    } else if p.legal_moves().len() == 0 {
        QuietOutcome { score: terminal_value(p, ply), nodes: visited, state, clock_due: due }
    } else {
        let evading = evades(p, state);
        let stand_pat = evaluator.value(p);
        if !evading && stand_pat >= beta {
            QuietOutcome { score: stand_pat, nodes: visited, state, clock_due: due }
        } else if quiet_depth(ply, start_ply) >= MAX_QUIESCENCE_PLY {
            QuietOutcome { score: stand_pat, nodes: visited, state, clock_due: due }
        } else {
            let end = quiet_moves(
                evaluator,
                p,
                stand_pat,
                beta,
                ply,
                start_ply,
                path,
                evading,
                noisy_moves(p, state),
                0,
                QuietProgress {
                    alpha: if evading {
                        alpha
                    } else {
                        higher(alpha, stand_pat)
                    },
                    best: if evading {
                        (-SCORE_INF) as i32
                    } else {
                        stand_pat
                    },
                    nodes: visited,
                    state,
                    clock_due: false,
                },
            );
            QuietOutcome {
                score: end.best,
                nodes: end.nodes,
                state: end.state,
                clock_due: due || end.clock_due,
            }
        }
    }
}

/// Searches the moves of a quiescence node from the `index`-th on, until one
/// of them reaches beta, skipping those that pruning rules out.
pub open spec fn quiet_moves<E: Evaluator>(
    evaluator: E,
    p: PositionView,
    stand_pat: Score,
    beta: Score,
    ply: u32,
    start_ply: u32,
    path: Seq<u64>,
    evading: bool,
    moves: Seq<Move>,
    index: nat,
    progress: QuietProgress,
) -> QuietProgress
    decreases
            (if quiet_depth(ply, start_ply) < MAX_QUIESCENCE_PLY {
                (MAX_QUIESCENCE_PLY - quiet_depth(ply, start_ply)) as nat
            } else {
                0nat
            }),
            0nat,
            moves.len() - index,
{
    if index >= moves.len() || quiet_depth(ply, start_ply) >= MAX_QUIESCENCE_PLY {
        progress
    } else {
        let mv = moves[index as int];
        let counted = delta_counted(p, mv, stand_pat, progress.alpha, evading, progress.state);
        if delta_prunes(p, mv, stand_pat, progress.alpha, evading, progress.state) {
            quiet_moves(
                evaluator,
                p,
                stand_pat,
                beta,
                ply,
                start_ply,
                path,
                evading,
                moves,
                index + 1,
                QuietProgress { state: counted, ..progress },
            )
        } else if see_prunes(p, mv, evading, counted) {
            quiet_moves(
                evaluator,
                p,
                stand_pat,
                beta,
                ply,
                start_ply,
                path,
                evading,
                moves,
                index + 1,
                QuietProgress { state: see_counted(p, mv, evading, counted), ..progress },
            )
        } else {
            let q = p.made(mv);
            let child = quiet_node(
                evaluator,
                q,
                neg(beta),
                neg(progress.alpha),
                ply.wrapping_add(1),
                start_ply,
                progress.nodes,
                see_counted(p, mv, evading, counted),
                path.push(q.hash()),
            );
            let score = neg(child.score);
            let next = QuietProgress {
                alpha: higher(progress.alpha, score),
                best: higher(progress.best, score),
                nodes: child.nodes,
                state: child.state,
                clock_due: progress.clock_due || child.clock_due,
            };
            if next.alpha >= beta {
                next
            } else {
                quiet_moves(
                    evaluator,
                    p,
                    stand_pat,
                    beta,
                    ply,
                    start_ply,
                    path,
                    evading,
                    moves,
                    index + 1,
                    next,
                )
            }
        }
    }
}

/// How far the moves at the root have been searched.
pub struct RootProgress {
    pub alpha: Score,
    pub best: Score,
    pub best_move: Move,
    pub pv: Seq<Move>,
    pub nodes: u64,
    pub state: StateView,
    /// Whether a look at the clock fell due.
    pub clock_due: bool,
}

/// Searches the moves at the root from the `index`-th on. There is no cutoff
/// here: every move is compared.
#[verifier::opaque]
pub open spec fn root_moves<E: Evaluator>(
    evaluator: E,
    p: PositionView,
    depth: u32,
    path: Seq<u64>,
    moves: Seq<Move>,
    index: nat,
    progress: RootProgress,
) -> RootProgress
    decreases moves.len() - index,
{
    if index >= moves.len() {
        progress
    } else {
        let mv = moves[index as int];
        let q = p.made(mv);
        let child = node(
            evaluator,
            q,
            (depth - 1) as u32,
            neg(SCORE_INF),
            neg(progress.alpha),
            1,
            progress.nodes,
            progress.state,
            path.push(q.hash()),
            true,
        );
        let score = neg(child.score);
        let better = score > progress.best;
        let next = RootProgress {
            alpha: higher(progress.alpha, score),
            best: if better {
                score
            } else {
                progress.best
            },
            best_move: if better {
                mv
            } else {
                progress.best_move
            },
            pv: if better {
                child.pv.insert(0, mv)
            } else {
                progress.pv
            },
            nodes: child.nodes,
            state: child.state,
            clock_due: progress.clock_due || child.clock_due,
        };
        root_moves(evaluator, p, depth, path, moves, index + 1, next)
    }
}

/// A completed search and the working memory it leaves behind.
pub struct RootOutcome {
    pub result: SearchResultView,
    pub state: StateView,
    /// Whether a look at the clock fell due.
    pub clock_due: bool,
}

/// What a search of the root to `depth` plies finds.
#[verifier::opaque]
pub open spec fn root<E: Evaluator>(
    evaluator: E,
    p: PositionView,
    depth: u32,
    state: StateView,
    path: Seq<u64>,
) -> RootOutcome {
    let start = state.counters_reset();
    let moves = p.legal_moves();
    if moves.len() == 0 {
        RootOutcome {
            result: start.report(None, terminal_value(p, 0), 1, depth, Seq::empty()),
            state: start,
            clock_due: false,
        }
    } else if rule_draw(p, path) {
        RootOutcome {
            result: start.report(Some(moves[0]), 0, 1, depth, seq![moves[0]]),
            state: start,
            clock_due: false,
        }
    } else {
        let ordered = super::ordering::ordered(p, moves, start, 0, start.root_best);
        let end = root_moves(
            evaluator,
            p,
            depth,
            path,
            ordered,
            0,
            RootProgress {
                alpha: (-SCORE_INF) as i32,
                best: (-SCORE_INF) as i32,
                best_move: ordered[0],
                pv: Seq::empty(),
                nodes: 0,
                state: start,
                clock_due: false,
            },
        );
        let after = StateView { root_best: Some(end.best_move), ..end.state };
        RootOutcome {
            result: after.report(
                Some(end.best_move),
                end.best,
                end.nodes.wrapping_add(1),
                depth,
                end.pv,
            ),
            state: after,
            clock_due: end.clock_due,
        }
    }
}

/// What searching to depth 1, 2, ... and finally `depth` with one working
/// memory finds at the end.
pub open spec fn deepened<E: Evaluator>(
    evaluator: E,
    p: PositionView,
    depth: nat,
    options: super::SearchOptions,
    path: Seq<u64>,
) -> RootOutcome
    decreases depth,
{
    if depth <= 1 {
        root(evaluator, p, 1, StateView::fresh(options), path)
    } else {
        root(
            evaluator,
            p,
            depth as u32,
            deepened(evaluator, p, (depth - 1) as nat, options, path).state,
            path,
        )
    }
}

} // verus!
