//! Search contracts: limits, info, results, and the `Search` trait.
//!
//! These types are the shared vocabulary between the UCI adapter and the
//! search implementation. The search algorithm is alpha-beta/PVS, with
//! time-bounded iterative deepening, quiescence, move ordering, a
//! transposition table, and rule-draw handling; see `search::alpha_beta`.

use crate::chess::moves::Move;
use crate::chess::position::Position;
use vstd::prelude::*;

pub mod alpha_beta;
pub mod budget_laws;
pub mod clock_laws;
pub mod counting_laws;
pub mod deadline;
pub mod deepening_laws;
pub mod double;
pub mod eviction_laws;
pub mod exchange;
pub mod exchange_laws;
pub mod iterative;
pub mod laws;
pub mod line_laws;
pub mod looks;
pub mod model;
pub mod ordering;
pub mod ordering_laws;
pub mod pruning_laws;
pub mod quiet_laws;
pub mod reports;
pub mod score_laws;
pub mod state;
pub mod table_laws;
pub mod time_manager;
pub mod telemetry_laws;
pub mod tt;

pub use deadline::{Deadline, StopSignal};
pub use iterative::{
    search, search_iterative, search_iterative_with_budget, search_iterative_with_history,
    search_iterative_with_options, search_iterative_with_stop, search_with_history,
    search_with_options, MAX_ITERATIVE_DEPTH,
};
pub use time_manager::{
    allocate_time, nodes_per_second, ClockTimeControl, TimeBudget, TimeManagementTelemetry,
    TimeManagerConfig, BEE_TM_VERSION, DEFAULT_MOVE_OVERHEAD_MS,
};
pub use tt::{TranspositionTable, TtReuse};

verus! {

/// Toggles for experimental search features, exposed to UCI as
/// `setoption`s so that one feature at a time can be compared on and off.
/// Every field defaults to `true` (search's normal, strongest
/// configuration); turning one off is always a deliberate experiment,
/// never the baseline.
#[derive(Debug, Clone, Copy, PartialEq, Eq, Structural)]
pub struct SearchOptions {
    /// Whether to probe/store the transposition table. Disabling this
    /// does not change search *correctness*, only its speed/ordering
    /// quality.
    pub use_tt: bool,
    /// Whether `depth == 0` drops into quiescence (captures/promotions/
    /// evasions until the position is quiet) or evaluates the position
    /// directly. Disabling this reintroduces the horizon effect
    /// quiescence exists to fix.
    pub use_quiescence: bool,
    /// Whether quiescence also searches promotions, and every evasion when
    /// in check, rather than captures alone.
    pub use_enhanced_quiescence: bool,
    /// Whether late quiet moves are first searched one ply less deep.
    pub use_lmr: bool,
    /// Whether passing the turn is tried as a cheap test for a cutoff.
    pub use_null_move: bool,
    /// Whether the null-move reduction grows with depth.
    pub use_adaptive_null_move: bool,
    /// Whether quiescence skips captures that cannot reach alpha.
    pub use_delta_pruning: bool,
    /// Whether static exchange evaluation orders and prunes captures.
    pub use_see: bool,
}

impl SearchOptions {
    /// Every feature on.
    pub open spec fn everything() -> SearchOptions {
        SearchOptions {
            use_tt: true,
            use_quiescence: true,
            use_enhanced_quiescence: true,
            use_lmr: true,
            use_null_move: true,
            use_adaptive_null_move: true,
            use_delta_pruning: true,
            use_see: true,
        }
    }
}

impl Default for SearchOptions {
    fn default() -> (options: SearchOptions)
        ensures
            options == SearchOptions::everything(),
    {
        SearchOptions {
            use_tt: true,
            use_quiescence: true,
            use_enhanced_quiescence: true,
            use_lmr: true,
            use_null_move: true,
            use_adaptive_null_move: true,
            use_delta_pruning: true,
            use_see: true,
        }
    }
}

/// A search score in centipawns, always from the perspective of the
/// side to move at the point the score was produced (i.e. what
/// negamax works with throughout). Plain `i32` rather than an enum:
/// negamax's negation and ply-adjusted mate arithmetic
/// (`-SCORE_MATE + ply`) both need to compose as ordinary integer
/// arithmetic.
///
/// Mate scores are encoded in the same space, offset far enough from
/// ordinary evaluations (see `SCORE_MATE`) that they never collide:
/// a score `s` with `SCORE_MATE - 1000 <= |s| <= SCORE_MATE`
/// represents a forced mate (see `mate_in_plies`).
pub type Score = i32;

/// Larger than any real evaluation or mate score; used as the initial
/// alpha-beta window bound.
pub const SCORE_INF: Score = 32_000;

/// The score for "checkmate delivered right now" (ply 0). An actual
/// mate found N plies from the root is reported as `SCORE_MATE - N`
/// (for the winning side) so that a shorter forced mate always scores
/// higher than a longer one -- search prefers `mate in 2` over `mate
/// in 6`, and delays being mated for as long as possible when losing.
pub const SCORE_MATE: Score = 30_000;

/// The smallest score that stands for a forced mate.
pub const MATE_THRESHOLD: Score = 29_000;

/// The number of plies to mate that a score stands for, if it stands for a
/// mate: positive when delivering it, negative when being mated.
pub open spec fn mate_distance(score: int) -> Option<int> {
    if score >= MATE_THRESHOLD {
        Some(SCORE_MATE - score)
    } else if score <= -MATE_THRESHOLD {
        Some(-(SCORE_MATE + score))
    } else {
        None
    }
}

/// If `score` is within mate range (see `SCORE_MATE`'s docs), returns
/// the number of plies to mate: positive if the side the score is
/// reported for is delivering it, negative if they're being mated.
/// Returns `None` for an ordinary (non-mate) evaluation.
#[must_use]
pub fn mate_in_plies(score: Score) -> (plies: Option<i32>)
    ensures
        match plies {
            Some(n) => mate_distance(score as int) == Some(n as int),
            None => mate_distance(score as int) is None,
        },
{
    if score >= MATE_THRESHOLD {
        Some(SCORE_MATE - score)
    } else if score <= -MATE_THRESHOLD {
        Some(-(SCORE_MATE + score))
    } else {
        None
    }
}

/// Whether a score stands for a forced mate, either way.
pub(crate) fn is_mate_score(score: Score) -> (mate: bool)
    ensures
        mate == (mate_distance(score as int) is Some),
{
    score >= MATE_THRESHOLD || score <= -MATE_THRESHOLD
}

/// How often late-move reductions were tried, and how often the reduced
/// result had to be verified at full depth. Counted modulo 2^64.
#[derive(Debug, Clone, Copy, PartialEq, Eq, Structural)]
pub struct LmrStats {
    pub attempts: u64,
    pub researches: u64,
}

/// How often a null move was tried, and how often it caused a cutoff.
/// Counted modulo 2^64.
#[derive(Debug, Clone, Copy, PartialEq, Eq, Structural)]
pub struct NullMoveStats {
    pub attempts: u64,
    pub cutoffs: u64,
}

/// How often delta pruning was considered, and how often it pruned.
/// Counted modulo 2^64.
#[derive(Debug, Clone, Copy, PartialEq, Eq, Structural)]
pub struct DeltaPruningStats {
    pub attempts: u64,
    pub pruned: u64,
}

/// How often exchange pruning was considered, and how often it pruned.
/// Counted modulo 2^64.
#[derive(Debug, Clone, Copy, PartialEq, Eq, Structural)]
pub struct SeeStats {
    pub attempts: u64,
    pub pruned: u64,
}

impl Default for LmrStats {
    fn default() -> (stats: LmrStats)
        ensures
            stats == (LmrStats { attempts: 0, researches: 0 }),
    {
        LmrStats { attempts: 0, researches: 0 }
    }
}

impl Default for NullMoveStats {
    fn default() -> (stats: NullMoveStats)
        ensures
            stats == (NullMoveStats { attempts: 0, cutoffs: 0 }),
    {
        NullMoveStats { attempts: 0, cutoffs: 0 }
    }
}

impl Default for DeltaPruningStats {
    fn default() -> (stats: DeltaPruningStats)
        ensures
            stats == (DeltaPruningStats { attempts: 0, pruned: 0 }),
    {
        DeltaPruningStats { attempts: 0, pruned: 0 }
    }
}

impl Default for SeeStats {
    fn default() -> (stats: SeeStats)
        ensures
            stats == (SeeStats { attempts: 0, pruned: 0 }),
    {
        SeeStats { attempts: 0, pruned: 0 }
    }
}

/// Search limits, mirroring the fields the UCI `go` command can carry.
/// All fields are optional/default so a `SearchLimits::default()` means
/// "no explicit limit" for that dimension.
#[derive(Debug, Clone, Copy, PartialEq, Eq, Structural)]
pub struct SearchLimits {
    pub depth: Option<u32>,
    pub nodes: Option<u64>,
    pub movetime_ms: Option<u64>,
    pub white_time_ms: Option<u64>,
    pub black_time_ms: Option<u64>,
    pub white_increment_ms: Option<u64>,
    pub black_increment_ms: Option<u64>,
    pub moves_to_go: Option<u32>,
    pub infinite: bool,
    pub ponder: bool,
}

impl SearchLimits {
    /// No limit in any dimension.
    pub open spec fn unlimited() -> SearchLimits {
        SearchLimits {
            depth: None,
            nodes: None,
            movetime_ms: None,
            white_time_ms: None,
            black_time_ms: None,
            white_increment_ms: None,
            black_increment_ms: None,
            moves_to_go: None,
            infinite: false,
            ponder: false,
        }
    }
}

impl Default for SearchLimits {
    fn default() -> (limits: SearchLimits)
        ensures
            limits == SearchLimits::unlimited(),
    {
        SearchLimits {
            depth: None,
            nodes: None,
            movetime_ms: None,
            white_time_ms: None,
            black_time_ms: None,
            white_increment_ms: None,
            black_increment_ms: None,
            moves_to_go: None,
            infinite: false,
            ponder: false,
        }
    }
}

/// A periodic progress report emitted during search, corresponding to a
/// UCI `info` line.
#[derive(Debug, Clone, Default)]
pub struct SearchInfo {
    pub depth: u32,
    pub seldepth: u32,
    pub nodes: u64,
    pub nps: u64,
    pub score: Option<Score>,
    pub pv: Vec<Move>,
}

/// The terminal result of a search, corresponding to a UCI `bestmove` line.
#[derive(Debug, Clone, Copy)]
pub struct BestMove {
    pub best_move: Move,
    pub ponder: Option<Move>,
}

/// The outcome of a completed search to some depth: the move to play
/// (if any -- `None` for checkmate/stalemate at the root), the score
/// and principal variation of that line from the root side to move's
/// perspective, how many nodes were visited, the depth actually
/// completed, and what the selective features did.
#[derive(Debug)]
pub struct SearchResult {
    pub best_move: Option<Move>,
    pub score: Score,
    pub nodes: u64,
    pub depth: u32,
    pub pv: Vec<Move>,
    pub lmr: LmrStats,
    pub null_move: NullMoveStats,
    pub delta_pruning: DeltaPruningStats,
    pub see_pruning: SeeStats,
}

/// What a search result says, with the principal variation as a sequence.
pub struct SearchResultView {
    pub best_move: Option<Move>,
    pub score: Score,
    pub nodes: u64,
    pub depth: u32,
    pub pv: Seq<Move>,
    pub lmr: LmrStats,
    pub null_move: NullMoveStats,
    pub delta_pruning: DeltaPruningStats,
    pub see_pruning: SeeStats,
}

impl View for SearchResult {
    type V = SearchResultView;

    open spec fn view(&self) -> SearchResultView {
        SearchResultView {
            best_move: self.best_move,
            score: self.score,
            nodes: self.nodes,
            depth: self.depth,
            pv: self.pv@,
            lmr: self.lmr,
            null_move: self.null_move,
            delta_pruning: self.delta_pruning,
            see_pruning: self.see_pruning,
        }
    }
}

/// A copy of a list of moves.
pub(crate) fn copy_moves(moves: &Vec<Move>) -> (copy: Vec<Move>)
    ensures
        copy@ == moves@,
{
    let mut copy: Vec<Move> = Vec::new();
    let mut k: usize = 0;
    while k < moves.len()
        invariant
            k <= moves.len(),
            copy@ == moves@.take(k as int),
        decreases moves.len() - k,
    {
        assert(moves@.take(k + 1) =~= moves@.take(k as int).push(moves@[k as int]));
        copy.push(moves[k]);
        k += 1;
    }
    assert(moves@.take(k as int) =~= moves@);
    copy
}

impl Clone for SearchResult {
    fn clone(&self) -> (copy: SearchResult)
        ensures
            copy@ == self@,
    {
        SearchResult {
            best_move: self.best_move,
            score: self.score,
            nodes: self.nodes,
            depth: self.depth,
            pv: copy_moves(&self.pv),
            lmr: self.lmr,
            null_move: self.null_move,
            delta_pruning: self.delta_pruning,
            see_pruning: self.see_pruning,
        }
    }
}

/// A search algorithm. Implementations run to completion (bounded by
/// `limits` and/or external cancellation) and return exactly one
/// `BestMove`.
pub trait Search {
    fn search(&mut self, position: &Position, limits: &SearchLimits) -> BestMove;
}

/// A mate in `n` plies is taken for one, as long as any search can reach it, and
/// no advantage of up to two hundred pawns ever is.
pub proof fn mates_are_told_from_scores(plies: int, score: int)
    requires
        0 <= plies < 500,
        -20_000 <= score <= 20_000,
    ensures
        mate_distance(SCORE_MATE - plies) == Some(plies),
        mate_distance(plies - SCORE_MATE) == Some(-plies),
        -SCORE_INF < plies - SCORE_MATE,
        mate_distance(score) is None,
{
}

/// Of two mates for the same side the shorter one scores higher when it is
/// delivered, and the longer one when it is suffered.
pub proof fn shorter_mates_score_higher(a: int, b: int)
    requires
        mate_distance(a) is Some,
        mate_distance(b) is Some,
        (a > 0) == (b > 0),
    ensures
        a < b <==> mate_distance(b)->0 < mate_distance(a)->0,
{
}

/// Seen from the other side, a mate in `n` is a mate in `-n`.
pub proof fn mate_distance_changes_sign(score: int)
    ensures
        mate_distance(score) matches Some(n) ==> mate_distance(-score) == Some(-n),
        mate_distance(score) is None ==> mate_distance(-score) is None,
{
}

} // verus!
