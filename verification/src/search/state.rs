//! What a search remembers while it runs: the transposition table, killer
//! moves, move history, and counters.

use super::tt::{TableView, TranspositionTable, TtReuse, MAX_TT_ENTRIES};
use super::{
    DeltaPruningStats, LmrStats, NullMoveStats, SearchOptions, SearchResult, SearchResultView,
    SeeStats,
};
use crate::chess::moves::Move;
use crate::chess::position::{Position, PositionView};
use vstd::prelude::*;

verus! {

broadcast use {
    crate::chess::moves::lemma_move_squares,
    crate::chess::position::lemma_board_len,
};

/// The two quiet moves that last caused a cutoff at some ply, newest first.
pub type Killers = (Option<Move>, Option<Move>);

/// The working memory of one search.
pub struct SearchState {
    pub options: SearchOptions,
    pub table: TranspositionTable,
    pub killers: Vec<Killers>,
    pub history: [i32; 4096],
    pub root_best: Option<Move>,
    pub lmr: LmrStats,
    pub null_move: NullMoveStats,
    pub delta_pruning: DeltaPruningStats,
    pub see_pruning: SeeStats,
}

/// What a search's working memory holds.
#[verifier::ext_equal]
pub struct StateView {
    pub options: SearchOptions,
    pub table: TableView,
    pub killers: Seq<Killers>,
    pub history: Seq<i32>,
    pub root_best: Option<Move>,
    pub lmr: LmrStats,
    pub null_move: NullMoveStats,
    pub delta_pruning: DeltaPruningStats,
    pub see_pruning: SeeStats,
}

impl View for SearchState {
    type V = StateView;

    open spec fn view(&self) -> StateView {
        StateView {
            options: self.options,
            table: self.table@,
            killers: self.killers@,
            history: self.history@,
            root_best: self.root_best,
            lmr: self.lmr,
            null_move: self.null_move,
            delta_pruning: self.delta_pruning,
            see_pruning: self.see_pruning,
        }
    }
}

/// Where the history of a move is kept.
pub open spec fn history_slot(mv: Move) -> int {
    mv.src() * 64 + mv.dst()
}

/// The sum of two numbers, kept within the range of an `i32`.
pub open spec fn clamped(n: int) -> i32 {
    if n > i32::MAX {
        i32::MAX
    } else if n < i32::MIN {
        i32::MIN
    } else {
        n as i32
    }
}

/// What a cutoff at so many plies of remaining depth adds to a move's history.
pub open spec fn cutoff_bonus(depth: u32) -> int {
    if depth * depth > i32::MAX {
        i32::MAX as int
    } else {
        depth * depth
    }
}

/// The list extended by empty entries to at least `n`.
pub open spec fn padded(killers: Seq<Killers>, n: nat) -> Seq<Killers> {
    if killers.len() >= n {
        killers
    } else {
        killers + Seq::new((n - killers.len()) as nat, |i: int| (None, None))
    }
}

impl StateView {
    /// The working memory of a new search.
    pub open spec fn fresh(options: SearchOptions) -> StateView {
        StateView {
            options,
            table: TableView::fresh(TtReuse::PerSearch, MAX_TT_ENTRIES as nat),
            killers: Seq::empty(),
            history: Seq::new(4096, |i: int| 0i32),
            root_best: None,
            lmr: LmrStats { attempts: 0, researches: 0 },
            null_move: NullMoveStats { attempts: 0, cutoffs: 0 },
            delta_pruning: DeltaPruningStats { attempts: 0, pruned: 0 },
            see_pruning: SeeStats { attempts: 0, pruned: 0 },
        }
    }

    /// The same with all counters at zero.
    pub open spec fn counters_reset(self) -> StateView {
        StateView {
            lmr: LmrStats { attempts: 0, researches: 0 },
            null_move: NullMoveStats { attempts: 0, cutoffs: 0 },
            delta_pruning: DeltaPruningStats { attempts: 0, pruned: 0 },
            see_pruning: SeeStats { attempts: 0, pruned: 0 },
            ..self
        }
    }

    /// Whether `mv` is one of the two killer moves at `ply`.
    pub open spec fn is_killer(self, ply: int, mv: Move) -> bool {
        ply < self.killers.len() && (self.killers[ply].0 == Some(mv) || self.killers[ply].1 == Some(
            mv,
        ))
    }

    /// What is remembered of a quiet move that caused a cutoff: it becomes the
    /// newest killer of its ply, and its history grows. Captures and
    /// promotions are not remembered.
    pub open spec fn after_cutoff(self, p: PositionView, mv: Move, ply: int, depth: u32) -> StateView {
        if p.captures(mv) || mv.kind().promotes_to() is Some {
            self
        } else {
            let all = padded(self.killers, (ply + 1) as nat);
            let pair = all[ply];
            StateView {
                killers: if pair.0 == Some(mv) {
                    all
                } else {
                    all.update(ply, (Some(mv), pair.0))
                },
                history: self.history.update(
                    history_slot(mv),
                    clamped(self.history[history_slot(mv)] + cutoff_bonus(depth)),
                ),
                ..self
            }
        }
    }

    /// A result with the counters as they are now.
    pub open spec fn report(
        self,
        best_move: Option<Move>,
        score: super::Score,
        nodes: u64,
        depth: u32,
        pv: Seq<Move>,
    ) -> SearchResultView {
        SearchResultView {
            best_move,
            score,
            nodes,
            depth,
            pv,
            lmr: self.lmr,
            null_move: self.null_move,
            delta_pruning: self.delta_pruning,
            see_pruning: self.see_pruning,
        }
    }
}

/// The sum of two numbers, kept within the range of an `i32`.
pub(crate) fn add_clamped(a: i32, b: i32) -> (sum: i32)
    ensures
        sum == clamped(a + b),
{
    let exact: i64 = a as i64 + b as i64;
    if exact > i32::MAX as i64 {
        i32::MAX
    } else if exact < i32::MIN as i64 {
        i32::MIN
    } else {
        exact as i32
    }
}

/// Where the history of a move is kept.
pub(crate) fn history_index(mv: Move) -> (index: usize)
    ensures
        index == history_slot(mv),
        index < 4096,
{
    mv.from().index() as usize * 64 + mv.to().index() as usize
}

/// Whether an optional move is this one.
pub(crate) fn is_move(candidate: Option<Move>, mv: Move) -> (same: bool)
    ensures
        same == (candidate == Some(mv)),
{
    match candidate {
        Some(other) => other == mv,
        None => false,
    }
}

impl SearchState {
    /// The working memory of a new search.
    pub fn new(options: SearchOptions) -> (state: SearchState)
        ensures
            state@ == StateView::fresh(options),
            state@.table.wf(),
    {
        let state = SearchState {
            options,
            table: TranspositionTable::default(),
            killers: Vec::new(),
            history: [0i32;4096],
            root_best: None,
            lmr: LmrStats::default(),
            null_move: NullMoveStats::default(),
            delta_pruning: DeltaPruningStats::default(),
            see_pruning: SeeStats::default(),
        };
        assert(state@.history =~= StateView::fresh(options).history);
        assert(state@.killers =~= StateView::fresh(options).killers);
        state
    }

    /// Sets all counters to zero.
    pub(crate) fn reset_counters(&mut self)
        ensures
            final(self)@ == old(self)@.counters_reset(),
    {
        self.lmr = LmrStats::default();
        self.null_move = NullMoveStats::default();
        self.delta_pruning = DeltaPruningStats::default();
        self.see_pruning = SeeStats::default();
    }

    /// Whether `mv` is one of the two killer moves at `ply`.
    pub(crate) fn is_killer(&self, ply: u32, mv: Move) -> (killer: bool)
        ensures
            killer == self@.is_killer(ply as int, mv),
    {
        let index: usize = ply as usize;
        if index < self.killers.len() {
            let (newest, older) = self.killers[index];
            is_move(newest, mv) || is_move(older, mv)
        } else {
            false
        }
    }

    /// A result with the counters as they are now.
    pub(crate) fn report(
        &self,
        best_move: Option<Move>,
        score: super::Score,
        nodes: u64,
        depth: u32,
        pv: Vec<Move>,
    ) -> (result: SearchResult)
        ensures
            result@ == self@.report(best_move, score, nodes, depth, pv@),
    {
        SearchResult {
            best_move,
            score,
            nodes,
            depth,
            pv,
            lmr: self.lmr,
            null_move: self.null_move,
            delta_pruning: self.delta_pruning,
            see_pruning: self.see_pruning,
        }
    }
}

impl Default for SearchState {
    fn default() -> (state: SearchState)
        ensures
            state@ == StateView::fresh(SearchOptions::everything()),
            state@.table.wf(),
    {
        SearchState::new(SearchOptions::default())
    }
}

/// Remembers a quiet move that caused a cutoff.
pub fn record_cutoff(position: &Position, state: &mut SearchState, mv: Move, ply: u32, depth: u32)
    ensures
        final(state)@ == old(state)@.after_cutoff(position@, mv, ply as int, depth),
{
    if super::exchange::is_capture(position, mv) || mv.flag().promotion_kind().is_some() {
        return;
    }
    let index: usize = ply as usize;
    let ghost before = state@;
    while state.killers.len() <= index
        invariant
            index == ply,
            before.killers.len() <= state@.killers.len(),
            state@.killers.len() <= index + 1 || state@.killers == before.killers,
            state@.killers == padded(before.killers, state@.killers.len()),
            state@ == (StateView { killers: state@.killers, ..before }),
        decreases index + 1 - state@.killers.len(),
    {
        let ghost len = state@.killers.len();
        state.killers.push((None, None));
        assert(state@.killers =~= padded(before.killers, len + 1));
    }
    assert(state@.killers =~= padded(before.killers, (ply + 1) as nat));
    let (newest, _) = state.killers[index];
    if !is_move(newest, mv) {
        state.killers.set(index, (Some(mv), newest));
    }
    assert(depth * depth <= u64::MAX) by (nonlinear_arith)
        requires
            0 <= depth <= u32::MAX,
    ;
    let square: u64 = depth as u64 * depth as u64;
    let bonus: i32 = if square > i32::MAX as u64 {
        i32::MAX
    } else {
        square as i32
    };
    let slot: usize = history_index(mv);
    state.history[slot] = add_clamped(state.history[slot], bonus);
    proof {
        assert(state@ =~= before.after_cutoff(position@, mv, ply as int, depth));
    }
}

} // verus!
