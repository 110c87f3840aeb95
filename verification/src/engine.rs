//! The engine: the game so far, how it is configured, and the searches that
//! answer it.

use crate::book::{CowOpeningBook, NoBook, OpeningBook};
use crate::chess::moves::Move;
use crate::chess::piece::PieceKind;
use crate::chess::position::{Position, PositionView};
use crate::chess::square::Square;
use crate::diagnostics::{
    self, Diagnostic, DiagnosticBuffer, DiagnosticLevel, DiagnosticView, Diagnostics,
};
use crate::eval::{
    EvalOptions, Evaluator, ExperimentalEvaluator, MaterialEvaluator, PositionalEvaluator,
};
use crate::search::deadline::StopSignal;
use crate::search::iterative;
use crate::search::looks::{self, Looks, Note};
use crate::search::model;
use crate::search::time_manager::{self, ClockTimeControl, TimeManagerConfig};
use crate::search::reports::{self, Reports};
use crate::search::{
    DeltaPruningStats, LmrStats, NullMoveStats, SearchOptions, SearchResult, SearchResultView,
    SeeStats,
};
use crate::text;
use crate::time::Duration;
use vstd::prelude::*;

verus! {

broadcast use {
    crate::chess::position::lemma_board_len,
    crate::chess::square::lemma_at_idx,
};

/// A move given as `(from, to, promotion)` could not be matched against
/// any currently legal move. Carries the inputs back so the caller
/// (the UCI adapter) can report a useful error rather than just
/// silently doing nothing.
#[derive(Debug, Clone, Copy, PartialEq, Eq, Structural)]
pub struct IllegalMoveError {
    pub from: Square,
    pub to: Square,
    pub promotion: Option<PieceKind>,
}

/// Which evaluator a search uses.
#[derive(Debug, Clone, Copy, PartialEq, Eq, Structural)]
pub enum EvaluatorKind {
    Experimental,
    Material,
    Positional,
}

impl Default for EvaluatorKind {
    fn default() -> (kind: EvaluatorKind)
        ensures
            kind == EvaluatorKind::Positional,
    {
        EvaluatorKind::Positional
    }
}

impl EvaluatorKind {
    /// The name of this evaluator.
    pub open spec fn name(self) -> Seq<char> {
        match self {
            EvaluatorKind::Experimental => "Experimental"@,
            EvaluatorKind::Material => "Material"@,
            EvaluatorKind::Positional => "Positional"@,
        }
    }

    /// The evaluator that a text names, whatever the case of its letters and
    /// the white space around it.
    pub open spec fn named(value: Seq<char>) -> Option<EvaluatorKind> {
        let name = text::lowered(text::trimmed(value));
        if name == "experimental"@ {
            Some(EvaluatorKind::Experimental)
        } else if name == "material"@ {
            Some(EvaluatorKind::Material)
        } else if name == "positional"@ {
            Some(EvaluatorKind::Positional)
        } else {
            None
        }
    }

    /// What UCI calls this evaluator.
    pub fn uci_name(self) -> (name: &'static str)
        ensures
            name@ == self.name(),
    {
        match self {
            EvaluatorKind::Experimental => "Experimental",
            EvaluatorKind::Material => "Material",
            EvaluatorKind::Positional => "Positional",
        }
    }

    /// The evaluator that a text names.
    pub fn parse(value: &str) -> (kind: Option<EvaluatorKind>)
        ensures
            kind == EvaluatorKind::named(value@),
    {
        let name: Vec<char> = text::lowercase(&text::trim(&text::chars_of(value)));
        if text::chars_equal(&name, "experimental") {
            Some(EvaluatorKind::Experimental)
        } else if text::chars_equal(&name, "material") {
            Some(EvaluatorKind::Material)
        } else if text::chars_equal(&name, "positional") {
            Some(EvaluatorKind::Positional)
        } else {
            None
        }
    }
}

/// A text that neither starts nor ends with white space has none around it.
proof fn lemma_trimmed(s: Seq<char>)
    requires
        s.len() > 0,
        !text::is_space(s[0]),
        !text::is_space(s.last()),
    ensures
        text::trimmed(s) == s,
{
}

/// The name of an evaluator names that evaluator.
pub proof fn evaluator_names_round_trip(kind: EvaluatorKind)
    ensures
        EvaluatorKind::named(kind.name()) == Some(kind),
{
    reveal_strlit("Experimental");
    reveal_strlit("Material");
    reveal_strlit("Positional");
    reveal_strlit("experimental");
    reveal_strlit("material");
    reveal_strlit("positional");
    lemma_trimmed(kind.name());
    let name = text::lowered(kind.name());
    match kind {
        EvaluatorKind::Experimental => {
            assert(name =~= "experimental"@);
        },
        EvaluatorKind::Material => {
            assert(name =~= "material"@);
            assert(name.len() != "experimental"@.len());
        },
        EvaluatorKind::Positional => {
            assert(name =~= "positional"@);
            assert(name.len() != "experimental"@.len());
            assert(name.len() != "material"@.len());
        },
    }
}

/// Which opening book is consulted before a search.
#[derive(Debug, Clone, Copy, PartialEq, Eq, Structural)]
pub enum OpeningBookKind {
    NoBook,
    Cow,
}

impl Default for OpeningBookKind {
    fn default() -> (kind: OpeningBookKind)
        ensures
            kind == OpeningBookKind::NoBook,
    {
        OpeningBookKind::NoBook
    }
}

impl OpeningBookKind {
    /// The name of this book.
    pub open spec fn name(self) -> Seq<char> {
        match self {
            OpeningBookKind::NoBook => "None"@,
            OpeningBookKind::Cow => "Cow"@,
        }
    }

    /// The book that a text names, whatever the case of its letters and the
    /// white space around it.
    pub open spec fn named(value: Seq<char>) -> Option<OpeningBookKind> {
        let name = text::lowered(text::trimmed(value));
        if name == "none"@ {
            Some(OpeningBookKind::NoBook)
        } else if name == "cow"@ {
            Some(OpeningBookKind::Cow)
        } else {
            None
        }
    }

    /// What this book offers in a position.
    pub open spec fn offer(self, p: PositionView) -> Option<Move> {
        match self {
            OpeningBookKind::NoBook => NoBook.offers(p),
            OpeningBookKind::Cow => CowOpeningBook.offers(p),
        }
    }

    /// What UCI calls this book.
    pub fn uci_name(self) -> (name: &'static str)
        ensures
            name@ == self.name(),
    {
        match self {
            OpeningBookKind::NoBook => "None",
            OpeningBookKind::Cow => "Cow",
        }
    }

    /// The book that a text names.
    pub fn parse(value: &str) -> (kind: Option<OpeningBookKind>)
        ensures
            kind == OpeningBookKind::named(value@),
    {
        let name: Vec<char> = text::lowercase(&text::trim(&text::chars_of(value)));
        if text::chars_equal(&name, "none") {
            Some(OpeningBookKind::NoBook)
        } else if text::chars_equal(&name, "cow") {
            Some(OpeningBookKind::Cow)
        } else {
            None
        }
    }

    /// What this book offers in a position: a legal move, if anything.
    pub fn probe(self, position: &Position) -> (mv: Option<Move>)
        ensures
            mv == self.offer(position@),
            mv matches Some(m) ==> position@.legal_moves().contains(m),
    {
        match self {
            OpeningBookKind::NoBook => NoBook.probe(position),
            OpeningBookKind::Cow => CowOpeningBook.probe(position),
        }
    }
}

/// The name of a book names that book.
pub proof fn book_names_round_trip(kind: OpeningBookKind)
    ensures
        OpeningBookKind::named(kind.name()) == Some(kind),
{
    reveal_strlit("None");
    reveal_strlit("Cow");
    reveal_strlit("none");
    reveal_strlit("cow");
    lemma_trimmed(kind.name());
    let name = text::lowered(kind.name());
    match kind {
        OpeningBookKind::NoBook => {
            assert(name =~= "none"@);
        },
        OpeningBookKind::Cow => {
            assert(name =~= "cow"@);
            assert(name.len() != "none"@.len());
        },
    }
}

/// A chess engine and the game it is playing.
#[derive(Debug)]
pub struct Engine {
    debug: bool,
    evaluator: EvaluatorKind,
    search_options: SearchOptions,
    opening_book: OpeningBookKind,
    time_config: TimeManagerConfig,
    position: Position,
    diagnostics: DiagnosticBuffer,
    /// The hash of every position reached so far in the current
    /// game, in order, including the current position as the last
    /// entry -- what `is_threefold_repetition` checks against. Reset
    /// (not appended to) by `set_position`, since a UCI `position`
    /// command always resends the *entire* move list from a base
    /// position rather than incrementally extending the previous one.
    position_history: Vec<u64>,
}

/// What an engine knows and how it is configured.
pub struct EngineView {
    pub debug: bool,
    pub evaluator: EvaluatorKind,
    pub options: SearchOptions,
    pub book: OpeningBookKind,
    pub config: TimeManagerConfig,
    pub position: PositionView,
    pub diagnostics: Seq<DiagnosticView>,
    pub history: Seq<u64>,
}

/// Whether `mv` has the given squares and promotion.
pub open spec fn is_wanted(mv: Move, from: int, to: int, promotion: Option<PieceKind>) -> bool {
    mv.src() == from && mv.dst() == to && mv.kind().promotes_to() == promotion
}

/// The first of `moves` from the `k`-th on with the given squares and
/// promotion.
pub open spec fn wanted_move(
    moves: Seq<Move>,
    from: int,
    to: int,
    promotion: Option<PieceKind>,
    k: nat,
) -> Option<Move>
    decreases moves.len() - k,
{
    if k >= moves.len() {
        None
    } else if is_wanted(moves[k as int], from, to, promotion) {
        Some(moves[k as int])
    } else {
        wanted_move(moves, from, to, promotion, k + 1)
    }
}

/// What searching with the given evaluator to `depth` finds, with a fresh
/// working memory.
pub open spec fn searched_by(
    kind: EvaluatorKind,
    p: PositionView,
    depth: u32,
    options: SearchOptions,
    line: Seq<u64>,
) -> SearchResultView {
    let state = crate::search::state::StateView::fresh(options);
    match kind {
        EvaluatorKind::Experimental => model::root(
            ExperimentalEvaluator,
            p,
            depth,
            state,
            line,
        ).result,
        EvaluatorKind::Material => model::root(MaterialEvaluator, p, depth, state, line).result,
        EvaluatorKind::Positional => model::root(
            PositionalEvaluator { options: EvalOptions { use_mobility: true } },
            p,
            depth,
            state,
            line,
        ).result,
    }
}

/// What deepening with the given evaluator up to `depth` finds.
pub open spec fn deepened_by(
    kind: EvaluatorKind,
    p: PositionView,
    depth: nat,
    options: SearchOptions,
    line: Seq<u64>,
) -> SearchResultView {
    match kind {
        EvaluatorKind::Experimental => iterative::iterate(
            ExperimentalEvaluator,
            p,
            depth,
            options,
            line,
        ),
        EvaluatorKind::Material => iterative::iterate(MaterialEvaluator, p, depth, options, line),
        EvaluatorKind::Positional => iterative::iterate(
            PositionalEvaluator { options: EvalOptions { use_mobility: true } },
            p,
            depth,
            options,
            line,
        ),
    }
}

/// An answer that did not come from a search: a move without a depth, a node
/// count or a score.
pub open spec fn unsearched(best_move: Option<Move>) -> SearchResultView {
    SearchResultView {
        best_move,
        score: 0,
        nodes: 0,
        depth: 0,
        pv: match best_move {
            Some(mv) => seq![mv],
            None => Seq::empty(),
        },
        lmr: LmrStats { attempts: 0, researches: 0 },
        null_move: NullMoveStats { attempts: 0, cutoffs: 0 },
        delta_pruning: DeltaPruningStats { attempts: 0, pruned: 0 },
        see_pruning: SeeStats { attempts: 0, pruned: 0 },
    }
}

impl EngineView {
    /// A new engine, at the start of a game.
    pub open spec fn fresh() -> EngineView {
        EngineView {
            debug: false,
            evaluator: EvaluatorKind::Positional,
            options: SearchOptions::everything(),
            book: OpeningBookKind::NoBook,
            config: TimeManagerConfig::standard(),
            position: PositionView::start(),
            diagnostics: Seq::empty(),
            history: seq![PositionView::start().hash()],
        }
    }

    /// With one more diagnostic.
    pub open spec fn noted(self, level: DiagnosticLevel, message: Seq<char>) -> EngineView {
        EngineView {
            diagnostics: self.diagnostics.push(DiagnosticView { level, message }),
            ..self
        }
    }

    /// At another position, with no game before it.
    pub open spec fn moved_to(self, p: PositionView) -> EngineView {
        EngineView { position: p, history: seq![p.hash()], ..self }
    }

    /// After playing `mv`.
    pub open spec fn played(self, mv: Move) -> EngineView {
        let p = self.position.made(mv);
        EngineView { position: p, history: self.history.push(p.hash()), ..self }
    }

    /// The legal move with the given squares and promotion, if there is one.
    pub open spec fn legal_match(
        self,
        from: int,
        to: int,
        promotion: Option<PieceKind>,
    ) -> Option<Move> {
        wanted_move(self.position.legal_moves(), from, to, promotion, 0)
    }

    /// The hashes that a search is told of.
    pub open spec fn line(self) -> Seq<u64> {
        model::with_current(self.position, self.history)
    }

    /// What the opening book offers.
    pub open spec fn book_offer(self) -> Option<Move> {
        self.book.offer(self.position)
    }

    /// Whether the current position can be searched to `depth`.
    pub open spec fn searchable(self, depth: u32) -> bool {
        self.book_offer() is Some || iterative::searchable(self.position, depth, self.line())
    }

    /// The answer when there is no time to search: the first legal move.
    pub open spec fn fallback(self) -> SearchResultView {
        unsearched(
            if self.position.legal_moves().len() > 0 {
                Some(self.position.legal_moves()[0])
            } else {
                None
            },
        )
    }

    /// What is answered to a request for exactly `depth`: the book's move, or
    /// else what a search to `depth` finds.
    pub open spec fn searched(self, depth: u32) -> SearchResultView {
        match self.book_offer() {
            Some(mv) => unsearched(Some(mv)),
            None => searched_by(
                self.evaluator,
                self.position,
                depth,
                self.options,
                self.line(),
            ),
        }
    }

    /// What deepening up to `depth` finds.
    pub open spec fn deepened(self, depth: nat) -> SearchResultView {
        deepened_by(self.evaluator, self.position, depth, self.options, self.line())
    }

    /// What deepening to 1, 2, ... and finally `depth` finds.
    pub open spec fn depth_results(self, depth: nat) -> Seq<SearchResultView> {
        Seq::new(depth, |k: int| self.deepened((k + 1) as nat))
    }

    /// Whether `f` was told what each depth up to `depth` finds.
    pub open spec fn all_received<F: FnMut(&SearchResult)>(self, f: F, depth: nat) -> bool {
        forall|k: nat| 1 <= k <= depth ==> reports::received(f, #[trigger] self.deepened(k))
    }

    /// Whether there is nothing to search: the game is over or drawn.
    pub open spec fn decided(self) -> bool {
        iterative::decided(self.position, self.line())
    }

    /// Whether deepening stops of its own accord after `depth`.
    pub open spec fn settles(self, depth: nat) -> bool {
        settled_by(self, depth)
    }

    /// Whether `evaluator` is the one that is set.
    pub open spec fn uses<E: Evaluator>(self, evaluator: E) -> bool {
        let p = self.position;
        &&& forall|k: nat| #[trigger]
            self.deepened(k) == iterative::iterate(evaluator, p, k, self.options, self.line())
        &&& forall|k: nat| #[trigger]
            self.settles(k) == iterative::settles(evaluator, p, k, self.options, self.line())
    }

    /// Whether `result` is what deepening to some depth finds, without a mate
    /// at a lower depth.
    pub open spec fn is_deepened(self, result: SearchResultView) -> bool {
        &&& 1 <= result.depth
        &&& result == self.deepened(result.depth as nat)
        &&& forall|k: nat|
            1 <= k < result.depth ==> !iterative::finds_mate(#[trigger] self.deepened(k))
    }

    /// Whether `result` is what deepening to some depth finds, without anything
    /// at a lower depth that would have ended it.
    pub open spec fn is_unsettled_until(self, result: SearchResultView) -> bool {
        &&& 1 <= result.depth <= iterative::MAX_ITERATIVE_DEPTH
        &&& result == self.deepened(result.depth as nat)
        &&& forall|k: nat| 1 <= k < result.depth ==> !#[trigger] self.settles(k)
    }

    /// What is answered in `budget_ns` nanoseconds, where only the clock can cut the search
    /// short, and not before depth 1 is complete.
    pub open spec fn answers_in_time(self, budget_ns: nat, result: SearchResultView) -> bool {
        match self.book_offer() {
            Some(mv) => result == unsearched(Some(mv)),
            None => {
                &&& self.is_unsettled_until(result)
                &&& budget_ns == 0 && !self.decided() ==> result.depth == 1
                &&& budget_ns == 0 ==> result.depth <= 2
            },
        }
    }

    /// What is answered in `budget_ns` nanoseconds, where the clock or a stop signal can cut
    /// even depth 1 short: the first legal move then stands in.
    pub open spec fn answers_unless_stopped(
        self,
        budget_ns: nat,
        result: SearchResultView,
    ) -> bool {
        match self.book_offer() {
            Some(mv) => result == unsearched(Some(mv)),
            None => {
                &&& result == self.fallback() || self.is_deepened(result)
                &&& self.decided() ==> self.is_deepened(result)
                &&& budget_ns == 0 && !self.decided() ==> result == self.fallback()
                &&& budget_ns == 0 ==> result.depth <= 2
            },
        }
    }

    /// What is answered on the clock: the first legal move without any usable
    /// time or if even depth 1 is cut short, and what deepening finds
    /// otherwise.
    pub open spec fn answers_on_clock(
        self,
        control: ClockTimeControl,
        result: SearchResultView,
    ) -> bool {
        let usable = time_manager::hard_ns(control, self.config) > 0;
        match self.book_offer() {
            Some(mv) => result == unsearched(Some(mv)),
            None => {
                &&& result == self.fallback() || self.is_unsettled_until(result)
                &&& !usable ==> result == self.fallback()
                &&& usable && self.decided() ==> self.is_unsettled_until(result)
                &&& time_manager::soft_ns(control, self.config) == 0 ==> result.depth <= 2
            },
        }
    }

    /// The results that are reported on the way to `result`: those of all
    /// depths that it completed, and none for an answer without a search.
    pub open spec fn reported(self, result: SearchResultView) -> Seq<SearchResultView> {
        self.depth_results(result.depth as nat)
    }

    /// Whether the notes show how an answer in `budget_ns` nanoseconds came
    /// about: from the book without a look at the clock, or else as
    /// `looks::ends_in_time` says.
    pub open spec fn timed_by(
        self,
        notes: Seq<Note>,
        budget_ns: nat,
        result: SearchResultView,
    ) -> bool {
        match self.book_offer() {
            Some(_) => notes.len() == 0,
            None => looks::ends_in_time(notes, budget_ns, self.reported(result)),
        }
    }

    /// Likewise with a stop signal, as `looks::ends_unless_stopped` says: the
    /// first legal move stands in only after the deadline has said that it had
    /// expired.
    pub open spec fn stopped_by(
        self,
        notes: Seq<Note>,
        budget_ns: nat,
        stop: StopSignal,
        result: SearchResultView,
    ) -> bool {
        match self.book_offer() {
            Some(_) => notes.len() == 0,
            None => looks::ends_unless_stopped(notes, budget_ns, stop, self.reported(result)),
        }
    }

    /// Likewise on the clock, as `looks::ends_under_budget` says: the first
    /// legal move stands in only without usable time, or after the hard
    /// deadline has said that it had expired.
    pub open spec fn clocked_by(
        self,
        notes: Seq<Note>,
        control: ClockTimeControl,
        stop: StopSignal,
        result: SearchResultView,
    ) -> bool {
        let soft_ns = time_manager::soft_ns(control, self.config);
        let hard_ns = time_manager::hard_ns(control, self.config);
        if self.book_offer() is Some || hard_ns <= 0 {
            notes.len() == 0
        } else {
            looks::ends_under_budget(
                notes,
                soft_ns as nat,
                hard_ns as nat,
                stop,
                self.reported(result),
            )
        }
    }

    /// Whether some record shows how an answer in a time limit came about.
    pub open spec fn ended_in_time(self, budget_ns: nat, result: SearchResultView) -> bool {
        exists|looks: Looks| #[trigger]
            looks.kept() && self.timed_by(looks.notes(), budget_ns, result)
    }

    /// Likewise with a stop signal.
    pub open spec fn ended_unless_stopped(
        self,
        budget_ns: nat,
        stop: StopSignal,
        result: SearchResultView,
    ) -> bool {
        exists|looks: Looks| #[trigger]
            looks.kept() && self.stopped_by(looks.notes(), budget_ns, stop, result)
    }

    /// Likewise on the clock.
    pub open spec fn ended_on_clock(
        self,
        control: ClockTimeControl,
        stop: StopSignal,
        result: SearchResultView,
    ) -> bool {
        exists|looks: Looks| #[trigger]
            looks.kept() && self.clocked_by(looks.notes(), control, stop, result)
    }

    /// Whether the current position occurs for at least the third time.
    pub open spec fn is_repeated_twice(self) -> bool {
        model::occurrences(self.history, self.position.hash(), self.history.len()) >= 3
    }

    /// Without the diagnostics, which were taken.
    pub open spec fn drained(self) -> EngineView {
        EngineView { diagnostics: Seq::empty(), ..self }
    }

    /// Whether the history ends with the current position.
    pub open spec fn in_step(self) -> bool {
        self.history.len() > 0 && self.history.last() == self.position.hash()
    }
}

/// The history of the game ends with the current position at the start of a
/// game, after setting a position and after playing a move.
pub proof fn history_ends_with_the_current_position(engine: EngineView, p: PositionView, mv: Move)
    ensures
        EngineView::fresh().in_step(),
        engine.moved_to(p).in_step(),
        engine.played(mv).in_step(),
{
}

/// A move found by its squares and promotion is legal and has them; if none
/// is found, no legal move has them.
pub proof fn legal_match_is_exact(
    engine: EngineView,
    from: int,
    to: int,
    promotion: Option<PieceKind>,
)
    ensures
        match engine.legal_match(from, to, promotion) {
            Some(mv) => engine.position.legal_moves().contains(mv) && is_wanted(
                mv,
                from,
                to,
                promotion,
            ),
            None => forall|mv: Move|
                engine.position.legal_moves().contains(mv) ==> !is_wanted(mv, from, to, promotion),
        },
{
    lemma_wanted_move(engine.position.legal_moves(), from, to, promotion, 0);
}

proof fn lemma_wanted_move(
    moves: Seq<Move>,
    from: int,
    to: int,
    promotion: Option<PieceKind>,
    k: nat,
)
    requires
        forall|j: int| 0 <= j < k && j < moves.len() ==> !is_wanted(moves[j], from, to, promotion),
    ensures
        match wanted_move(moves, from, to, promotion, k) {
            Some(mv) => moves.contains(mv) && is_wanted(mv, from, to, promotion),
            None => forall|mv: Move| moves.contains(mv) ==> !is_wanted(mv, from, to, promotion),
        },
    decreases moves.len() - k,
{
    if k < moves.len() {
        if is_wanted(moves[k as int], from, to, promotion) {
            assert(moves.contains(moves[k as int]));
        } else {
            lemma_wanted_move(moves, from, to, promotion, k + 1);
        }
    }
}

impl View for Engine {
    type V = EngineView;

    closed spec fn view(&self) -> EngineView {
        EngineView {
            debug: self.debug,
            evaluator: self.evaluator,
            options: self.search_options,
            book: self.opening_book,
            config: self.time_config,
            position: self.position@,
            diagnostics: self.diagnostics@,
            history: self.position_history@,
        }
    }
}

/// The result with the given move and nothing searched.
fn unsearched_result(best_move: Option<Move>) -> (result: SearchResult)
    ensures
        result@ == unsearched(best_move),
{
    let mut pv: Vec<Move> = Vec::new();
    if let Some(mv) = best_move {
        pv.push(mv);
    }
    let result = SearchResult {
        best_move,
        score: 0,
        nodes: 0,
        depth: 0,
        pv,
        lmr: LmrStats::default(),
        null_move: NullMoveStats::default(),
        delta_pruning: DeltaPruningStats::default(),
        see_pruning: SeeStats::default(),
    };
    assert(result@.pv =~= unsearched(best_move).pv);
    result
}

impl Engine {
    /// A new engine, at the start of a game.
    pub fn new() -> (engine: Engine)
        ensures
            engine@ == EngineView::fresh(),
    {
        let position = Position::startpos();
        let mut position_history: Vec<u64> = Vec::new();
        position_history.push(position.zobrist_hash());
        let engine = Engine {
            debug: false,
            evaluator: EvaluatorKind::default(),
            search_options: SearchOptions::default(),
            opening_book: OpeningBookKind::default(),
            time_config: TimeManagerConfig::default(),
            position,
            diagnostics: DiagnosticBuffer::new(),
            position_history,
        };
        assert(engine@.history =~= EngineView::fresh().history);
        engine
    }

    /// Emits a diagnostic. Engine/search code should call this instead
    /// of ever constructing UCI text directly -- see `crate::diagnostics`
    /// for what belongs here versus in real UCI `info` fields.
    pub fn emit_diagnostic<M: Into<String>>(&mut self, level: DiagnosticLevel, message: M)
        ensures
            exists|written: String|
                #[trigger] call_ensures(<M as Into<String>>::into, (message,), written)
                    && final(self)@ == old(self)@.noted(level, written@),
    {
        self.diagnostics.emit(level, message);
    }

    /// Emits a diagnostic with the given text.
    pub fn note(&mut self, level: DiagnosticLevel, message: String)
        ensures
            final(self)@ == old(self)@.noted(level, message@),
    {
        self.diagnostics.push(level, message);
    }

    /// Removes and returns every diagnostic emitted since the last
    /// call, in emission order. Intended to be drained by the UCI
    /// adapter after each command, so diagnostics never pile up
    /// unboundedly if nothing is reading them.
    pub fn take_diagnostics(&mut self) -> (taken: Vec<Diagnostic>)
        ensures
            diagnostics::diagnostic_views(taken@) == old(self)@.diagnostics,
            final(self)@ == old(self)@.drained(),
    {
        self.diagnostics.drain()
    }

    /// Replaces the current position and resets game history to just
    /// this one position. A `position` command with a `moves`
    /// suffix rebuilds the rest of that history one `apply_move` call
    /// at a time after this.
    pub fn set_position(&mut self, position: Position)
        ensures
            final(self)@ == old(self)@.moved_to(position@),
    {
        let mut history: Vec<u64> = Vec::new();
        history.push(position.zobrist_hash());
        self.position_history = history;
        self.position = position;
        assert(self@.history =~= seq![self@.position.hash()]);
    }

    /// The current position.
    pub fn position(&self) -> (position: &Position)
        ensures
            position@ == self@.position,
    {
        &self.position
    }

    /// Whether the current position has now occurred for the third
    /// (or more) time in the game so far, per FIDE's threefold
    /// repetition rule -- a draw either side can claim. Compares
    /// hashes, not full positions: two positions with the same
    /// hash are treated as the same position.
    #[must_use]
    pub fn is_threefold_repetition(&self) -> (repeated: bool)
        ensures
            repeated == self@.is_repeated_twice(),
    {
        let current: u64 = self.position.zobrist_hash();
        let mut count: usize = 0;
        let mut k: usize = 0;
        while k < self.position_history.len()
            invariant
                k <= self.position_history.len(),
                current == self.position@.hash(),
                count <= k,
                count == model::occurrences(self.position_history@, current, k as nat),
            decreases self.position_history.len() - k,
        {
            if self.position_history[k] == current {
                count += 1;
            }
            k += 1;
        }
        count >= 3
    }

    pub fn set_debug(&mut self, debug: bool)
        ensures
            final(self)@ == (EngineView { debug, ..old(self)@ }),
    {
        self.debug = debug;
    }

    pub fn debug(&self) -> (debug: bool)
        ensures
            debug == self@.debug,
    {
        self.debug
    }

    pub fn evaluator(&self) -> (kind: EvaluatorKind)
        ensures
            kind == self@.evaluator,
    {
        self.evaluator
    }

    pub fn set_evaluator(&mut self, evaluator: EvaluatorKind)
        ensures
            final(self)@ == (EngineView { evaluator, ..old(self)@ }),
    {
        self.evaluator = evaluator;
    }

    pub fn search_options(&self) -> (options: SearchOptions)
        ensures
            options == self@.options,
    {
        self.search_options
    }

    pub fn set_use_tt(&mut self, use_tt: bool)
        ensures
            final(self)@ == (EngineView {
                options: SearchOptions { use_tt, ..old(self)@.options },
                ..old(self)@
            }),
    {
        self.search_options.use_tt = use_tt;
    }

    pub fn set_use_quiescence(&mut self, use_quiescence: bool)
        ensures
            final(self)@ == (EngineView {
                options: SearchOptions { use_quiescence, ..old(self)@.options },
                ..old(self)@
            }),
    {
        self.search_options.use_quiescence = use_quiescence;
    }

    pub fn set_use_enhanced_quiescence(&mut self, use_enhanced_quiescence: bool)
        ensures
            final(self)@ == (EngineView {
                options: SearchOptions { use_enhanced_quiescence, ..old(self)@.options },
                ..old(self)@
            }),
    {
        self.search_options.use_enhanced_quiescence = use_enhanced_quiescence;
    }

    pub fn opening_book_kind(&self) -> (kind: OpeningBookKind)
        ensures
            kind == self@.book,
    {
        self.opening_book
    }

    pub fn set_opening_book(&mut self, book: OpeningBookKind)
        ensures
            final(self)@ == (EngineView { book, ..old(self)@ }),
    {
        self.opening_book = book;
    }

    /// Sets the time reserved every move for protocol/process/network
    /// overhead -- see `TimeManagerConfig::move_overhead`.
    pub fn set_move_overhead(&mut self, move_overhead: Duration)
        ensures
            final(self)@ == (EngineView {
                config: TimeManagerConfig { move_overhead, ..old(self)@.config },
                ..old(self)@
            }),
    {
        self.time_config.move_overhead = move_overhead;
    }

    /// Resets game/search-specific engine state for a new game. This does
    /// **not** reset the history or set the board to the starting
    /// position -- UCI's `ucinewgame` is always followed by a
    /// `position` command that establishes the actual position. With no
    /// other such state to reset, this is a deliberate no-op.
    pub fn new_game(&mut self)
        ensures
            final(self)@ == old(self)@,
    {
    }

    /// Applies a single move to the current position, given as UCI-style
    /// `(from, to, promotion)` coordinates (e.g. `e2e4` is
    /// `(e2, e4, None)`; `e7e8q` is `(e7, e8, Some(Queen))`).
    ///
    /// The flag of the move depends on board context that the bare
    /// coordinates don't carry, so this looks the move up among the
    /// current position's legal moves and applies whichever one
    /// matches. Returns `Err` if no legal move matches, leaving the
    /// position unchanged.
    pub fn apply_move(&mut self, from: Square, to: Square, promotion: Option<PieceKind>) -> (result:
        Result<(), IllegalMoveError>)
        ensures
            match old(self)@.legal_match(from.idx(), to.idx(), promotion) {
                Some(mv) => result is Ok && final(self)@ == old(self)@.played(mv),
                None => result == Err::<(), IllegalMoveError>(
                    IllegalMoveError { from, to, promotion },
                ) && final(self)@ == old(self)@,
            },
    {
        let moves: Vec<Move> = self.position.generate_legal_moves();
        let mut k: usize = 0;
        while k < moves.len()
            invariant
                k <= moves.len(),
                *self == *old(self),
                moves@ == old(self)@.position.legal_moves(),
                old(self)@.legal_match(from.idx(), to.idx(), promotion) == wanted_move(
                    moves@,
                    from.idx(),
                    to.idx(),
                    promotion,
                    k as nat,
                ),
            decreases moves.len() - k,
        {
            let mv = moves[k];
            if mv.from().index() == from.index() && mv.to().index() == to.index()
                && mv.flag().promotion_kind() == promotion {
                proof {
                    crate::chess::legality::legal_moves_are_reversible(self.position@, k as int);
                }
                let _ = self.position.make_move(mv);
                self.position_history.push(self.position.zobrist_hash());
                return Ok(());
            }
            k += 1;
        }
        Err(IllegalMoveError { from, to, promotion })
    }

    /// What the opening book answers, if it has something to offer: a move
    /// with depth zero, since nothing was searched.
    fn book_move(&self) -> (result: Option<SearchResult>)
        ensures
            match result {
                Some(answer) => self@.book_offer() is Some && answer@ == unsearched(
                    self@.book_offer(),
                ),
                None => self@.book_offer() is None,
            },
    {
        match self.opening_book.probe(&self.position) {
            Some(mv) => Some(unsearched_result(Some(mv))),
            None => None,
        }
    }

    /// The first legal move, to have something to play when there is no time
    /// to search.
    fn fallback_move(&self) -> (result: SearchResult)
        ensures
            result@ == self@.fallback(),
    {
        let moves: Vec<Move> = self.position.generate_legal_moves();
        if moves.len() > 0 {
            unsearched_result(Some(moves[0]))
        } else {
            unsearched_result(None)
        }
    }

    /// Whether `search` may be called with `depth`: at least one ply, unless
    /// there is nothing to search.
    pub fn can_search(&self, depth: u32) -> (can: bool)
        ensures
            can == self@.searchable(depth),
    {
        if depth > 0 || self.book_move().is_some() || self.position.generate_legal_moves().len()
            == 0 {
            return true;
        }
        let path: Vec<u64> = iterative::normalized_history(
            &self.position,
            self.position_history.as_slice(),
        );
        crate::search::alpha_beta::is_rule_draw(&self.position, &path)
    }

    /// Answers from the opening book, or else searches the current position
    /// to exactly `depth` plies using fixed-depth negamax alpha-beta (see
    /// `crate::search::alpha_beta`) with the configured evaluator. Does
    /// not change the current position.
    #[must_use]
    pub fn search(&mut self, depth: u32) -> (result: SearchResult)
        requires
            old(self)@.searchable(depth),
        ensures
            final(self)@ == old(self)@,
            result@ == old(self)@.searched(depth),
    {
        if let Some(answer) = self.book_move() {
            return answer;
        }
        match self.evaluator {
            EvaluatorKind::Experimental => iterative::search_with_options(
                &mut self.position,
                depth,
                &ExperimentalEvaluator,
                self.position_history.as_slice(),
                self.search_options,
            ),
            EvaluatorKind::Material => iterative::search_with_options(
                &mut self.position,
                depth,
                &MaterialEvaluator,
                self.position_history.as_slice(),
                self.search_options,
            ),
            EvaluatorKind::Positional => iterative::search_with_options(
                &mut self.position,
                depth,
                &PositionalEvaluator::new(),
                self.position_history.as_slice(),
                self.search_options,
            ),
        }
    }

    /// Answers from the opening book, or else searches the current position
    /// with iterative deepening (depth 1, 2, 3, ...) for up to `budget`,
    /// calling `on_depth_complete` after each depth that finishes in time,
    /// and returning the last depth that completed -- never a
    /// partially-searched one. Always completes at least depth 1 even for a
    /// zero/expired budget.
    pub fn search_for_time<F: FnMut(&SearchResult)>(
        &mut self,
        budget: Duration,
        on_depth_complete: F,
    ) -> (result: SearchResult)
        requires
            forall|r: &SearchResult| call_requires(on_depth_complete, (r,)),
        ensures
            final(self)@ == old(self)@,
            old(self)@.answers_in_time(budget.ns(), result@),
            old(self)@.all_received(on_depth_complete, result.depth as nat),
            old(self)@.ended_in_time(budget.ns(), result@),
    {
        let mut reports = Reports::new(on_depth_complete);
        let mut looks = Looks::new();
        let result = self.deepen_for_time(budget, &mut reports, &mut looks);
        proof {
            lemma_all_received(reports, self@, result.depth as nat);
            looks::lemma_since_nothing(looks.notes());
        }
        result
    }

    /// Answers like `search_for_time`, and keeps a record of what it reports:
    /// every completed depth, in order, and nothing else. A second record
    /// holds what the deadline was asked and answered on the way.
    pub fn deepen_for_time<F: FnMut(&SearchResult)>(
        &mut self,
        budget: Duration,
        reports: &mut Reports<F>,
        looks: &mut Looks,
    ) -> (result: SearchResult)
        requires
            old(reports).wf(),
            old(looks).kept(),
        ensures
            final(self)@ == old(self)@,
            old(self)@.answers_in_time(budget.ns(), result@),
            final(reports).wf(),
            final(reports).receiver() == old(reports).receiver(),
            final(reports).log() == old(reports).log() + old(self)@.reported(result@),
            final(looks).kept(),
            looks::extends(old(looks).notes(), final(looks).notes()),
            old(self)@.timed_by(
                looks::since(old(looks).notes(), final(looks).notes()),
                budget.ns(),
                result@,
            ),
    {
        let ghost before = reports.log();
        if let Some(answer) = self.book_move() {
            proof {
                assert(before + self@.depth_results(0) =~= before);
                looks::lemma_since_now(looks.notes());
            }
            return answer;
        }
        match self.evaluator {
            EvaluatorKind::Experimental => self.deepen_by(budget, &ExperimentalEvaluator, reports, looks),
            EvaluatorKind::Material => self.deepen_by(budget, &MaterialEvaluator, reports, looks),
            EvaluatorKind::Positional => self.deepen_by(
                budget,
                &PositionalEvaluator::new(),
                reports,
                looks,
            ),
        }
    }

    /// Answers like `deepen_for_time`, with the given evaluator and no book.
    fn deepen_by<E: Evaluator, F: FnMut(&SearchResult)>(
        &mut self,
        budget: Duration,
        evaluator: &E,
        reports: &mut Reports<F>,
        looks: &mut Looks,
    ) -> (result: SearchResult)
        requires
            old(self)@.book_offer() is None,
            old(self)@.uses(*evaluator),
            old(reports).wf(),
            old(looks).kept(),
        ensures
            final(self)@ == old(self)@,
            old(self)@.answers_in_time(budget.ns(), result@),
            final(reports).wf(),
            final(reports).receiver() == old(reports).receiver(),
            final(reports).log() == old(reports).log() + old(self)@.reported(result@),
            final(looks).kept(),
            looks::extends(old(looks).notes(), final(looks).notes()),
            old(self)@.timed_by(
                looks::since(old(looks).notes(), final(looks).notes()),
                budget.ns(),
                result@,
            ),
    {
        let result = iterative::deepen_with_options(
            &mut self.position,
            budget,
            evaluator,
            self.position_history.as_slice(),
            self.search_options,
            reports,
            looks,
        );
        proof {
            lemma_depth_results(self@, *evaluator, result.depth as nat);
        }
        result
    }

    /// Same as `search_for_time`, but `stop` cancels the search. If not even
    /// depth 1 completes, the first legal move is the answer.
    pub fn search_for_time_with_stop<F: FnMut(&SearchResult)>(
        &mut self,
        budget: Duration,
        stop: StopSignal,
        on_depth_complete: F,
    ) -> (result: SearchResult)
        requires
            forall|r: &SearchResult| call_requires(on_depth_complete, (r,)),
        ensures
            final(self)@ == old(self)@,
            old(self)@.answers_unless_stopped(budget.ns(), result@),
            old(self)@.all_received(on_depth_complete, result.depth as nat),
            old(self)@.ended_unless_stopped(budget.ns(), stop, result@),
    {
        let mut reports = Reports::new(on_depth_complete);
        let mut looks = Looks::new();
        let result = self.deepen_for_time_with_stop(budget, stop, &mut reports, &mut looks);
        proof {
            lemma_all_received(reports, self@, result.depth as nat);
            looks::lemma_since_nothing(looks.notes());
        }
        result
    }

    /// Answers like `search_for_time_with_stop`, and keeps a record of what it
    /// reports: every completed depth, in order, and nothing else. A second
    /// record holds what the deadline was asked and answered on the way.
    pub fn deepen_for_time_with_stop<F: FnMut(&SearchResult)>(
        &mut self,
        budget: Duration,
        stop: StopSignal,
        reports: &mut Reports<F>,
        looks: &mut Looks,
    ) -> (result: SearchResult)
        requires
            old(reports).wf(),
            old(looks).kept(),
        ensures
            final(self)@ == old(self)@,
            old(self)@.answers_unless_stopped(budget.ns(), result@),
            final(reports).wf(),
            final(reports).receiver() == old(reports).receiver(),
            final(reports).log() == old(reports).log() + old(self)@.reported(result@),
            final(looks).kept(),
            looks::extends(old(looks).notes(), final(looks).notes()),
            old(self)@.stopped_by(
                looks::since(old(looks).notes(), final(looks).notes()),
                budget.ns(),
                stop,
                result@,
            ),
    {
        let ghost before = reports.log();
        if let Some(answer) = self.book_move() {
            proof {
                assert(before + self@.depth_results(0) =~= before);
                looks::lemma_since_now(looks.notes());
            }
            return answer;
        }
        match self.evaluator {
            EvaluatorKind::Experimental => self.deepen_by_unless_stopped(
                budget,
                stop,
                &ExperimentalEvaluator,
                reports,
                looks,
            ),
            EvaluatorKind::Material => self.deepen_by_unless_stopped(
                budget,
                stop,
                &MaterialEvaluator,
                reports,
                looks,
            ),
            EvaluatorKind::Positional => self.deepen_by_unless_stopped(
                budget,
                stop,
                &PositionalEvaluator::new(),
                reports,
                looks,
            ),
        }
    }

    /// Answers like `deepen_for_time_with_stop`, with the given evaluator and
    /// no book.
    fn deepen_by_unless_stopped<E: Evaluator, F: FnMut(&SearchResult)>(
        &mut self,
        budget: Duration,
        stop: StopSignal,
        evaluator: &E,
        reports: &mut Reports<F>,
        looks: &mut Looks,
    ) -> (result: SearchResult)
        requires
            old(self)@.book_offer() is None,
            old(self)@.uses(*evaluator),
            old(reports).wf(),
            old(looks).kept(),
        ensures
            final(self)@ == old(self)@,
            old(self)@.answers_unless_stopped(budget.ns(), result@),
            final(reports).wf(),
            final(reports).receiver() == old(reports).receiver(),
            final(reports).log() == old(reports).log() + old(self)@.reported(result@),
            final(looks).kept(),
            looks::extends(old(looks).notes(), final(looks).notes()),
            old(self)@.stopped_by(
                looks::since(old(looks).notes(), final(looks).notes()),
                budget.ns(),
                stop,
                result@,
            ),
    {
        let ghost before = reports.log();
        let fallback = self.fallback_move();
        let found = iterative::deepen_with_stop(
            &mut self.position,
            budget,
            evaluator,
            self.position_history.as_slice(),
            self.search_options,
            stop,
            reports,
            looks,
        );
        proof {
            assert(before + self@.depth_results(0) =~= before);
            assert(self@.depth_results(0) =~= Seq::empty());
            if let Some(result) = &found {
                lemma_depth_results(self@, *evaluator, result.depth as nat);
            }
        }
        found_or(found, fallback)
    }

    /// Answers from the opening book, or else searches under the budget that
    /// the clock allows (see `crate::search::time_manager`). If there is no
    /// usable time at all, or not even depth 1 completes in it, the first
    /// legal move is the answer.
    pub fn search_with_clock<F: FnMut(&SearchResult)>(
        &mut self,
        control: ClockTimeControl,
        stop: StopSignal,
        on_depth_complete: F,
    ) -> (result: SearchResult)
        requires
            forall|r: &SearchResult| call_requires(on_depth_complete, (r,)),
        ensures
            final(self)@ == old(self)@,
            old(self)@.answers_on_clock(control, result@),
            old(self)@.all_received(on_depth_complete, result.depth as nat),
            old(self)@.ended_on_clock(control, stop, result@),
    {
        let mut reports = Reports::new(on_depth_complete);
        let mut looks = Looks::new();
        let result = self.deepen_with_clock(control, stop, &mut reports, &mut looks);
        proof {
            lemma_all_received(reports, self@, result.depth as nat);
            looks::lemma_since_nothing(looks.notes());
        }
        result
    }

    /// Answers like `search_with_clock`, and keeps a record of what it reports:
    /// every completed depth, in order, and nothing else. A second record
    /// holds what the deadlines were asked and answered on the way, and what
    /// was decided between depths.
    pub fn deepen_with_clock<F: FnMut(&SearchResult)>(
        &mut self,
        control: ClockTimeControl,
        stop: StopSignal,
        reports: &mut Reports<F>,
        looks: &mut Looks,
    ) -> (result: SearchResult)
        requires
            old(reports).wf(),
            old(looks).kept(),
        ensures
            final(self)@ == old(self)@,
            old(self)@.answers_on_clock(control, result@),
            final(reports).wf(),
            final(reports).receiver() == old(reports).receiver(),
            final(reports).log() == old(reports).log() + old(self)@.reported(result@),
            final(looks).kept(),
            looks::extends(old(looks).notes(), final(looks).notes()),
            old(self)@.clocked_by(
                looks::since(old(looks).notes(), final(looks).notes()),
                control,
                stop,
                result@,
            ),
    {
        let ghost before = reports.log();
        if let Some(answer) = self.book_move() {
            proof {
                assert(before + self@.depth_results(0) =~= before);
                looks::lemma_since_now(looks.notes());
            }
            return answer;
        }
        match self.evaluator {
            EvaluatorKind::Experimental => self.deepen_by_clock(
                control,
                stop,
                &ExperimentalEvaluator,
                reports,
                looks,
            ),
            EvaluatorKind::Material => self.deepen_by_clock(
                control,
                stop,
                &MaterialEvaluator,
                reports,
                looks,
            ),
            EvaluatorKind::Positional => self.deepen_by_clock(
                control,
                stop,
                &PositionalEvaluator::new(),
                reports,
                looks,
            ),
        }
    }

    /// Answers like `deepen_with_clock`, with the given evaluator and no book.
    fn deepen_by_clock<E: Evaluator, F: FnMut(&SearchResult)>(
        &mut self,
        control: ClockTimeControl,
        stop: StopSignal,
        evaluator: &E,
        reports: &mut Reports<F>,
        looks: &mut Looks,
    ) -> (result: SearchResult)
        requires
            old(self)@.book_offer() is None,
            old(self)@.uses(*evaluator),
            old(reports).wf(),
            old(looks).kept(),
        ensures
            final(self)@ == old(self)@,
            old(self)@.answers_on_clock(control, result@),
            final(reports).wf(),
            final(reports).receiver() == old(reports).receiver(),
            final(reports).log() == old(reports).log() + old(self)@.reported(result@),
            final(looks).kept(),
            looks::extends(old(looks).notes(), final(looks).notes()),
            old(self)@.clocked_by(
                looks::since(old(looks).notes(), final(looks).notes()),
                control,
                stop,
                result@,
            ),
    {
        let ghost before = reports.log();
        let fallback = self.fallback_move();
        let budget = time_manager::allocate_time(control, &self.time_config);
        if budget.hard.as_nanos() == 0 {
            proof {
                assert(before + self@.depth_results(0) =~= before);
                looks::lemma_since_now(looks.notes());
            }
            return fallback;
        }
        let found = iterative::deepen_with_budget(
            &mut self.position,
            budget,
            evaluator,
            self.position_history.as_slice(),
            self.search_options,
            stop,
            reports,
            looks,
        );
        proof {
            assert(before + self@.depth_results(0) =~= before);
            assert(self@.depth_results(0) =~= Seq::empty());
            if let Some((result, _)) = &found {
                lemma_depth_results(self@, *evaluator, result.depth as nat);
            }
        }
        let found = match found {
            Some((result, _)) => Some(result),
            None => None,
        };
        found_or(found, fallback)
    }
}

/// The answer to a search that may have found nothing.
pub fn found_or(found: Option<SearchResult>, fallback: SearchResult) -> (answer: SearchResult)
    ensures
        answer == (match found {
            Some(result) => result,
            None => fallback,
        }),
{
    match found {
        Some(result) => result,
        None => fallback,
    }
}

/// The results of all depths, spelled out for the evaluator in use.
proof fn lemma_depth_results<E: Evaluator>(engine: EngineView, evaluator: E, depth: nat)
    requires
        engine.uses(evaluator),
    ensures
        engine.depth_results(depth) == iterative::depth_results(
            evaluator,
            engine.position,
            depth,
            engine.options,
            engine.line(),
        ),
{
    assert(engine.depth_results(depth) =~= iterative::depth_results(
        evaluator,
        engine.position,
        depth,
        engine.options,
        engine.line(),
    ));
}

/// Who was told of all depths, was told of each.
proof fn lemma_all_received<F: FnMut(&SearchResult)>(
    told: Reports<F>,
    engine: EngineView,
    depth: nat,
)
    requires
        told.wf(),
        told.log() =~= engine.depth_results(depth),
    ensures
        engine.all_received(told.receiver(), depth),
{
    assert forall|k: nat| 1 <= k <= depth implies reports::received(
        told.receiver(),
        #[trigger] engine.deepened(k),
    ) by {
        assert(told.log()[k - 1] == engine.deepened(k));
    }
}

/// Whether deepening stops of its own accord after `depth`.
pub open spec fn settled_by(engine: EngineView, depth: nat) -> bool {
    let line = engine.line();
    match engine.evaluator {
        EvaluatorKind::Experimental => iterative::settles(
            ExperimentalEvaluator,
            engine.position,
            depth,
            engine.options,
            line,
        ),
        EvaluatorKind::Material => iterative::settles(
            MaterialEvaluator,
            engine.position,
            depth,
            engine.options,
            line,
        ),
        EvaluatorKind::Positional => iterative::settles(
            PositionalEvaluator { options: EvalOptions { use_mobility: true } },
            engine.position,
            depth,
            engine.options,
            line,
        ),
    }
}

impl Default for Engine {
    fn default() -> (engine: Engine)
        ensures
            engine@ == EngineView::fresh(),
    {
        Engine::new()
    }
}

} // verus!
