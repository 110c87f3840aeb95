//! `ExperienceBook`: an `OpeningBook` backed by a book artifact that was built
//! from past games. Unlike `CowOpeningBook`, which follows a fixed setup, this
//! book's moves and their weights come entirely from data: it knows how to
//! read the bytes of an artifact and picks the first of a position's
//! candidates -- they stand heaviest first -- that is legal.

use super::artifact::{self, BookCandidate, BookEntry, EntryView, FormatError};
use super::artifact_laws;
use super::key;
use super::{contains_move, OpeningBook};
use crate::chess::moves::Move;
use crate::chess::position::{Position, PositionView};
use std::collections::HashMap;
use vstd::prelude::*;

verus! {

broadcast use vstd::std_specs::hash::group_hash_axioms;

/// What a book is asked about: a position, and the moves that led to it.
#[derive(Debug)]
pub struct OpeningContext<'a> {
    pub position: &'a Position,
    pub moves: &'a [Move],
}

/// What a book answers: a move, and what it knows about it.
#[derive(Debug, Clone, Copy, PartialEq, Eq, Structural)]
pub struct BookProbe {
    pub mv: Move,
    pub games: Option<u32>,
    pub score_per_mille: Option<u16>,
}

/// What a book of these entries knows, by position key. Of two entries for
/// one position the later one counts.
pub open spec fn indexed(entries: Seq<EntryView>) -> Map<u64, Seq<BookCandidate>>
    decreases entries.len(),
{
    if entries.len() == 0 {
        Map::empty()
    } else {
        indexed(entries.drop_last()).insert(entries.last().key, entries.last().candidates)
    }
}

/// The first legal candidate, from the `k`-th on.
pub open spec fn first_legal(p: PositionView, candidates: Seq<BookCandidate>, k: nat) -> Option<
    BookCandidate,
>
    decreases candidates.len() - k,
{
    if k >= candidates.len() {
        None
    } else if p.legal_moves().contains(candidates[k as int].mv) {
        Some(candidates[k as int])
    } else {
        first_legal(p, candidates, k + 1)
    }
}

/// A parsed book artifact, ready to probe. Construct with
/// `ExperienceBook::from_bytes`.
pub struct ExperienceBook {
    /// By position key: a book is small, and looked up once per search.
    entries: HashMap<u64, Vec<BookCandidate>>,
}

impl View for ExperienceBook {
    type V = Map<u64, Seq<BookCandidate>>;

    closed spec fn view(&self) -> Map<u64, Seq<BookCandidate>> {
        self.entries@.map_values(|candidates: Vec<BookCandidate>| candidates@)
    }
}

impl ExperienceBook {
    /// The candidate that the book picks in a position: the first legal one of
    /// those it knows there.
    pub open spec fn pick(self, p: PositionView) -> Option<BookCandidate> {
        if self@.dom().contains(key::book_key(p)) {
            first_legal(p, self@[key::book_key(p)], 0)
        } else {
            None
        }
    }

    /// Parses a book artifact. Fails on bad magic, an unsupported format or
    /// key scheme version, or truncated or malformed data -- see
    /// `FormatError`. Never panics on malformed input.
    pub fn from_bytes(bytes: &[u8]) -> (book: Result<ExperienceBook, FormatError>)
        ensures
            match artifact::read_book(bytes@) {
                Ok(entries) => book matches Ok(parsed) && parsed@ == indexed(entries),
                Err(error) => book == Err::<ExperienceBook, FormatError>(error),
            },
    {
        let mut rest: Vec<BookEntry> = match artifact::read(bytes) {
            Err(error) => {
                return Err(error);
            },
            Ok(entries) => entries,
        };
        let ghost all = artifact::views(rest@);
        let mut book = ExperienceBook { entries: HashMap::new() };
        assert(book@ =~= Map::empty());
        assert(indexed(all).union_prefer_right(book@) =~= indexed(all));
        while rest.len() > 0
            invariant
                indexed(artifact::views(rest@)).union_prefer_right(book@) == indexed(all),
            decreases rest.len(),
        {
            let ghost before = artifact::views(rest@);
            let ghost known = book@;
            if let Some(entry) = rest.pop() {
                let ghost view = entry@;
                assert(artifact::views(rest@) =~= before.drop_last());
                assert(before.last() == view);
                if !book.entries.contains_key(&entry.key) {
                    book.entries.insert(entry.key, entry.candidates);
                    assert(book@ =~= known.insert(view.key, view.candidates));
                }
                assert(indexed(before.drop_last()).union_prefer_right(book@) =~= indexed(
                    before,
                ).union_prefer_right(known));
            }
        }
        assert(artifact::views(rest@) =~= Seq::<EntryView>::empty());
        assert(indexed(artifact::views(rest@)).union_prefer_right(book@) =~= book@);
        Ok(book)
    }

    /// How many positions this book has an opinion about.
    #[must_use]
    pub fn len(&self) -> (count: usize)
        ensures
            count == self@.dom().len(),
    {
        assert(self@.dom() =~= self.entries@.dom());
        self.entries.len()
    }

    /// Whether this book has no opinion about any position.
    #[must_use]
    pub fn is_empty(&self) -> (empty: bool)
        ensures
            empty == (self@.dom().len() == 0),
    {
        assert(self@.dom() =~= self.entries@.dom());
        self.entries.len() == 0
    }

    /// The candidate that the book picks in a position. The artifact is not
    /// trusted to hold legal moves only: candidates that are not legal now are
    /// passed over.
    fn picked(&self, position: &Position) -> (candidate: Option<BookCandidate>)
        ensures
            candidate == self.pick(position@),
    {
        assert(self@.dom() =~= self.entries@.dom());
        let candidates: &Vec<BookCandidate> = match self.entries.get(
            &key::book_position_key(position),
        ) {
            Some(candidates) => candidates,
            None => {
                return None;
            },
        };
        let legal_moves: Vec<Move> = position.generate_legal_moves();
        let mut k: usize = 0;
        while k < candidates.len()
            invariant
                k <= candidates.len(),
                legal_moves@ == position@.legal_moves(),
                self.pick(position@) == first_legal(position@, candidates@, k as nat),
            decreases candidates.len() - k,
        {
            let candidate: BookCandidate = candidates[k];
            if contains_move(&legal_moves, candidate.mv) {
                return Some(candidate);
            }
            k += 1;
        }
        None
    }

    /// What the book answers: its pick, and how often it was played with what
    /// success.
    pub fn probe(&self, context: &OpeningContext<'_>) -> (answer: Option<BookProbe>)
        ensures
            answer == (match self.pick(context.position@) {
                Some(candidate) => Some(
                    BookProbe {
                        mv: candidate.mv,
                        games: Some(candidate.games),
                        score_per_mille: Some(candidate.score_per_mille),
                    },
                ),
                None => None,
            }),
    {
        match self.picked(context.position) {
            Some(candidate) => Some(
                BookProbe {
                    mv: candidate.mv,
                    games: Some(candidate.games),
                    score_per_mille: Some(candidate.score_per_mille),
                },
            ),
            None => None,
        }
    }
}

impl OpeningBook for ExperienceBook {
    open spec fn offers(&self, p: PositionView) -> Option<Move> {
        match self.pick(p) {
            Some(candidate) => Some(candidate.mv),
            None => None,
        }
    }

    fn probe(&self, position: &Position) -> (mv: Option<Move>) {
        proof {
            if self@.dom().contains(key::book_key(position@)) {
                lemma_first_legal(position@, self@[key::book_key(position@)], 0);
            }
        }
        match self.picked(position) {
            Some(candidate) => Some(candidate.mv),
            None => None,
        }
    }
}

/// What is picked is a legal candidate, nothing before it is one, and there is
/// nothing to pick only if no candidate is legal.
proof fn lemma_first_legal(p: PositionView, candidates: Seq<BookCandidate>, k: nat)
    ensures
        match first_legal(p, candidates, k) {
            Some(picked) => p.legal_moves().contains(picked.mv) && exists|i: int|
                k <= i < candidates.len() && #[trigger] candidates[i] == picked && forall|j: int|
                    k <= j < i ==> !p.legal_moves().contains((#[trigger] candidates[j]).mv),
            None => forall|i: int|
                k <= i < candidates.len() ==> !p.legal_moves().contains(
                    (#[trigger] candidates[i]).mv,
                ),
        },
    decreases candidates.len() - k,
{
    if k < candidates.len() {
        lemma_first_legal(p, candidates, k + 1);
        if p.legal_moves().contains(candidates[k as int].mv) {
            assert(candidates[k as int] == first_legal(p, candidates, k)->0);
        }
    }
}

/// Of candidates in the order in which they are written, the pick is a legal
/// one than which no legal one is heavier; there is none exactly if no
/// candidate is legal.
pub proof fn the_heaviest_legal_candidate_is_picked(
    p: PositionView,
    candidates: Seq<BookCandidate>,
)
    ensures
        match first_legal(p, artifact::heaviest_first(candidates), 0) {
            Some(picked) => p.legal_moves().contains(picked.mv) && candidates.contains(picked)
                && forall|i: int|
                0 <= i < candidates.len() && p.legal_moves().contains(
                    (#[trigger] candidates[i]).mv,
                ) ==> candidates[i].weight <= picked.weight,
            None => forall|i: int|
                0 <= i < candidates.len() ==> !p.legal_moves().contains(
                    (#[trigger] candidates[i]).mv,
                ),
        },
{
    let sorted = artifact::heaviest_first(candidates);
    artifact_laws::candidates_are_sorted_by_weight(candidates);
    lemma_first_legal(p, sorted, 0);
    assert forall|i: int| 0 <= i < candidates.len() implies exists|j: int|
        0 <= j < sorted.len() && sorted[j] == #[trigger] candidates[i] by {
        vstd::seq_lib::to_multiset_contains(candidates, candidates[i]);
        vstd::seq_lib::to_multiset_contains(sorted, candidates[i]);
        assert(candidates.contains(candidates[i]));
    }
    if let Some(picked) = first_legal(p, sorted, 0) {
        vstd::seq_lib::to_multiset_contains(sorted, picked);
        vstd::seq_lib::to_multiset_contains(candidates, picked);
    }
}

/// A book that was written and read again knows, for every position, the same
/// candidates as before, heaviest first.
pub proof fn a_book_survives_writing_and_reading(entries: Seq<EntryView>)
    requires
        artifact::countable(entries),
        forall|i: int| 0 <= i < entries.len() ==> artifact_laws::all_moves_well_formed(
            (#[trigger] entries[i]).candidates,
        ),
    ensures
        artifact::read_book(artifact::written_book(entries)) matches Ok(read) && indexed(read)
            == indexed(entries).map_values(
            |candidates: Seq<BookCandidate>| artifact::heaviest_first(candidates),
        ),
{
    artifact_laws::a_written_book_reads_back(entries);
    lemma_indexed_arranged(entries);
}

proof fn lemma_indexed_arranged(entries: Seq<EntryView>)
    ensures
        indexed(artifact_laws::arranged(entries)) == indexed(entries).map_values(
            |candidates: Seq<BookCandidate>| artifact::heaviest_first(candidates),
        ),
    decreases entries.len(),
{
    let all = artifact_laws::arranged(entries);
    if entries.len() > 0 {
        lemma_indexed_arranged(entries.drop_last());
        assert(all.drop_last() =~= artifact_laws::arranged(entries.drop_last()));
    }
    assert(indexed(all) =~= indexed(entries).map_values(
        |candidates: Seq<BookCandidate>| artifact::heaviest_first(candidates),
    ));
}

} // verus!
