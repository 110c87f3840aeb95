//! What writing a book and reading it again amounts to.

use super::artifact::{
    self, BookCandidate, EntryView, CANDIDATE_BYTES, ENTRY_HEADER_BYTES, FORMAT_VERSION,
    HEADER_BYTES, MAGIC,
};
use super::key::KEY_SCHEME_VERSION;
use vstd::prelude::*;

verus! {

broadcast use crate::chess::moves::lemma_move_squares;

/// Whether the moves of all candidates are moves that can be written down.
pub open spec fn all_moves_well_formed(candidates: Seq<BookCandidate>) -> bool {
    forall|k: int| 0 <= k < candidates.len() ==> (#[trigger] candidates[k]).mv.well_formed()
}

/// The entries with their candidates heaviest first.
pub open spec fn arranged(entries: Seq<EntryView>) -> Seq<EntryView> {
    entries.map_values(
        |entry: EntryView|
            EntryView {
                key: entry.key,
                candidates: artifact::heaviest_first(entry.candidates),
            },
    )
}

/// Whether `part` stands in `bytes` from `at` on.
spec fn stands_at(bytes: Seq<u8>, at: int, part: Seq<u8>) -> bool {
    0 <= at && at + part.len() <= bytes.len() && bytes.subrange(at, at + part.len()) == part
}

/// What stands somewhere stands there piece by piece.
proof fn lemma_parts(bytes: Seq<u8>, at: int, first: Seq<u8>, second: Seq<u8>)
    requires
        stands_at(bytes, at, first + second),
    ensures
        stands_at(bytes, at, first),
        stands_at(bytes, at + first.len(), second),
{
    let whole = bytes.subrange(at, at + (first + second).len());
    assert(whole.take(first.len() as int) =~= first);
    assert(whole.skip(first.len() as int) =~= second);
    assert(bytes.subrange(at, at + first.len()) =~= whole.take(first.len() as int));
    assert(bytes.subrange(at + first.len(), at + first.len() + second.len()) =~= whole.skip(
        first.len() as int,
    ));
}

/// A number that was written is the number that is read.
proof fn lemma_number_reads_back(bytes: Seq<u8>, at: int, n: nat, width: nat)
    requires
        stands_at(bytes, at, artifact::digits(n, width)),
        n < artifact::capacity(width),
    ensures
        artifact::field(bytes, at, width as int) == n,
        at + width <= bytes.len(),
{
    artifact::lemma_digits(n, width);
}

/// A candidate that was written is the candidate that is read.
proof fn lemma_candidate_reads_back(bytes: Seq<u8>, at: int, candidate: BookCandidate)
    requires
        stands_at(bytes, at, artifact::written_candidate(candidate)),
        candidate.mv.well_formed(),
    ensures
        artifact::read_candidate(bytes, at) == Ok::<BookCandidate, artifact::FormatError>(candidate),
{
    let mv = candidate.mv;
    let squares = seq![mv.src() as u8, mv.dst() as u8, mv.kind().code() as u8];
    let weight = artifact::digits(candidate.weight as nat, 2);
    let games = artifact::digits(candidate.games as nat, 4);
    let score = artifact::digits(candidate.score_per_mille as nat, 2);
    artifact::lemma_capacities();
    artifact::lemma_digits(candidate.weight as nat, 2);
    artifact::lemma_digits(candidate.games as nat, 4);
    artifact::lemma_digits(candidate.score_per_mille as nat, 2);
    lemma_parts(bytes, at, squares + weight + games, score);
    lemma_parts(bytes, at, squares + weight, games);
    lemma_parts(bytes, at, squares, weight);
    lemma_number_reads_back(bytes, at + 3, candidate.weight as nat, 2);
    lemma_number_reads_back(bytes, at + 5, candidate.games as nat, 4);
    lemma_number_reads_back(bytes, at + 9, candidate.score_per_mille as nat, 2);
    let read = bytes.subrange(at, at + 3);
    assert(read[0] == bytes[at] && read[1] == bytes[at + 1] && read[2] == bytes[at + 2]);
    crate::chess::moves::move_is_its_parts(mv);
}

proof fn lemma_candidates_len(candidates: Seq<BookCandidate>)
    ensures
        artifact::written_candidates(candidates).len() == CANDIDATE_BYTES * candidates.len(),
    decreases candidates.len(),
{
    if candidates.len() > 0 {
        let last = candidates.last();
        lemma_candidates_len(candidates.drop_last());
        artifact::lemma_digits_len(last.weight as nat, 2);
        artifact::lemma_digits_len(last.games as nat, 4);
        artifact::lemma_digits_len(last.score_per_mille as nat, 2);
    }
}

/// What starts with some candidates starts with the first of them.
proof fn lemma_first_candidates(bytes: Seq<u8>, at: int, candidates: Seq<BookCandidate>, k: int)
    requires
        stands_at(bytes, at, artifact::written_candidates(candidates)),
        0 <= k <= candidates.len(),
    ensures
        stands_at(bytes, at, artifact::written_candidates(candidates.take(k))),
    decreases candidates.len(),
{
    if k == candidates.len() {
        assert(candidates.take(k) =~= candidates);
    } else {
        let shorter = candidates.drop_last();
        lemma_parts(
            bytes,
            at,
            artifact::written_candidates(shorter),
            artifact::written_candidate(candidates.last()),
        );
        lemma_first_candidates(bytes, at, shorter, k);
        assert(shorter.take(k) =~= candidates.take(k));
    }
}

/// With the first `k` candidates read, the rest of them are read too.
proof fn lemma_candidates_read_back(bytes: Seq<u8>, at: int, candidates: Seq<BookCandidate>, k: int)
    requires
        stands_at(bytes, at, artifact::written_candidates(candidates)),
        all_moves_well_formed(candidates),
        0 <= k <= candidates.len(),
    ensures
        artifact::read_candidates(
            bytes,
            at + CANDIDATE_BYTES * k,
            (candidates.len() - k) as nat,
            candidates.take(k),
        ) == Ok::<Seq<BookCandidate>, artifact::FormatError>(candidates),
    decreases candidates.len() - k,
{
    if k == candidates.len() {
        assert(candidates.take(k) =~= candidates);
    } else {
        let longer = candidates.take(k + 1);
        lemma_first_candidates(bytes, at, candidates, k + 1);
        assert(longer.drop_last() =~= candidates.take(k));
        lemma_parts(
            bytes,
            at,
            artifact::written_candidates(longer.drop_last()),
            artifact::written_candidate(candidates[k]),
        );
        lemma_candidates_len(candidates.take(k));
        lemma_candidate_reads_back(bytes, at + CANDIDATE_BYTES * k, candidates[k]);
        assert(candidates.take(k).push(candidates[k]) =~= longer);
        lemma_candidates_read_back(bytes, at, candidates, k + 1);
    }
}

/// Where a candidate is inserted, everything before is at least as heavy and
/// everything behind is lighter.
proof fn lemma_place(sorted: Seq<BookCandidate>, weight: u16)
    ensures
        artifact::place(sorted, weight) <= sorted.len(),
        forall|k: int|
            artifact::place(sorted, weight) <= k < sorted.len() ==> (#[trigger] sorted[k]).weight
                < weight,
        artifact::place(sorted, weight) > 0 ==> sorted[artifact::place(sorted, weight) - 1].weight
            >= weight,
    decreases sorted.len(),
{
    if sorted.len() > 0 && sorted.last().weight < weight {
        let rest = sorted.drop_last();
        lemma_place(rest, weight);
        assert forall|k: int| artifact::place(sorted, weight) <= k < sorted.len() implies (
        #[trigger] sorted[k]).weight < weight by {
            if k < rest.len() {
                assert(rest[k] == sorted[k]);
            }
        }
    }
}

/// Whether no candidate is heavier than one before it.
pub open spec fn descending(candidates: Seq<BookCandidate>) -> bool {
    forall|i: int, j: int|
        0 <= i <= j < candidates.len() ==> (#[trigger] candidates[i]).weight >= (
        #[trigger] candidates[j]).weight
}

/// Putting candidates heaviest first sorts them and neither loses nor adds one.
pub proof fn candidates_are_sorted_by_weight(candidates: Seq<BookCandidate>)
    ensures
        descending(artifact::heaviest_first(candidates)),
        artifact::heaviest_first(candidates).to_multiset() == candidates.to_multiset(),
        artifact::heaviest_first(candidates).len() == candidates.len(),
    decreases candidates.len(),
{
    broadcast use vstd::seq_lib::group_to_multiset_ensures;

    if candidates.len() > 0 {
        let rest = candidates.drop_last();
        let last = candidates.last();
        candidates_are_sorted_by_weight(rest);
        let sorted = artifact::heaviest_first(rest);
        let at = artifact::place(sorted, last.weight) as int;
        lemma_place(sorted, last.weight);
        let result = artifact::inserted(sorted, last);
        assert(result == artifact::heaviest_first(candidates));
        assert forall|i: int, j: int| 0 <= i <= j < result.len() implies (
        #[trigger] result[i]).weight >= (#[trigger] result[j]).weight by {
            if i < at && j == at {
                assert(sorted[i].weight >= sorted[at - 1].weight);
            }
        }
        assert(result.remove(at) =~= sorted);
        assert(candidates =~= rest.push(last));
        assert(result.to_multiset() =~= sorted.to_multiset().insert(last));
        assert(candidates.to_multiset() =~= rest.to_multiset().insert(last));
    }
}

proof fn lemma_sorted_moves_well_formed(candidates: Seq<BookCandidate>)
    requires
        all_moves_well_formed(candidates),
    ensures
        all_moves_well_formed(artifact::heaviest_first(candidates)),
{
    broadcast use vstd::seq_lib::group_to_multiset_ensures;

    let sorted = artifact::heaviest_first(candidates);
    candidates_are_sorted_by_weight(candidates);
    assert forall|k: int| 0 <= k < sorted.len() implies (#[trigger] sorted[k]).mv.well_formed() by {
        assert(sorted.contains(sorted[k]));
        assert(sorted.to_multiset().count(sorted[k]) > 0);
        assert(candidates.contains(sorted[k]));
    }
}

/// An entry that was written is the entry that is read.
proof fn lemma_entry_reads_back(bytes: Seq<u8>, at: int, entry: EntryView)
    requires
        stands_at(bytes, at, artifact::written_entry(entry)),
        entry.candidates.len() <= u16::MAX,
        all_moves_well_formed(entry.candidates),
    ensures
        artifact::read_entry(bytes, at) == Ok::<EntryView, artifact::FormatError>(
            EntryView {
                key: entry.key,
                candidates: artifact::heaviest_first(entry.candidates),
            },
        ),
        artifact::written_entry(entry).len() == ENTRY_HEADER_BYTES + CANDIDATE_BYTES
            * entry.candidates.len(),
        artifact::heaviest_first(entry.candidates).len() == entry.candidates.len(),
{
    let key = artifact::digits(entry.key as nat, 8);
    let count = artifact::digits(entry.candidates.len(), 2);
    let sorted = artifact::heaviest_first(entry.candidates);
    let rest = artifact::written_candidates(sorted);
    artifact::lemma_capacities();
    artifact::lemma_digits(entry.key as nat, 8);
    artifact::lemma_digits(entry.candidates.len(), 2);
    candidates_are_sorted_by_weight(entry.candidates);
    lemma_sorted_moves_well_formed(entry.candidates);
    lemma_candidates_len(sorted);
    lemma_parts(bytes, at, key + count, rest);
    lemma_parts(bytes, at, key, count);
    lemma_number_reads_back(bytes, at, entry.key as nat, 8);
    lemma_number_reads_back(bytes, at + 8, entry.candidates.len(), 2);
    lemma_candidates_read_back(bytes, at + 10, sorted, 0);
    assert(sorted.take(0) =~= Seq::<BookCandidate>::empty());
}

/// What starts with some entries starts with the first of them.
proof fn lemma_first_entries(bytes: Seq<u8>, at: int, entries: Seq<EntryView>, k: int)
    requires
        stands_at(bytes, at, artifact::written_entries(entries)),
        0 <= k <= entries.len(),
    ensures
        stands_at(bytes, at, artifact::written_entries(entries.take(k))),
    decreases entries.len(),
{
    if k == entries.len() {
        assert(entries.take(k) =~= entries);
    } else {
        let shorter = entries.drop_last();
        lemma_parts(
            bytes,
            at,
            artifact::written_entries(shorter),
            artifact::written_entry(entries.last()),
        );
        lemma_first_entries(bytes, at, shorter, k);
        assert(shorter.take(k) =~= entries.take(k));
    }
}

/// With the first `k` entries read, the rest of them are read too.
proof fn lemma_entries_read_back(bytes: Seq<u8>, at: int, entries: Seq<EntryView>, k: int)
    requires
        stands_at(bytes, at, artifact::written_entries(entries)),
        artifact::countable(entries),
        forall|i: int| 0 <= i < entries.len() ==> all_moves_well_formed(
            (#[trigger] entries[i]).candidates,
        ),
        0 <= k <= entries.len(),
    ensures
        artifact::read_entries(
            bytes,
            at + artifact::written_entries(entries.take(k)).len(),
            (entries.len() - k) as nat,
            arranged(entries).take(k),
        ) == Ok::<Seq<EntryView>, artifact::FormatError>(arranged(entries)),
    decreases entries.len() - k,
{
    if k == entries.len() {
        assert(arranged(entries).take(k) =~= arranged(entries));
    } else {
        let longer = entries.take(k + 1);
        lemma_first_entries(bytes, at, entries, k + 1);
        assert(longer.drop_last() =~= entries.take(k));
        lemma_parts(
            bytes,
            at,
            artifact::written_entries(longer.drop_last()),
            artifact::written_entry(entries[k]),
        );
        let here = at + artifact::written_entries(entries.take(k)).len();
        lemma_entry_reads_back(bytes, here, entries[k]);
        assert(arranged(entries).take(k).push(arranged(entries)[k]) =~= arranged(entries).take(
            k + 1,
        ));
        lemma_entries_read_back(bytes, at, entries, k + 1);
    }
}

/// Reading a written book gives back its entries, each with its candidates
/// heaviest first.
pub proof fn a_written_book_reads_back(entries: Seq<EntryView>)
    requires
        artifact::countable(entries),
        forall|i: int| 0 <= i < entries.len() ==> all_moves_well_formed(
            (#[trigger] entries[i]).candidates,
        ),
    ensures
        artifact::read_book(artifact::written_book(entries)) == Ok::<
            Seq<EntryView>,
            artifact::FormatError,
        >(arranged(entries)),
{
    let bytes = artifact::written_book(entries);
    let format = artifact::digits(FORMAT_VERSION as nat, 2);
    let scheme = artifact::digits(KEY_SCHEME_VERSION as nat, 2);
    let count = artifact::digits(entries.len(), 4);
    let rest = artifact::written_entries(entries);
    artifact::lemma_capacities();
    artifact::lemma_digits(FORMAT_VERSION as nat, 2);
    artifact::lemma_digits(KEY_SCHEME_VERSION as nat, 2);
    artifact::lemma_digits(entries.len(), 4);
    assert(bytes.subrange(0, bytes.len() as int) =~= bytes);
    lemma_parts(bytes, 0, MAGIC@ + format + scheme + count, rest);
    lemma_parts(bytes, 0, MAGIC@ + format + scheme, count);
    lemma_parts(bytes, 0, MAGIC@ + format, scheme);
    lemma_parts(bytes, 0, MAGIC@, format);
    assert(bytes.take(7) =~= bytes.subrange(0, 7));
    lemma_number_reads_back(bytes, 7, FORMAT_VERSION as nat, 2);
    lemma_number_reads_back(bytes, 9, KEY_SCHEME_VERSION as nat, 2);
    lemma_number_reads_back(bytes, 11, entries.len(), 4);
    lemma_entries_read_back(bytes, HEADER_BYTES as int, entries, 0);
    assert(entries.take(0) =~= Seq::<EntryView>::empty());
    assert(arranged(entries).take(0) =~= Seq::<EntryView>::empty());
}

} // verus!
