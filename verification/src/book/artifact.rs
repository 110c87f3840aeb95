//! The bytes of an experience book.
//!
//! All numbers are unsigned and stored lowest byte first.
//!
//! | bytes | content                    |
//! |-------|----------------------------|
//! | 7     | `BEEBOOK`                  |
//! | 2     | the format version         |
//! | 2     | the key scheme's version   |
//! | 4     | the number of entries      |
//!
//! An entry is a position's key (8 bytes), the number of its candidates (2)
//! and the candidates, heaviest first. A candidate is its move (starting
//! square, target square and flag, 1 each), its weight (2), the number of
//! games (4) and the score per mille (2). Whatever follows the last entry is
//! not looked at.

use super::key::KEY_SCHEME_VERSION;
use crate::chess::moves::{Move, MoveFlag};
use crate::chess::square::Square;
use vstd::prelude::*;

verus! {

broadcast use {crate::chess::moves::lemma_move_squares, crate::chess::moves::move_round_trip};

/// What every artifact starts with.
pub const MAGIC: [u8; 7] = [0x42, 0x45, 0x45, 0x42, 0x4F, 0x4F, 0x4B];

/// The version of the layout.
pub const FORMAT_VERSION: u16 = 1;

/// A move that a book knows for a position.
#[derive(Debug, Clone, Copy, PartialEq, Eq, Structural)]
pub struct BookCandidate {
    pub mv: Move,
    /// How strongly the book prefers the move.
    pub weight: u16,
    /// In how many games it was played.
    pub games: u32,
    /// What it scored in them, from 0 to 1000.
    pub score_per_mille: u16,
}

/// What a book knows about one position.
#[derive(Debug)]
pub struct BookEntry {
    /// The position's book key.
    pub key: u64,
    pub candidates: Vec<BookCandidate>,
}

/// What an entry is, mathematically.
#[verifier::ext_equal]
pub struct EntryView {
    pub key: u64,
    pub candidates: Seq<BookCandidate>,
}

impl View for BookEntry {
    type V = EntryView;

    open spec fn view(&self) -> EntryView {
        EntryView { key: self.key, candidates: self.candidates@ }
    }
}

/// Why bytes are not a book, or entries cannot be written as one.
#[derive(Debug, Clone, Copy, PartialEq, Eq, Structural)]
pub enum FormatError {
    /// The bytes do not start as every artifact does.
    BadMagic,
    /// The layout is of another version.
    UnsupportedFormatVersion { found: u16 },
    /// The keys are of another scheme.
    UnsupportedKeySchemeVersion { found: u16 },
    /// The bytes end early.
    Truncated,
    /// A candidate's move has a square or a flag that does not exist.
    InvalidMove,
    /// There are more entries or candidates than the layout can count.
    TooLarge,
}

/// The number that bytes stand for, lowest byte first.
pub open spec fn number(bytes: Seq<u8>) -> nat
    decreases bytes.len(),
{
    if bytes.len() == 0 {
        0
    } else {
        bytes[0] as nat + 256 * number(bytes.skip(1))
    }
}

/// The lowest `width` bytes of a number, lowest first.
pub open spec fn digits(n: nat, width: nat) -> Seq<u8>
    decreases width,
{
    if width == 0 {
        Seq::empty()
    } else {
        seq![(n % 256) as u8] + digits(n / 256, (width - 1) as nat)
    }
}

/// How many numbers `width` bytes can tell apart.
pub open spec fn capacity(width: nat) -> nat
    decreases width,
{
    if width == 0 {
        1
    } else {
        256 * capacity((width - 1) as nat)
    }
}

/// The number in the `width` bytes from `at` on.
pub open spec fn field(bytes: Seq<u8>, at: int, width: int) -> nat {
    number(bytes.subrange(at, at + width))
}

/// The number of bytes of a candidate.
pub const CANDIDATE_BYTES: usize = 11;

/// The number of bytes of an entry before its candidates.
pub const ENTRY_HEADER_BYTES: usize = 10;

/// The number of bytes before the entries.
pub const HEADER_BYTES: usize = 15;

/// The number of bytes of an entry.
pub open spec fn entry_bytes(entry: EntryView) -> int {
    ENTRY_HEADER_BYTES + CANDIDATE_BYTES * entry.candidates.len()
}

/// The candidate that starts at `at`.
pub open spec fn read_candidate(bytes: Seq<u8>, at: int) -> Result<BookCandidate, FormatError> {
    if at + CANDIDATE_BYTES > bytes.len() {
        Err(FormatError::Truncated)
    } else if bytes[at] >= 64 || bytes[at + 1] >= 64 || bytes[at + 2] > 8 {
        Err(FormatError::InvalidMove)
    } else {
        Ok(
            BookCandidate {
                mv: Move::of(
                    bytes[at] as int,
                    bytes[at + 1] as int,
                    MoveFlag::decoded(bytes[at + 2] as int),
                ),
                weight: field(bytes, at + 3, 2) as u16,
                games: field(bytes, at + 5, 4) as u32,
                score_per_mille: field(bytes, at + 9, 2) as u16,
            },
        )
    }
}

/// The `n` candidates that start at `at`, behind those already read.
pub open spec fn read_candidates(
    bytes: Seq<u8>,
    at: int,
    n: nat,
    before: Seq<BookCandidate>,
) -> Result<Seq<BookCandidate>, FormatError>
    decreases n,
{
    if n == 0 {
        Ok(before)
    } else {
        match read_candidate(bytes, at) {
            Err(error) => Err(error),
            Ok(candidate) => read_candidates(
                bytes,
                at + CANDIDATE_BYTES,
                (n - 1) as nat,
                before.push(candidate),
            ),
        }
    }
}

/// The entry that starts at `at`.
pub open spec fn read_entry(bytes: Seq<u8>, at: int) -> Result<EntryView, FormatError> {
    if at + ENTRY_HEADER_BYTES > bytes.len() {
        Err(FormatError::Truncated)
    } else {
        match read_candidates(
            bytes,
            at + ENTRY_HEADER_BYTES,
            field(bytes, at + 8, 2),
            Seq::empty(),
        ) {
            Err(error) => Err(error),
            Ok(candidates) => Ok(EntryView { key: field(bytes, at, 8) as u64, candidates }),
        }
    }
}

/// The `n` entries that start at `at`, behind those already read.
pub open spec fn read_entries(bytes: Seq<u8>, at: int, n: nat, before: Seq<EntryView>) -> Result<
    Seq<EntryView>,
    FormatError,
>
    decreases n,
{
    if n == 0 {
        Ok(before)
    } else {
        match read_entry(bytes, at) {
            Err(error) => Err(error),
            Ok(entry) => read_entries(
                bytes,
                at + entry_bytes(entry),
                (n - 1) as nat,
                before.push(entry),
            ),
        }
    }
}

/// The entries of an artifact.
pub open spec fn read_book(bytes: Seq<u8>) -> Result<Seq<EntryView>, FormatError> {
    if bytes.len() < 7 {
        Err(FormatError::Truncated)
    } else if bytes.take(7) != MAGIC@ {
        Err(FormatError::BadMagic)
    } else if bytes.len() < 9 {
        Err(FormatError::Truncated)
    } else if field(bytes, 7, 2) != FORMAT_VERSION {
        Err(FormatError::UnsupportedFormatVersion { found: field(bytes, 7, 2) as u16 })
    } else if bytes.len() < 11 {
        Err(FormatError::Truncated)
    } else if field(bytes, 9, 2) != KEY_SCHEME_VERSION {
        Err(FormatError::UnsupportedKeySchemeVersion { found: field(bytes, 9, 2) as u16 })
    } else if bytes.len() < HEADER_BYTES {
        Err(FormatError::Truncated)
    } else {
        read_entries(bytes, HEADER_BYTES as int, field(bytes, 11, 4), Seq::empty())
    }
}

/// The list with one more candidate, behind everything at least as heavy.
pub open spec fn inserted(sorted: Seq<BookCandidate>, candidate: BookCandidate) -> Seq<
    BookCandidate,
> {
    sorted.insert(place(sorted, candidate.weight) as int, candidate)
}

/// Where a candidate of the given weight is inserted.
pub open spec fn place(sorted: Seq<BookCandidate>, weight: u16) -> nat
    decreases sorted.len(),
{
    if sorted.len() == 0 {
        0
    } else if sorted.last().weight >= weight {
        sorted.len()
    } else {
        place(sorted.drop_last(), weight)
    }
}

/// The candidates heaviest first; equally heavy ones keep their order.
pub open spec fn heaviest_first(candidates: Seq<BookCandidate>) -> Seq<BookCandidate>
    decreases candidates.len(),
{
    if candidates.len() == 0 {
        Seq::empty()
    } else {
        inserted(heaviest_first(candidates.drop_last()), candidates.last())
    }
}

/// The bytes of a candidate.
pub open spec fn written_candidate(candidate: BookCandidate) -> Seq<u8> {
    seq![
        candidate.mv.src() as u8,
        candidate.mv.dst() as u8,
        candidate.mv.kind().code() as u8,
    ] + digits(candidate.weight as nat, 2) + digits(candidate.games as nat, 4) + digits(
        candidate.score_per_mille as nat,
        2,
    )
}

/// The bytes of some candidates.
pub open spec fn written_candidates(candidates: Seq<BookCandidate>) -> Seq<u8>
    decreases candidates.len(),
{
    if candidates.len() == 0 {
        Seq::empty()
    } else {
        written_candidates(candidates.drop_last()) + written_candidate(candidates.last())
    }
}

/// The bytes of an entry.
pub open spec fn written_entry(entry: EntryView) -> Seq<u8> {
    digits(entry.key as nat, 8) + digits(entry.candidates.len(), 2) + written_candidates(
        heaviest_first(entry.candidates),
    )
}

/// The bytes of some entries.
pub open spec fn written_entries(entries: Seq<EntryView>) -> Seq<u8>
    decreases entries.len(),
{
    if entries.len() == 0 {
        Seq::empty()
    } else {
        written_entries(entries.drop_last()) + written_entry(entries.last())
    }
}

/// The bytes of a book.
pub open spec fn written_book(entries: Seq<EntryView>) -> Seq<u8> {
    MAGIC@ + digits(FORMAT_VERSION as nat, 2) + digits(KEY_SCHEME_VERSION as nat, 2) + digits(
        entries.len(),
        4,
    ) + written_entries(entries)
}

/// Whether the layout can count the entries and their candidates.
pub open spec fn countable(entries: Seq<EntryView>) -> bool {
    entries.len() <= u32::MAX && forall|k: int|
        0 <= k < entries.len() ==> (#[trigger] entries[k]).candidates.len() <= u16::MAX
}

/// What some entries are, mathematically.
pub open spec fn views(entries: Seq<BookEntry>) -> Seq<EntryView> {
    entries.map_values(|entry: BookEntry| entry@)
}

pub(crate) proof fn lemma_capacities()
    ensures
        capacity(2) == 0x1_0000,
        capacity(4) == 0x1_0000_0000,
        capacity(7) == 0x100_0000_0000_0000,
        capacity(8) == 0x1_0000_0000_0000_0000,
{
    reveal_with_fuel(capacity, 9);
}

proof fn lemma_capacity_grows(a: nat, b: nat)
    requires
        a <= b,
    ensures
        0 < capacity(a) <= capacity(b),
    decreases b,
{
    if a < b {
        lemma_capacity_grows(a, (b - 1) as nat);
    } else if a > 0 {
        lemma_capacity_grows((a - 1) as nat, (a - 1) as nat);
    }
}

proof fn lemma_number_bound(bytes: Seq<u8>)
    ensures
        number(bytes) < capacity(bytes.len()),
    decreases bytes.len(),
{
    if bytes.len() > 0 {
        lemma_number_bound(bytes.skip(1));
    }
}

pub(crate) proof fn lemma_digits_len(n: nat, width: nat)
    ensures
        digits(n, width).len() == width,
    decreases width,
{
    if width > 0 {
        lemma_digits_len(n / 256, (width - 1) as nat);
    }
}

/// A number that fits is what its bytes stand for.
pub(crate) proof fn lemma_digits(n: nat, width: nat)
    requires
        n < capacity(width),
    ensures
        digits(n, width).len() == width,
        number(digits(n, width)) == n,
    decreases width,
{
    if width > 0 {
        lemma_digits(n / 256, (width - 1) as nat);
        assert(digits(n, width).skip(1) =~= digits(n / 256, (width - 1) as nat));
    }
}

/// Appends the lowest `width` bytes of a number.
fn push_number(out: &mut Vec<u8>, n: u64, width: usize)
    ensures
        final(out)@ == old(out)@ + digits(n as nat, width as nat),
{
    let mut rest: u64 = n;
    let mut left: usize = width;
    while left > 0
        invariant
            out@ + digits(rest as nat, left as nat) == old(out)@ + digits(n as nat, width as nat),
        decreases left,
    {
        let ghost before = out@;
        out.push((rest % 256) as u8);
        proof {
            assert(out@ + digits(rest as nat / 256, (left - 1) as nat) =~= before + digits(
                rest as nat,
                left as nat,
            ));
        }
        rest = rest / 256;
        left -= 1;
    }
    assert(out@ + digits(rest as nat, 0) =~= out@);
}

/// The number in the `width` bytes from `at` on.
fn number_at(bytes: &[u8], at: usize, width: usize) -> (n: u64)
    requires
        at + width <= bytes@.len(),
        width <= 8,
    ensures
        n == field(bytes@, at as int, width as int),
        n < capacity(width as nat),
{
    let len: usize = bytes.len();
    let mut n: u64 = 0;
    let mut k: usize = width;
    assert(bytes@.subrange(at + k, at + width) =~= Seq::<u8>::empty());
    while k > 0
        invariant
            k <= width,
            width <= 8,
            at + width <= len == bytes@.len(),
            n == number(bytes@.subrange(at + k, at + width)),
            n < capacity((width - k) as nat),
        decreases k,
    {
        let ghost tail = bytes@.subrange(at + k, at + width);
        proof {
            lemma_capacities();
            lemma_capacity_grows((width - k) as nat, 7);
            let longer = bytes@.subrange(at + k - 1, at + width);
            assert(longer.skip(1) =~= tail);
            lemma_number_bound(longer);
        }
        k -= 1;
        n = n * 256 + bytes[at + k] as u64;
    }
    n
}

/// Reads the candidate that starts at `at`.
fn candidate_at(bytes: &[u8], at: usize) -> (candidate: Result<BookCandidate, FormatError>)
    requires
        at <= bytes@.len(),
    ensures
        candidate == read_candidate(bytes@, at as int),
{
    if bytes.len() - at < CANDIDATE_BYTES {
        return Err(FormatError::Truncated);
    }
    let from: u8 = bytes[at];
    let to: u8 = bytes[at + 1];
    let flag: u8 = bytes[at + 2];
    if from >= 64 || to >= 64 || flag > 8 {
        return Err(FormatError::InvalidMove);
    }
    proof {
        lemma_capacities();
    }
    Ok(
        BookCandidate {
            mv: Move::new(Square::new(from), Square::new(to), MoveFlag::from_bits(flag as u16)),
            weight: number_at(bytes, at + 3, 2) as u16,
            games: number_at(bytes, at + 5, 4) as u32,
            score_per_mille: number_at(bytes, at + 9, 2) as u16,
        },
    )
}

/// Reads the `n` candidates that start at `at`.
fn candidates_at(bytes: &[u8], at: usize, n: usize) -> (candidates: Result<
    Vec<BookCandidate>,
    FormatError,
>)
    requires
        at <= bytes@.len(),
    ensures
        match read_candidates(bytes@, at as int, n as nat, Seq::empty()) {
            Ok(all) => candidates matches Ok(read) && read@ == all && all.len() == n && at
                + CANDIDATE_BYTES * n <= bytes@.len(),
            Err(error) => candidates == Err::<Vec<BookCandidate>, FormatError>(error),
        },
{
    let len: usize = bytes.len();
    let mut candidates: Vec<BookCandidate> = Vec::new();
    let mut here: usize = at;
    let mut left: usize = n;
    while left > 0
        invariant
            left <= n,
            at <= here <= len == bytes@.len(),
            here == at + CANDIDATE_BYTES * (n - left),
            candidates@.len() == n - left,
            read_candidates(bytes@, at as int, n as nat, Seq::empty()) == read_candidates(
                bytes@,
                here as int,
                left as nat,
                candidates@,
            ),
        decreases left,
    {
        match candidate_at(bytes, here) {
            Err(error) => {
                return Err(error);
            },
            Ok(candidate) => {
                candidates.push(candidate);
            },
        }
        here += CANDIDATE_BYTES;
        left -= 1;
    }
    Ok(candidates)
}

/// Reads the entry that starts at `at`.
fn entry_at(bytes: &[u8], at: usize) -> (entry: Result<BookEntry, FormatError>)
    requires
        at <= bytes@.len(),
    ensures
        match read_entry(bytes@, at as int) {
            Ok(view) => entry matches Ok(read) && read@ == view && at + entry_bytes(view)
                <= bytes@.len(),
            Err(error) => entry == Err::<BookEntry, FormatError>(error),
        },
{
    if bytes.len() - at < ENTRY_HEADER_BYTES {
        return Err(FormatError::Truncated);
    }
    proof {
        lemma_capacities();
    }
    let key: u64 = number_at(bytes, at, 8);
    let count: usize = number_at(bytes, at + 8, 2) as usize;
    match candidates_at(bytes, at + ENTRY_HEADER_BYTES, count) {
        Err(error) => Err(error),
        Ok(candidates) => Ok(BookEntry { key, candidates }),
    }
}

/// Reads the entries of an artifact, in the order in which they stand there.
/// Fails on bad magic, an unsupported format or key scheme version, or
/// truncated or malformed data; never panics on malformed input.
pub fn read(bytes: &[u8]) -> (entries: Result<Vec<BookEntry>, FormatError>)
    ensures
        match read_book(bytes@) {
            Ok(all) => entries matches Ok(read) && views(read@) == all,
            Err(error) => entries == Err::<Vec<BookEntry>, FormatError>(error),
        },
{
    if bytes.len() < 7 {
        return Err(FormatError::Truncated);
    }
    if !starts_with_magic(bytes) {
        return Err(FormatError::BadMagic);
    }
    if bytes.len() < 9 {
        return Err(FormatError::Truncated);
    }
    proof {
        lemma_capacities();
    }
    let format: u16 = number_at(bytes, 7, 2) as u16;
    if format != FORMAT_VERSION {
        return Err(FormatError::UnsupportedFormatVersion { found: format });
    }
    if bytes.len() < 11 {
        return Err(FormatError::Truncated);
    }
    let scheme: u16 = number_at(bytes, 9, 2) as u16;
    if scheme != KEY_SCHEME_VERSION {
        return Err(FormatError::UnsupportedKeySchemeVersion { found: scheme });
    }
    if bytes.len() < HEADER_BYTES {
        return Err(FormatError::Truncated);
    }
    let len: usize = bytes.len();
    let count: u32 = number_at(bytes, 11, 4) as u32;
    let mut entries: Vec<BookEntry> = Vec::new();
    let mut here: usize = HEADER_BYTES;
    let mut left: u32 = count;
    assert(views(entries@) =~= Seq::<EntryView>::empty());
    while left > 0
        invariant
            here <= len == bytes@.len(),
            read_book(bytes@) == read_entries(bytes@, here as int, left as nat, views(entries@)),
        decreases left,
    {
        let entry: BookEntry = match entry_at(bytes, here) {
            Err(error) => {
                return Err(error);
            },
            Ok(entry) => entry,
        };
        here = here + ENTRY_HEADER_BYTES + CANDIDATE_BYTES * entry.candidates.len();
        let ghost before = entries@;
        entries.push(entry);
        assert(views(entries@) =~= views(before).push(entry@));
        left -= 1;
    }
    Ok(entries)
}

/// Whether the bytes start as every artifact does.
fn starts_with_magic(bytes: &[u8]) -> (magic: bool)
    requires
        bytes@.len() >= 7,
    ensures
        magic == (bytes@.take(7) == MAGIC@),
{
    let mut k: usize = 0;
    while k < 7
        invariant
            k <= 7,
            bytes@.len() >= 7,
            forall|j: int| 0 <= j < k ==> bytes@[j] == MAGIC@[j],
        decreases 7 - k,
    {
        if bytes[k] != MAGIC[k] {
            assert(bytes@.take(7)[k as int] != MAGIC@[k as int]);
            return false;
        }
        k += 1;
    }
    assert(bytes@.take(7) =~= MAGIC@);
    true
}

/// The candidates heaviest first; equally heavy ones keep their order.
fn sorted_candidates(candidates: &Vec<BookCandidate>) -> (sorted: Vec<BookCandidate>)
    ensures
        sorted@ == heaviest_first(candidates@),
{
    let mut sorted: Vec<BookCandidate> = Vec::with_capacity(candidates.len());
    let mut k: usize = 0;
    while k < candidates.len()
        invariant
            k <= candidates.len(),
            sorted@ == heaviest_first(candidates@.take(k as int)),
        decreases candidates.len() - k,
    {
        let candidate: BookCandidate = candidates[k];
        let mut at: usize = sorted.len();
        assert(sorted@.take(at as int) =~= sorted@);
        while at > 0 && sorted[at - 1].weight < candidate.weight
            invariant
                at <= sorted@.len(),
                place(sorted@, candidate.weight) == place(
                    sorted@.take(at as int),
                    candidate.weight,
                ),
            decreases at,
        {
            assert(sorted@.take(at as int).drop_last() =~= sorted@.take(at - 1));
            at -= 1;
        }
        sorted.insert(at, candidate);
        assert(candidates@.take(k + 1).drop_last() =~= candidates@.take(k as int));
        k += 1;
    }
    assert(candidates@.take(k as int) =~= candidates@);
    sorted
}

/// Appends a candidate.
fn push_candidate(out: &mut Vec<u8>, candidate: BookCandidate)
    ensures
        final(out)@ == old(out)@ + written_candidate(candidate),
{
    out.push(candidate.mv.from().index());
    out.push(candidate.mv.to().index());
    out.push(candidate.mv.flag().to_bits() as u8);
    push_number(out, candidate.weight as u64, 2);
    push_number(out, candidate.games as u64, 4);
    push_number(out, candidate.score_per_mille as u64, 2);
    assert(out@ =~= old(out)@ + written_candidate(candidate));
}

/// Appends an entry.
fn push_entry(out: &mut Vec<u8>, entry: &BookEntry)
    ensures
        final(out)@ == old(out)@ + written_entry(entry@),
{
    push_number(out, entry.key, 8);
    push_number(out, entry.candidates.len() as u64, 2);
    let ghost before = out@;
    let sorted: Vec<BookCandidate> = sorted_candidates(&entry.candidates);
    let mut k: usize = 0;
    assert(before + written_candidates(sorted@.take(0)) =~= before);
    while k < sorted.len()
        invariant
            k <= sorted.len(),
            out@ == before + written_candidates(sorted@.take(k as int)),
        decreases sorted.len() - k,
    {
        push_candidate(out, sorted[k]);
        proof {
            let longer = sorted@.take(k + 1);
            assert(longer.drop_last() =~= sorted@.take(k as int));
            assert(out@ =~= before + written_candidates(longer));
        }
        k += 1;
    }
    assert(sorted@.take(k as int) =~= sorted@);
    assert(out@ =~= old(out)@ + written_entry(entry@));
}

/// Whether the layout can count the entries and their candidates.
fn is_countable(entries: &[BookEntry]) -> (fits: bool)
    ensures
        fits == countable(views(entries@)),
{
    if entries.len() > u32::MAX as usize {
        return false;
    }
    let ghost all = views(entries@);
    let mut k: usize = 0;
    while k < entries.len()
        invariant
            k <= entries.len(),
            entries@.len() <= u32::MAX,
            all == views(entries@),
            forall|j: int| 0 <= j < k ==> (#[trigger] all[j]).candidates.len() <= u16::MAX,
        decreases entries.len() - k,
    {
        if entries[k].candidates.len() > u16::MAX as usize {
            assert(all[k as int].candidates.len() > u16::MAX);
            return false;
        }
        k += 1;
    }
    true
}

/// Appends the bytes of a book with these entries, in their order, each with
/// its candidates heaviest first. Nothing is appended if there are too many
/// of either for the layout.
pub fn write(entries: &[BookEntry], out: &mut Vec<u8>) -> (written: Result<(), FormatError>)
    ensures
        countable(views(entries@)) ==> written is Ok && final(out)@ == old(out)@ + written_book(
            views(entries@),
        ),
        !countable(views(entries@)) ==> written == Err::<(), FormatError>(FormatError::TooLarge)
            && final(out)@ == old(out)@,
{
    if !is_countable(entries) {
        return Err(FormatError::TooLarge);
    }
    let mut k: usize = 0;
    while k < 7
        invariant
            k <= 7,
            out@ == old(out)@ + MAGIC@.take(k as int),
        decreases 7 - k,
    {
        out.push(MAGIC[k]);
        k += 1;
        assert(out@ =~= old(out)@ + MAGIC@.take(k as int));
    }
    assert(MAGIC@.take(7) =~= MAGIC@);
    push_number(out, FORMAT_VERSION as u64, 2);
    push_number(out, KEY_SCHEME_VERSION as u64, 2);
    push_number(out, entries.len() as u64, 4);
    let ghost before = out@;
    let ghost all = views(entries@);
    let mut n: usize = 0;
    assert(before + written_entries(all.take(0)) =~= before);
    while n < entries.len()
        invariant
            n <= entries.len(),
            all == views(entries@),
            out@ == before + written_entries(all.take(n as int)),
        decreases entries.len() - n,
    {
        push_entry(out, &entries[n]);
        proof {
            let longer = all.take(n + 1);
            assert(longer.drop_last() =~= all.take(n as int));
            assert(longer.last() == entries@[n as int]@);
            assert(out@ =~= before + written_entries(longer));
        }
        n += 1;
    }
    assert(all.take(n as int) =~= all);
    assert(out@ =~= old(out)@ + written_book(all));
    Ok(())
}

} // verus!
