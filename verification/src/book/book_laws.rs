//! What the books hold: the steps of the Cow, where numbers stand in an artifact,
//! and which of several entries counts.

use super::artifact::{self, BookCandidate, EntryView};
use super::experience;
use crate::chess::moves::{Move, MoveFlag};
use crate::chess::piece::{Color, PieceKind};
use crate::chess::position::PositionView;
use vstd::prelude::*;

verus! {

broadcast use {crate::chess::moves::lemma_move_squares, crate::chess::moves::move_round_trip};

/// The Cow is built in six steps: the two centre pawns go one square ahead, the two
/// knights go behind them, and from there on to the third rank, outside the bishops'
/// files. Black's steps are White's, seen from the other side of the board.
pub proof fn the_steps_of_the_cow(k: int)
    requires
        0 <= k < 6,
    ensures
        super::cow_steps(Color::White).len() == 6,
        super::cow_steps(Color::Black).len() == 6,
        ({
            let (kind, from, to) = super::cow_steps(Color::White)[k];
            let (black_kind, black_from, black_to) = super::cow_steps(Color::Black)[k];
            let ends = super::cow_steps(Color::White);
            &&& black_kind == kind
            &&& black_from == from % 8 + 8 * (7 - from / 8)
            &&& black_to == to % 8 + 8 * (7 - to / 8)
            &&& k < 2 ==> kind == PieceKind::Pawn && to == from + 8 && from / 8 == 1
            &&& k >= 2 ==> kind == PieceKind::Knight
            &&& k == 0 ==> from % 8 == 4
            &&& k == 1 ==> from % 8 == 3
            &&& k == 2 ==> from == 6 && to == ends[0].1
            &&& k == 3 ==> from == 1 && to == ends[1].1
            &&& k == 4 ==> from == ends[2].2 && to == from + 10
            &&& k == 5 ==> from == ends[3].2 && to == from + 6
        }),
{
}

/// Whatever the Cow offers is legal, neither promotes nor castles, and is one of the
/// six steps, all of whose earlier ones are past.
pub proof fn the_cow_offers_its_steps(p: PositionView, k: nat)
    requires
        k <= 6,
    ensures
        super::cow_offer(p, k) matches Some(mv) ==> {
            &&& p.legal_moves().contains(mv)
            &&& mv.kind() == MoveFlag::Quiet
            &&& exists|j: int|
                {
                    &&& k <= j < 6
                    &&& mv.src() == (#[trigger] super::cow_steps(p.side)[j]).1
                    &&& mv.dst() == super::cow_steps(p.side)[j].2
                    &&& super::cow_step_is_open(p, j)
                    &&& forall|i: int| k <= i < j ==> #[trigger] super::cow_step_is_past(p, i)
                }
        },
    decreases 6 - k,
{
    if k < 6 {
        if super::cow_step_is_past(p, k as int) {
            the_cow_offers_its_steps(p, k + 1);
            if let Some(mv) = super::cow_offer(p, k + 1) {
                let j = choose|j: int|
                    {
                        &&& k + 1 <= j < 6
                        &&& mv.src() == (#[trigger] super::cow_steps(p.side)[j]).1
                        &&& mv.dst() == super::cow_steps(p.side)[j].2
                        &&& super::cow_step_is_open(p, j)
                        &&& forall|i: int|
                            k + 1 <= i < j ==> #[trigger] super::cow_step_is_past(p, i)
                    };
                assert(k <= j < 6 && mv.src() == super::cow_steps(p.side)[j].1);
            }
        } else {
            let step = super::cow_steps(p.side)[k as int];
            assert(0 <= step.1 < 64 && 0 <= step.2 < 64);
        }
    }
}

/// Of several entries for one key the last one counts.
pub proof fn the_last_entry_counts(entries: Seq<EntryView>, k: int)
    requires
        0 <= k < entries.len(),
        forall|j: int| k < j < entries.len() ==> (#[trigger] entries[j]).key != entries[k].key,
    ensures
        experience::indexed(entries).dom().contains(entries[k].key),
        experience::indexed(entries)[entries[k].key] == entries[k].candidates,
    decreases entries.len(),
{
    let rest = entries.drop_last();
    let last = entries.len() - 1;
    if k < last {
        assert(entries[last].key != entries[k].key);
        assert forall|j: int| k < j < rest.len() implies (#[trigger] rest[j]).key
            != rest[k].key by {
            assert(entries[j].key != entries[k].key);
        }
        the_last_entry_counts(rest, k);
    }
}

/// No key is known that no entry has.
pub proof fn other_keys_are_unknown(entries: Seq<EntryView>, key: u64)
    requires
        forall|k: int| 0 <= k < entries.len() ==> (#[trigger] entries[k]).key != key,
    ensures
        !experience::indexed(entries).dom().contains(key),
    decreases entries.len(),
{
    if entries.len() > 0 {
        let rest = entries.drop_last();
        assert(entries[entries.len() - 1].key != key);
        assert forall|k: int| 0 <= k < rest.len() implies (#[trigger] rest[k]).key != key by {
            assert(entries[k].key != key);
        }
        other_keys_are_unknown(rest, key);
    }
}

/// Numbers are written lowest byte first, in as many bytes as the field is wide.
pub proof fn numbers_are_written_lowest_byte_first(n: nat, width: nat, k: int)
    requires
        0 <= k < width,
    ensures
        artifact::digits(n, width).len() == width,
        artifact::digits(n, width)[0] == n % 256,
        artifact::digits(n, width)[k] == (n / vstd::arithmetic::power::pow(256, k as nat) as nat)
            % 256,
    decreases width,
{
    reveal(vstd::arithmetic::power::pow);
    lemma_digits_len(n, width);
    let rest = artifact::digits(n / 256, (width - 1) as nat);
    let all = artifact::digits(n, width);
    assert(all == seq![(n % 256) as u8] + rest);
    if k == 0 {
        assert(n / 1 == n);
    } else {
        numbers_are_written_lowest_byte_first(n / 256, (width - 1) as nat, k - 1);
        let p = vstd::arithmetic::power::pow(256, (k - 1) as nat);
        vstd::arithmetic::power::lemma_pow_positive(256, (k - 1) as nat);
        assert(vstd::arithmetic::power::pow(256, k as nat) == 256 * p);
        vstd::arithmetic::div_mod::lemma_div_denominator(n as int, 256, p);
        assert(all[k] == rest[k - 1]);
    }
}

proof fn lemma_digits_len(n: nat, width: nat)
    ensures
        artifact::digits(n, width).len() == width,
    decreases width,
{
    if width > 0 {
        lemma_digits_len(n / 256, (width - 1) as nat);
    }
}

/// A candidate takes eleven bytes: the squares that the move starts from and goes to,
/// its flag, the weight, the games and the score, each of the last three lowest byte
/// first.
pub proof fn how_a_candidate_is_written(candidate: BookCandidate)
    ensures
        ({
            let bytes = artifact::written_candidate(candidate);
            &&& bytes.len() == 11
            &&& bytes[0] == candidate.mv.src()
            &&& bytes[1] == candidate.mv.dst()
            &&& bytes[2] == match candidate.mv.kind() {
                MoveFlag::Quiet => 0int,
                MoveFlag::DoublePawnPush => 1,
                MoveFlag::EnPassant => 2,
                MoveFlag::CastleKingside => 3,
                MoveFlag::CastleQueenside => 4,
                MoveFlag::PromoteKnight => 5,
                MoveFlag::PromoteBishop => 6,
                MoveFlag::PromoteRook => 7,
                MoveFlag::PromoteQueen => 8,
            }
            &&& bytes[3] + 256 * bytes[4] == candidate.weight
            &&& bytes[5] + 256 * bytes[6] + 65536 * bytes[7] + 16777216 * bytes[8]
                == candidate.games
            &&& bytes[9] + 256 * bytes[10] == candidate.score_per_mille
        }),
{
    let bytes = artifact::written_candidate(candidate);
    let w = candidate.weight as nat;
    let g = candidate.games as nat;
    let s = candidate.score_per_mille as nat;
    lemma_digits_len(w, 2);
    lemma_digits_len(g, 4);
    lemma_digits_len(s, 2);
    assert(artifact::digits(w, 2)[0] == w % 256 && artifact::digits(w, 2)[1] == w / 256) by {
        reveal_with_fuel(artifact::digits, 3);
    }
    assert(artifact::digits(s, 2)[0] == s % 256 && artifact::digits(s, 2)[1] == s / 256) by {
        reveal_with_fuel(artifact::digits, 3);
    }
    assert(artifact::digits(g, 4)[0] == g % 256 && artifact::digits(g, 4)[1] == g / 256 % 256
        && artifact::digits(g, 4)[2] == g / 256 / 256 % 256 && artifact::digits(g, 4)[3] == g / 256
        / 256 / 256) by {
        reveal_with_fuel(artifact::digits, 5);
    }
    assert(bytes[3] == artifact::digits(w, 2)[0] && bytes[4] == artifact::digits(w, 2)[1]);
    assert(bytes[5] == artifact::digits(g, 4)[0] && bytes[6] == artifact::digits(g, 4)[1]
        && bytes[7] == artifact::digits(g, 4)[2] && bytes[8] == artifact::digits(g, 4)[3]);
    assert(bytes[9] == artifact::digits(s, 2)[0] && bytes[10] == artifact::digits(s, 2)[1]);
}

} // verus!
