//! Reading back what was written: the FEN round trip.

use super::castling::CastlingRights;
use super::fen::{self, FenErrorView, Row};
use super::piece::{Color, Piece};
use super::position::PositionView;
use crate::text;
use vstd::prelude::*;

verus! {

/// A character that can occur within a FEN field other than the separators.
pub open spec fn plain(ch: char) -> bool {
    !text::is_space(ch) && ch != '/'
}

/// Whether a text consists of such characters.
pub open spec fn all_plain(s: Seq<char>) -> bool {
    forall|k: int| 0 <= k < s.len() ==> plain(#[trigger] s[k])
}

proof fn lemma_small_decimal(n: nat)
    requires
        1 <= n <= 8,
    ensures
        text::decimal(n) == seq![text::digit(n)],
        text::is_digit(text::digit(n)),
        text::digit_value(text::digit(n)) == n,
{
}

proof fn lemma_letter(piece: Piece)
    ensures
        fen::lettered_piece(fen::piece_letter(piece)) == Some(piece),
        !text::is_digit(fen::piece_letter(piece)),
        plain(fen::piece_letter(piece)),
{
}

/// Reading the text of a row gives back the row.
proof fn lemma_row(row: Row, run: nat, acc: Row, rank: nat)
    requires
        acc.len() + run + row.len() == 8,
    ensures
        fen::parse_row(fen::row_text(row, run), acc, rank) == Ok::<Row, FenErrorView>(
            acc + fen::gap(run) + row,
        ),
        all_plain(fen::row_text(row, run)),
        row.len() + run > 0 ==> fen::row_text(row, run).len() > 0,
    decreases row.len(),
{
    let s = fen::row_text(row, run);
    let mid = acc + fen::gap(run);
    if run > 0 {
        lemma_small_decimal(run);
    }
    if row.len() == 0 {
        assert(mid + row =~= mid);
        if run > 0 {
            assert(s =~= seq![text::digit(run)]);
            assert(s.drop_first() =~= Seq::<char>::empty());
            assert(fen::parse_row(s.drop_first(), mid, rank) == Ok::<Row, FenErrorView>(mid));
        } else {
            assert(mid =~= acc);
            assert(s =~= Seq::<char>::empty());
        }
    } else {
        let rest = row.drop_first();
        match row[0] {
            None => {
                lemma_row(rest, run + 1, acc, rank);
                assert(acc + fen::gap(run + 1) + rest =~= mid + row);
            },
            Some(piece) => {
                lemma_letter(piece);
                let next = mid.push(Some(piece));
                lemma_row(rest, 0, next, rank);
                let tail = fen::row_text(rest, 0);
                let letter = fen::piece_letter(piece);
                let from_letter = seq![letter] + tail;
                assert(next + fen::gap(0) + rest =~= mid + row);
                assert(from_letter.drop_first() =~= tail);
                assert(fen::parse_row(from_letter, mid, rank) == fen::parse_row(tail, next, rank));
                if run > 0 {
                    assert(s =~= seq![text::digit(run)] + from_letter);
                    assert(s.drop_first() =~= from_letter);
                } else {
                    assert(mid =~= acc);
                    assert(s =~= from_letter);
                }
            },
        }
    }
}

proof fn lemma_rows(p: PositionView, n: nat)
    requires
        p.board.len() == 64,
        n <= 8,
    ensures
        fen::parse_rows(p.rank_texts(), n) == Ok::<Seq<Row>, FenErrorView>(
            Seq::new(n, |k: int| p.row(7 - k)),
        ),
    decreases n,
{
    if n > 0 {
        lemma_rows(p, (n - 1) as nat);
        let row = p.row(8 - n);
        lemma_row(row, 0, Seq::empty(), (9 - n) as nat);
        assert(Seq::<Option<Piece>>::empty() + fen::gap(0) + row =~= row);
        assert(p.rank_texts()[n - 1] == fen::row_text(row, 0));
        assert(Seq::new((n - 1) as nat, |k: int| p.row(7 - k)).push(row) =~= Seq::new(
            n,
            |k: int| p.row(7 - k),
        ));
    } else {
        assert(Seq::new(0, |k: int| p.row(7 - k)) =~= Seq::<Row>::empty());
    }
}

proof fn lemma_join_no_space(parts: Seq<Seq<char>>)
    requires
        forall|i: int| 0 <= i < parts.len() ==> all_plain(#[trigger] parts[i]),
    ensures
        forall|k: int|
            0 <= k < text::join(parts, '/').len() ==> !text::is_space(
                #[trigger] text::join(parts, '/')[k],
            ),
    decreases parts.len(),
{
    if parts.len() == 1 {
        assert(all_plain(parts[0]));
    } else if parts.len() > 1 {
        let rest = parts.drop_first();
        assert forall|i: int| 0 <= i < rest.len() implies all_plain(#[trigger] rest[i]) by {
            assert(rest[i] == parts[i + 1]);
        }
        lemma_join_no_space(rest);
        let head = parts[0].push('/');
        assert(all_plain(parts[0]));
        assert forall|k: int| 0 <= k < text::join(parts, '/').len() implies !text::is_space(
            #[trigger] text::join(parts, '/')[k],
        ) by {
            if k < parts[0].len() {
                assert(text::join(parts, '/')[k] == parts[0][k]);
            } else if k >= head.len() {
                assert(text::join(parts, '/')[k] == text::join(rest, '/')[k - head.len()]);
            }
        }
    }
}

proof fn lemma_placement(p: PositionView)
    requires
        p.board.len() == 64,
    ensures
        fen::parse_board(text::join(p.rank_texts(), '/')) == Ok::<
            Seq<Option<Piece>>,
            FenErrorView,
        >(p.board),
        text::join(p.rank_texts(), '/').len() > 0,
        forall|k: int|
            0 <= k < text::join(p.rank_texts(), '/').len() ==> !text::is_space(
                #[trigger] text::join(p.rank_texts(), '/')[k],
            ),
{
    let texts = p.rank_texts();
    assert forall|i: int| 0 <= i < texts.len() implies all_plain(#[trigger] texts[i])
        && texts[i].len() > 0 by {
        lemma_row(p.row(7 - i), 0, Seq::empty(), 1);
    }
    assert forall|i: int, k: int|
        0 <= i < texts.len() && 0 <= k < texts[i].len() implies #[trigger] texts[i][k] != '/' by {
        assert(all_plain(texts[i]));
        assert(plain(texts[i][k]));
    }
    text::split_undoes_join(texts, '/');
    lemma_rows(p, 8);
    let rows = Seq::new(8, |k: int| p.row(7 - k));
    assert(fen::board_of(rows) =~= p.board);
    lemma_join_no_space(texts);
    assert(text::join(texts, '/').len() > 0);
}

proof fn lemma_rights(rights: CastlingRights)
    ensures
        fen::parse_rights(fen::rights_text(rights)) == Ok::<CastlingRights, FenErrorView>(rights),
        fen::rights_text(rights).len() > 0,
        all_plain(fen::rights_text(rights)),
{
    let s = fen::rights_text(rights);
    if rights != CastlingRights::nothing() {
        assert(s[0] != '-');
        assert(s != seq!['-']);
        let a0 = s;
        let a1 = a0.drop_first();
        let a2 = a1.drop_first();
        let a3 = a2.drop_first();
        reveal_with_fuel(fen::parse_letters, 5);
    }
}

proof fn lemma_target(ep: Option<int>)
    requires
        ep matches Some(i) ==> 0 <= i < 64,
    ensures
        fen::parse_target(fen::target_text(ep)) == Ok::<Option<int>, FenErrorView>(ep),
        fen::target_text(ep).len() > 0,
        all_plain(fen::target_text(ep)),
{
    if let Some(i) = ep {
        super::square::square_name_round_trip(i);
        assert(fen::target_text(ep).len() == 2);
        assert(fen::target_text(ep) != seq!['-']);
    }
}

proof fn lemma_number(n: u32)
    ensures
        text::parsed_number(text::decimal(n as nat), u32::MAX as nat) == Some(n as nat),
        text::decimal(n as nat).len() > 0,
        all_plain(text::decimal(n as nat)),
{
    text::decimal_round_trip(n as nat, u32::MAX as nat);
    text::lemma_decimal(n as nat);
    let s = text::decimal(n as nat);
    assert forall|k: int| 0 <= k < s.len() implies plain(#[trigger] s[k]) by {
        assert(text::is_digit(s[k]));
    }
}

/// Writing a position as a FEN string and reading that string gives back the
/// same position, clocks and all. Only a fullmove number of zero is left out:
/// FEN numbers full moves from one.
pub proof fn fen_round_trip(p: PositionView)
    requires
        p.valid(),
        p.full > 0,
    ensures
        PositionView::parse(p.fen()) == Ok::<PositionView, FenErrorView>(p),
{
    let fields = p.fen_fields();
    lemma_placement(p);
    lemma_rights(p.rights);
    lemma_target(p.ep);
    lemma_number(p.half);
    lemma_number(p.full);
    assert forall|i: int, k: int|
        0 <= i < fields.len() && 0 <= k < fields[i].len() implies !text::is_space(
        #[trigger] fields[i][k],
    ) by {
        if i == 1 {
        } else if i == 2 {
            assert(all_plain(fields[2]));
            assert(plain(fields[2][k]));
        } else if i == 3 {
            assert(plain(fields[3][k]));
        } else if i == 4 {
            assert(plain(fields[4][k]));
        } else if i == 5 {
            assert(plain(fields[5][k]));
        }
    }
    text::words_undo_join(fields);
    assert(fen::parse_side(fen::side_text(p.side)) == Ok::<Color, FenErrorView>(p.side)) by {
        assert(seq!['b'][0] != seq!['w'][0]);
    }
}

} // verus!
