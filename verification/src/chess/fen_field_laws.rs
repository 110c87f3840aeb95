//! What the fields of a FEN string mean.

use super::castling::CastlingRights;
use super::fen::{self, FenErrorView};
use super::piece::{Color, Piece, PieceKind};
use super::position::PositionView;
use super::square::Square;
use crate::text;
use vstd::prelude::*;

verus! {

/// The letter of a kind of piece is the first of its English name, but `n` for the
/// knight, since `k` is the king; small for Black, and capital for White.
pub proof fn letters_name_pieces(piece: Piece, ch: char)
    ensures
        fen::lettered_piece(ch) == Some(piece) <==> fen::piece_letter(piece) == ch,
        fen::lettered_piece(ch) matches Some(named) ==> {
            &&& named.color == Color::White <==> 'A' <= ch <= 'Z'
            &&& named.kind == PieceKind::Pawn <==> ch == 'P' || ch == 'p'
            &&& named.kind == PieceKind::Knight <==> ch == 'N' || ch == 'n'
            &&& named.kind == PieceKind::Bishop <==> ch == 'B' || ch == 'b'
            &&& named.kind == PieceKind::Rook <==> ch == 'R' || ch == 'r'
            &&& named.kind == PieceKind::Queen <==> ch == 'Q' || ch == 'q'
            &&& named.kind == PieceKind::King <==> ch == 'K' || ch == 'k'
        },
{
}

/// Whether a rank's text is made of letters only.
pub open spec fn all_letters(s: Seq<char>) -> bool {
    forall|k: int|
        0 <= k < s.len() ==> fen::lettered_piece(#[trigger] s[k]) is Some && !text::is_digit(s[k])
}

proof fn lemma_letters(s: Seq<char>, row: fen::Row, rank: nat)
    requires
        all_letters(s),
        row.len() + s.len() == 8,
    ensures
        fen::parse_row(s, row, rank) == Ok::<fen::Row, FenErrorView>(
            row + Seq::new(s.len(), |k: int| fen::lettered_piece(s[k])),
        ),
    decreases s.len(),
{
    let rest = s.drop_first();
    if s.len() > 0 {
        assert(all_letters(rest)) by {
            assert forall|k: int| 0 <= k < rest.len() implies fen::lettered_piece(
                #[trigger] rest[k],
            ) is Some && !text::is_digit(rest[k]) by {
                assert(rest[k] == s[k + 1]);
            }
        }
        assert(fen::lettered_piece(s[0]) is Some && !text::is_digit(s[0]));
        lemma_letters(rest, row.push(fen::lettered_piece(s[0])), rank);
        assert(row.push(fen::lettered_piece(s[0])) + Seq::new(
            rest.len(),
            |k: int| fen::lettered_piece(rest[k]),
        ) =~= row + Seq::new(s.len(), |k: int| fen::lettered_piece(s[k])));
    } else {
        assert(row + Seq::new(s.len(), |k: int| fen::lettered_piece(s[k])) =~= row);
    }
}

/// Eight letters of a rank are its pieces from the first file to the last.
pub proof fn letters_go_from_file_to_file(s: Seq<char>, rank: nat)
    requires
        s.len() == 8,
        all_letters(s),
    ensures
        fen::parse_row(s, Seq::empty(), rank) matches Ok(row) && row.len() == 8 && forall|k: int|
            0 <= k < 8 ==> #[trigger] row[k] == fen::lettered_piece(s[k]),
{
    lemma_letters(s, Seq::empty(), rank);
}

/// A digit stands for that many empty squares: reading it is reading on that many
/// files further.
pub proof fn digits_skip_squares(s: Seq<char>, row: fen::Row, rank: nat, n: nat, digit: char)
    requires
        1 <= n <= 8,
        digit as int == '0' as int + n,
    ensures
        fen::parse_row(seq![digit] + s, row, rank) == fen::parse_row(
            s,
            row + Seq::new(n, |k: int| None),
            rank,
        ),
{
    let all = seq![digit] + s;
    assert(all.drop_first() =~= s);
    assert(text::digit_value(digit) == n);
    assert(fen::gap(n) =~= Seq::new(n, |k: int| None));
}

proof fn lemma_rows(ranks: Seq<Seq<char>>, n: nat)
    ensures
        fen::parse_rows(ranks, n) matches Ok(rows) ==> rows.len() == n && forall|k: int|
            0 <= k < n ==> fen::parse_row(ranks[k], Seq::empty(), (8 - k) as nat) == Ok::<
                fen::Row,
                FenErrorView,
            >(#[trigger] rows[k]),
    decreases n,
{
    if n > 0 {
        lemma_rows(ranks, (n - 1) as nat);
    }
}

/// Ranks are written from the eighth to the first, with a slash in between.
pub proof fn ranks_are_written_from_the_top(s: Seq<char>, k: int)
    requires
        fen::parse_board(s) is Ok,
        0 <= k < 8,
    ensures
        ({
            let board = fen::parse_board(s)->Ok_0;
            &&& board.len() == 64
            &&& text::split(s, '/').len() == 8
            &&& fen::parse_row(text::split(s, '/')[k], Seq::empty(), (8 - k) as nat) matches Ok(
                row,
            ) && row.len() == 8 && forall|file: int|
                0 <= file < 8 ==> #[trigger] row[file] == board[(7 - k) * 8 + file]
        }),
{
    let ranks = text::split(s, '/');
    lemma_rows(ranks, 8);
    let rows = fen::parse_rows(ranks, 8)->Ok_0;
    let board = fen::parse_board(s)->Ok_0;
    let row = rows[k];
    lemma_row_len(ranks[k], Seq::empty(), (8 - k) as nat);
    assert forall|file: int| 0 <= file < 8 implies #[trigger] row[file] == board[(7 - k) * 8
        + file] by {
        let i = (7 - k) * 8 + file;
        assert(i / 8 == 7 - k && i % 8 == file);
    }
}

proof fn lemma_row_len(s: Seq<char>, row: fen::Row, rank: nat)
    ensures
        fen::parse_row(s, row, rank) matches Ok(full) ==> full.len() == 8,
    decreases s.len(),
{
    if s.len() > 0 {
        let ch = s[0];
        if text::is_digit(ch) {
            lemma_row_len(s.drop_first(), row + fen::gap(text::digit_value(ch)), rank);
        } else if fen::lettered_piece(ch) is Some {
            lemma_row_len(s.drop_first(), row.push(fen::lettered_piece(ch)), rank);
        }
    }
}

proof fn lemma_rights(s: Seq<char>, rights: CastlingRights)
    ensures
        fen::parse_letters(s, rights) matches Ok(read) ==> {
            &&& read.white_kingside == (rights.white_kingside || s.contains('K'))
            &&& read.white_queenside == (rights.white_queenside || s.contains('Q'))
            &&& read.black_kingside == (rights.black_kingside || s.contains('k'))
            &&& read.black_queenside == (rights.black_queenside || s.contains('q'))
        },
        fen::parse_letters(s, rights) is Ok <==> forall|k: int|
            0 <= k < s.len() ==> (#[trigger] s[k] == 'K' || s[k] == 'Q' || s[k] == 'k' || s[k]
                == 'q'),
    decreases s.len(),
{
    if s.len() > 0 {
        let rest = s.drop_first();
        lemma_rights(rest, CastlingRights { white_kingside: true, ..rights });
        lemma_rights(rest, CastlingRights { white_queenside: true, ..rights });
        lemma_rights(rest, CastlingRights { black_kingside: true, ..rights });
        lemma_rights(rest, CastlingRights { black_queenside: true, ..rights });
        lemma_has(s, 'K');
        lemma_has(s, 'Q');
        lemma_has(s, 'k');
        lemma_has(s, 'q');
        if forall|k: int|
            0 <= k < rest.len() ==> (#[trigger] rest[k] == 'K' || rest[k] == 'Q' || rest[k] == 'k'
                || rest[k] == 'q') {
            assert forall|k: int| 1 <= k < s.len() implies (#[trigger] s[k] == 'K' || s[k] == 'Q'
                || s[k] == 'k' || s[k] == 'q') by {
                assert(rest[k - 1] == s[k]);
            }
        }
    }
}

proof fn lemma_has(s: Seq<char>, ch: char)
    requires
        s.len() > 0,
    ensures
        s.contains(ch) <==> s[0] == ch || s.drop_first().contains(ch),
{
    let rest = s.drop_first();
    if rest.contains(ch) {
        let k = choose|k: int| 0 <= k < rest.len() && rest[k] == ch;
        assert(s[k + 1] == ch);
    }
    if s.contains(ch) {
        let k = choose|k: int| 0 <= k < s.len() && s[k] == ch;
        if k > 0 {
            assert(rest[k - 1] == ch);
        }
    }
}

/// The six fields are the board, the side to move, the castling rights, the en
/// passant square, the halfmove clock and the move number. A `w` is White's turn,
/// and a `b` Black's. The letters among the rights grant them, `K` and `k` on the
/// king's side, `Q` and `q` on the queen's, capitals to White. A dash is no right
/// and no square.
pub proof fn what_the_fields_mean(s: Seq<char>)
    requires
        PositionView::parse(s) is Ok,
    ensures
        ({
            let p = PositionView::parse(s)->Ok_0;
            let f = text::words(s);
            &&& f.len() == 6
            &&& fen::parse_board(f[0]) == Ok::<Seq<Option<Piece>>, FenErrorView>(p.board)
            &&& p.side == Color::White ==> f[1] == seq!['w']
            &&& p.side == Color::Black ==> f[1] == seq!['b']
            &&& p.rights.white_kingside == f[2].contains('K')
            &&& p.rights.white_queenside == f[2].contains('Q')
            &&& p.rights.black_kingside == f[2].contains('k')
            &&& p.rights.black_queenside == f[2].contains('q')
            &&& p.ep is None <==> f[3] == seq!['-']
            &&& p.ep matches Some(sq) ==> 0 <= sq < 64 && f[3] == Square::name_at(sq)
            &&& text::parsed_number(f[4], u32::MAX as nat) == Some(p.half as nat)
            &&& text::parsed_number(f[5], u32::MAX as nat) == Some(p.full as nat)
            &&& p.full > 0
        }),
{
    let p = PositionView::parse(s)->Ok_0;
    let f = text::words(s);
    if f[2] == seq!['-'] {
        assert(forall|k: int| 0 <= k < f[2].len() ==> #[trigger] f[2][k] == '-');
    } else {
        lemma_rights(f[2], CastlingRights::nothing());
    }
    if f[3] != seq!['-'] {
        let sq = p.ep->0;
        assert(sq % 8 == f[3][0] as int - 'a' as int);
        assert(sq / 8 == f[3][1] as int - '1' as int);
        assert(Square::name_at(sq) =~= f[3]);
    }
}

proof fn lemma_bad_letter(s: Seq<char>, rights: CastlingRights)
    requires
        fen::parse_letters(s, rights) is Err,
    ensures
        fen::parse_letters(s, rights) matches Err(FenErrorView::InvalidCastlingChar { ch })
            && s.contains(ch) && ch != 'K' && ch != 'Q' && ch != 'k' && ch != 'q',
    decreases s.len(),
{
    let rest = s.drop_first();
    lemma_has(s, s[0]);
    let next = if s[0] == 'K' {
        CastlingRights { white_kingside: true, ..rights }
    } else if s[0] == 'Q' {
        CastlingRights { white_queenside: true, ..rights }
    } else if s[0] == 'k' {
        CastlingRights { black_kingside: true, ..rights }
    } else {
        CastlingRights { black_queenside: true, ..rights }
    };
    if s[0] == 'K' || s[0] == 'Q' || s[0] == 'k' || s[0] == 'q' {
        lemma_bad_letter(rest, next);
        let ch = fen::parse_letters(rest, next)->Err_0->InvalidCastlingChar_ch;
        lemma_has(s, ch);
    }
}

/// A FEN string is refused for its first bad field, and the error shows that field:
/// too few or too many fields, or too few or too many ranks; a side that is neither
/// `w` nor `b`; a letter that is no castling right; a name that is no square; a clock
/// or a move number that is no number, or a move number of zero.
pub proof fn what_is_wrong_with_a_fen(s: Seq<char>)
    ensures
        ({
            let f = text::words(s);
            let read = PositionView::parse(s);
            let six = f.len() == 6;
            let board = six && fen::parse_board(f[0]) is Ok;
            let side = board && (f[1] == seq!['w'] || f[1] == seq!['b']);
            let rights = side && fen::parse_rights(f[2]) is Ok;
            let target = rights && (f[3] == seq!['-'] || Square::named(f[3]) is Some);
            let half = target && text::parsed_number(f[4], u32::MAX as nat) is Some;
            let full = half && text::parsed_number(f[5], u32::MAX as nat) is Some
                && text::parsed_number(f[5], u32::MAX as nat) != Some(0nat);
            &&& !six ==> read == Err::<PositionView, FenErrorView>(
                FenErrorView::WrongFieldCount { found: f.len() },
            )
            &&& six && text::split(f[0], '/').len() != 8 ==> read == Err::<
                PositionView,
                FenErrorView,
            >(FenErrorView::WrongRankCount { found: text::split(f[0], '/').len() })
            &&& board && !side ==> read == Err::<PositionView, FenErrorView>(
                FenErrorView::InvalidSideToMove { found: f[1] },
            )
            &&& side && !rights ==> (read matches Err(FenErrorView::InvalidCastlingChar { ch })
                && f[2].contains(ch) && ch != 'K' && ch != 'Q' && ch != 'k' && ch != 'q')
            &&& rights && !target ==> read == Err::<PositionView, FenErrorView>(
                FenErrorView::InvalidEnPassantSquare { found: f[3] },
            )
            &&& target && !half ==> read == Err::<PositionView, FenErrorView>(
                FenErrorView::InvalidHalfmoveClock { found: f[4] },
            )
            &&& half && !full ==> read == Err::<PositionView, FenErrorView>(
                FenErrorView::InvalidFullmoveNumber { found: f[5] },
            )
            &&& full <==> read is Ok
        }),
{
    let f = text::words(s);
    if f.len() == 6 && fen::parse_rights(f[2]) is Err {
        lemma_bad_letter(f[2], CastlingRights::nothing());
    }
}

proof fn lemma_blamed(s: Seq<char>, row: fen::Row, rank: nat)
    ensures
        fen::parse_row(s, row, rank) matches Err(error) ==> match error {
            FenErrorView::WrongFileCountInRank { rank: r, found } => r == rank && found != 8,
            FenErrorView::InvalidPieceChar { ch } => s.contains(ch) && fen::lettered_piece(ch)
                is None && !('1' <= ch <= '8'),
            _ => false,
        },
    decreases s.len(),
{
    if s.len() > 0 {
        let ch = s[0];
        let rest = s.drop_first();
        let next = if text::is_digit(ch) {
            row + fen::gap(text::digit_value(ch))
        } else {
            row.push(fen::lettered_piece(ch))
        };
        lemma_blamed(rest, next, rank);
        lemma_has(s, ch);
        if let Err(FenErrorView::InvalidPieceChar { ch: bad }) = fen::parse_row(rest, next, rank) {
            lemma_has(s, bad);
        }
    }
}

/// Of the ranks, counted down from the eighth, the first bad one is blamed: for the
/// number of its files, or for a character that is neither a piece nor a digit from
/// one to eight.
pub proof fn which_rank_is_blamed(s: Seq<char>, k: int)
    requires
        text::split(s, '/').len() == 8,
        0 <= k < 8,
        forall|j: int|
            0 <= j < k ==> fen::parse_row(
                #[trigger] text::split(s, '/')[j],
                Seq::empty(),
                (8 - j) as nat,
            ) is Ok,
        fen::parse_row(text::split(s, '/')[k], Seq::empty(), (8 - k) as nat) is Err,
    ensures
        fen::parse_board(s) matches Err(error) && match error {
            FenErrorView::WrongFileCountInRank { rank, found } => rank == 8 - k && found != 8,
            FenErrorView::InvalidPieceChar { ch } => text::split(s, '/')[k].contains(ch)
                && fen::lettered_piece(ch) is None && !('1' <= ch <= '8'),
            _ => false,
        },
{
    let ranks = text::split(s, '/');
    lemma_blamed(ranks[k], Seq::empty(), (8 - k) as nat);
    lemma_first_bad(ranks, k, 8);
}

proof fn lemma_first_bad(ranks: Seq<Seq<char>>, k: int, n: nat)
    requires
        0 <= k < 8,
        n <= 8,
        forall|j: int|
            0 <= j < k ==> fen::parse_row(#[trigger] ranks[j], Seq::empty(), (8 - j) as nat) is Ok,
        fen::parse_row(ranks[k], Seq::empty(), (8 - k) as nat) is Err,
    ensures
        n <= k ==> fen::parse_rows(ranks, n) is Ok,
        n > k ==> fen::parse_rows(ranks, n) is Err && fen::parse_rows(ranks, n)->Err_0
            == fen::parse_row(ranks[k], Seq::empty(), (8 - k) as nat)->Err_0,
    decreases n,
{
    if n > 0 {
        lemma_first_bad(ranks, k, (n - 1) as nat);
        if n <= k {
            assert(fen::parse_row(ranks[n - 1], Seq::empty(), (8 - (n - 1)) as nat) is Ok);
        }
    }
}

/// A square's name is its file, `a` to `h`, and its rank, `1` to `8`; the squares of
/// a rank follow each other, and so do the ranks.
pub proof fn what_square_names_mean(file: char, rank: char)
    requires
        'a' <= file <= 'h',
        '1' <= rank <= '8',
    ensures
        Square::named(seq![file, rank]) matches Some(i) && i == (file as int - 'a' as int) + 8 * (
        rank as int - '1' as int) && Square::name_at(i) == seq![file, rank],
{
    let i = Square::named(seq![file, rank])->0;
    assert(i % 8 == file as int - 'a' as int);
    assert(i / 8 == rank as int - '1' as int);
    assert(Square::name_at(i) =~= seq![file, rank]);
}

} // verus!
