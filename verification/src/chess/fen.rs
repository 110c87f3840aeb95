//! FEN (Forsyth-Edwards Notation) parsing and serialization.
//!
//! A FEN string has six space-separated fields: piece placement, side to
//! move, castling availability, en passant target square, halfmove
//! clock, and fullmove number. See
//! <https://www.chessprogramming.org/Forsyth-Edwards_Notation>.

use super::castling::CastlingRights;
use super::piece::{Color, Piece, PieceKind};
use super::position::{Position, PositionView};
use super::square::Square;
use crate::text;
use vstd::prelude::*;
use vstd::string::StringExecFns;

verus! {

broadcast use {super::position::lemma_board_len, super::square::lemma_at_idx};

/// An error encountered while parsing a FEN string.
#[derive(Debug, Clone, PartialEq, Eq)]
#[allow(inconsistent_fields)]
pub enum FenError {
    /// The FEN did not have the required six space-separated fields.
    WrongFieldCount { found: usize },
    /// The piece placement field did not have exactly 8 ranks.
    WrongRankCount { found: usize },
    /// A rank's squares did not sum to exactly 8 files.
    WrongFileCountInRank { rank: usize, found: u32 },
    /// A character in the piece placement field was not a valid piece
    /// letter or digit 1-8.
    InvalidPieceChar { ch: char },
    /// The side-to-move field was not `w` or `b`.
    InvalidSideToMove { found: String },
    /// A character in the castling availability field was not one of
    /// `KQkq-`.
    InvalidCastlingChar { ch: char },
    /// The en passant field was not `-` or a valid algebraic square.
    InvalidEnPassantSquare { found: String },
    /// The halfmove clock field was not a valid non-negative integer.
    InvalidHalfmoveClock { found: String },
    /// The fullmove number field was not a valid positive integer.
    InvalidFullmoveNumber { found: String },
}

/// What a FEN error says, with texts as sequences of characters.
#[allow(inconsistent_fields)]
pub enum FenErrorView {
    WrongFieldCount { found: nat },
    WrongRankCount { found: nat },
    WrongFileCountInRank { rank: nat, found: nat },
    InvalidPieceChar { ch: char },
    InvalidSideToMove { found: Seq<char> },
    InvalidCastlingChar { ch: char },
    InvalidEnPassantSquare { found: Seq<char> },
    InvalidHalfmoveClock { found: Seq<char> },
    InvalidFullmoveNumber { found: Seq<char> },
}

impl View for FenError {
    type V = FenErrorView;

    open spec fn view(&self) -> FenErrorView {
        match self {
            FenError::WrongFieldCount { found } => FenErrorView::WrongFieldCount {
                found: *found as nat,
            },
            FenError::WrongRankCount { found } => FenErrorView::WrongRankCount {
                found: *found as nat,
            },
            FenError::WrongFileCountInRank { rank, found } => FenErrorView::WrongFileCountInRank {
                rank: *rank as nat,
                found: *found as nat,
            },
            FenError::InvalidPieceChar { ch } => FenErrorView::InvalidPieceChar { ch: *ch },
            FenError::InvalidSideToMove { found } => FenErrorView::InvalidSideToMove {
                found: found@,
            },
            FenError::InvalidCastlingChar { ch } => FenErrorView::InvalidCastlingChar { ch: *ch },
            FenError::InvalidEnPassantSquare { found } => FenErrorView::InvalidEnPassantSquare {
                found: found@,
            },
            FenError::InvalidHalfmoveClock { found } => FenErrorView::InvalidHalfmoveClock {
                found: found@,
            },
            FenError::InvalidFullmoveNumber { found } => FenErrorView::InvalidFullmoveNumber {
                found: found@,
            },
        }
    }
}

impl FenErrorView {
    /// The message that describes this error.
    pub open spec fn message(self) -> Seq<char> {
        match self {
            FenErrorView::WrongFieldCount { found } =>
                "expected 6 space-separated FEN fields, found "@ + text::decimal(found),
            FenErrorView::WrongRankCount { found } => "expected 8 ranks in piece placement, found "@
                + text::decimal(found),
            FenErrorView::WrongFileCountInRank { rank, found } => "rank "@ + text::decimal(rank)
                + " has "@ + text::decimal(found) + " files, expected 8"@,
            FenErrorView::InvalidPieceChar { ch } => "invalid piece placement character '"@.push(ch)
                + "'"@,
            FenErrorView::InvalidSideToMove { found } => "invalid side to move '"@ + found
                + "', expected 'w' or 'b'"@,
            FenErrorView::InvalidCastlingChar { ch } =>
                "invalid castling availability character '"@.push(ch) + "'"@,
            FenErrorView::InvalidEnPassantSquare { found } => "invalid en passant square '"@ + found
                + "'"@,
            FenErrorView::InvalidHalfmoveClock { found } => "invalid halfmove clock '"@ + found
                + "'"@,
            FenErrorView::InvalidFullmoveNumber { found } => "invalid fullmove number '"@ + found
                + "'"@,
        }
    }
}

impl FenError {
    /// A message that describes the error.
    #[must_use]
    pub fn to_string(&self) -> (message: String)
        ensures
            message@ == self@.message(),
    {
        let mut message = String::new();
        match self {
            FenError::WrongFieldCount { found } => {
                message.append("expected 6 space-separated FEN fields, found ");
                text::push_u64(&mut message, *found as u64);
            },
            FenError::WrongRankCount { found } => {
                message.append("expected 8 ranks in piece placement, found ");
                text::push_u64(&mut message, *found as u64);
            },
            FenError::WrongFileCountInRank { rank, found } => {
                message.append("rank ");
                text::push_u64(&mut message, *rank as u64);
                message.append(" has ");
                text::push_u64(&mut message, *found as u64);
                message.append(" files, expected 8");
            },
            FenError::InvalidPieceChar { ch } => {
                message.append("invalid piece placement character '");
                message.push(*ch);
                message.append("'");
            },
            FenError::InvalidSideToMove { found } => {
                message.append("invalid side to move '");
                message.append(found.as_str());
                message.append("', expected 'w' or 'b'");
            },
            FenError::InvalidCastlingChar { ch } => {
                message.append("invalid castling availability character '");
                message.push(*ch);
                message.append("'");
            },
            FenError::InvalidEnPassantSquare { found } => {
                message.append("invalid en passant square '");
                message.append(found.as_str());
                message.append("'");
            },
            FenError::InvalidHalfmoveClock { found } => {
                message.append("invalid halfmove clock '");
                message.append(found.as_str());
                message.append("'");
            },
            FenError::InvalidFullmoveNumber { found } => {
                message.append("invalid fullmove number '");
                message.append(found.as_str());
                message.append("'");
            },
        }
        assert(message@ =~= self@.message());
        message
    }
}

/// The letter of a piece: upper case for White, lower case for Black.
pub open spec fn piece_letter(piece: Piece) -> char {
    match (piece.color, piece.kind) {
        (Color::White, PieceKind::Pawn) => 'P',
        (Color::White, PieceKind::Knight) => 'N',
        (Color::White, PieceKind::Bishop) => 'B',
        (Color::White, PieceKind::Rook) => 'R',
        (Color::White, PieceKind::Queen) => 'Q',
        (Color::White, PieceKind::King) => 'K',
        (Color::Black, PieceKind::Pawn) => 'p',
        (Color::Black, PieceKind::Knight) => 'n',
        (Color::Black, PieceKind::Bishop) => 'b',
        (Color::Black, PieceKind::Rook) => 'r',
        (Color::Black, PieceKind::Queen) => 'q',
        (Color::Black, PieceKind::King) => 'k',
    }
}

/// The piece that a letter stands for.
pub open spec fn lettered_piece(ch: char) -> Option<Piece> {
    let color = if 'A' <= ch <= 'Z' {
        Color::White
    } else {
        Color::Black
    };
    let small = text::lower(ch);
    if small == 'p' {
        Some(Piece { kind: PieceKind::Pawn, color })
    } else if small == 'n' {
        Some(Piece { kind: PieceKind::Knight, color })
    } else if small == 'b' {
        Some(Piece { kind: PieceKind::Bishop, color })
    } else if small == 'r' {
        Some(Piece { kind: PieceKind::Rook, color })
    } else if small == 'q' {
        Some(Piece { kind: PieceKind::Queen, color })
    } else if small == 'k' {
        Some(Piece { kind: PieceKind::King, color })
    } else {
        None
    }
}

/// A row of squares, from the a-file on.
pub type Row = Seq<Option<Piece>>;

/// `n` empty squares.
pub open spec fn gap(n: nat) -> Row {
    Seq::new(n, |i: int| None)
}

/// A count of files as it is kept in 32 bits: the largest number stands for
/// anything larger.
pub open spec fn file_count(n: nat) -> nat {
    if n > u32::MAX {
        u32::MAX as nat
    } else {
        n
    }
}

/// The squares that the rest `s` of a rank's text adds to those read so far.
pub open spec fn parse_row(s: Seq<char>, row: Row, rank: nat) -> Result<Row, FenErrorView>
    decreases s.len(),
{
    if s.len() == 0 {
        if row.len() == 8 {
            Ok(row)
        } else {
            Err(FenErrorView::WrongFileCountInRank { rank, found: file_count(row.len()) })
        }
    } else {
        let ch = s[0];
        if text::is_digit(ch) {
            let n = text::digit_value(ch);
            if 1 <= n <= 8 {
                parse_row(s.drop_first(), row + gap(n), rank)
            } else {
                Err(FenErrorView::InvalidPieceChar { ch })
            }
        } else {
            match lettered_piece(ch) {
                None => Err(FenErrorView::InvalidPieceChar { ch }),
                Some(piece) => if row.len() >= 8 {
                    Err(
                        FenErrorView::WrongFileCountInRank {
                            rank,
                            found: file_count(row.len() + 1),
                        },
                    )
                } else {
                    parse_row(s.drop_first(), row.push(Some(piece)), rank)
                },
            }
        }
    }
}

/// The rows that the first `n` rank texts describe; the first text is rank 8.
pub open spec fn parse_rows(ranks: Seq<Seq<char>>, n: nat) -> Result<Seq<Row>, FenErrorView>
    decreases n,
{
    if n == 0 {
        Ok(Seq::empty())
    } else {
        match parse_rows(ranks, (n - 1) as nat) {
            Err(e) => Err(e),
            Ok(rows) => match parse_row(ranks[n - 1], Seq::empty(), (9 - n) as nat) {
                Err(e) => Err(e),
                Ok(row) => Ok(rows.push(row)),
            },
        }
    }
}

/// The board made of eight rows, rank 8 first.
pub open spec fn board_of(rows: Seq<Row>) -> Seq<Option<Piece>> {
    Seq::new(64, |i: int| rows[7 - i / 8][i % 8])
}

/// The board that a piece placement field describes.
pub open spec fn parse_board(s: Seq<char>) -> Result<Seq<Option<Piece>>, FenErrorView> {
    let ranks = text::split(s, '/');
    if ranks.len() != 8 {
        Err(FenErrorView::WrongRankCount { found: ranks.len() })
    } else {
        match parse_rows(ranks, 8) {
            Err(e) => Err(e),
            Ok(rows) => Ok(board_of(rows)),
        }
    }
}

/// The side that a side-to-move field names.
pub open spec fn parse_side(s: Seq<char>) -> Result<Color, FenErrorView> {
    if s == seq!['w'] {
        Ok(Color::White)
    } else if s == seq!['b'] {
        Ok(Color::Black)
    } else {
        Err(FenErrorView::InvalidSideToMove { found: s })
    }
}

/// The rights that the letters of `s` add to `rights`.
pub open spec fn parse_letters(s: Seq<char>, rights: CastlingRights) -> Result<
    CastlingRights,
    FenErrorView,
>
    decreases s.len(),
{
    if s.len() == 0 {
        Ok(rights)
    } else if s[0] == 'K' {
        parse_letters(s.drop_first(), CastlingRights { white_kingside: true, ..rights })
    } else if s[0] == 'Q' {
        parse_letters(s.drop_first(), CastlingRights { white_queenside: true, ..rights })
    } else if s[0] == 'k' {
        parse_letters(s.drop_first(), CastlingRights { black_kingside: true, ..rights })
    } else if s[0] == 'q' {
        parse_letters(s.drop_first(), CastlingRights { black_queenside: true, ..rights })
    } else {
        Err(FenErrorView::InvalidCastlingChar { ch: s[0] })
    }
}

/// The rights that a castling availability field grants.
pub open spec fn parse_rights(s: Seq<char>) -> Result<CastlingRights, FenErrorView> {
    if s == seq!['-'] {
        Ok(CastlingRights::nothing())
    } else {
        parse_letters(s, CastlingRights::nothing())
    }
}

/// The square that an en passant field names, if it names one.
pub open spec fn parse_target(s: Seq<char>) -> Result<Option<int>, FenErrorView> {
    if s == seq!['-'] {
        Ok(None)
    } else {
        match Square::named(s) {
            Some(sq) => Ok(Some(sq)),
            None => Err(FenErrorView::InvalidEnPassantSquare { found: s }),
        }
    }
}

/// The clock that a halfmove field gives.
pub open spec fn parse_half(s: Seq<char>) -> Result<u32, FenErrorView> {
    match text::parsed_number(s, u32::MAX as nat) {
        Some(n) => Ok(n as u32),
        None => Err(FenErrorView::InvalidHalfmoveClock { found: s }),
    }
}

/// The number that a fullmove field gives: at least one.
pub open spec fn parse_full(s: Seq<char>) -> Result<u32, FenErrorView> {
    match text::parsed_number(s, u32::MAX as nat) {
        Some(n) if n > 0 => Ok(n as u32),
        _ => Err(FenErrorView::InvalidFullmoveNumber { found: s }),
    }
}

/// The position that six fields describe, or the first error among them.
pub open spec fn parse_fields(f: Seq<Seq<char>>) -> Result<PositionView, FenErrorView> {
    match parse_board(f[0]) {
        Err(e) => Err(e),
        Ok(board) => match parse_side(f[1]) {
            Err(e) => Err(e),
            Ok(side) => match parse_rights(f[2]) {
                Err(e) => Err(e),
                Ok(rights) => match parse_target(f[3]) {
                    Err(e) => Err(e),
                    Ok(ep) => match parse_half(f[4]) {
                        Err(e) => Err(e),
                        Ok(half) => match parse_full(f[5]) {
                            Err(e) => Err(e),
                            Ok(full) => Ok(PositionView { board, side, rights, ep, half, full }),
                        },
                    },
                },
            },
        },
    }
}

impl PositionView {
    /// The position that a FEN string describes, or what is wrong with it.
    pub open spec fn parse(s: Seq<char>) -> Result<PositionView, FenErrorView> {
        let fields = text::words(s);
        if fields.len() != 6 {
            Err(FenErrorView::WrongFieldCount { found: fields.len() })
        } else {
            parse_fields(fields)
        }
    }

    /// The squares of one rank, from the a-file on.
    pub open spec fn row(self, rank: int) -> Row {
        self.board.subrange(rank * 8, rank * 8 + 8)
    }

    /// The piece placement texts of the ranks, rank 8 first.
    pub open spec fn rank_texts(self) -> Seq<Seq<char>> {
        Seq::new(8, |k: int| row_text(self.row(7 - k), 0))
    }

    /// The six fields of the position's FEN string.
    pub open spec fn fen_fields(self) -> Seq<Seq<char>> {
        seq![
            text::join(self.rank_texts(), '/'),
            side_text(self.side),
            rights_text(self.rights),
            target_text(self.ep),
            text::decimal(self.half as nat),
            text::decimal(self.full as nat),
        ]
    }

    /// The position's FEN string.
    pub open spec fn fen(self) -> Seq<char> {
        text::join(self.fen_fields(), ' ')
    }
}

/// The text of `run` empty squares: nothing, or their number.
pub open spec fn run_text(run: nat) -> Seq<char> {
    if run > 0 {
        text::decimal(run)
    } else {
        Seq::empty()
    }
}

/// The text of a row after `run` empty squares: piece letters, and numbers for
/// runs of empty squares.
pub open spec fn row_text(row: Row, run: nat) -> Seq<char>
    decreases row.len(),
{
    if row.len() == 0 {
        run_text(run)
    } else {
        match row[0] {
            None => row_text(row.drop_first(), run + 1),
            Some(piece) => run_text(run).push(piece_letter(piece)) + row_text(row.drop_first(), 0),
        }
    }
}

/// The side-to-move field.
pub open spec fn side_text(side: Color) -> Seq<char> {
    match side {
        Color::White => seq!['w'],
        Color::Black => seq!['b'],
    }
}

/// The letters of the held castling rights.
pub open spec fn rights_letters(rights: CastlingRights) -> Seq<char> {
    let a = if rights.white_kingside {
        seq!['K']
    } else {
        Seq::empty()
    };
    let b = if rights.white_queenside {
        a.push('Q')
    } else {
        a
    };
    let c = if rights.black_kingside {
        b.push('k')
    } else {
        b
    };
    if rights.black_queenside {
        c.push('q')
    } else {
        c
    }
}

/// The castling availability field.
pub open spec fn rights_text(rights: CastlingRights) -> Seq<char> {
    if rights == CastlingRights::nothing() {
        seq!['-']
    } else {
        rights_letters(rights)
    }
}

/// The en passant field.
pub open spec fn target_text(ep: Option<int>) -> Seq<char> {
    match ep {
        Some(sq) => Square::name_at(sq),
        None => seq!['-'],
    }
}

impl Position {
    /// Parses a `Position` from a FEN string.
    pub fn from_fen(fen: &str) -> (result: Result<Position, FenError>)
        ensures
            match result {
                Ok(position) => PositionView::parse(fen@) == Ok::<PositionView, FenErrorView>(
                    position@,
                ),
                Err(error) => PositionView::parse(fen@) == Err::<PositionView, FenErrorView>(
                    error@,
                ),
            },
    {
        let chars: Vec<char> = text::chars_of(fen);
        let fields: Vec<Vec<char>> = text::split_words(&chars);
        proof {
            assert(text::views(fields@).len() == fields@.len());
        }
        if fields.len() != 6 {
            return Err(FenError::WrongFieldCount { found: fields.len() });
        }
        let mut position = Position::empty();
        match parse_placement(&mut position, &fields[0]) {
            Err(error) => {
                return Err(error);
            },
            Ok(()) => {},
        }
        match parse_side_to_move(&fields[1]) {
            Err(error) => {
                return Err(error);
            },
            Ok(side) => {
                position.set_side_to_move(side);
            },
        }
        match parse_castling_rights(&fields[2]) {
            Err(error) => {
                return Err(error);
            },
            Ok(rights) => {
                position.set_castling_rights(rights);
            },
        }
        match parse_en_passant(&fields[3]) {
            Err(error) => {
                return Err(error);
            },
            Ok(square) => {
                position.set_en_passant_square(square);
            },
        }
        match parse_halfmove_clock(&fields[4]) {
            Err(error) => {
                return Err(error);
            },
            Ok(clock) => {
                position.set_halfmove_clock(clock);
            },
        }
        match parse_fullmove_number(&fields[5]) {
            Err(error) => {
                return Err(error);
            },
            Ok(number) => {
                position.set_fullmove_number(number);
            },
        }
        Ok(position)
    }

    /// Serializes this position to a FEN string.
    #[must_use]
    pub fn to_fen(&self) -> (fen: String)
        ensures
            fen@ == self@.fen(),
    {
        let mut fen = String::new();
        placement_to_fen(self, &mut fen);
        fen.push(' ');
        side_to_move_to_fen(self.side_to_move(), &mut fen);
        fen.push(' ');
        castling_rights_to_fen(self.castling_rights(), &mut fen);
        fen.push(' ');
        en_passant_to_fen(self.en_passant_square(), &mut fen);
        fen.push(' ');
        text::push_u64(&mut fen, self.halfmove_clock() as u64);
        fen.push(' ');
        text::push_u64(&mut fen, self.fullmove_number() as u64);
        proof {
            lemma_fields_joined(self@);
            assert(fen@ =~= self@.fen());
        }
        fen
    }
}

/// Writing the fields one after another, with a space between them, writes the
/// FEN string.
proof fn lemma_fields_joined(p: PositionView)
    ensures
        p.fen() == text::join(p.rank_texts(), '/').push(' ') + side_text(p.side).push(' ')
            + rights_text(p.rights).push(' ') + target_text(p.ep).push(' ') + text::decimal(
            p.half as nat,
        ).push(' ') + text::decimal(p.full as nat),
{
    let f = p.fen_fields();
    reveal_with_fuel(text::join, 7);
    let f1 = f.drop_first();
    let f2 = f1.drop_first();
    let f3 = f2.drop_first();
    let f4 = f3.drop_first();
    let f5 = f4.drop_first();
    assert(f1 =~= f.skip(1));
    assert(f5 =~= seq![f[5]]);
    assert(f4 =~= seq![f[4], f[5]]);
    assert(f3 =~= seq![f[3], f[4], f[5]]);
    assert(f2 =~= seq![f[2], f[3], f[4], f[5]]);
    assert(f1 =~= seq![f[1], f[2], f[3], f[4], f[5]]);
    assert(text::join(f, ' ') =~= f[0].push(' ') + f[1].push(' ') + f[2].push(' ') + f[3].push(' ')
        + f[4].push(' ') + f[5]);
}

fn parse_placement(position: &mut Position, placement: &Vec<char>) -> (result: Result<
    (),
    FenError,
>)
    requires
        old(position)@.board == PositionView::blank().board,
    ensures
        match result {
            Ok(()) => parse_board(placement@) == Ok::<Seq<Option<Piece>>, FenErrorView>(
                final(position)@.board,
            ) && final(position)@ == (PositionView {
                board: final(position)@.board,
                ..old(position)@
            }),
            Err(error) => parse_board(placement@) == Err::<Seq<Option<Piece>>, FenErrorView>(
                error@,
            ),
        },
{
    let ranks: Vec<Vec<char>> = text::split_at_char(placement, '/');
    let ghost texts = text::views(ranks@);
    if ranks.len() != 8 {
        return Err(FenError::WrongRankCount { found: ranks.len() });
    }
    // FEN ranks are listed from rank 8 down to rank 1.
    let mut k: usize = 0;
    let mut rows: Ghost<Seq<Row>> = Ghost(Seq::empty());
    while k < 8
        invariant
            k <= 8,
            ranks@.len() == 8,
            texts == text::views(ranks@),
            texts == text::split(placement@, '/'),
            parse_rows(texts, k as nat) == Ok::<Seq<Row>, FenErrorView>(rows@),
            rows@.len() == k,
            forall|j: int| 0 <= j < k ==> (#[trigger] rows@[j]).len() == 8,
            position@ == (PositionView { board: position@.board, ..old(position)@ }),
            position@.board.len() == 64,
            forall|i: int|
                0 <= i < 64 ==> #[trigger] position@.board[i] == (if 7 - i / 8 < k {
                    rows@[7 - i / 8][i % 8]
                } else {
                    None
                }),
        decreases 8 - k,
    {
        let rank: u8 = 7 - k as u8;
        let ghost before = position@;
        assert(texts[k as int] == ranks@[k as int]@);
        let parsed = parse_rank(position, &ranks[k], rank);
        match parsed {
            Err(error) => {
                proof {
                    lemma_rows_error(texts, (k + 1) as nat, 8, error@);
                }
                return Err(error);
            },
            Ok(row) => {
                proof {
                    let old_rows = rows@;
                    rows@ = rows@.push(row@);
                    assert forall|i: int| 0 <= i < 64 implies #[trigger] position@.board[i] == (if 7
                        - i / 8 < k + 1 {
                        rows@[7 - i / 8][i % 8]
                    } else {
                        None
                    }) by {
                        assert(before.board[i] == before.board[i]);
                    }
                }
            },
        }
        k += 1;
    }
    assert(position@.board =~= board_of(rows@));
    Ok(())
}

/// An error in one rank is the error of all ranks up to a later one.
proof fn lemma_rows_error(ranks: Seq<Seq<char>>, n: nat, m: nat, e: FenErrorView)
    requires
        n <= m,
        parse_rows(ranks, n) == Err::<Seq<Row>, FenErrorView>(e),
    ensures
        parse_rows(ranks, m) == Err::<Seq<Row>, FenErrorView>(e),
    decreases m - n,
{
    if n < m {
        lemma_rows_error(ranks, n, (m - 1) as nat, e);
    }
}

/// Reads one rank's text onto an empty rank of the board.
fn parse_rank(position: &mut Position, rank_text: &Vec<char>, rank: u8) -> (result: Result<
    Ghost<Row>,
    FenError,
>)
    requires
        rank < 8,
        forall|i: int| 0 <= i < 64 && i / 8 == rank ==> #[trigger] old(position)@.board[i] is None,
    ensures
        match result {
            Ok(row) => {
                &&& parse_row(rank_text@, Seq::empty(), (rank + 1) as nat) == Ok::<
                    Row,
                    FenErrorView,
                >(row@)
                &&& row@.len() == 8
                &&& final(position)@ == (PositionView {
                    board: final(position)@.board,
                    ..old(position)@
                })
                &&& forall|i: int|
                    0 <= i < 64 ==> #[trigger] final(position)@.board[i] == (if i / 8 == rank {
                        row@[i % 8]
                    } else {
                        old(position)@.board[i]
                    })
            },
            Err(error) => parse_row(rank_text@, Seq::empty(), (rank + 1) as nat) == Err::<
                Row,
                FenErrorView,
            >(error@),
        },
{
    let mut file: u32 = 0;
    let mut k: usize = 0;
    let mut row: Ghost<Row> = Ghost(Seq::empty());
    let ghost whole = parse_row(rank_text@, Seq::empty(), (rank + 1) as nat);
    assert(rank_text@.skip(0) =~= rank_text@);
    while k < rank_text.len()
        invariant
            k <= rank_text.len(),
            rank < 8,
            whole == parse_row(rank_text@, Seq::empty(), (rank + 1) as nat),
            whole == parse_row(rank_text@.skip(k as int), row@, (rank + 1) as nat),
            file == file_count(row@.len()),
            position@ == (PositionView { board: position@.board, ..old(position)@ }),
            position@.board.len() == 64,
            forall|i: int|
                0 <= i < 64 ==> #[trigger] position@.board[i] == (if i / 8 == rank {
                    if i % 8 < row@.len() {
                        row@[i % 8]
                    } else {
                        None
                    }
                } else {
                    old(position)@.board[i]
                }),
        decreases rank_text.len() - k,
    {
        let ch: char = rank_text[k];
        let ghost rest = rank_text@.skip(k as int);
        assert(rest[0] == ch);
        assert(rest.drop_first() =~= rank_text@.skip(k + 1));
        let ghost before = position@;
        let ghost before_row = row@;
        if ch >= '0' && ch <= '9' {
            let empty_count: u32 = ch as u32 - '0' as u32;
            if empty_count < 1 || empty_count > 8 {
                return Err(FenError::InvalidPieceChar { ch });
            }
            file = file.saturating_add(empty_count);
            proof {
                row@ = row@ + gap(empty_count as nat);
                assert forall|i: int| 0 <= i < 64 implies #[trigger] position@.board[i] == (if i / 8
                    == rank {
                    if i % 8 < row@.len() {
                        row@[i % 8]
                    } else {
                        None
                    }
                } else {
                    old(position)@.board[i]
                }) by {
                    if i / 8 == rank && before_row.len() <= i % 8 && i % 8 < row@.len() {
                        assert(row@[i % 8] == gap(empty_count as nat)[i % 8 - before_row.len()]);
                    }
                }
            }
        } else {
            match char_to_piece(ch) {
                None => {
                    return Err(FenError::InvalidPieceChar { ch });
                },
                Some(piece) => {
                    if file >= 8 {
                        return Err(
                            FenError::WrongFileCountInRank {
                                rank: rank as usize + 1,
                                found: file.saturating_add(1),
                            },
                        );
                    }
                    position.set_piece(Square::from_file_rank(file as u8, rank), Some(piece));
                    file += 1;
                    proof {
                        row@ = row@.push(Some(piece));
                    }
                },
            }
        }
        k += 1;
    }
    assert(rank_text@.skip(k as int) =~= Seq::<char>::empty());
    if file != 8 {
        return Err(FenError::WrongFileCountInRank { rank: rank as usize + 1, found: file });
    }
    Ok(row)
}

fn char_to_piece(ch: char) -> (piece: Option<Piece>)
    ensures
        piece == lettered_piece(ch),
{
    let color = if ch >= 'A' && ch <= 'Z' {
        Color::White
    } else {
        Color::Black
    };
    let kind = match text::lower_char(ch) {
        'p' => PieceKind::Pawn,
        'n' => PieceKind::Knight,
        'b' => PieceKind::Bishop,
        'r' => PieceKind::Rook,
        'q' => PieceKind::Queen,
        'k' => PieceKind::King,
        _ => {
            return None;
        },
    };
    Some(Piece::new(kind, color))
}

fn piece_to_char(piece: Piece) -> (ch: char)
    ensures
        ch == piece_letter(piece),
{
    match (piece.color, piece.kind) {
        (Color::White, PieceKind::Pawn) => 'P',
        (Color::White, PieceKind::Knight) => 'N',
        (Color::White, PieceKind::Bishop) => 'B',
        (Color::White, PieceKind::Rook) => 'R',
        (Color::White, PieceKind::Queen) => 'Q',
        (Color::White, PieceKind::King) => 'K',
        (Color::Black, PieceKind::Pawn) => 'p',
        (Color::Black, PieceKind::Knight) => 'n',
        (Color::Black, PieceKind::Bishop) => 'b',
        (Color::Black, PieceKind::Rook) => 'r',
        (Color::Black, PieceKind::Queen) => 'q',
        (Color::Black, PieceKind::King) => 'k',
    }
}

/// Writes the piece placement field.
fn placement_to_fen(position: &Position, fen: &mut String)
    ensures
        final(fen)@ == old(fen)@ + text::join(position@.rank_texts(), '/'),
{
    let ghost texts = position@.rank_texts();
    let mut k: u8 = 0;
    proof {
        assert(texts.take(0) =~= Seq::<Seq<char>>::empty());
        assert(fen@ =~= old(fen)@ + text::join(texts.take(0), '/'));
    }
    while k < 8
        invariant
            k <= 8,
            texts == position@.rank_texts(),
            texts.len() == 8,
            fen@ == old(fen)@ + text::join(texts.take(k as int), '/'),
        decreases 8 - k,
    {
        let ghost before = fen@;
        if k > 0 {
            fen.push('/');
        }
        rank_to_fen(position, 7 - k, fen);
        proof {
            text::lemma_join_push(texts.take(k as int), texts[k as int], '/');
            assert(texts.take(k as int).push(texts[k as int]) =~= texts.take(k + 1));
            assert(fen@ =~= old(fen)@ + text::join(texts.take(k + 1), '/'));
        }
        k += 1;
    }
    assert(texts.take(8) =~= texts);
}

/// Writes the text of one rank.
fn rank_to_fen(position: &Position, rank: u8, fen: &mut String)
    requires
        rank < 8,
    ensures
        final(fen)@ == old(fen)@ + row_text(position@.row(rank as int), 0),
{
    let ghost row = position@.row(rank as int);
    let mut empty_run: u32 = 0;
    let mut file: u8 = 0;
    assert(row.skip(0) =~= row);
    while file < 8
        invariant
            file <= 8,
            rank < 8,
            empty_run <= file,
            row == position@.row(rank as int),
            row.len() == 8,
            fen@ + row_text(row.skip(file as int), empty_run as nat) == old(fen)@ + row_text(row, 0),
        decreases 8 - file,
    {
        let ghost rest = row.skip(file as int);
        assert(rest.drop_first() =~= row.skip(file + 1));
        let ghost before = fen@;
        match position.piece_at(Square::from_file_rank(file, rank)) {
            Some(piece) => {
                if empty_run > 0 {
                    text::push_u64(fen, empty_run as u64);
                }
                fen.push(piece_to_char(piece));
                assert(fen@ + row_text(row.skip(file + 1), 0) =~= before + row_text(
                    rest,
                    empty_run as nat,
                ));
                empty_run = 0;
            },
            None => {
                empty_run += 1;
            },
        }
        file += 1;
    }
    let ghost before = fen@;
    if empty_run > 0 {
        text::push_u64(fen, empty_run as u64);
    }
    assert(row.skip(8) =~= Seq::<Option<Piece>>::empty());
    assert(fen@ =~= before + run_text(empty_run as nat));
}

fn parse_side_to_move(field: &Vec<char>) -> (result: Result<Color, FenError>)
    ensures
        match result {
            Ok(side) => parse_side(field@) == Ok::<Color, FenErrorView>(side),
            Err(error) => parse_side(field@) == Err::<Color, FenErrorView>(error@),
        },
{
    if field.len() == 1 && field[0] == 'w' {
        assert(field@ =~= seq!['w']);
        return Ok(Color::White);
    }
    if field.len() == 1 && field[0] == 'b' {
        assert(field@ =~= seq!['b']);
        assert(field@ != seq!['w']) by {
            assert(field@[0] != seq!['w'][0]);
        }
        return Ok(Color::Black);
    }
    proof {
        assert(field@ == seq!['w'] ==> field@[0] == 'w');
        assert(field@ == seq!['b'] ==> field@[0] == 'b');
    }
    Err(FenError::InvalidSideToMove { found: text::string_of(field) })
}

fn side_to_move_to_fen(color: Color, fen: &mut String)
    ensures
        final(fen)@ == old(fen)@ + side_text(color),
{
    match color {
        Color::White => fen.push('w'),
        Color::Black => fen.push('b'),
    }
    assert(fen@ =~= old(fen)@ + side_text(color));
}

/// Whether a field is a single dash.
fn is_dash(field: &Vec<char>) -> (dash: bool)
    ensures
        dash == (field@ == seq!['-']),
{
    let dash = field.len() == 1 && field[0] == '-';
    proof {
        if dash {
            assert(field@ =~= seq!['-']);
        } else {
            assert(field@ == seq!['-'] ==> field@.len() == 1 && field@[0] == '-');
        }
    }
    dash
}

fn parse_castling_rights(field: &Vec<char>) -> (result: Result<CastlingRights, FenError>)
    ensures
        match result {
            Ok(rights) => parse_rights(field@) == Ok::<CastlingRights, FenErrorView>(rights),
            Err(error) => parse_rights(field@) == Err::<CastlingRights, FenErrorView>(error@),
        },
{
    if is_dash(field) {
        return Ok(CastlingRights::none());
    }
    let mut rights = CastlingRights::none();
    let mut k: usize = 0;
    assert(field@.skip(0) =~= field@);
    while k < field.len()
        invariant
            k <= field.len(),
            parse_letters(field@.skip(k as int), rights) == parse_letters(
                field@,
                CastlingRights::nothing(),
            ),
            field@ != seq!['-'],
        decreases field.len() - k,
    {
        let ghost rest = field@.skip(k as int);
        assert(rest.drop_first() =~= field@.skip(k + 1));
        let ch: char = field[k];
        assert(rest[0] == ch);
        match ch {
            'K' => {
                rights.white_kingside = true;
            },
            'Q' => {
                rights.white_queenside = true;
            },
            'k' => {
                rights.black_kingside = true;
            },
            'q' => {
                rights.black_queenside = true;
            },
            _ => {
                return Err(FenError::InvalidCastlingChar { ch });
            },
        }
        k += 1;
    }
    assert(field@.skip(k as int) =~= Seq::<char>::empty());
    Ok(rights)
}

fn castling_rights_to_fen(rights: CastlingRights, fen: &mut String)
    ensures
        final(fen)@ == old(fen)@ + rights_text(rights),
{
    if rights.white_kingside {
        fen.push('K');
    }
    if rights.white_queenside {
        fen.push('Q');
    }
    if rights.black_kingside {
        fen.push('k');
    }
    if rights.black_queenside {
        fen.push('q');
    }
    if !rights.white_kingside && !rights.white_queenside && !rights.black_kingside
        && !rights.black_queenside {
        fen.push('-');
    }
    assert(fen@ =~= old(fen)@ + rights_text(rights));
}

fn parse_en_passant(field: &Vec<char>) -> (result: Result<Option<Square>, FenError>)
    ensures
        match result {
            Ok(square) => parse_target(field@) == Ok::<Option<int>, FenErrorView>(
                Square::index_of(square),
            ),
            Err(error) => parse_target(field@) == Err::<Option<int>, FenErrorView>(error@),
        },
{
    if is_dash(field) {
        return Ok(None);
    }
    if field.len() == 2 {
        assert(field@ =~= seq![field@[0], field@[1]]);
        if let Some(square) = Square::from_chars(field[0], field[1]) {
            return Ok(Some(square));
        }
    }
    Err(FenError::InvalidEnPassantSquare { found: text::string_of(field) })
}

fn en_passant_to_fen(square: Option<Square>, fen: &mut String)
    ensures
        final(fen)@ == old(fen)@ + target_text(Square::index_of(square)),
{
    match square {
        Some(square) => {
            fen.push(square.file_letter());
            fen.push(square.rank_digit());
        },
        None => fen.push('-'),
    }
    assert(fen@ =~= old(fen)@ + target_text(Square::index_of(square)));
}

fn parse_halfmove_clock(field: &Vec<char>) -> (result: Result<u32, FenError>)
    ensures
        match result {
            Ok(clock) => parse_half(field@) == Ok::<u32, FenErrorView>(clock),
            Err(error) => parse_half(field@) == Err::<u32, FenErrorView>(error@),
        },
{
    match text::parse_u64_max(field, u32::MAX as u64) {
        Some(value) => Ok(value as u32),
        None => Err(FenError::InvalidHalfmoveClock { found: text::string_of(field) }),
    }
}

fn parse_fullmove_number(field: &Vec<char>) -> (result: Result<u32, FenError>)
    ensures
        match result {
            Ok(number) => parse_full(field@) == Ok::<u32, FenErrorView>(number),
            Err(error) => parse_full(field@) == Err::<u32, FenErrorView>(error@),
        },
{
    match text::parse_u64_max(field, u32::MAX as u64) {
        Some(value) => {
            if value == 0 {
                return Err(FenError::InvalidFullmoveNumber { found: text::string_of(field) });
            }
            Ok(value as u32)
        },
        None => Err(FenError::InvalidFullmoveNumber { found: text::string_of(field) }),
    }
}

} // verus!
