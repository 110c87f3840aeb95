//! What the engine says: moves, search progress and results as UCI text.

use super::command::{self, UciMove};
use crate::chess::fen::{FenError, FenErrorView};
use crate::chess::moves::Move;
use crate::chess::piece::PieceKind;
use crate::chess::square::Square;
use crate::engine::IllegalMoveError;
use crate::search::{self, SearchResult, SearchResultView};
use crate::text;
use crate::time::Duration;
use vstd::prelude::*;

verus! {

broadcast use {
    crate::chess::square::lemma_at_idx,
    crate::chess::moves::lemma_move_squares,
};

/// The promotion letter of a piece kind; empty for the kinds that no pawn
/// turns into.
pub open spec fn promotion_letter(kind: PieceKind) -> Seq<char> {
    match kind {
        PieceKind::Queen => seq!['q'],
        PieceKind::Rook => seq!['r'],
        PieceKind::Bishop => seq!['b'],
        PieceKind::Knight => seq!['n'],
        PieceKind::Pawn | PieceKind::King => Seq::empty(),
    }
}

/// A move in UCI notation: the names of its squares, and the promotion letter
/// if it promotes.
pub open spec fn move_text(mv: Move) -> Seq<char> {
    Square::name_at(mv.src()) + Square::name_at(mv.dst()) + match mv.kind().promotes_to() {
        Some(kind) => promotion_letter(kind),
        None => Seq::empty(),
    }
}

/// Appends a move in UCI notation.
fn push_move(line: &mut String, mv: Move)
    ensures
        final(line)@ == old(line)@ + move_text(mv),
{
    line.append(mv.from().to_string().as_str());
    line.append(mv.to().to_string().as_str());
    match mv.flag().promotion_kind() {
        Some(PieceKind::Queen) => line.push('q'),
        Some(PieceKind::Rook) => line.push('r'),
        Some(PieceKind::Bishop) => line.push('b'),
        Some(PieceKind::Knight) => line.push('n'),
        _ => {},
    }
    assert(line@ =~= old(line)@ + move_text(mv));
}

/// Formats a move as UCI long algebraic notation, e.g. `e2e4` or
/// `e7e8q`. The inverse of `UciMove::parse`'s promotion-letter mapping.
pub fn format_uci_move(mv: Move) -> (line: String)
    ensures
        line@ == move_text(mv),
{
    let mut line = String::new();
    push_move(&mut line, mv);
    assert(line@ =~= move_text(mv));
    line
}

/// Reading a formatted move gives back its squares and its promotion.
pub proof fn formatted_moves_read_back(mv: Move)
    ensures
        UciMove::read(move_text(mv)) == Some(
            UciMove {
                from: Square::at(mv.src()),
                to: Square::at(mv.dst()),
                promotion: mv.kind().promotes_to(),
            },
        ),
{
    let s = move_text(mv);
    crate::chess::square::square_name_round_trip(mv.src());
    crate::chess::square::square_name_round_trip(mv.dst());
    assert(s.take(2) =~= Square::name_at(mv.src()));
    assert(s.subrange(2, 4) =~= Square::name_at(mv.dst()));
    if let Some(kind) = mv.kind().promotes_to() {
        assert(s[4] == promotion_letter(kind)[0]);
        assert(command::promotion_named(s[4]) == Some(kind));
    }
}

/// The score field of an `info` line: plies to mate, or centipawns.
pub open spec fn score_text(score: int) -> Seq<char> {
    match search::mate_distance(score) {
        Some(plies) => "mate "@ + text::decimal_int(plies),
        None => "cp "@ + text::decimal_int(score),
    }
}

/// The first `n` moves of a line, each after a space.
pub open spec fn line_text(pv: Seq<Move>, n: nat) -> Seq<char>
    decreases n,
{
    if n == 0 {
        Seq::empty()
    } else {
        line_text(pv, (n - 1) as nat).push(' ') + move_text(pv[n - 1])
    }
}

/// The `info` line for a completed depth.
pub open spec fn info_text(result: SearchResultView, elapsed_ms: nat) -> Seq<char> {
    "info depth "@ + text::decimal(result.depth as nat) + " score "@ + score_text(
        result.score as int,
    ) + " nodes "@ + text::decimal(result.nodes as nat) + " time "@ + text::decimal(elapsed_ms) + (
    if result.pv.len() > 0 {
        " pv"@ + line_text(result.pv, result.pv.len())
    } else {
        Seq::empty()
    })
}

/// One `info depth <n> score cp <n>|mate <n> nodes <n> time
/// <ms> pv ...` line for a completed search result. Real UCI `info`
/// fields, not `info string` -- `info string` is reserved for
/// diagnostics (see `crate::diagnostics`), and this is exactly the
/// structured search telemetry those fields exist for.
pub fn search_info_line(result: &SearchResult, elapsed: Duration) -> (line: String)
    ensures
        line@ == info_text(result@, elapsed.ms()),
{
    let mut line = String::new();
    line.append("info depth ");
    text::push_u64(&mut line, result.depth as u64);
    line.append(" score ");
    let ghost before = line@;
    match search::mate_in_plies(result.score) {
        Some(plies_to_mate) => {
            line.append("mate ");
            text::push_i32(&mut line, plies_to_mate);
        },
        None => {
            line.append("cp ");
            text::push_i32(&mut line, result.score);
        },
    }
    assert(line@ =~= before + score_text(result.score as int));
    line.append(" nodes ");
    text::push_u64(&mut line, result.nodes);
    line.append(" time ");
    text::push_u128(&mut line, elapsed.as_millis());
    let ghost fields = line@;
    if result.pv.len() > 0 {
        line.append(" pv");
        let mut k: usize = 0;
        assert(line@ =~= fields + (" pv"@ + line_text(result.pv@, 0)));
        while k < result.pv.len()
            invariant
                k <= result.pv.len(),
                line@ == fields + (" pv"@ + line_text(result.pv@, k as nat)),
            decreases result.pv.len() - k,
        {
            line.push(' ');
            push_move(&mut line, result.pv[k]);
            assert(line@ =~= fields + (" pv"@ + line_text(result.pv@, k as nat + 1)));
            k += 1;
        }
    }
    assert(line@ =~= info_text(result@, elapsed.ms()));
    line
}

/// The line that answers a search: its best move, or `0000` if there is none
/// (checkmate/stalemate).
pub open spec fn bestmove_text(best_move: Option<Move>) -> Seq<char> {
    match best_move {
        Some(mv) => "bestmove "@ + move_text(mv),
        None => "bestmove 0000"@,
    }
}

/// The line that answers a search. UCI's convention for "no move to make" is
/// `bestmove 0000` rather than omitting the response.
pub fn bestmove_line(best_move: Option<Move>) -> (line: String)
    ensures
        line@ == bestmove_text(best_move),
{
    match best_move {
        Some(mv) => {
            let mut line = String::new();
            line.append("bestmove ");
            push_move(&mut line, mv);
            assert(line@ =~= bestmove_text(best_move));
            line
        },
        None => "bestmove 0000".to_owned(),
    }
}

/// A text as the standard library shows it for debugging: in double quotes,
/// with special characters escaped.
pub uninterp spec fn debug_quoted(s: Seq<char>) -> Seq<char>;

/// A character as the standard library shows it for debugging: in single
/// quotes, escaped if it is special.
pub uninterp spec fn debug_quoted_char(ch: char) -> Seq<char>;

/// The standard library's `Debug` form of a text, through `format!`. What it
/// shows depends on the text alone; which characters it escapes, and how, is
/// not stated.
#[verifier::external_body]
fn quoted(s: &str) -> (shown: String)
    ensures
        shown@ == debug_quoted(s@),
{
    format!("{s:?}")
}

/// The standard library's `Debug` form of a character, through `format!`.
/// What it shows depends on the character alone; which characters it escapes,
/// and how, is not stated.
#[verifier::external_body]
fn quoted_char(ch: char) -> (shown: String)
    ensures
        shown@ == debug_quoted_char(ch),
{
    format!("{ch:?}")
}

/// How a FEN error is shown in a diagnostic.
pub open spec fn fen_error_text(error: FenErrorView) -> Seq<char> {
    match error {
        FenErrorView::WrongFieldCount { found } => "WrongFieldCount { found: "@ + text::decimal(
            found,
        ) + " }"@,
        FenErrorView::WrongRankCount { found } => "WrongRankCount { found: "@ + text::decimal(found)
            + " }"@,
        FenErrorView::WrongFileCountInRank { rank, found } => "WrongFileCountInRank { rank: "@
            + text::decimal(rank) + ", found: "@ + text::decimal(found) + " }"@,
        FenErrorView::InvalidPieceChar { ch } => "InvalidPieceChar { ch: "@ + debug_quoted_char(ch)
            + " }"@,
        FenErrorView::InvalidSideToMove { found } => "InvalidSideToMove { found: "@ + debug_quoted(
            found,
        ) + " }"@,
        FenErrorView::InvalidCastlingChar { ch } => "InvalidCastlingChar { ch: "@
            + debug_quoted_char(ch) + " }"@,
        FenErrorView::InvalidEnPassantSquare { found } => "InvalidEnPassantSquare { found: "@
            + debug_quoted(found) + " }"@,
        FenErrorView::InvalidHalfmoveClock { found } => "InvalidHalfmoveClock { found: "@
            + debug_quoted(found) + " }"@,
        FenErrorView::InvalidFullmoveNumber { found } => "InvalidFullmoveNumber { found: "@
            + debug_quoted(found) + " }"@,
    }
}

/// Appends `start`, a number and ` }`.
fn push_counted(line: &mut String, start: &str, n: u64)
    ensures
        final(line)@ == old(line)@ + (start@ + text::decimal(n as nat) + " }"@),
{
    line.append(start);
    text::push_u64(line, n);
    line.append(" }");
    assert(line@ =~= old(line)@ + (start@ + text::decimal(n as nat) + " }"@));
}

/// Appends `start`, a text and ` }`.
fn push_shown(line: &mut String, start: &str, shown: &str)
    ensures
        final(line)@ == old(line)@ + (start@ + shown@ + " }"@),
{
    line.append(start);
    line.append(shown);
    line.append(" }");
    assert(line@ =~= old(line)@ + (start@ + shown@ + " }"@));
}

/// Appends what a FEN error looks like in a diagnostic.
fn push_fen_error(line: &mut String, error: &FenError)
    ensures
        final(line)@ == old(line)@ + fen_error_text(error@),
{
    match error {
        FenError::WrongFieldCount { found } => push_counted(
            line,
            "WrongFieldCount { found: ",
            *found as u64,
        ),
        FenError::WrongRankCount { found } => push_counted(
            line,
            "WrongRankCount { found: ",
            *found as u64,
        ),
        FenError::WrongFileCountInRank { rank, found } => {
            line.append("WrongFileCountInRank { rank: ");
            text::push_u64(line, *rank as u64);
            line.append(", found: ");
            text::push_u64(line, *found as u64);
            line.append(" }");
            assert(line@ =~= old(line)@ + fen_error_text(error@));
        },
        FenError::InvalidPieceChar { ch } => push_shown(
            line,
            "InvalidPieceChar { ch: ",
            quoted_char(*ch).as_str(),
        ),
        FenError::InvalidSideToMove { found } => push_shown(
            line,
            "InvalidSideToMove { found: ",
            quoted(found.as_str()).as_str(),
        ),
        FenError::InvalidCastlingChar { ch } => push_shown(
            line,
            "InvalidCastlingChar { ch: ",
            quoted_char(*ch).as_str(),
        ),
        FenError::InvalidEnPassantSquare { found } => push_shown(
            line,
            "InvalidEnPassantSquare { found: ",
            quoted(found.as_str()).as_str(),
        ),
        FenError::InvalidHalfmoveClock { found } => push_shown(
            line,
            "InvalidHalfmoveClock { found: ",
            quoted(found.as_str()).as_str(),
        ),
        FenError::InvalidFullmoveNumber { found } => push_shown(
            line,
            "InvalidFullmoveNumber { found: ",
            quoted(found.as_str()).as_str(),
        ),
    }
}

/// The diagnostic for a FEN that could not be parsed.
pub open spec fn invalid_fen_text(error: FenErrorView) -> Seq<char> {
    "InvalidFen("@ + fen_error_text(error) + ")"@
}

/// The diagnostic for a FEN that could not be parsed.
pub fn invalid_fen_line(error: &FenError) -> (line: String)
    ensures
        line@ == invalid_fen_text(error@),
{
    let mut line = String::new();
    line.append("InvalidFen(");
    push_fen_error(&mut line, error);
    line.append(")");
    assert(line@ =~= invalid_fen_text(error@));
    line
}

/// How an optional promotion is shown in a diagnostic.
pub open spec fn promotion_text(promotion: Option<PieceKind>) -> Seq<char> {
    match promotion {
        None => "None"@,
        Some(PieceKind::Pawn) => "Some(Pawn)"@,
        Some(PieceKind::Knight) => "Some(Knight)"@,
        Some(PieceKind::Bishop) => "Some(Bishop)"@,
        Some(PieceKind::Rook) => "Some(Rook)"@,
        Some(PieceKind::Queen) => "Some(Queen)"@,
        Some(PieceKind::King) => "Some(King)"@,
    }
}

fn promotion_name(promotion: Option<PieceKind>) -> (name: &'static str)
    ensures
        name@ == promotion_text(promotion),
{
    match promotion {
        None => "None",
        Some(PieceKind::Pawn) => "Some(Pawn)",
        Some(PieceKind::Knight) => "Some(Knight)",
        Some(PieceKind::Bishop) => "Some(Bishop)",
        Some(PieceKind::Rook) => "Some(Rook)",
        Some(PieceKind::Queen) => "Some(Queen)",
        Some(PieceKind::King) => "Some(King)",
    }
}

/// The diagnostic for a move that is not legal where it was to be played.
pub open spec fn illegal_move_text(error: IllegalMoveError) -> Seq<char> {
    "IllegalMove(IllegalMoveError { from: Square("@ + text::decimal(error.from.idx() as nat)
        + "), to: Square("@ + text::decimal(error.to.idx() as nat) + "), promotion: "@
        + promotion_text(error.promotion) + " })"@
}

/// The diagnostic for a move that is not legal where it was to be played.
pub fn illegal_move_line(error: &IllegalMoveError) -> (line: String)
    ensures
        line@ == illegal_move_text(*error),
{
    let mut line = String::new();
    line.append("IllegalMove(IllegalMoveError { from: Square(");
    text::push_u64(&mut line, error.from.index() as u64);
    line.append("), to: Square(");
    text::push_u64(&mut line, error.to.index() as u64);
    line.append("), promotion: ");
    line.append(promotion_name(error.promotion));
    line.append(" })");
    assert(line@ =~= illegal_move_text(*error));
    line
}

} // verus!
