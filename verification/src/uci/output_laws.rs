//! What a reader of the engine's output can rely on.

use super::command::UciMove;
use super::output;
use crate::chess::moves::Move;
use crate::chess::square::Square;
use crate::search::{self, SearchResultView, MATE_THRESHOLD, SCORE_MATE};
use crate::text;
use vstd::prelude::*;

verus! {

/// Whether a text is a word: not empty, and without white space.
pub open spec fn is_word(s: Seq<char>) -> bool {
    s.len() > 0 && forall|k: int| 0 <= k < s.len() ==> !text::is_space(#[trigger] s[k])
}

/// Whether all of these are words.
pub open spec fn all_words(parts: Seq<Seq<char>>) -> bool {
    forall|i: int| 0 <= i < parts.len() ==> is_word(#[trigger] parts[i])
}

/// The squares and the promotion of a move.
pub open spec fn as_written(mv: Move) -> UciMove {
    UciMove {
        from: Square::at(mv.src()),
        to: Square::at(mv.dst()),
        promotion: mv.kind().promotes_to(),
    }
}

pub(crate) proof fn lemma_words(parts: Seq<Seq<char>>)
    requires
        all_words(parts),
    ensures
        text::words(text::join(parts, ' ')) == parts,
{
    assert forall|i: int| 0 <= i < parts.len() implies (#[trigger] parts[i]).len() > 0 by {
        assert(is_word(parts[i]));
    }
    assert forall|i: int, k: int|
        0 <= i < parts.len() && 0 <= k < parts[i].len() implies !text::is_space(
        #[trigger] parts[i][k],
    ) by {
        assert(is_word(parts[i]));
    }
    text::words_undo_join(parts);
}

proof fn lemma_decimal_word(n: nat)
    ensures
        is_word(text::decimal(n)),
{
    text::lemma_decimal(n);
    assert forall|k: int| 0 <= k < text::decimal(n).len() implies !text::is_space(
        #[trigger] text::decimal(n)[k],
    ) by {
        assert(text::is_digit(text::decimal(n)[k]));
    }
}

proof fn lemma_integer_word(n: int)
    ensures
        is_word(text::decimal_int(n)),
{
    if n < 0 {
        lemma_decimal_word((-n) as nat);
        let s = text::decimal_int(n);
        assert forall|k: int| 0 <= k < s.len() implies !text::is_space(#[trigger] s[k]) by {
            if k > 0 {
                assert(s[k] == text::decimal((-n) as nat)[k - 1]);
            }
        }
    } else {
        lemma_decimal_word(n as nat);
    }
}

/// A move is written as one word.
pub(crate) proof fn lemma_move_word(mv: Move)
    ensures
        is_word(output::move_text(mv)),
{
    broadcast use crate::chess::moves::lemma_move_squares;

    let s = output::move_text(mv);
    assert(s.len() >= 4);
    assert forall|k: int| 0 <= k < s.len() implies !text::is_space(#[trigger] s[k]) by {
        if k < 2 {
            assert(s[k] == Square::name_at(mv.src())[k]);
        } else if k < 4 {
            assert(s[k] == Square::name_at(mv.dst())[k - 2]);
        }
    }
}

/// The words that a line of moves is written in.
pub open spec fn move_words(pv: Seq<Move>, n: nat) -> Seq<Seq<char>> {
    Seq::new(n, |k: int| output::move_text(pv[k]))
}

pub(crate) proof fn lemma_line(parts: Seq<Seq<char>>, pv: Seq<Move>, n: nat)
    requires
        parts.len() > 0,
        n <= pv.len(),
    ensures
        text::join(parts + move_words(pv, n), ' ') == text::join(parts, ' ') + output::line_text(
            pv,
            n,
        ),
    decreases n,
{
    if n == 0 {
        assert(parts + move_words(pv, 0) =~= parts);
        assert(text::join(parts, ' ') + output::line_text(pv, 0) =~= text::join(parts, ' '));
    } else {
        lemma_line(parts, pv, (n - 1) as nat);
        let before = parts + move_words(pv, (n - 1) as nat);
        let last = output::move_text(pv[n - 1]);
        assert(parts + move_words(pv, n) =~= before.push(last));
        text::lemma_join_push(before, last, ' ');
        assert(text::join(parts, ' ') + output::line_text(pv, n) =~= text::join(before, ' ').push(' ')
            + last);
    }
}

/// The words of an `info` line up to the principal variation.
spec fn field_words(result: SearchResultView, elapsed_ms: nat) -> Seq<Seq<char>> {
    let score = result.score as int;
    seq![
        "info"@,
        "depth"@,
        text::decimal(result.depth as nat),
        "score"@,
        if search::mate_distance(score) is Some {
            "mate"@
        } else {
            "cp"@
        },
        match search::mate_distance(score) {
            Some(plies) => text::decimal_int(plies),
            None => text::decimal_int(score),
        },
        "nodes"@,
        text::decimal(result.nodes as nat),
        "time"@,
        text::decimal(elapsed_ms),
    ]
}

proof fn lemma_literal_words()
    ensures
        is_word("info"@),
        is_word("depth"@),
        is_word("score"@),
        is_word("mate"@),
        is_word("cp"@),
        is_word("nodes"@),
        is_word("time"@),
        is_word("pv"@),
        is_word("bestmove"@),
        is_word("0000"@),
        "mate"@ != "cp"@,
{
    reveal_strlit("info");
    reveal_strlit("depth");
    reveal_strlit("score");
    reveal_strlit("mate");
    reveal_strlit("cp");
    reveal_strlit("nodes");
    reveal_strlit("time");
    reveal_strlit("pv");
    reveal_strlit("bestmove");
    reveal_strlit("0000");
    assert("mate"@.len() != "cp"@.len());
}

proof fn lemma_fields(result: SearchResultView, elapsed_ms: nat)
    ensures
        all_words(field_words(result, elapsed_ms)),
        output::info_text(result, elapsed_ms) == text::join(field_words(result, elapsed_ms), ' ') + (
        if result.pv.len() > 0 {
            " pv"@ + output::line_text(result.pv, result.pv.len())
        } else {
            Seq::empty()
        }),
{
    lemma_literal_words();
    let score = result.score as int;
    lemma_decimal_word(result.depth as nat);
    lemma_decimal_word(result.nodes as nat);
    lemma_decimal_word(elapsed_ms);
    lemma_integer_word(score);
    if let Some(plies) = search::mate_distance(score) {
        lemma_integer_word(plies);
    }
    let w = field_words(result, elapsed_ms);
    assert forall|i: int| 0 <= i < w.len() implies is_word(#[trigger] w[i]) by {
        assert(i == 0 || i == 1 || i == 2 || i == 3 || i == 4 || i == 5 || i == 6 || i == 7 || i == 8
            || i == 9);
    }
    reveal_strlit("info depth ");
    reveal_strlit(" score ");
    reveal_strlit("mate ");
    reveal_strlit("cp ");
    reveal_strlit(" nodes ");
    reveal_strlit(" time ");
    reveal_strlit("info");
    reveal_strlit("depth");
    reveal_strlit("score");
    reveal_strlit("mate");
    reveal_strlit("cp");
    reveal_strlit("nodes");
    reveal_strlit("time");
    assert("info depth "@ =~= "info"@.push(' ') + "depth"@.push(' '));
    assert(" score "@ =~= seq![' '] + "score"@.push(' '));
    assert("mate "@ =~= "mate"@.push(' '));
    assert("cp "@ =~= "cp"@.push(' '));
    assert(" nodes "@ =~= seq![' '] + "nodes"@.push(' '));
    assert(" time "@ =~= seq![' '] + "time"@.push(' '));
    let j = |n: int| text::join(w.take(n), ' ');
    lemma_take_joined(w, 1);
    lemma_take_joined(w, 2);
    lemma_take_joined(w, 3);
    lemma_take_joined(w, 4);
    lemma_take_joined(w, 5);
    lemma_take_joined(w, 6);
    lemma_take_joined(w, 7);
    lemma_take_joined(w, 8);
    lemma_take_joined(w, 9);
    assert(w.take(1) =~= seq![w[0]]);
    assert(w.take(10) =~= w);
    assert(j(3) =~= "info depth "@ + w[2]);
    assert(j(6) =~= j(3) + " score "@ + output::score_text(score));
    assert(j(8) =~= j(6) + " nodes "@ + w[7]);
    assert(j(10) =~= j(8) + " time "@ + w[9]);
}

proof fn lemma_take_joined(w: Seq<Seq<char>>, n: int)
    requires
        0 < n < w.len(),
    ensures
        text::join(w.take(n + 1), ' ') == text::join(w.take(n), ' ').push(' ') + w[n],
{
    assert(w.take(n + 1) =~= w.take(n).push(w[n]));
    text::lemma_join_push(w.take(n), w[n], ' ');
}

/// The words of the whole `info` line.
proof fn lemma_info_words(result: SearchResultView, elapsed_ms: nat)
    ensures
        text::words(output::info_text(result, elapsed_ms)) == (if result.pv.len() > 0 {
            field_words(result, elapsed_ms).push("pv"@) + move_words(result.pv, result.pv.len())
        } else {
            field_words(result, elapsed_ms)
        }),
{
    lemma_fields(result, elapsed_ms);
    lemma_literal_words();
    let fields = field_words(result, elapsed_ms);
    if result.pv.len() > 0 {
        let front = fields.push("pv"@);
        let parts = front + move_words(result.pv, result.pv.len());
        lemma_line(front, result.pv, result.pv.len());
        text::lemma_join_push(fields, "pv"@, ' ');
        reveal_strlit(" pv");
        reveal_strlit("pv");
        assert(" pv"@ =~= seq![' '] + "pv"@);
        assert(output::info_text(result, elapsed_ms) =~= text::join(parts, ' '));
        assert forall|i: int| 0 <= i < parts.len() implies is_word(#[trigger] parts[i]) by {
            if i < fields.len() {
                assert(parts[i] == fields[i]);
            } else if i > fields.len() {
                lemma_move_word(result.pv[i - fields.len() - 1]);
            }
        }
        lemma_words(parts);
    } else {
        assert(output::info_text(result, elapsed_ms) =~= text::join(fields, ' '));
        lemma_words(fields);
    }
}

/// Whether a word is the numeral of an integer: its digits, after a minus sign if
/// it is negative.
pub open spec fn reads_as(word: Seq<char>, n: int) -> bool {
    if n < 0 {
        word.len() > 0 && word[0] == '-' && text::parsed_number(word.skip(1), (-n) as nat) == Some(
            (-n) as nat,
        )
    } else {
        text::parsed_number(word, n as nat) == Some(n as nat)
    }
}

proof fn lemma_reads(n: int)
    ensures
        reads_as(text::decimal_int(n), n),
{
    if n < 0 {
        text::decimal_round_trip((-n) as nat, (-n) as nat);
        assert(text::decimal_int(n).skip(1) =~= text::decimal((-n) as nat));
    } else {
        text::decimal_round_trip(n as nat, n as nat);
    }
}

/// What an `info` line says, word by word: the depth, the score in centipawns or
/// in plies to mate, the nodes and the milliseconds as numbers that read back,
/// and, if there is a principal variation, `pv` and all of its moves in order,
/// each with its own squares and promotion, and nothing else.
pub proof fn info_lines_read_back(result: SearchResultView, elapsed_ms: nat)
    ensures
        ({
            let words = text::words(output::info_text(result, elapsed_ms));
            let score = result.score as int;
            &&& words.len() == (if result.pv.len() > 0 {
                11 + result.pv.len()
            } else {
                10
            })
            &&& words[0] == "info"@
            &&& words[1] == "depth"@
            &&& text::parsed_number(words[2], u32::MAX as nat) == Some(result.depth as nat)
            &&& words[3] == "score"@
            &&& -MATE_THRESHOLD < score < MATE_THRESHOLD ==> words[4] == "cp"@ && reads_as(
                words[5],
                score,
            )
            &&& score >= MATE_THRESHOLD ==> words[4] == "mate"@ && reads_as(
                words[5],
                SCORE_MATE - score,
            )
            &&& score <= -MATE_THRESHOLD ==> words[4] == "mate"@ && reads_as(
                words[5],
                -SCORE_MATE - score,
            )
            &&& words[6] == "nodes"@
            &&& text::parsed_number(words[7], u64::MAX as nat) == Some(result.nodes as nat)
            &&& words[8] == "time"@
            &&& text::parsed_number(words[9], elapsed_ms) == Some(elapsed_ms)
            &&& result.pv.len() > 0 ==> words[10] == "pv"@
            &&& forall|k: int|
                0 <= k < result.pv.len() ==> UciMove::read(#[trigger] words[11 + k]) == Some(
                    as_written(result.pv[k]),
                )
        }),
{
    lemma_info_words(result, elapsed_ms);
    let words = text::words(output::info_text(result, elapsed_ms));
    let fields = field_words(result, elapsed_ms);
    text::decimal_round_trip(result.depth as nat, u32::MAX as nat);
    text::decimal_round_trip(result.nodes as nat, u64::MAX as nat);
    text::decimal_round_trip(elapsed_ms, elapsed_ms);
    let score = result.score as int;
    lemma_reads(score);
    lemma_reads(SCORE_MATE - score);
    lemma_reads(-SCORE_MATE - score);
    assert forall|i: int| 0 <= i < 10 implies #[trigger] words[i] == fields[i] by {}
    assert forall|k: int| 0 <= k < result.pv.len() implies UciMove::read(#[trigger] words[11 + k])
        == Some(as_written(result.pv[k])) by {
        assert(words[11 + k] == output::move_text(result.pv[k]));
        output::formatted_moves_read_back(result.pv[k]);
    }
}

/// Lines with principal variations that are written differently are different.
pub proof fn different_lines_are_shown_differently(
    a: SearchResultView,
    b: SearchResultView,
    a_ms: nat,
    b_ms: nat,
    k: int,
)
    requires
        output::info_text(a, a_ms) == output::info_text(b, b_ms),
    ensures
        a.pv.len() == b.pv.len(),
        0 <= k < a.pv.len() ==> as_written(a.pv[k]) == as_written(b.pv[k]),
        a.depth == b.depth,
        a.nodes == b.nodes,
        a_ms == b_ms,
{
    info_lines_read_back(a, a_ms);
    info_lines_read_back(b, b_ms);
    let words = text::words(output::info_text(a, a_ms));
    if 0 <= k < a.pv.len() {
        assert(UciMove::read(words[11 + k]) == Some(as_written(a.pv[k])));
        assert(UciMove::read(words[11 + k]) == Some(as_written(b.pv[k])));
    }
    text::decimal_round_trip(a_ms, a_ms);
    lemma_info_words(a, a_ms);
    lemma_info_words(b, b_ms);
    text::lemma_decimal(a_ms);
    text::lemma_decimal(b_ms);
    assert(words[9] == text::decimal(a_ms));
    assert(words[9] == text::decimal(b_ms));
}

/// The line that ends a search is `bestmove` and one more word: the move, with
/// its squares and its promotion, or four zeros if there is none.
pub proof fn bestmove_lines_read_back(best_move: Option<Move>)
    ensures
        ({
            let words = text::words(output::bestmove_text(best_move));
            &&& words.len() == 2
            &&& words[0] == "bestmove"@
            &&& match best_move {
                Some(mv) => UciMove::read(words[1]) == Some(as_written(mv)),
                None => words[1] == "0000"@,
            }
        }),
{
    lemma_literal_words();
    reveal_strlit("bestmove");
    reveal_strlit("bestmove ");
    reveal_strlit("bestmove 0000");
    reveal_strlit("0000");
    let last = match best_move {
        Some(mv) => output::move_text(mv),
        None => "0000"@,
    };
    let parts = seq!["bestmove"@, last];
    if let Some(mv) = best_move {
        lemma_move_word(mv);
        output::formatted_moves_read_back(mv);
    }
    text::lemma_join_push(seq!["bestmove"@], last, ' ');
    assert(seq!["bestmove"@].push(last) =~= parts);
    assert(output::bestmove_text(best_move) =~= text::join(parts, ' '));
    lemma_words(parts);
}

} // verus!
