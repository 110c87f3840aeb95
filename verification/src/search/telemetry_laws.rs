//! What a telemetry line says.

use super::time_manager::TimeManagementTelemetry;
use crate::text;
use crate::uci::output_laws;
use vstd::prelude::*;

verus! {

/// A token of a name and a number.
pub open spec fn token(name: Seq<char>, n: int) -> Seq<char> {
    name.push('=') + text::decimal_int(n)
}

/// The tokens of a record, in order.
spec fn tokens(t: TimeManagementTelemetry) -> Seq<Seq<char>> {
    let first = seq![
        token("v"@, 1),
        token("soft_ms"@, t.soft_ms as int),
        token("hard_ms"@, t.hard_ms as int),
        token("completed_depth"@, t.completed_depth as int),
        token("aborted_ms"@, t.aborted_ms as int),
        token("best_move_changes"@, t.best_move_changes as int),
        token("avg_nps"@, t.avg_nps as int),
    ];
    match t.score_delta_cp {
        Some(delta) => first.push(token("score_delta_cp"@, delta as int)),
        None => first,
    }
}

proof fn lemma_plain(name: Seq<char>, n: int)
    requires
        forall|k: int| 0 <= k < name.len() ==> !text::is_space(#[trigger] name[k]),
    ensures
        output_laws::is_word(token(name, n)),
{
    let word = token(name, n);
    text::lemma_decimal(if n < 0 {
        (-n) as nat
    } else {
        n as nat
    });
    let number = text::decimal_int(n);
    assert forall|k: int| 0 <= k < number.len() implies !text::is_space(#[trigger] number[k]) by {
        if n < 0 && k > 0 {
            assert(number[k] == text::decimal((-n) as nat)[k - 1]);
        }
    }
    assert forall|k: int| 0 <= k < word.len() implies !text::is_space(#[trigger] word[k]) by {
        if k < name.len() {
            assert(word[k] == name[k]);
        } else if k > name.len() {
            assert(word[k] == number[k - name.len() - 1]);
        }
    }
}

/// One more token goes behind a blank.
proof fn lemma_one_more(
    line: Seq<char>,
    parts: Seq<Seq<char>>,
    label: Seq<char>,
    name: Seq<char>,
    n: int,
)
    requires
        parts.len() > 0,
        line == text::join(parts, ' '),
        label == seq![' '] + name + seq!['='],
    ensures
        line + label + text::decimal_int(n) == text::join(parts.push(token(name, n)), ' '),
{
    text::lemma_join_push(parts, token(name, n), ' ');
    assert(line + label + text::decimal_int(n) =~= line.push(' ') + token(name, n));
}

/// The labels are the names with a blank in front and an equals sign behind.
proof fn lemma_labels()
    ensures
        " soft_ms="@ == seq![' '] + "soft_ms"@ + seq!['='],
        " hard_ms="@ == seq![' '] + "hard_ms"@ + seq!['='],
        " completed_depth="@ == seq![' '] + "completed_depth"@ + seq!['='],
        " aborted_ms="@ == seq![' '] + "aborted_ms"@ + seq!['='],
        " best_move_changes="@ == seq![' '] + "best_move_changes"@ + seq!['='],
        " avg_nps="@ == seq![' '] + "avg_nps"@ + seq!['='],
        " score_delta_cp="@ == seq![' '] + "score_delta_cp"@ + seq!['='],
{
    reveal_strlit("soft_ms");
    reveal_strlit(" soft_ms=");
    reveal_strlit("hard_ms");
    reveal_strlit(" hard_ms=");
    reveal_strlit("completed_depth");
    reveal_strlit(" completed_depth=");
    reveal_strlit("aborted_ms");
    reveal_strlit(" aborted_ms=");
    reveal_strlit("best_move_changes");
    reveal_strlit(" best_move_changes=");
    reveal_strlit("avg_nps");
    reveal_strlit(" avg_nps=");
    reveal_strlit("score_delta_cp");
    reveal_strlit(" score_delta_cp=");
    assert(" soft_ms="@ =~= seq![' '] + "soft_ms"@ + seq!['=']);
    assert(" hard_ms="@ =~= seq![' '] + "hard_ms"@ + seq!['=']);
    assert(" completed_depth="@ =~= seq![' '] + "completed_depth"@ + seq!['=']);
    assert(" aborted_ms="@ =~= seq![' '] + "aborted_ms"@ + seq!['=']);
    assert(" best_move_changes="@ =~= seq![' '] + "best_move_changes"@ + seq!['=']);
    assert(" avg_nps="@ =~= seq![' '] + "avg_nps"@ + seq!['=']);
    assert(" score_delta_cp="@ =~= seq![' '] + "score_delta_cp"@ + seq!['=']);
}

proof fn lemma_names()
    ensures
        output_laws::is_word("v"@),
        output_laws::is_word("soft_ms"@),
        output_laws::is_word("hard_ms"@),
        output_laws::is_word("completed_depth"@),
        output_laws::is_word("aborted_ms"@),
        output_laws::is_word("best_move_changes"@),
        output_laws::is_word("avg_nps"@),
        output_laws::is_word("score_delta_cp"@),
{
    reveal_strlit("v");
    reveal_strlit("soft_ms");
    reveal_strlit("hard_ms");
    reveal_strlit("completed_depth");
    reveal_strlit("aborted_ms");
    reveal_strlit("best_move_changes");
    reveal_strlit("avg_nps");
    reveal_strlit("score_delta_cp");
}

proof fn lemma_telemetry_line(t: TimeManagementTelemetry)
    ensures
        t.line() == text::join(tokens(t), ' '),
{
    lemma_labels();
    reveal_strlit("v=");
    reveal_strlit("v");
    let p0 = seq![token("v"@, 1)];
    let l0 = "v="@ + text::decimal(1);
    assert(l0 =~= p0[0]);
    let p1 = p0.push(token("soft_ms"@, t.soft_ms as int));
    let l1 = l0 + " soft_ms="@ + text::decimal(t.soft_ms as nat);
    lemma_one_more(l0, p0, " soft_ms="@, "soft_ms"@, t.soft_ms as int);
    let p2 = p1.push(token("hard_ms"@, t.hard_ms as int));
    let l2 = l1 + " hard_ms="@ + text::decimal(t.hard_ms as nat);
    lemma_one_more(l1, p1, " hard_ms="@, "hard_ms"@, t.hard_ms as int);
    let p3 = p2.push(token("completed_depth"@, t.completed_depth as int));
    let l3 = l2 + " completed_depth="@ + text::decimal(t.completed_depth as nat);
    lemma_one_more(l2, p2, " completed_depth="@, "completed_depth"@, t.completed_depth as int);
    let p4 = p3.push(token("aborted_ms"@, t.aborted_ms as int));
    let l4 = l3 + " aborted_ms="@ + text::decimal(t.aborted_ms as nat);
    lemma_one_more(l3, p3, " aborted_ms="@, "aborted_ms"@, t.aborted_ms as int);
    let p5 = p4.push(token("best_move_changes"@, t.best_move_changes as int));
    let l5 = l4 + " best_move_changes="@ + text::decimal(t.best_move_changes as nat);
    lemma_one_more(l4, p4, " best_move_changes="@, "best_move_changes"@, t.best_move_changes as int);
    let p6 = p5.push(token("avg_nps"@, t.avg_nps as int));
    let l6 = l5 + " avg_nps="@ + text::decimal(t.avg_nps as nat);
    lemma_one_more(l5, p5, " avg_nps="@, "avg_nps"@, t.avg_nps as int);
    match t.score_delta_cp {
        Some(delta) => {
            lemma_one_more(l6, p6, " score_delta_cp="@, "score_delta_cp"@, delta as int);
            assert(p6.push(token("score_delta_cp"@, delta as int)) =~= tokens(t));
        },
        None => {
            assert(p6 =~= tokens(t));
        },
    }
}

/// A telemetry line is one word for each number: its name, an equals sign and the
/// number. The change of the score comes last, and only if there is one.
pub proof fn what_a_telemetry_line_says(t: TimeManagementTelemetry)
    ensures
        ({
            let words = text::words(t.line());
            &&& words.len() == (if t.score_delta_cp is Some {
                8int
            } else {
                7
            })
            &&& words[0] == token("v"@, 1)
            &&& words[1] == token("soft_ms"@, t.soft_ms as int)
            &&& words[2] == token("hard_ms"@, t.hard_ms as int)
            &&& words[3] == token("completed_depth"@, t.completed_depth as int)
            &&& words[4] == token("aborted_ms"@, t.aborted_ms as int)
            &&& words[5] == token("best_move_changes"@, t.best_move_changes as int)
            &&& words[6] == token("avg_nps"@, t.avg_nps as int)
            &&& t.score_delta_cp matches Some(delta) ==> words[7] == token(
                "score_delta_cp"@,
                delta as int,
            )
        }),
{
    lemma_telemetry_line(t);
    lemma_names();
    let parts = tokens(t);
    lemma_plain("v"@, 1);
    lemma_plain("soft_ms"@, t.soft_ms as int);
    lemma_plain("hard_ms"@, t.hard_ms as int);
    lemma_plain("completed_depth"@, t.completed_depth as int);
    lemma_plain("aborted_ms"@, t.aborted_ms as int);
    lemma_plain("best_move_changes"@, t.best_move_changes as int);
    lemma_plain("avg_nps"@, t.avg_nps as int);
    if let Some(delta) = t.score_delta_cp {
        lemma_plain("score_delta_cp"@, delta as int);
    }
    assert(output_laws::all_words(parts));
    output_laws::lemma_words(parts);
}

} // verus!
