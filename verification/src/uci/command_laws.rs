//! What the engine understands.

use super::command::{self, GoCommand, PositionCommandView, UciCommandView, UciMove};
use super::output;
use super::output_laws;
use super::session;
use crate::chess::moves::Move;
use crate::chess::piece::{Color, PieceKind};
use crate::chess::square::Square;
use crate::engine::{EngineView, EvaluatorKind, OpeningBookKind};
use crate::search::time_manager::TimeManagerConfig;
use crate::search::SearchOptions;
use crate::text;
use vstd::prelude::*;

verus! {

broadcast use crate::time::lemma_of;

/// Whether the `k`-th word is the first that is `name`, and another one follows.
pub open spec fn first_named(words: Seq<Seq<char>>, name: Seq<char>, k: int) -> bool {
    &&& 0 <= k < words.len() - 1
    &&& words[k] == name
    &&& forall|j: int| 0 <= j < k ==> #[trigger] words[j] != name
}

proof fn lemma_value_after(words: Seq<Seq<char>>, name: Seq<char>, k: int, i: nat)
    requires
        first_named(words, name, k),
        i <= k,
    ensures
        command::value_after(words, name, i) == Some(words[k + 1]),
    decreases k - i,
{
    if i < k {
        assert(words[i as int] != name);
        lemma_value_after(words, name, k, i + 1);
    }
}

proof fn lemma_no_value(words: Seq<Seq<char>>, name: Seq<char>, i: nat)
    requires
        forall|j: int| i <= j < words.len() ==> #[trigger] words[j] != name,
    ensures
        command::value_after(words, name, i) is None,
    decreases words.len() - i,
{
    if i < words.len() {
        assert(words[i as int] != name);
        lemma_no_value(words, name, i + 1);
    }
}

/// Each field of a `go` command is the number that follows its name where that
/// first occurs.
pub proof fn go_fields_follow_their_names(args: Seq<char>, k: int, n: nat)
    requires
        0 <= k < text::words(args).len() - 1,
        text::parsed_number(text::words(args)[k + 1], u32::MAX as nat) == Some(n),
    ensures
        ({
            let words = text::words(args);
            let go = GoCommand::read(args);
            &&& first_named(words, "depth"@, k) ==> go.depth == Some(n as u32)
            &&& first_named(words, "movetime"@, k) ==> go.movetime_ms == Some(n as u64)
            &&& first_named(words, "wtime"@, k) ==> go.white_time_ms == Some(n as u64)
            &&& first_named(words, "btime"@, k) ==> go.black_time_ms == Some(n as u64)
            &&& first_named(words, "winc"@, k) ==> go.white_increment_ms == Some(n as u64)
            &&& first_named(words, "binc"@, k) ==> go.black_increment_ms == Some(n as u64)
            &&& first_named(words, "movestogo"@, k) ==> go.moves_to_go == Some(n as u32)
        }),
{
    let words = text::words(args);
    if first_named(words, "depth"@, k) {
        lemma_value_after(words, "depth"@, k, 0);
    }
    if first_named(words, "movetime"@, k) {
        lemma_value_after(words, "movetime"@, k, 0);
    }
    if first_named(words, "wtime"@, k) {
        lemma_value_after(words, "wtime"@, k, 0);
    }
    if first_named(words, "btime"@, k) {
        lemma_value_after(words, "btime"@, k, 0);
    }
    if first_named(words, "winc"@, k) {
        lemma_value_after(words, "winc"@, k, 0);
    }
    if first_named(words, "binc"@, k) {
        lemma_value_after(words, "binc"@, k, 0);
    }
    if first_named(words, "movestogo"@, k) {
        lemma_value_after(words, "movestogo"@, k, 0);
    }
}

/// Whether a word is among these.
pub open spec fn among(words: Seq<Seq<char>>, name: Seq<char>) -> bool {
    exists|j: int| 0 <= j < words.len() && #[trigger] words[j] == name
}

/// A field of a `go` command whose name does not occur is not set.
pub proof fn unnamed_go_fields_are_not_set(args: Seq<char>)
    ensures
        ({
            let words = text::words(args);
            let go = GoCommand::read(args);
            &&& !among(words, "depth"@) ==> go.depth is None
            &&& !among(words, "movetime"@) ==> go.movetime_ms is None
            &&& !among(words, "wtime"@) ==> go.white_time_ms is None
            &&& !among(words, "btime"@) ==> go.black_time_ms is None
            &&& !among(words, "winc"@) ==> go.white_increment_ms is None
            &&& !among(words, "binc"@) ==> go.black_increment_ms is None
            &&& !among(words, "movestogo"@) ==> go.moves_to_go is None
        }),
{
    let words = text::words(args);
    if !among(words, "depth"@) {
        lemma_no_value(words, "depth"@, 0);
    }
    if !among(words, "movetime"@) {
        lemma_no_value(words, "movetime"@, 0);
    }
    if !among(words, "wtime"@) {
        lemma_no_value(words, "wtime"@, 0);
    }
    if !among(words, "btime"@) {
        lemma_no_value(words, "btime"@, 0);
    }
    if !among(words, "winc"@) {
        lemma_no_value(words, "winc"@, 0);
    }
    if !among(words, "binc"@) {
        lemma_no_value(words, "binc"@, 0);
    }
    if !among(words, "movestogo"@) {
        lemma_no_value(words, "movestogo"@, 0);
    }
}

/// A side's clock shows its own time and its own increment in milliseconds, and
/// the moves to go; without its time there is no clock, and without an increment
/// it gains nothing.
pub proof fn each_side_has_its_own_clock(go: GoCommand)
    ensures
        go.clock_of(Color::White) is Some <==> go.white_time_ms is Some,
        go.clock_of(Color::Black) is Some <==> go.black_time_ms is Some,
        go.clock_of(Color::White) matches Some(clock) ==> {
            &&& clock.time_left.ns() == go.white_time_ms->0 * 1_000_000
            &&& clock.increment.ns() == (match go.white_increment_ms {
                Some(ms) => ms * 1_000_000,
                None => 0,
            })
            &&& clock.moves_to_go == go.moves_to_go
        },
        go.clock_of(Color::Black) matches Some(clock) ==> {
            &&& clock.time_left.ns() == go.black_time_ms->0 * 1_000_000
            &&& clock.increment.ns() == (match go.black_increment_ms {
                Some(ms) => ms * 1_000_000,
                None => 0,
            })
            &&& clock.moves_to_go == go.moves_to_go
        },
{
}

/// Without a depth the search goes four plies deep.
pub proof fn how_far_a_go_searches(go: GoCommand)
    ensures
        go.depth is None ==> session::depth_of(go) == 4,
        go.depth matches Some(depth) ==> session::depth_of(go) == depth,
{
}

proof fn lemma_stripped(prefix: Seq<char>, rest: Seq<char>)
    ensures
        text::stripped(prefix + rest, prefix) == Some(rest),
{
    assert((prefix + rest).subrange(0, prefix.len() as int) =~= prefix);
    assert((prefix + rest).skip(prefix.len() as int) =~= rest);
}

proof fn lemma_not_stripped(s: Seq<char>, prefix: Seq<char>, k: int)
    requires
        0 <= k < prefix.len(),
        k < s.len() ==> s[k] != prefix[k],
    ensures
        text::stripped(s, prefix) is None,
{
    if text::occurs_at(s, prefix, 0) {
        assert(s.subrange(0, prefix.len() as int)[k] == s[k]);
    }
}

/// The words of a text with a space before it are those of the text.
proof fn lemma_words_after_space(s: Seq<char>)
    ensures
        text::words(seq![' '] + s) == text::words(s),
{
    assert((seq![' '] + s).drop_first() =~= s);
}

/// The moves as they are written in a `position` command.
pub open spec fn written(moves: Seq<Move>) -> Seq<UciMove> {
    Seq::new(moves.len(), |k: int| output_laws::as_written(moves[k]))
}

proof fn lemma_read_moves(moves: Seq<Move>, n: nat)
    requires
        n <= moves.len(),
    ensures
        command::read_moves(output_laws::move_words(moves, moves.len()), n) == Some(
            written(moves).take(n as int),
        ),
    decreases n,
{
    if n > 0 {
        lemma_read_moves(moves, (n - 1) as nat);
        output::formatted_moves_read_back(moves[n - 1]);
        assert(output_laws::move_words(moves, moves.len())[n - 1] == output::move_text(
            moves[n - 1],
        ));
        assert(written(moves).take(n as int) =~= written(moves).take(n - 1).push(
            output_laws::as_written(moves[n - 1]),
        ));
    } else {
        assert(written(moves).take(0) =~= Seq::<UciMove>::empty());
    }
}

/// A list of moves as it ends a `position` command.
pub open spec fn moves_suffix(moves: Seq<Move>) -> Seq<char> {
    " moves"@ + output::line_text(moves, moves.len())
}

proof fn lemma_line_words(moves: Seq<Move>)
    requires
        moves.len() > 0,
    ensures
        text::words(output::line_text(moves, moves.len())) == output_laws::move_words(
            moves,
            moves.len(),
        ),
        !text::is_space(output::line_text(moves, moves.len()).last()),
        output::line_text(moves, moves.len()).len() > 0,
{
    let words = output_laws::move_words(moves, moves.len());
    let first = seq![words[0]];
    let rest = moves.skip(1);
    output_laws::lemma_line(first, rest, rest.len());
    assert(first + output_laws::move_words(rest, rest.len()) =~= words);
    lemma_line_text_from(moves, moves.len());
    assert(output::line_text(moves, moves.len()) =~= seq![' '] + text::join(words, ' '));
    assert forall|i: int| 0 <= i < words.len() implies output_laws::is_word(
        #[trigger] words[i],
    ) by {
        output_laws::lemma_move_word(moves[i]);
    }
    output_laws::lemma_words(words);
    lemma_words_after_space(text::join(words, ' '));
    let last = output::move_text(moves.last());
    output_laws::lemma_move_word(moves.last());
    let line = output::line_text(moves, moves.len());
    assert(line.last() == last.last());
    assert(last.last() == last[last.len() - 1]);
}

/// A line of moves is its first move, after a space, and the line of the others.
proof fn lemma_line_text_from(moves: Seq<Move>, n: nat)
    requires
        0 < n <= moves.len(),
    ensures
        output::line_text(moves, n) == (seq![' '] + output::move_text(moves[0]))
            + output::line_text(moves.skip(1), (n - 1) as nat),
    decreases n,
{
    if n == 1 {
        reveal_with_fuel(output::line_text, 2);
        assert(output::line_text(moves, 1) =~= (seq![' '] + output::move_text(moves[0]))
            + output::line_text(moves.skip(1), 0));
    } else {
        lemma_line_text_from(moves, (n - 1) as nat);
        assert(moves.skip(1)[n - 2] == moves[n - 1]);
        assert(output::line_text(moves, n) =~= (seq![' '] + output::move_text(moves[0]))
            + output::line_text(moves.skip(1), (n - 1) as nat));
    }
}

proof fn lemma_suffix(moves: Seq<Move>)
    requires
        moves.len() > 0,
    ensures
        command::read_moves_suffix(moves_suffix(moves)) == Some(written(moves)),
        !text::is_space(moves_suffix(moves).last()),
{
    reveal_strlit(" moves");
    reveal_strlit("moves");
    let line = output::line_text(moves, moves.len());
    let s = moves_suffix(moves);
    lemma_line_words(moves);
    let rest = "moves"@ + line;
    assert(s.drop_first() =~= rest);
    assert(rest.last() == line.last());
    assert(text::trimmed(rest) == rest);
    assert(text::trimmed(s) == text::trimmed(s.drop_first()));
    lemma_stripped("moves"@, line);
    lemma_read_moves(moves, moves.len());
    assert(written(moves).take(moves.len() as int) =~= written(moves));
}

/// `position startpos moves ...` with moves as they are written everywhere else
/// is understood as the starting position and just these moves, in order.
pub proof fn games_from_the_start_are_understood(moves: Seq<Move>)
    ensures
        PositionCommandView::read("startpos"@) == Some(
            PositionCommandView::StartPos { moves: Seq::empty() },
        ),
        moves.len() > 0 ==> PositionCommandView::read("startpos"@ + moves_suffix(moves)) == Some(
            PositionCommandView::StartPos { moves: written(moves) },
        ),
{
    reveal_strlit("startpos");
    reveal_strlit(" moves");
    let start = "startpos"@;
    assert(text::trimmed(start) == start);
    lemma_stripped(start, Seq::empty());
    assert(start + Seq::<char>::empty() =~= start);
    if moves.len() > 0 {
        lemma_suffix(moves);
        let s = start + moves_suffix(moves);
        assert(s.last() == moves_suffix(moves).last());
        assert(s[0] == start[0]);
        assert(text::trimmed(s) == s);
        lemma_stripped(start, moves_suffix(moves));
    }
}

proof fn lemma_first_occurrence(s: Seq<char>, pattern: Seq<char>, at: int, from: int)
    requires
        0 <= from <= at <= s.len(),
        text::occurs_at(s, pattern, at),
        forall|j: int| from <= j < at ==> !#[trigger] text::occurs_at(s, pattern, j),
    ensures
        text::first_occurrence(s, pattern, from) == Some(at),
    decreases at - from,
{
    if from < at {
        assert(!text::occurs_at(s, pattern, from));
        lemma_first_occurrence(s, pattern, at, from + 1);
    }
}

/// Likewise `position fen ... moves ...`, for any FEN that does not hold the
/// letter `m`, as none does that describes a position.
pub proof fn games_from_a_position_are_understood(fen: Seq<char>, moves: Seq<Move>)
    requires
        fen.len() > 0,
        !text::is_space(fen[0]),
        !text::is_space(fen.last()),
        forall|k: int| 0 <= k < fen.len() ==> #[trigger] fen[k] != 'm',
        moves.len() > 0,
    ensures
        PositionCommandView::read("fen "@ + fen + moves_suffix(moves)) == Some(
            PositionCommandView::Fen { fen, moves: written(moves) },
        ),
{
    reveal_strlit("startpos");
    reveal_strlit("fen");
    reveal_strlit("fen ");
    reveal_strlit(" ");
    reveal_strlit(" moves");
    reveal_strlit("moves");
    lemma_suffix(moves);
    let tail = moves_suffix(moves);
    let s = "fen "@ + fen + tail;
    let body = fen + tail;
    assert(s.last() == tail.last());
    assert(s[0] == 'f');
    assert(text::trimmed(s) == s);
    lemma_not_stripped(s, "startpos"@, 0);
    assert(s =~= "fen"@ + (" "@ + body));
    lemma_stripped("fen"@, " "@ + body);
    lemma_stripped(" "@, body);
    let at = fen.len() as int + 1;
    let after = "moves"@ + output::line_text(moves, moves.len());
    assert(body =~= (fen + seq![' ']) + after);
    assert(body.subrange(at, at + "moves"@.len()) =~= "moves"@);
    assert forall|j: int| 0 <= j < at implies !#[trigger] text::occurs_at(body, "moves"@, j) by {
        if text::occurs_at(body, "moves"@, j) {
            assert(body.subrange(j, j + "moves"@.len())[0] == body[j]);
            if j < fen.len() {
                assert(body[j] == fen[j]);
            }
        }
    }
    lemma_first_occurrence(body, "moves"@, at, 0);
    assert(body.take(at) =~= fen.push(' '));
    assert(fen.push(' ').drop_last() =~= fen);
    assert(text::trimmed(fen.push(' ')) == text::trimmed(fen));
    assert(text::trimmed(fen) == fen);
    assert(body.skip(at) =~= after);
    assert(tail.drop_first() =~= after);
    assert(after[0] == 'm');
    assert(after.last() == tail.last());
    assert(text::trimmed(after) == after);
    assert(text::trimmed(tail) == text::trimmed(after));
    assert(command::read_moves_suffix(after) == command::read_moves_suffix(tail));
}

/// Moves are played one after another: a list of moves followed by another one
/// has the effect of both, if nothing in the first one is illegal.
pub proof fn moves_are_played_in_order(
    engine: EngineView,
    first: Seq<UciMove>,
    second: Seq<UciMove>,
    k: nat,
)
    requires
        k <= first.len(),
        session::after_moves(engine, first, k).1 is None,
    ensures
        session::after_moves(engine, first + second, k) == session::after_moves(
            session::after_moves(engine, first, k).0,
            second,
            0,
        ),
    decreases first.len() - k,
{
    let all = first + second;
    if k < first.len() {
        let mv = first[k as int];
        assert(all[k as int] == mv);
        let found = engine.legal_match(mv.from.idx(), mv.to.idx(), mv.promotion)->0;
        moves_are_played_in_order(engine.played(found), first, second, k + 1);
    } else {
        lemma_shifted_moves(engine, first, second, 0);
    }
}

proof fn lemma_shifted_moves(
    engine: EngineView,
    first: Seq<UciMove>,
    second: Seq<UciMove>,
    k: nat,
)
    requires
        k <= second.len(),
    ensures
        session::after_moves(engine, first + second, first.len() + k) == session::after_moves(
            engine,
            second,
            k,
        ),
    decreases second.len() - k,
{
    let all = first + second;
    if k < second.len() {
        let mv = second[k as int];
        assert(all[first.len() as int + k] == mv);
        if let Some(found) = engine.legal_match(mv.from.idx(), mv.to.idx(), mv.promotion) {
            lemma_shifted_moves(engine.played(found), first, second, k + 1);
        }
    }
}

/// One move is played if it is legal, and otherwise leaves the game where it is
/// and is what went wrong.
pub proof fn one_move_is_played_if_legal(engine: EngineView, mv: UciMove)
    ensures
        match engine.legal_match(mv.from.idx(), mv.to.idx(), mv.promotion) {
            Some(found) => session::after_moves(engine, seq![mv], 0) == (
                engine.played(found),
                None::<UciMove>,
            ),
            None => session::after_moves(engine, seq![mv], 0) == (engine, Some(mv)),
        },
{
    reveal_with_fuel(session::after_moves, 3);
}

/// White space around a command does not matter.
pub proof fn commands_are_trimmed(line: Seq<char>, space: char)
    requires
        text::is_space(space),
    ensures
        UciCommandView::read(line.push(space)) == UciCommandView::read(line),
        UciCommandView::read(seq![space] + line) == UciCommandView::read(line),
{
    lemma_trailing_space(line, space);
    assert((seq![space] + line).drop_first() =~= line);
}

proof fn lemma_trailing_space(s: Seq<char>, space: char)
    requires
        text::is_space(space),
    ensures
        text::trimmed(s.push(space)) == text::trimmed(s),
    decreases s.len(),
{
    if s.len() == 0 {
        assert(s.push(space).drop_first() =~= s);
    } else if text::is_space(s[0]) {
        assert(s.push(space).drop_first() =~= s.drop_first().push(space));
        lemma_trailing_space(s.drop_first(), space);
    } else {
        assert(s.push(space).drop_last() =~= s);
    }
}

/// The commands of one word, and that anything else is not taken for one of them.
pub proof fn one_word_commands(line: Seq<char>)
    ensures
        UciCommandView::read("uci"@) is Uci,
        UciCommandView::read("isready"@) is IsReady,
        UciCommandView::read("ucinewgame"@) is NewGame,
        UciCommandView::read("stop"@) is Stop,
        UciCommandView::read("quit"@) is Quit,
        UciCommandView::read("go"@) is Go,
        UciCommandView::read(line) is Stop ==> text::trimmed(line) == "stop"@,
        UciCommandView::read(line) is Quit ==> text::trimmed(line) == "quit"@,
        UciCommandView::read(line) is NewGame ==> text::trimmed(line) == "ucinewgame"@,
        UciCommandView::read(line) is Go ==> text::stripped(text::trimmed(line), "go"@) is Some,
{
    reveal_strlit("uci");
    reveal_strlit("isready");
    reveal_strlit("ucinewgame");
    reveal_strlit("stop");
    reveal_strlit("quit");
    reveal_strlit("go");
    reveal_strlit("position");
    assert("uci"@.len() == 3 && "isready"@.len() == 7 && "ucinewgame"@.len() == 10 && "stop"@.len()
        == 4 && "quit"@.len() == 4 && "go"@.len() == 2);
    assert("stop"@[0] == 's' && "quit"@[0] == 'q');
    lemma_not_stripped("go"@, "position"@, 0);
    lemma_stripped("go"@, Seq::empty());
    assert("go"@ + Seq::<char>::empty() =~= "go"@);
}

/// What a `go` line asks for is read from what follows the word.
pub proof fn go_lines_are_read(args: Seq<char>)
    requires
        args.len() > 0,
        !text::is_space(args.last()),
    ensures
        UciCommandView::read("go "@ + args) == UciCommandView::Go(GoCommand::read(args)),
{
    reveal_strlit("go ");
    reveal_strlit("go");
    reveal_strlit("uci");
    reveal_strlit("isready");
    reveal_strlit("ucinewgame");
    reveal_strlit("stop");
    reveal_strlit("quit");
    reveal_strlit("position");
    let line = "go "@ + args;
    assert(line.last() == args.last());
    assert(line[0] == 'g' && line[1] == 'o');
    assert(text::trimmed(line) == line);
    assert("uci"@[0] == 'u' && "isready"@[0] == 'i' && "ucinewgame"@[0] == 'u' && "stop"@[0] == 's'
        && "quit"@[0] == 'q');
    lemma_not_stripped(line, "position"@, 0);
    assert(line =~= "go"@ + (seq![' '] + args));
    lemma_stripped("go"@, seq![' '] + args);
    lemma_words_after_space(args);
}

/// Setting an option changes just the setting that it names: the evaluator, one
/// of the search switches, the book, or the move overhead in milliseconds.
pub proof fn options_change_what_they_name(
    engine: EngineView,
    name: Seq<char>,
    value: Seq<char>,
    ms: u64,
)
    ensures
        ({
            let after = session::option_set(engine, name, value);
            let word = text::lowered(name);
            let checked = session::read_check(value);
            &&& word == "evaluator"@ && EvaluatorKind::named(value) is Some ==> after == (
            EngineView { evaluator: EvaluatorKind::named(value)->0, ..engine })
            &&& word == "usett"@ && checked is Some ==> after == (EngineView {
                options: SearchOptions { use_tt: checked->0, ..engine.options },
                ..engine
            })
            &&& word == "usequiescence"@ && checked is Some ==> after == (EngineView {
                options: SearchOptions { use_quiescence: checked->0, ..engine.options },
                ..engine
            })
            &&& word == "useenhancedquiescence"@ && checked is Some ==> after == (EngineView {
                options: SearchOptions { use_enhanced_quiescence: checked->0, ..engine.options },
                ..engine
            })
            &&& word == "openingbook"@ && OpeningBookKind::named(value) is Some ==> after == (
            EngineView { book: OpeningBookKind::named(value)->0, ..engine })
            &&& word == "moveoverhead"@ && value == text::decimal(ms as nat)
                ==> after.config.move_overhead.ns() == ms * 1_000_000 && after == (EngineView {
                config: TimeManagerConfig {
                    move_overhead: after.config.move_overhead,
                    ..engine.config
                },
                ..engine
            })
        }),
{
    reveal_strlit("evaluator");
    reveal_strlit("usett");
    reveal_strlit("usequiescence");
    reveal_strlit("useenhancedquiescence");
    reveal_strlit("openingbook");
    reveal_strlit("moveoverhead");
    assert("evaluator"@.len() == 9 && "usett"@.len() == 5 && "usequiescence"@.len() == 13
        && "useenhancedquiescence"@.len() == 21 && "openingbook"@.len() == 11
        && "moveoverhead"@.len() == 12);
    text::lemma_decimal(ms as nat);
    text::decimal_round_trip(ms as nat, u64::MAX as nat);
    let numeral = text::decimal(ms as nat);
    assert(text::is_digit(numeral[0]));
    assert(text::is_digit(numeral[numeral.len() - 1]));
    assert(text::trimmed(numeral) == numeral);
}

/// A check is on for `true` and off for `false`, in any case.
pub proof fn checks_are_true_or_false(value: Seq<char>)
    requires
        value.len() > 0,
        !text::is_space(value[0]),
        !text::is_space(value.last()),
    ensures
        text::lowered(value) == "true"@ ==> session::read_check(value) == Some(true),
        text::lowered(value) == "false"@ ==> session::read_check(value) == Some(false),
        text::lowered(value) != "true"@ && text::lowered(value) != "false"@ ==> session::read_check(
            value,
        ) is None,
{
    reveal_strlit("true");
    reveal_strlit("false");
    assert("true"@.len() != "false"@.len());
    assert(text::trimmed(value) == value);
}

/// `setoption name ... value ...` gives that name and that value, for any name
/// without white space and any value that neither starts nor ends with it.
pub proof fn options_are_read(name: Seq<char>, value: Seq<char>)
    requires
        output_laws::is_word(name),
        value.len() > 0,
        !text::is_space(value[0]),
        !text::is_space(value.last()),
    ensures
        command::read_setoption("setoption name "@ + name + " value "@ + value) == Some(
            (name, value),
        ),
{
    reveal_strlit("setoption name ");
    reveal_strlit(" value ");
    let rest = name + " value "@ + value;
    assert("setoption name "@ + name + " value "@ + value =~= "setoption name "@ + rest);
    lemma_stripped("setoption name "@, rest);
    let at = name.len() as int;
    assert(rest.subrange(at, at + " value "@.len()) =~= " value "@);
    assert forall|j: int| 0 <= j < at implies !#[trigger] text::occurs_at(rest, " value "@, j) by {
        if text::occurs_at(rest, " value "@, j) {
            assert(rest.subrange(j, j + " value "@.len())[0] == rest[j]);
            assert(rest[j] == name[j]);
            assert(text::is_space(' '));
        }
    }
    lemma_first_occurrence(rest, " value "@, at, 0);
    assert(rest.take(at) =~= name);
    assert(rest.skip(at + " value "@.len()) =~= value);
    assert(name.last() == name[name.len() - 1]);
    assert(text::trimmed(name) == name);
    assert(text::trimmed(value) == value);
}

/// A move is told by the two squares, and by the letter of the new piece if a pawn is
/// promoted: `q` for a queen, `r` for a rook, `b` for a bishop, `n` for a knight.
pub proof fn how_moves_are_told(from_file: char, from_rank: char, to_file: char, to_rank: char)
    requires
        'a' <= from_file <= 'h',
        'a' <= to_file <= 'h',
        '1' <= from_rank <= '8',
        '1' <= to_rank <= '8',
    ensures
        ({
            let plain = seq![from_file, from_rank, to_file, to_rank];
            let from = (from_file as int - 'a' as int) + 8 * (from_rank as int - '1' as int);
            let to = (to_file as int - 'a' as int) + 8 * (to_rank as int - '1' as int);
            let read = UciMove::read(plain);
            &&& read matches Some(mv) && mv.from == Square::at(from) && mv.to == Square::at(to)
                && mv.promotion is None
            &&& UciMove::read(plain.push('q')) == Some(
                UciMove { promotion: Some(PieceKind::Queen), ..read->0 },
            )
            &&& UciMove::read(plain.push('r')) == Some(
                UciMove { promotion: Some(PieceKind::Rook), ..read->0 },
            )
            &&& UciMove::read(plain.push('b')) == Some(
                UciMove { promotion: Some(PieceKind::Bishop), ..read->0 },
            )
            &&& UciMove::read(plain.push('n')) == Some(
                UciMove { promotion: Some(PieceKind::Knight), ..read->0 },
            )
        }),
{
    let plain = seq![from_file, from_rank, to_file, to_rank];
    assert(plain.take(2) =~= seq![from_file, from_rank]);
    assert(plain.subrange(2, 4) =~= seq![to_file, to_rank]);
    lemma_told(plain, 'q');
    lemma_told(plain, 'r');
    lemma_told(plain, 'b');
    lemma_told(plain, 'n');
}

proof fn lemma_told(plain: Seq<char>, letter: char)
    requires
        plain.len() == 4,
    ensures
        plain.push(letter).take(2) == plain.take(2),
        plain.push(letter).subrange(2, 4) == plain.subrange(2, 4),
        plain.push(letter)[4] == letter,
{
    assert(plain.push(letter).take(2) =~= plain.take(2));
    assert(plain.push(letter).subrange(2, 4) =~= plain.subrange(2, 4));
}

} // verus!
