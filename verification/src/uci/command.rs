//! UCI commands: protocol text turned into structured data.

use crate::chess::fen::FenError;
use crate::chess::piece::{Color, PieceKind};
use crate::chess::square::Square;
use crate::engine::IllegalMoveError;
use crate::search::time_manager::ClockTimeControl;
use crate::text;
use crate::time::Duration;
use vstd::prelude::*;

verus! {

/// A single move as written in UCI move notation: `e2e4`, or `e7e8q`
/// for a promotion. This is pure protocol text turned into structured
/// data -- it does not know which of the position's legal moves (if
/// any) it actually corresponds to; matching it against legality is
/// `Engine::apply_move`'s job.
#[derive(Debug, Clone, Copy, PartialEq, Eq, Structural)]
pub struct UciMove {
    pub from: Square,
    pub to: Square,
    pub promotion: Option<PieceKind>,
}

/// The piece kind that a promotion letter stands for.
pub open spec fn promotion_named(letter: char) -> Option<PieceKind> {
    if letter == 'q' {
        Some(PieceKind::Queen)
    } else if letter == 'r' {
        Some(PieceKind::Rook)
    } else if letter == 'b' {
        Some(PieceKind::Bishop)
    } else if letter == 'n' {
        Some(PieceKind::Knight)
    } else {
        None
    }
}

impl UciMove {
    /// The move that a token stands for: the names of two squares, and a
    /// promotion letter if there is a fifth character.
    pub open spec fn read(s: Seq<char>) -> Option<UciMove> {
        if s.len() == 4 || s.len() == 5 {
            match (Square::named(s.take(2)), Square::named(s.subrange(2, 4))) {
                (Some(from), Some(to)) => {
                    if s.len() == 4 {
                        Some(
                            UciMove { from: Square::at(from), to: Square::at(to), promotion: None },
                        )
                    } else {
                        match promotion_named(s[4]) {
                            Some(kind) => Some(
                                UciMove {
                                    from: Square::at(from),
                                    to: Square::at(to),
                                    promotion: Some(kind),
                                },
                            ),
                            None => None,
                        }
                    }
                },
                _ => None,
            }
        } else {
            None
        }
    }

    /// Parses a single UCI move token, e.g. `"e2e4"` or `"e7e8q"`.
    /// Returns `None` if `s` isn't a well-formed UCI move token; it does
    /// not check legality.
    pub fn parse(s: &str) -> (mv: Option<UciMove>)
        ensures
            mv == UciMove::read(s@),
    {
        UciMove::from_chars(&text::chars_of(s))
    }

    pub(crate) fn from_chars(chars: &Vec<char>) -> (mv: Option<UciMove>)
        ensures
            mv == UciMove::read(chars@),
    {
        if chars.len() != 4 && chars.len() != 5 {
            return None;
        }
        assert(chars@.take(2) =~= seq![chars@[0], chars@[1]]);
        assert(chars@.subrange(2, 4) =~= seq![chars@[2], chars@[3]]);
        let from = match Square::from_chars(chars[0], chars[1]) {
            Some(square) => square,
            None => {
                return None;
            },
        };
        let to = match Square::from_chars(chars[2], chars[3]) {
            Some(square) => square,
            None => {
                return None;
            },
        };
        if chars.len() == 4 {
            return Some(UciMove { from, to, promotion: None });
        }
        match chars[4] {
            'q' => Some(UciMove { from, to, promotion: Some(PieceKind::Queen) }),
            'r' => Some(UciMove { from, to, promotion: Some(PieceKind::Rook) }),
            'b' => Some(UciMove { from, to, promotion: Some(PieceKind::Bishop) }),
            'n' => Some(UciMove { from, to, promotion: Some(PieceKind::Knight) }),
            _ => None,
        }
    }
}

/// The moves that the first `n` words stand for, if all of them are moves.
pub open spec fn read_moves(words: Seq<Seq<char>>, n: nat) -> Option<Seq<UciMove>>
    decreases n,
{
    if n == 0 {
        Some(Seq::empty())
    } else {
        match (read_moves(words, (n - 1) as nat), UciMove::read(words[n - 1])) {
            (Some(moves), Some(mv)) => Some(moves.push(mv)),
            _ => None,
        }
    }
}

/// One word that is no move spoils the whole list.
proof fn lemma_read_moves_fails(words: Seq<Seq<char>>, k: nat, n: nat)
    requires
        k <= n,
        read_moves(words, k) is None,
    ensures
        read_moves(words, n) is None,
    decreases n - k,
{
    if k < n {
        lemma_read_moves_fails(words, k, (n - 1) as nat);
    }
}

/// The `[moves e2e4 e7e5 ...]` suffix of a `position` command: nothing but
/// white space for no moves, or else the word `moves` and the moves.
pub open spec fn read_moves_suffix(s: Seq<char>) -> Option<Seq<UciMove>> {
    let rest = text::trimmed(s);
    if rest.len() == 0 {
        Some(Seq::empty())
    } else {
        match text::stripped(rest, "moves"@) {
            Some(list) => read_moves(text::words(list), text::words(list).len()),
            None => None,
        }
    }
}

/// Parses the `[moves e2e4 e7e5 ...]` suffix of a `position` command
/// (or an empty/whitespace-only text, meaning no moves). Returns
/// `None` if something else is there, or if any move token after the `moves`
/// keyword fails to parse.
fn parse_moves_suffix(chars: &Vec<char>) -> (moves: Option<Vec<UciMove>>)
    ensures
        match moves {
            Some(list) => read_moves_suffix(chars@) == Some(list@),
            None => read_moves_suffix(chars@) is None,
        },
{
    let rest: Vec<char> = text::trim(chars);
    if rest.len() == 0 {
        let list: Vec<UciMove> = Vec::new();
        assert(list@ =~= Seq::<UciMove>::empty());
        return Some(list);
    }
    let words: Vec<Vec<char>> = match text::strip_prefix(&rest, "moves") {
        Some(list) => text::split_words(&list),
        None => {
            return None;
        },
    };
    let ghost parts = text::views(words@);
    let mut moves: Vec<UciMove> = Vec::new();
    assert(moves@ =~= Seq::<UciMove>::empty());
    let mut k: usize = 0;
    while k < words.len()
        invariant
            k <= words.len(),
            parts == text::views(words@),
            read_moves_suffix(chars@) == read_moves(parts, parts.len()),
            read_moves(parts, k as nat) == Some(moves@),
        decreases words.len() - k,
    {
        assert(parts[k as int] == words@[k as int]@);
        match UciMove::from_chars(&words[k]) {
            Some(mv) => {
                moves.push(mv);
            },
            None => {
                proof {
                    assert(read_moves(parts, k as nat + 1) is None);
                    lemma_read_moves_fails(parts, k as nat + 1, parts.len());
                }
                return None;
            },
        }
        k += 1;
    }
    Some(moves)
}

/// The parsed body of a `position` command: a base position (the
/// starting position, or one given by FEN) plus a sequence of moves to
/// play from it.
#[derive(Debug, Clone, PartialEq, Eq)]
pub enum PositionCommand {
    StartPos { moves: Vec<UciMove> },
    Fen { fen: String, moves: Vec<UciMove> },
}

/// What a `position` command says.
pub enum PositionCommandView {
    StartPos { moves: Seq<UciMove> },
    Fen { fen: Seq<char>, moves: Seq<UciMove> },
}

impl View for PositionCommand {
    type V = PositionCommandView;

    open spec fn view(&self) -> PositionCommandView {
        match self {
            PositionCommand::StartPos { moves } => PositionCommandView::StartPos { moves: moves@ },
            PositionCommand::Fen { fen, moves } => PositionCommandView::Fen {
                fen: fen@,
                moves: moves@,
            },
        }
    }
}

impl PositionCommandView {
    /// The command that follows the word `fen` and a space.
    pub open spec fn read_fen(rest: Seq<char>) -> Option<PositionCommandView> {
        match text::first_occurrence(rest, "moves"@, 0) {
            Some(at) => match read_moves_suffix(rest.skip(at)) {
                Some(moves) => Some(
                    PositionCommandView::Fen { fen: text::trimmed(rest.take(at)), moves },
                ),
                None => None,
            },
            None => Some(
                PositionCommandView::Fen { fen: text::trimmed(rest), moves: Seq::empty() },
            ),
        }
    }

    /// The command that a text stands for: `startpos [moves ...]` or
    /// `fen <fen> [moves ...]`.
    pub open spec fn read(args: Seq<char>) -> Option<PositionCommandView> {
        let rest = text::trimmed(args);
        match text::stripped(rest, "startpos"@) {
            Some(suffix) => match read_moves_suffix(suffix) {
                Some(moves) => Some(PositionCommandView::StartPos { moves }),
                None => None,
            },
            None => match text::stripped(rest, "fen"@) {
                Some(after) => match text::stripped(after, " "@) {
                    Some(body) => PositionCommandView::read_fen(body),
                    None => None,
                },
                None => None,
            },
        }
    }
}

impl PositionCommand {
    /// Parses the argument portion of a `position` command, i.e.
    /// everything after `"position "`. Accepts `startpos [moves ...]`,
    /// `fen <fen> [moves ...]`. Returns `None` for anything else: a
    /// missing/malformed base position, or a malformed move in the `moves`
    /// list.
    pub fn parse(args: &str) -> (command: Option<PositionCommand>)
        ensures
            match command {
                Some(c) => PositionCommandView::read(args@) == Some(c@),
                None => PositionCommandView::read(args@) is None,
            },
    {
        PositionCommand::from_chars(&text::chars_of(args))
    }

    fn from_chars(chars: &Vec<char>) -> (command: Option<PositionCommand>)
        ensures
            match command {
                Some(c) => PositionCommandView::read(chars@) == Some(c@),
                None => PositionCommandView::read(chars@) is None,
            },
    {
        let args: Vec<char> = text::trim(chars);
        if let Some(suffix) = text::strip_prefix(&args, "startpos") {
            return match parse_moves_suffix(&suffix) {
                Some(moves) => Some(PositionCommand::StartPos { moves }),
                None => None,
            };
        }
        let rest: Vec<char> = match text::strip_prefix(&args, "fen") {
            Some(after) => match text::strip_prefix(&after, " ") {
                Some(body) => body,
                None => {
                    return None;
                },
            },
            None => {
                return None;
            },
        };
        match text::find_text(&rest, "moves") {
            Some(at) => {
                let before: Vec<char> = text::slice(&rest, 0, at);
                let after: Vec<char> = text::slice(&rest, at, rest.len());
                assert(before@ =~= rest@.take(at as int));
                assert(after@ =~= rest@.skip(at as int));
                match parse_moves_suffix(&after) {
                    Some(moves) => Some(
                        PositionCommand::Fen { fen: text::string_of(&text::trim(&before)), moves },
                    ),
                    None => None,
                }
            },
            None => {
                let moves: Vec<UciMove> = Vec::new();
                assert(moves@ =~= Seq::<UciMove>::empty());
                Some(PositionCommand::Fen { fen: text::string_of(&text::trim(&rest)), moves })
            },
        }
    }
}

/// Why a `position` command could not be fully applied.
#[derive(Debug, Clone, PartialEq, Eq)]
pub enum PositionCommandError {
    InvalidFen(FenError),
    IllegalMove(IllegalMoveError),
}

/// The parsed body of a `go` command. Recognizes `depth <n>` (fixed-
/// depth search, see `Engine::search`), `movetime <ms>` (time-bounded
/// iterative deepening with a single fixed budget), and the real UCI clock
/// fields (`wtime`/`btime`/`winc`/`binc`/`movestogo`, see
/// `Engine::search_with_clock`). Priority when more than one applies:
/// `movetime` first, then clock fields, then `depth` -- movetime and the
/// clock fields are both "time-bounded search," and movetime is the more
/// explicit request when both happen to be present.
#[derive(Debug, Clone, Copy, PartialEq, Eq, Structural)]
pub struct GoCommand {
    pub depth: Option<u32>,
    pub movetime_ms: Option<u64>,
    pub white_time_ms: Option<u64>,
    pub black_time_ms: Option<u64>,
    pub white_increment_ms: Option<u64>,
    pub black_increment_ms: Option<u64>,
    pub moves_to_go: Option<u32>,
}

impl Default for GoCommand {
    fn default() -> (command: GoCommand)
        ensures
            command == GoCommand::nothing(),
    {
        GoCommand {
            depth: None,
            movetime_ms: None,
            white_time_ms: None,
            black_time_ms: None,
            white_increment_ms: None,
            black_increment_ms: None,
            moves_to_go: None,
        }
    }
}

/// The token that follows the first `name` from the `k`-th token on.
pub open spec fn value_after(tokens: Seq<Seq<char>>, name: Seq<char>, k: nat) -> Option<Seq<char>>
    decreases tokens.len() - k,
{
    if k >= tokens.len() {
        None
    } else if tokens[k as int] == name {
        if k + 1 < tokens.len() {
            Some(tokens[k as int + 1])
        } else {
            None
        }
    } else {
        value_after(tokens, name, k + 1)
    }
}

/// The number of at most `max` that follows the first `name`.
pub open spec fn number_after(tokens: Seq<Seq<char>>, name: Seq<char>, max: nat) -> Option<nat> {
    match value_after(tokens, name, 0) {
        Some(value) => text::parsed_number(value, max),
        None => None,
    }
}

/// A number as 32 bits.
pub open spec fn narrow(n: Option<nat>) -> Option<u32> {
    match n {
        Some(value) => Some(value as u32),
        None => None,
    }
}

/// A number as 64 bits.
pub open spec fn wide(n: Option<nat>) -> Option<u64> {
    match n {
        Some(value) => Some(value as u64),
        None => None,
    }
}

/// Extracts the integer value following `name` in a `go` command's
/// tokens (e.g. finds the `4` in `"go depth 4"`), or `None` if `name` isn't
/// present or isn't followed by a number of at most `max`.
fn go_field(tokens: &Vec<Vec<char>>, name: &str, max: u64) -> (value: Option<u64>)
    ensures
        value == wide(number_after(text::views(tokens@), name@, max as nat)),
        value matches Some(n) ==> n <= max && number_after(
            text::views(tokens@),
            name@,
            max as nat,
        ) == Some(n as nat),
        value is None ==> number_after(text::views(tokens@), name@, max as nat) is None,
{
    let ghost parts = text::views(tokens@);
    let mut k: usize = 0;
    while k < tokens.len()
        invariant
            k <= tokens.len(),
            parts == text::views(tokens@),
            value_after(parts, name@, 0) == value_after(parts, name@, k as nat),
        decreases tokens.len() - k,
    {
        assert(parts[k as int] == tokens@[k as int]@);
        if text::chars_equal(&tokens[k], name) {
            if k + 1 < tokens.len() {
                assert(parts[k + 1] == tokens@[k + 1]@);
                return text::parse_u64_max(&tokens[k + 1], max);
            }
            return None;
        }
        k += 1;
    }
    None
}

/// Likewise for a number of 32 bits.
fn narrow_go_field(tokens: &Vec<Vec<char>>, name: &str) -> (value: Option<u32>)
    ensures
        value == narrow(number_after(text::views(tokens@), name@, u32::MAX as nat)),
{
    match go_field(tokens, name, u32::MAX as u64) {
        Some(n) => Some(n as u32),
        None => None,
    }
}

impl GoCommand {
    /// No limits at all.
    pub open spec fn nothing() -> GoCommand {
        GoCommand {
            depth: None,
            movetime_ms: None,
            white_time_ms: None,
            black_time_ms: None,
            white_increment_ms: None,
            black_increment_ms: None,
            moves_to_go: None,
        }
    }

    /// The command that a text stands for: every field is the number after
    /// its name, if there is one.
    pub open spec fn read(args: Seq<char>) -> GoCommand {
        let tokens = text::words(args);
        GoCommand {
            depth: narrow(number_after(tokens, "depth"@, u32::MAX as nat)),
            movetime_ms: wide(number_after(tokens, "movetime"@, u64::MAX as nat)),
            white_time_ms: wide(number_after(tokens, "wtime"@, u64::MAX as nat)),
            black_time_ms: wide(number_after(tokens, "btime"@, u64::MAX as nat)),
            white_increment_ms: wide(number_after(tokens, "winc"@, u64::MAX as nat)),
            black_increment_ms: wide(number_after(tokens, "binc"@, u64::MAX as nat)),
            moves_to_go: narrow(number_after(tokens, "movestogo"@, u32::MAX as nat)),
        }
    }

    /// Parses the argument portion of a `go` command, i.e. everything
    /// after `"go"`. Recognizes `depth <n>`, `movetime <ms>`, and
    /// `wtime`/`btime`/`winc`/`binc`/`movestogo`; any other token
    /// (`infinite`, `ponder`, ...) is ignored rather than rejected,
    /// since a real `go` line from a GUI may carry fields that are not acted
    /// on, and ignoring them is more useful than refusing the whole command
    /// over them.
    pub fn parse(args: &str) -> (command: GoCommand)
        ensures
            command == GoCommand::read(args@),
    {
        GoCommand::from_chars(&text::chars_of(args))
    }

    fn from_chars(chars: &Vec<char>) -> (command: GoCommand)
        ensures
            command == GoCommand::read(chars@),
    {
        let tokens: Vec<Vec<char>> = text::split_words(chars);
        GoCommand {
            depth: narrow_go_field(&tokens, "depth"),
            movetime_ms: go_field(&tokens, "movetime", u64::MAX),
            white_time_ms: go_field(&tokens, "wtime", u64::MAX),
            black_time_ms: go_field(&tokens, "btime", u64::MAX),
            white_increment_ms: go_field(&tokens, "winc", u64::MAX),
            black_increment_ms: go_field(&tokens, "binc", u64::MAX),
            moves_to_go: narrow_go_field(&tokens, "movestogo"),
        }
    }

    /// How much time `side` has left, if the command says so.
    pub open spec fn time_of(self, side: Color) -> Option<u64> {
        match side {
            Color::White => self.white_time_ms,
            Color::Black => self.black_time_ms,
        }
    }

    /// How much time `side` gains per move; none unless the command says so.
    pub open spec fn increment_of(self, side: Color) -> u64 {
        let given = match side {
            Color::White => self.white_increment_ms,
            Color::Black => self.black_increment_ms,
        };
        match given {
            Some(ms) => ms,
            None => 0,
        }
    }

    /// The clock of `side`, if the command says how much time it has left.
    pub open spec fn clock_of(self, side: Color) -> Option<ClockTimeControl> {
        match self.time_of(side) {
            Some(ms) => Some(
                ClockTimeControl {
                    time_left: Duration::of(ms as nat * 1_000_000),
                    increment: Duration::of(self.increment_of(side) as nat * 1_000_000),
                    moves_to_go: self.moves_to_go,
                },
            ),
            None => None,
        }
    }

    /// Resolves this command's clock fields to `side`'s own
    /// side-relative `ClockTimeControl` (see that type's docs), or
    /// `None` if the command didn't carry a time-left field for
    /// `side` at all (e.g. `go depth 8`, `go movetime 500`, `go
    /// infinite`) -- `Engine::search_with_clock` should only be used
    /// when this returns `Some`.
    pub fn clock_for(&self, side: Color) -> (clock: Option<ClockTimeControl>)
        ensures
            clock == self.clock_of(side),
    {
        let (time_left_ms, increment_ms): (Option<u64>, Option<u64>) = match side {
            Color::White => (self.white_time_ms, self.white_increment_ms),
            Color::Black => (self.black_time_ms, self.black_increment_ms),
        };
        match time_left_ms {
            Some(ms) => {
                let gained: u64 = match increment_ms {
                    Some(extra) => extra,
                    None => 0,
                };
                Some(
                    ClockTimeControl {
                        time_left: Duration::from_millis(ms),
                        increment: Duration::from_millis(gained),
                        moves_to_go: self.moves_to_go,
                    },
                )
            },
            None => None,
        }
    }
}

/// A parsed UCI command. Only a subset of the full protocol is
/// implemented; unrecognized input is ignored rather than
/// erroring, per the UCI convention of tolerating unknown commands.
#[derive(Debug, Clone, PartialEq, Eq)]
pub enum UciCommand {
    Uci,
    IsReady,
    Debug(bool),
    SetOption { name: String, value: String },
    NewGame,
    Position(PositionCommand),
    Go(GoCommand),
    /// Requests that an in-progress `go` stop as soon as possible and
    /// report its `bestmove`. A `stop` with no search running is simply
    /// ignored, per normal UCI tolerance of commands that don't currently
    /// apply.
    Stop,
    Quit,
    Unknown(String),
}

/// What a UCI command says.
pub enum UciCommandView {
    Uci,
    IsReady,
    Debug(bool),
    SetOption { name: Seq<char>, value: Seq<char> },
    NewGame,
    Position(PositionCommandView),
    Go(GoCommand),
    Stop,
    Quit,
    Unknown(Seq<char>),
}

impl View for UciCommand {
    type V = UciCommandView;

    open spec fn view(&self) -> UciCommandView {
        match self {
            UciCommand::Uci => UciCommandView::Uci,
            UciCommand::IsReady => UciCommandView::IsReady,
            UciCommand::Debug(on) => UciCommandView::Debug(*on),
            UciCommand::SetOption { name, value } => UciCommandView::SetOption {
                name: name@,
                value: value@,
            },
            UciCommand::NewGame => UciCommandView::NewGame,
            UciCommand::Position(command) => UciCommandView::Position(command@),
            UciCommand::Go(command) => UciCommandView::Go(*command),
            UciCommand::Stop => UciCommandView::Stop,
            UciCommand::Quit => UciCommandView::Quit,
            UciCommand::Unknown(line) => UciCommandView::Unknown(line@),
        }
    }
}

/// The name and value of a `setoption name <name> value <value>` line, if
/// neither is blank.
pub open spec fn read_setoption(line: Seq<char>) -> Option<(Seq<char>, Seq<char>)> {
    match text::stripped(line, "setoption name "@) {
        Some(rest) => match text::first_occurrence(rest, " value "@, 0) {
            Some(at) => {
                let name = text::trimmed(rest.take(at));
                let value = text::trimmed(rest.skip(at + " value "@.len()));
                if name.len() > 0 && value.len() > 0 {
                    Some((name, value))
                } else {
                    None
                }
            },
            None => None,
        },
        None => None,
    }
}

impl UciCommandView {
    /// What a line that is none of the one-word commands stands for.
    pub open spec fn read_longer(line: Seq<char>) -> UciCommandView {
        match text::stripped(line, "position"@) {
            Some(rest) => match text::stripped(rest, " "@) {
                Some(args) => match PositionCommandView::read(args) {
                    Some(command) => UciCommandView::Position(command),
                    None => UciCommandView::Unknown(line),
                },
                None => UciCommandView::Unknown(line),
            },
            None => match text::stripped(line, "go"@) {
                Some(args) => UciCommandView::Go(GoCommand::read(args)),
                None => if text::words(line) == seq!["debug"@, "on"@] {
                    UciCommandView::Debug(true)
                } else if text::words(line) == seq!["debug"@, "off"@] {
                    UciCommandView::Debug(false)
                } else {
                    match read_setoption(line) {
                        Some((name, value)) => UciCommandView::SetOption { name, value },
                        None => UciCommandView::Unknown(line),
                    }
                },
            },
        }
    }

    /// The command that a line stands for. Every line stands for one, if only
    /// for an unknown one.
    pub open spec fn read(text: Seq<char>) -> UciCommandView {
        let line = text::trimmed(text);
        if line == "uci"@ {
            UciCommandView::Uci
        } else if line == "isready"@ {
            UciCommandView::IsReady
        } else if line == "ucinewgame"@ {
            UciCommandView::NewGame
        } else if line == "stop"@ {
            UciCommandView::Stop
        } else if line == "quit"@ {
            UciCommandView::Quit
        } else {
            UciCommandView::read_longer(line)
        }
    }
}

/// Whether the words of a line are exactly these two.
fn is_two_words(words: &Vec<Vec<char>>, first: &str, second: &str) -> (equal: bool)
    ensures
        equal == (text::views(words@) == seq![first@, second@]),
{
    if words.len() != 2 {
        assert(text::views(words@).len() != seq![first@, second@].len());
        return false;
    }
    let equal = text::chars_equal(&words[0], first) && text::chars_equal(&words[1], second);
    proof {
        let parts = text::views(words@);
        assert(parts[0] == words@[0]@ && parts[1] == words@[1]@);
        if equal {
            assert(parts =~= seq![first@, second@]);
        } else {
            assert(seq![first@, second@][0] == first@);
            assert(seq![first@, second@][1] == second@);
        }
    }
    equal
}

/// Parses a `setoption name <name> value <value>` line.
fn parse_setoption(line: &Vec<char>) -> (command: Option<UciCommand>)
    ensures
        match command {
            Some(c) => read_setoption(line@) matches Some((name, value)) && c@
                == (UciCommandView::SetOption { name, value }),
            None => read_setoption(line@) is None,
        },
{
    let rest: Vec<char> = match text::strip_prefix(line, "setoption name ") {
        Some(rest) => rest,
        None => {
            return None;
        },
    };
    match text::find_text(&rest, " value ") {
        Some(at) => {
            let separator: Vec<char> = text::chars_of(" value ");
            let before: Vec<char> = text::slice(&rest, 0, at);
            let after: Vec<char> = text::slice(&rest, at + separator.len(), rest.len());
            assert(before@ =~= rest@.take(at as int));
            assert(after@ =~= rest@.skip(at + " value "@.len()));
            let name: Vec<char> = text::trim(&before);
            let value: Vec<char> = text::trim(&after);
            if name.len() == 0 || value.len() == 0 {
                return None;
            }
            Some(
                UciCommand::SetOption {
                    name: text::string_of(&name),
                    value: text::string_of(&value),
                },
            )
        },
        None => None,
    }
}

impl UciCommand {
    /// Parses one line of input.
    pub fn parse(line: &str) -> (command: UciCommand)
        ensures
            command@ == UciCommandView::read(line@),
    {
        let chars: Vec<char> = text::trim(&text::chars_of(line));
        if text::chars_equal(&chars, "uci") {
            UciCommand::Uci
        } else if text::chars_equal(&chars, "isready") {
            UciCommand::IsReady
        } else if text::chars_equal(&chars, "ucinewgame") {
            UciCommand::NewGame
        } else if text::chars_equal(&chars, "stop") {
            UciCommand::Stop
        } else if text::chars_equal(&chars, "quit") {
            UciCommand::Quit
        } else {
            UciCommand::parse_longer(&chars)
        }
    }

    fn parse_longer(chars: &Vec<char>) -> (command: UciCommand)
        ensures
            command@ == UciCommandView::read_longer(chars@),
    {
        if let Some(rest) = text::strip_prefix(chars, "position") {
            let parsed = match text::strip_prefix(&rest, " ") {
                Some(args) => PositionCommand::from_chars(&args),
                None => None,
            };
            return match parsed {
                Some(command) => UciCommand::Position(command),
                None => UciCommand::Unknown(text::string_of(chars)),
            };
        }
        if let Some(rest) = text::strip_prefix(chars, "go") {
            return UciCommand::Go(GoCommand::from_chars(&rest));
        }
        let words: Vec<Vec<char>> = text::split_words(chars);
        if is_two_words(&words, "debug", "on") {
            return UciCommand::Debug(true);
        }
        if is_two_words(&words, "debug", "off") {
            return UciCommand::Debug(false);
        }
        match parse_setoption(chars) {
            Some(command) => command,
            None => UciCommand::Unknown(text::string_of(chars)),
        }
    }
}

} // verus!
