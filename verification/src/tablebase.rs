//! Optional local Syzygy probing: what is asked of a tablebase prober, and
//! what its answers mean.
//!
//! The prober itself is a service that reads files. It is handed to the
//! functions here as something to call with a position, and it answers with
//! one number, or with nothing if it is not available. No protocol strings or
//! network access belong in this module.

use crate::chess::castling::CastlingRights;
use crate::chess::moves::Move;
use crate::chess::piece::{Color, Piece, PieceKind};
use crate::chess::position::{Position, PositionView};
use crate::chess::square::Square;
use crate::search::Score;
use crate::text;
use vstd::prelude::*;

verus! {

broadcast use {
    crate::chess::position::lemma_board_len,
    crate::chess::square::lemma_at_idx,
};

pub const DEFAULT_PROBE_LIMIT: u32 = 6;

pub const MAX_PROBE_LIMIT: u32 = 7;

/// Deliberately outside normal evaluation, below the mate-score range.
pub const TABLEBASE_WIN: Score = 20_000;

/// The prober's answer when a probe failed.
pub const PROBE_FAILED: u32 = 0xFFFF_FFFF;

/// The prober's answer at the root when the side to move is checkmated.
pub const PROBE_CHECKMATE: u32 = 4;

/// The prober's answer at the root when the side to move is stalemated.
pub const PROBE_STALEMATE: u32 = 2;

/// What a tablebase knows of a position, for the side to move. A cursed win
/// and a blessed loss are draws by the fifty-move rule.
#[derive(Debug, Clone, Copy, PartialEq, Eq, Structural)]
pub enum Wdl {
    Loss,
    BlessedLoss,
    Draw,
    CursedWin,
    Win,
}

impl Wdl {
    /// The outcome that a number of the prober stands for.
    pub open spec fn decoded(value: int) -> Option<Wdl> {
        if value == 0 {
            Some(Wdl::Loss)
        } else if value == 1 {
            Some(Wdl::BlessedLoss)
        } else if value == 2 {
            Some(Wdl::Draw)
        } else if value == 3 {
            Some(Wdl::CursedWin)
        } else if value == 4 {
            Some(Wdl::Win)
        } else {
            None
        }
    }

    /// What an outcome is worth.
    pub open spec fn worth(self) -> Score {
        match self {
            Wdl::Win => TABLEBASE_WIN,
            Wdl::Loss => (-TABLEBASE_WIN) as i32,
            Wdl::Draw | Wdl::CursedWin | Wdl::BlessedLoss => 0,
        }
    }

    /// The outcome that a number of the prober stands for.
    pub fn decode(value: u32) -> (wdl: Option<Wdl>)
        ensures
            wdl == Wdl::decoded(value as int),
    {
        match value {
            0 => Some(Wdl::Loss),
            1 => Some(Wdl::BlessedLoss),
            2 => Some(Wdl::Draw),
            3 => Some(Wdl::CursedWin),
            4 => Some(Wdl::Win),
            _ => None,
        }
    }

    /// The outcome as a search score.
    pub fn score(self) -> (score: Score)
        ensures
            score == self.worth(),
    {
        match self {
            Wdl::Win => TABLEBASE_WIN,
            Wdl::Loss => -TABLEBASE_WIN,
            Wdl::Draw | Wdl::CursedWin | Wdl::BlessedLoss => 0,
        }
    }

    /// WDL tables assume a just-reset fifty-move counter. Draws remain
    /// draws at a later counter, but decisive results need DTZ to be exact.
    pub fn search_score(self, halfmove_clock: u32) -> (score: Option<Score>)
        ensures
            score == (if halfmove_clock == 0 || self.worth() == 0 {
                Some(self.worth())
            } else {
                None
            }),
    {
        if halfmove_clock == 0 || self.score() == 0 {
            Some(self.score())
        } else {
            None
        }
    }
}

/// A tablebase score is never taken for a forced mate.
pub proof fn tablebase_scores_are_not_mates(wdl: Wdl)
    ensures
        crate::search::mate_distance(wdl.worth() as int) is None,
{
}

/// What a successful probe said.
#[derive(Debug, Clone, Copy, PartialEq, Eq, Structural)]
pub struct TablebaseHit {
    pub pieces: u32,
    pub wdl: Wdl,
    pub dtz: Option<u32>,
    pub exact: bool,
    pub eval_cp: Score,
}

/// Cumulative over completed iterations of one search. Probes count actual
/// backend calls, including misses; hits count successful WDL/DTZ calls.
/// Counted modulo 2^64.
#[derive(Debug, Clone, Copy, PartialEq, Eq, Structural)]
pub struct TablebaseStats {
    pub probes: u64,
    pub hits: u64,
    pub draw_hits: u64,
    pub first_hit: Option<TablebaseHit>,
    pub root_hit: Option<TablebaseHit>,
    pub root_resolved: bool,
}

impl TablebaseStats {
    /// Nothing probed yet.
    pub open spec fn nothing() -> TablebaseStats {
        TablebaseStats {
            probes: 0,
            hits: 0,
            draw_hits: 0,
            first_hit: None,
            root_hit: None,
            root_resolved: false,
        }
    }

    /// The statistics after one more probe, with the outcome it found, if any.
    pub open spec fn counted(self, found: Option<Wdl>) -> TablebaseStats {
        TablebaseStats {
            probes: self.probes.wrapping_add(1),
            hits: if found is Some {
                self.hits.wrapping_add(1)
            } else {
                self.hits
            },
            draw_hits: if found matches Some(wdl) && wdl.worth() == 0 {
                self.draw_hits.wrapping_add(1)
            } else {
                self.draw_hits
            },
            ..self
        }
    }

    /// Counts one more probe, with the outcome it found, if any.
    fn count(&mut self, found: Option<Wdl>)
        ensures
            *final(self) == old(self).counted(found),
    {
        self.probes = self.probes.wrapping_add(1);
        if let Some(wdl) = found {
            self.hits = self.hits.wrapping_add(1);
            if wdl.score() == 0 {
                self.draw_hits = self.draw_hits.wrapping_add(1);
            }
        }
    }
}

impl Default for TablebaseStats {
    fn default() -> (stats: TablebaseStats)
        ensures
            stats == TablebaseStats::nothing(),
    {
        TablebaseStats {
            probes: 0,
            hits: 0,
            draw_hits: 0,
            first_hit: None,
            root_hit: None,
            root_resolved: false,
        }
    }
}

/// Some of the pieces on a board: those of a color, or those of a kind.
#[derive(Clone, Copy)]
pub enum PieceSet {
    Colored(Color),
    OfKind(PieceKind),
}

impl PieceSet {
    /// Whether a square's content belongs to the set.
    pub open spec fn has(self, content: Option<Piece>) -> bool {
        match (self, content) {
            (PieceSet::Colored(color), Some(piece)) => piece.color == color,
            (PieceSet::OfKind(kind), Some(piece)) => piece.kind == kind,
            (_, None) => false,
        }
    }

    fn includes(self, content: Option<Piece>) -> (included: bool)
        ensures
            included == self.has(content),
    {
        match content {
            None => false,
            Some(piece) => match self {
                PieceSet::Colored(color) => piece.color == color,
                PieceSet::OfKind(kind) => piece.kind == kind,
            },
        }
    }
}

/// Two to the power of `n`.
pub open spec fn power_of_two(n: nat) -> nat
    decreases n,
{
    if n == 0 {
        1
    } else {
        2 * power_of_two((n - 1) as nat)
    }
}

/// The bitboard of a set of pieces on the first `n` squares: the sum of the
/// powers of two of their square numbers.
pub open spec fn bitboard(board: Seq<Option<Piece>>, set: PieceSet, n: nat) -> nat
    decreases n,
{
    if n == 0 {
        0
    } else {
        bitboard(board, set, (n - 1) as nat) + (if set.has(board[n - 1]) {
            power_of_two((n - 1) as nat)
        } else {
            0
        })
    }
}

/// How many of the first `n` squares are occupied.
pub open spec fn occupied_count(board: Seq<Option<Piece>>, n: nat) -> nat
    decreases n,
{
    if n == 0 {
        0
    } else {
        occupied_count(board, (n - 1) as nat) + (if board[n - 1] is Some {
            1nat
        } else {
            0
        })
    }
}

/// How many of the first `n` squares hold a king of `color`.
pub open spec fn king_count(board: Seq<Option<Piece>>, color: Color, n: nat) -> nat
    decreases n,
{
    if n == 0 {
        0
    } else {
        king_count(board, color, (n - 1) as nat) + (if board[n - 1] == Some(
            Piece { kind: PieceKind::King, color },
        ) {
            1nat
        } else {
            0
        })
    }
}

/// A bitboard of `n` squares is below two to the power of `n`.
proof fn lemma_bitboard_bound(board: Seq<Option<Piece>>, set: PieceSet, n: nat)
    ensures
        bitboard(board, set, n) < power_of_two(n),
    decreases n,
{
    if n > 0 {
        lemma_bitboard_bound(board, set, (n - 1) as nat);
    }
}

/// A word of 64 bits holds a bitboard.
proof fn lemma_word_size()
    ensures
        power_of_two(64) == 0x1_0000_0000_0000_0000,
{
    reveal_with_fuel(power_of_two, 65);
}

/// The powers of two grow.
proof fn lemma_power_grows(a: nat, b: nat)
    requires
        a <= b,
    ensures
        power_of_two(a) <= power_of_two(b),
    decreases b - a,
{
    if a < b {
        lemma_power_grows(a, (b - 1) as nat);
        lemma_power_positive((b - 1) as nat);
    }
}

proof fn lemma_power_positive(n: nat)
    ensures
        power_of_two(n) > 0,
    decreases n,
{
    if n > 0 {
        lemma_power_positive((n - 1) as nat);
    }
}

/// The bitboard of a set of pieces.
fn bitboard_of(position: &Position, set: PieceSet) -> (bits: u64)
    ensures
        bits == bitboard(position@.board, set, 64),
{
    let mut bits: u64 = 0;
    let mut bit: u64 = 1;
    let mut i: u8 = 0;
    while i < 64
        invariant
            i <= 64,
            bits == bitboard(position@.board, set, i as nat),
            i < 64 ==> bit == power_of_two(i as nat),
        decreases 64 - i,
    {
        proof {
            lemma_bitboard_bound(position@.board, set, i as nat);
            lemma_power_grows(i as nat + 1, 64);
            lemma_word_size();
            if i < 63 {
                lemma_power_grows(i as nat + 1, 63);
                assert(power_of_two(64) == 2 * power_of_two(63));
            }
        }
        if set.includes(position.piece_at(Square::new(i))) {
            bits = bits + bit;
        }
        if i < 63 {
            bit = bit * 2;
        }
        i += 1;
    }
    bits
}

/// How many pieces stand on the board.
pub fn piece_count(position: &Position) -> (count: u32)
    ensures
        count == occupied_count(position@.board, 64),
{
    let mut count: u32 = 0;
    let mut i: u8 = 0;
    while i < 64
        invariant
            i <= 64,
            count <= i,
            count == occupied_count(position@.board, i as nat),
        decreases 64 - i,
    {
        if position.piece_at(Square::new(i)).is_some() {
            count += 1;
        }
        i += 1;
    }
    count
}

/// How many kings a color has.
fn count_kings(position: &Position, color: Color) -> (count: u32)
    ensures
        count == king_count(position@.board, color, 64),
{
    let mut count: u32 = 0;
    let mut i: u8 = 0;
    while i < 64
        invariant
            i <= 64,
            count <= i,
            count == king_count(position@.board, color, i as nat),
        decreases 64 - i,
    {
        if let Some(piece) = position.piece_at(Square::new(i)) {
            if piece.kind == PieceKind::King && piece.color == color {
                count += 1;
            }
        }
        i += 1;
    }
    count
}

/// Whether square `i` is on the first or last rank.
pub open spec fn on_edge_rank(i: int) -> bool {
    i < 8 || i >= 56
}

/// Whether a pawn stands on the first or last rank.
fn has_pawn_on_edge_rank(position: &Position) -> (found: bool)
    ensures
        found == exists|i: int|
            0 <= i < 64 && on_edge_rank(i) && (#[trigger] position@.board[i] matches Some(piece)
                && piece.kind == PieceKind::Pawn),
{
    let mut i: u8 = 0;
    while i < 64
        invariant
            i <= 64,
            forall|j: int|
                0 <= j < i && on_edge_rank(j) ==> !(#[trigger] position@.board[j] matches Some(
                    piece,
                ) && piece.kind == PieceKind::Pawn),
        decreases 64 - i,
    {
        if i < 8 || i >= 56 {
            if let Some(piece) = position.piece_at(Square::new(i)) {
                if piece.kind == PieceKind::Pawn {
                    assert(position@.board[i as int] == Some(piece));
                    return true;
                }
            }
        }
        i += 1;
    }
    false
}

impl PositionView {
    /// Whether the en passant square, if there is one, is where a pawn of the
    /// other side can just have passed: on the right rank, empty, and with
    /// that pawn beyond it.
    pub open spec fn has_sound_en_passant(self) -> bool {
        match self.ep {
            None => true,
            Some(ep) => {
                let captured = ep - 8 * self.side.forward();
                &&& ep / 8 == (if self.side == Color::White {
                    5int
                } else {
                    2
                })
                &&& self.board[ep] is None
                &&& self.board[captured] == Some(
                    Piece { kind: PieceKind::Pawn, color: self.side.other() },
                )
            },
        }
    }

    /// Whether a position of at most `limit` pieces may be handed to the
    /// prober: one king per side, no pawn on the first or last rank, the side
    /// that is not to move not in check, and a sound en passant square.
    pub open spec fn probeable(self, limit: u32) -> bool {
        &&& occupied_count(self.board, 64) <= limit
        &&& king_count(self.board, Color::White, 64) == 1
        &&& king_count(self.board, Color::Black, 64) == 1
        &&& !exists|i: int|
            0 <= i < 64 && on_edge_rank(i) && (#[trigger] self.board[i] matches Some(piece)
                && piece.kind == PieceKind::Pawn)
        &&& !self.checked(self.side.other())
        &&& self.has_sound_en_passant()
    }
}

/// A position as the prober takes it: bitboards with one bit per square.
#[derive(Debug, Clone, Copy, PartialEq, Eq, Structural)]
pub struct ProbePosition {
    pub white: u64,
    pub black: u64,
    pub kings: u64,
    pub queens: u64,
    pub rooks: u64,
    pub bishops: u64,
    pub knights: u64,
    pub pawns: u64,
    pub ep: u32,
    pub turn: u8,
}

impl ProbePosition {
    /// What the prober is told of a position.
    pub open spec fn of(p: PositionView) -> ProbePosition {
        ProbePosition {
            white: bitboard(p.board, PieceSet::Colored(Color::White), 64) as u64,
            black: bitboard(p.board, PieceSet::Colored(Color::Black), 64) as u64,
            kings: bitboard(p.board, PieceSet::OfKind(PieceKind::King), 64) as u64,
            queens: bitboard(p.board, PieceSet::OfKind(PieceKind::Queen), 64) as u64,
            rooks: bitboard(p.board, PieceSet::OfKind(PieceKind::Rook), 64) as u64,
            bishops: bitboard(p.board, PieceSet::OfKind(PieceKind::Bishop), 64) as u64,
            knights: bitboard(p.board, PieceSet::OfKind(PieceKind::Knight), 64) as u64,
            pawns: bitboard(p.board, PieceSet::OfKind(PieceKind::Pawn), 64) as u64,
            ep: match p.ep {
                Some(square) => square as u32,
                None => 0,
            },
            turn: if p.side == Color::White {
                1
            } else {
                0
            },
        }
    }

    /// The position as the prober takes it, or `None` if it has more than
    /// `limit` pieces or must not be handed to the prober: FEN parsing is
    /// permissive, and malformed positions are rejected here before foreign
    /// move generation can misread them.
    pub fn new(position: &Position, limit: u32) -> (probe: Option<ProbePosition>)
        ensures
            probe == (if position@.probeable(limit) {
                Some(ProbePosition::of(position@))
            } else {
                None
            }),
    {
        if piece_count(position) > limit || count_kings(position, Color::White) != 1
            || count_kings(position, Color::Black) != 1 || has_pawn_on_edge_rank(position) {
            return None;
        }
        let side = position.side_to_move();
        if position.king_attacked(side.opposite()) {
            return None;
        }
        let mut ep: u32 = 0;
        if let Some(square) = position.en_passant_square() {
            let index: u8 = square.index();
            let rank: u8 = if side == Color::White {
                5
            } else {
                2
            };
            if index / 8 != rank || position.piece_at(square).is_some() {
                return None;
            }
            let captured: u8 = if side == Color::White {
                index - 8
            } else {
                index + 8
            };
            match position.piece_at(Square::new(captured)) {
                Some(pawn) => {
                    if pawn.kind != PieceKind::Pawn || pawn.color == side {
                        return None;
                    }
                },
                None => {
                    return None;
                },
            }
            ep = index as u32;
        }
        Some(
            ProbePosition {
                white: bitboard_of(position, PieceSet::Colored(Color::White)),
                black: bitboard_of(position, PieceSet::Colored(Color::Black)),
                kings: bitboard_of(position, PieceSet::OfKind(PieceKind::King)),
                queens: bitboard_of(position, PieceSet::OfKind(PieceKind::Queen)),
                rooks: bitboard_of(position, PieceSet::OfKind(PieceKind::Rook)),
                bishops: bitboard_of(position, PieceSet::OfKind(PieceKind::Bishop)),
                knights: bitboard_of(position, PieceSet::OfKind(PieceKind::Knight)),
                pawns: bitboard_of(position, PieceSet::OfKind(PieceKind::Pawn)),
                ep,
                turn: if side == Color::White {
                    1
                } else {
                    0
                },
            },
        )
    }
}

/// The promotion that an answer of the prober asks for: bits 16 to 18. The
/// outer `None` is for a number that stands for no promotion at all.
pub open spec fn answered_promotion(raw: int) -> Option<Option<PieceKind>> {
    let code = raw / 0x1_0000 % 8;
    if code == 0 {
        Some(None)
    } else if code == 1 {
        Some(Some(PieceKind::Queen))
    } else if code == 2 {
        Some(Some(PieceKind::Rook))
    } else if code == 3 {
        Some(Some(PieceKind::Bishop))
    } else if code == 4 {
        Some(Some(PieceKind::Knight))
    } else {
        None
    }
}

/// Whether an answer of the prober names a move: its target square in bits 4
/// to 9, its origin in bits 10 to 15, and its promotion.
pub open spec fn answer_names(raw: int, mv: Move) -> bool {
    mv.src() == raw / 0x400 % 64 && mv.dst() == raw / 0x10 % 64 && answered_promotion(raw) == Some(
        mv.kind().promotes_to(),
    )
}

/// The first move from the `k`-th on that an answer names.
pub open spec fn answered_move(raw: int, moves: Seq<Move>, k: nat) -> Option<Move>
    decreases moves.len() - k,
{
    if k >= moves.len() {
        None
    } else if answer_names(raw, moves[k as int]) {
        Some(moves[k as int])
    } else {
        answered_move(raw, moves, k + 1)
    }
}

/// The move among `moves` that an answer of the prober names.
pub fn decode_move(raw: u32, moves: &[Move]) -> (mv: Option<Move>)
    ensures
        mv == answered_move(raw as int, moves@, 0),
        mv matches Some(m) ==> moves@.contains(m),
{
    let promotion: Option<PieceKind> = match raw / 0x1_0000 % 8 {
        0 => None,
        1 => Some(PieceKind::Queen),
        2 => Some(PieceKind::Rook),
        3 => Some(PieceKind::Bishop),
        4 => Some(PieceKind::Knight),
        _ => {
            proof {
                lemma_no_answer(raw as int, moves@, 0);
            }
            return None;
        },
    };
    let from: u8 = (raw / 0x400 % 64) as u8;
    let to: u8 = (raw / 0x10 % 64) as u8;
    let mut k: usize = 0;
    while k < moves.len()
        invariant
            k <= moves.len(),
            from == raw as int / 0x400 % 64,
            to == raw as int / 0x10 % 64,
            answered_promotion(raw as int) == Some(promotion),
            answered_move(raw as int, moves@, 0) == answered_move(raw as int, moves@, k as nat),
        decreases moves.len() - k,
    {
        let mv = moves[k];
        if mv.from().index() == from && mv.to().index() == to && mv.flag().promotion_kind()
            == promotion {
            assert(moves@[k as int] == mv);
            return Some(mv);
        }
        k += 1;
    }
    None
}

/// An answer with a promotion that does not exist names no move.
proof fn lemma_no_answer(raw: int, moves: Seq<Move>, k: nat)
    requires
        answered_promotion(raw) is None,
    ensures
        answered_move(raw, moves, k) is None,
    decreases moves.len() - k,
{
    if k < moves.len() {
        lemma_no_answer(raw, moves, k + 1);
    }
}

/// What is known after the prober answered a probe during search.
pub fn record_wdl(raw: u32, stats: &mut TablebaseStats) -> (wdl: Option<Wdl>)
    ensures
        wdl == Wdl::decoded(raw as int),
        *final(stats) == old(stats).counted(wdl),
{
    let wdl = Wdl::decode(raw);
    stats.count(wdl);
    wdl
}

/// What an answer at the root means: the outcome, the distance to zeroing and
/// the move to play, unless the probe failed, the game is over, or the answer
/// is not one of `moves`.
pub open spec fn root_answer(raw: u32, moves: Seq<Move>) -> Option<(Wdl, u32, Move)> {
    if raw == PROBE_FAILED || raw == PROBE_CHECKMATE || raw == PROBE_STALEMATE {
        None
    } else {
        match (Wdl::decoded(raw as int % 16), answered_move(raw as int, moves, 0)) {
            (Some(wdl), Some(mv)) => Some((wdl, (raw as int / 0x10_0000) as u32, mv)),
            _ => None,
        }
    }
}

/// What is known after the prober answered a probe at the root. The encoded
/// move is checked against the engine's own legal moves before it can be
/// played.
pub fn record_root(raw: u32, moves: &[Move], stats: &mut TablebaseStats) -> (answer: Option<
    (Wdl, u32, Move),
>)
    ensures
        answer == root_answer(raw, moves@),
        *final(stats) == old(stats).counted(
            match answer {
                Some((wdl, _, _)) => Some(wdl),
                None => None,
            },
        ),
        answer matches Some((_, _, mv)) ==> moves@.contains(mv),
{
    if raw == PROBE_FAILED || raw == PROBE_CHECKMATE || raw == PROBE_STALEMATE {
        stats.count(None);
        return None;
    }
    match (Wdl::decode(raw % 16), decode_move(raw, moves)) {
        (Some(wdl), Some(mv)) => {
            stats.count(Some(wdl));
            Some((wdl, raw / 0x10_0000, mv))
        },
        _ => {
            stats.count(None);
            None
        },
    }
}

/// The tablebases that an engine is configured to use.
#[derive(Debug)]
pub struct Syzygy {
    path: String,
    limit: u32,
    largest: u32,
}

/// What a tablebase configuration says: where the tables are, up to how many
/// pieces they may be probed, and how many pieces the largest table has.
pub struct SyzygyView {
    pub path: Seq<char>,
    pub limit: u32,
    pub largest: u32,
}

impl SyzygyView {
    /// Up to how many pieces a position may be probed, if at all: there have
    /// to be tables, a limit of at least two, no castling rights, and a
    /// fifty-move counter that has not run out.
    pub open spec fn probe_limit(self, p: PositionView) -> Option<u32> {
        if self.path.len() == 0 || self.limit < 2 || self.largest == 0 || p.rights
            != CastlingRights::nothing() || p.half >= 100 {
            None
        } else if self.limit <= self.largest {
            Some(self.limit)
        } else {
            Some(self.largest)
        }
    }

    /// What the prober is asked about a position, if it is asked.
    pub open spec fn question(self, p: PositionView) -> Option<ProbePosition> {
        match self.probe_limit(p) {
            Some(limit) if p.probeable(limit) => Some(ProbePosition::of(p)),
            _ => None,
        }
    }
}

impl View for Syzygy {
    type V = SyzygyView;

    closed spec fn view(&self) -> SyzygyView {
        SyzygyView { path: self.path@, limit: self.limit, largest: self.largest }
    }
}

impl Default for Syzygy {
    fn default() -> (syzygy: Syzygy)
        ensures
            syzygy@.path == Seq::<char>::empty(),
            syzygy@.limit == DEFAULT_PROBE_LIMIT,
            syzygy@.largest == 0,
    {
        Syzygy { path: String::new(), limit: DEFAULT_PROBE_LIMIT, largest: 0 }
    }
}

impl Syzygy {
    /// Where the tables are; empty if there are none.
    pub fn path(&self) -> (path: &str)
        ensures
            path@ == self@.path,
    {
        self.path.as_str()
    }

    /// Up to how many pieces positions are probed.
    pub fn limit(&self) -> (limit: u32)
        ensures
            limit == self@.limit,
    {
        self.limit
    }

    /// Sets the number of pieces, up to `MAX_PROBE_LIMIT`.
    pub fn set_limit(&mut self, limit: u32)
        ensures
            final(self)@ == (SyzygyView {
                limit: if limit <= MAX_PROBE_LIMIT {
                    limit
                } else {
                    MAX_PROBE_LIMIT
                },
                ..old(self)@
            }),
    {
        self.limit = if limit <= MAX_PROBE_LIMIT {
            limit
        } else {
            MAX_PROBE_LIMIT
        };
    }

    /// Sets where the tables are and has `load` read them, which says how
    /// many pieces the largest table has. Empty paths disable probing. A
    /// failed configuration also disables it; no old tablebase knowledge is
    /// silently retained under a new path.
    pub fn set_path<F: FnOnce(&str) -> Result<u32, String>>(&mut self, path: &str, load: F) -> (result:
        Result<u32, String>)
        requires
            call_requires(load, (path,)),
        ensures
            final(self)@.path == path@,
            final(self)@.limit == old(self)@.limit,
            path@.len() == 0 ==> result == Ok::<u32, String>(0),
            path@.len() > 0 ==> call_ensures(load, (path,), result),
            final(self)@.largest == (match result {
                Ok(largest) => largest,
                Err(_) => 0,
            }),
    {
        self.path = path.to_owned();
        self.largest = 0;
        if text::chars_of(path).len() == 0 {
            return Ok(0);
        }
        let result = load(path);
        if let Ok(largest) = &result {
            self.largest = *largest;
        }
        result
    }

    /// What the prober is asked about `position`, or `None` if it must not be
    /// asked.
    pub fn position(&self, position: &Position) -> (probe: Option<ProbePosition>)
        ensures
            probe == self@.question(position@),
    {
        if text::chars_of(self.path.as_str()).len() == 0 || self.limit < 2 || self.largest == 0
            || position.castling_rights() != CastlingRights::none() || position.halfmove_clock()
            >= 100 {
            return None;
        }
        let limit: u32 = if self.limit <= self.largest {
            self.limit
        } else {
            self.largest
        };
        ProbePosition::new(position, limit)
    }

    /// Probes a position during search. `probe` asks the prober, or answers
    /// `None` if the prober is not available; it is asked nothing unless the
    /// position may be probed.
    pub fn probe_wdl<F: FnOnce(ProbePosition) -> Option<u32>>(
        &self,
        position: &Position,
        stats: &mut TablebaseStats,
        probe: F,
    ) -> (wdl: Option<Wdl>)
        requires
            self@.question(position@) matches Some(q) ==> call_requires(probe, (q,)),
        ensures
            match self@.question(position@) {
                None => wdl is None && *final(stats) == *old(stats),
                Some(q) => exists|answer: Option<u32>| #[trigger]
                    call_ensures(probe, (q,), answer) && (match answer {
                        Some(raw) => wdl == Wdl::decoded(raw as int) && *final(stats)
                            == old(stats).counted(wdl),
                        None => wdl is None && *final(stats) == *old(stats),
                    }),
            },
    {
        match self.position(position) {
            None => None,
            Some(question) => match probe(question) {
                None => None,
                Some(raw) => record_wdl(raw, stats),
            },
        }
    }

    /// Probes a position at the root, where the tables also say how to make
    /// progress.
    pub fn probe_root<F: FnOnce(ProbePosition) -> Option<u32>>(
        &self,
        position: &Position,
        moves: &[Move],
        stats: &mut TablebaseStats,
        probe: F,
    ) -> (found: Option<(Wdl, u32, Move)>)
        requires
            self@.question(position@) matches Some(q) ==> call_requires(probe, (q,)),
        ensures
            match self@.question(position@) {
                None => found is None && *final(stats) == *old(stats),
                Some(q) => exists|answer: Option<u32>| #[trigger]
                    call_ensures(probe, (q,), answer) && (match answer {
                        Some(raw) => found == root_answer(raw, moves@) && *final(stats)
                            == old(stats).counted(
                            match found {
                                Some((wdl, _, _)) => Some(wdl),
                                None => None,
                            },
                        ),
                        None => found is None && *final(stats) == *old(stats),
                    }),
            },
            found matches Some((_, _, mv)) ==> moves@.contains(mv),
    {
        match self.position(position) {
            None => None,
            Some(question) => match probe(question) {
                None => None,
                Some(raw) => record_root(raw, moves, stats),
            },
        }
    }
}

/// Which tables a prober has loaded, shared by everyone who uses it.
#[derive(Debug)]
pub struct Backend {
    path: Option<String>,
    largest: u32,
}

impl Backend {
    /// The path that was last loaded, if any.
    pub closed spec fn loaded(&self) -> Option<Seq<char>> {
        match self.path {
            Some(path) => Some(path@),
            None => None,
        }
    }

    /// How many pieces the largest loaded table has.
    pub closed spec fn size(&self) -> u32 {
        self.largest
    }

    /// Nothing loaded yet.
    pub fn new() -> (backend: Backend)
        ensures
            backend.loaded() is None,
            backend.size() == 0,
    {
        Backend { path: None, largest: 0 }
    }

    /// Forgets what was loaded, so that the same path is read again.
    pub fn forget(&mut self)
        ensures
            final(self).loaded() is None,
            final(self).size() == old(self).size(),
    {
        self.path = None;
    }

    /// Makes the tables at `path` the loaded ones, unless they already are.
    /// `init` has the prober read them and says how many pieces the largest
    /// has, or `None` if that failed. Paths with a NUL character cannot be
    /// handed to the prober.
    pub fn load<F: FnOnce(&str) -> Option<u32>>(&mut self, path: &str, init: F) -> (result: Result<
        u32,
        String,
    >)
        requires
            call_requires(init, (path,)),
        ensures
            old(self).loaded() == Some(path@) ==> *final(self) == *old(self) && result == Ok::<
                u32,
                String,
            >(old(self).size()),
            old(self).loaded() != Some(path@) && path@.contains('\0') ==> *final(self) == *old(self)
                && (result matches Err(message) && message@ == "tablebase path contains a NUL byte"@),
            old(self).loaded() != Some(path@) && !path@.contains('\0') ==> {
                &&& final(self).loaded() == Some(path@)
                &&& match result {
                    Ok(largest) => call_ensures(init, (path,), Some(largest)) && final(self).size()
                        == largest,
                    Err(message) => call_ensures(init, (path,), None::<u32>) && final(self).size()
                        == 0 && message@ == "could not initialize tablebases"@,
                }
            },
    {
        let chars: Vec<char> = text::chars_of(path);
        if let Some(loaded) = &self.path {
            if text::chars_equal(&chars, loaded.as_str()) {
                return Ok(self.largest);
            }
        }
        let mut k: usize = 0;
        while k < chars.len()
            invariant
                k <= chars.len(),
                chars@ == path@,
                *self == *old(self),
                old(self).loaded() != Some(path@),
                forall|j: int| 0 <= j < k ==> chars@[j] != '\0',
            decreases chars.len() - k,
        {
            if chars[k] == '\0' {
                assert(path@[k as int] == '\0');
                return Err("tablebase path contains a NUL byte".to_owned());
            }
            k += 1;
        }
        let found = init(path);
        self.path = Some(path.to_owned());
        match found {
            Some(largest) => {
                self.largest = largest;
                Ok(largest)
            },
            None => {
                self.largest = 0;
                Err("could not initialize tablebases".to_owned())
            },
        }
    }
}

} // verus!
