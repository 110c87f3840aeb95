//! What the tablebase prober is asked, and what its answers mean.

use crate::chess::moves::Move;
use crate::chess::piece::{Color, Piece, PieceKind};
use crate::chess::position::PositionView;
use crate::tablebase::{self, PieceSet, ProbePosition, SyzygyView, TablebaseStats, Wdl};
use vstd::arithmetic::power2::pow2;
use vstd::prelude::*;

verus! {

broadcast use crate::chess::position::lemma_board_len;

/// Whether no side may castle any more.
pub open spec fn castling_is_over(p: PositionView) -> bool {
    !p.rights.white_kingside && !p.rights.white_queenside && !p.rights.black_kingside
        && !p.rights.black_queenside
}

/// Whether `color` has exactly one king.
pub open spec fn has_one_king(p: PositionView, color: Color) -> bool {
    exists|k: int|
        0 <= k < 64 && #[trigger] p.board[k] == Some(Piece { kind: PieceKind::King, color })
            && forall|j: int|
            0 <= j < 64 && j != k ==> #[trigger] p.board[j] != Some(
                Piece { kind: PieceKind::King, color },
            )
}

/// Whether a pawn stands where none can.
pub open spec fn has_misplaced_pawn(p: PositionView) -> bool {
    exists|k: int|
        (0 <= k < 8 || 56 <= k < 64) && (#[trigger] p.board[k] matches Some(piece) && piece.kind
            == PieceKind::Pawn)
}

/// Whether an en passant square can have come about by the last move: it is empty
/// and between where a pawn of the other side started and where it now stands.
pub open spec fn has_possible_en_passant(p: PositionView) -> bool {
    match (p.ep, p.side) {
        (None, _) => true,
        (Some(ep), Color::White) => 40 <= ep < 48 && p.board[ep] is None && p.board[ep - 8] == Some(
            Piece { kind: PieceKind::Pawn, color: Color::Black },
        ),
        (Some(ep), Color::Black) => 16 <= ep < 24 && p.board[ep] is None && p.board[ep + 8] == Some(
            Piece { kind: PieceKind::Pawn, color: Color::White },
        ),
    }
}

/// The squares that something stands on.
pub open spec fn occupied_squares(p: PositionView) -> Set<int> {
    Set::new(|i: int| 0 <= i < 64 && p.board[i] is Some)
}

proof fn lemma_occupied(board: Seq<Option<Piece>>, n: nat)
    ensures
        Set::new(|i: int| 0 <= i < n && board[i] is Some).finite(),
        Set::new(|i: int| 0 <= i < n && board[i] is Some).len() == tablebase::occupied_count(
            board,
            n,
        ),
    decreases n,
{
    let all = Set::new(|i: int| 0 <= i < n && board[i] is Some);
    if n == 0 {
        assert(all =~= Set::<int>::empty());
    } else {
        lemma_occupied(board, (n - 1) as nat);
        let before = Set::new(|i: int| 0 <= i < n - 1 && board[i] is Some);
        if board[n - 1] is Some {
            assert(all =~= before.insert(n - 1));
        } else {
            assert(all =~= before);
        }
    }
}

proof fn lemma_kings(board: Seq<Option<Piece>>, color: Color, n: nat)
    ensures
        ({
            let king = Some(Piece { kind: PieceKind::King, color });
            let count = tablebase::king_count(board, color, n);
            &&& count == 0 <==> forall|j: int| 0 <= j < n ==> #[trigger] board[j] != king
            &&& count == 1 <==> exists|k: int|
                0 <= k < n && #[trigger] board[k] == king && forall|j: int|
                    0 <= j < n && j != k ==> #[trigger] board[j] != king
        }),
    decreases n,
{
    let king = Some(Piece { kind: PieceKind::King, color });
    if n > 0 {
        lemma_kings(board, color, (n - 1) as nat);
        let before = tablebase::king_count(board, color, (n - 1) as nat);
        let last = n - 1;
        if board[last] == king {
            if before == 0 {
                assert forall|j: int| 0 <= j < n && j != last implies #[trigger] board[j] != king by {}
            } else if exists|k: int|
                0 <= k < n && #[trigger] board[k] == king && forall|j: int|
                    0 <= j < n && j != k ==> #[trigger] board[j] != king {
                let k = choose|k: int|
                    0 <= k < n && #[trigger] board[k] == king && forall|j: int|
                        0 <= j < n && j != k ==> #[trigger] board[j] != king;
                assert(k == last);
                assert forall|j: int| 0 <= j < last implies #[trigger] board[j] != king by {}
            }
        } else if before == 1 {
            let k = choose|k: int|
                0 <= k < last && #[trigger] board[k] == king && forall|j: int|
                    0 <= j < last && j != k ==> #[trigger] board[j] != king;
            assert forall|j: int| 0 <= j < n && j != k implies #[trigger] board[j] != king by {}
        } else if exists|k: int|
            0 <= k < n && #[trigger] board[k] == king && forall|j: int|
                0 <= j < n && j != k ==> #[trigger] board[j] != king {
            let k = choose|k: int|
                0 <= k < n && #[trigger] board[k] == king && forall|j: int|
                    0 <= j < n && j != k ==> #[trigger] board[j] != king;
            assert(k < last);
            assert forall|j: int| 0 <= j < last && j != k implies #[trigger] board[j] != king by {}
        }
    }
}

/// The prober is asked about every position that it has tables for, and about no
/// other: there is a path, the limit is at least two, the position has no more
/// pieces than the limit and the largest table, nobody may castle, the halfmove
/// clock is below a hundred, whatever it is exactly, and the position is one
/// that play can reach as far as kings, pawns, checks and en passant show.
pub proof fn every_position_in_the_tables_is_asked_about(syzygy: SyzygyView, p: PositionView)
    requires
        p.valid(),
    ensures
        syzygy.question(p) is Some <==> {
            &&& syzygy.path.len() > 0
            &&& syzygy.limit >= 2
            &&& syzygy.largest >= 1
            &&& occupied_squares(p).len() <= syzygy.limit
            &&& occupied_squares(p).len() <= syzygy.largest
            &&& castling_is_over(p)
            &&& p.half < 100
            &&& has_one_king(p, Color::White)
            &&& has_one_king(p, Color::Black)
            &&& !has_misplaced_pawn(p)
            &&& !p.checked(p.side.other())
            &&& has_possible_en_passant(p)
        },
{
    lemma_occupied(p.board, 64);
    assert(occupied_squares(p) =~= Set::new(|i: int| 0 <= i < 64 && p.board[i] is Some));
    lemma_kings(p.board, Color::White, 64);
    lemma_kings(p.board, Color::Black, 64);
    let edge = exists|i: int|
        0 <= i < 64 && tablebase::on_edge_rank(i) && (#[trigger] p.board[i] matches Some(piece)
            && piece.kind == PieceKind::Pawn);
    if edge {
        let i = choose|i: int|
            0 <= i < 64 && tablebase::on_edge_rank(i) && (#[trigger] p.board[i] matches Some(piece)
                && piece.kind == PieceKind::Pawn);
        assert(p.board[i] is Some);
        assert(has_misplaced_pawn(p));
    }
    if has_misplaced_pawn(p) {
        let k = choose|k: int|
            (0 <= k < 8 || 56 <= k < 64) && (#[trigger] p.board[k] matches Some(piece) && piece.kind
                == PieceKind::Pawn);
        assert(p.board[k] is Some);
        assert(tablebase::on_edge_rank(k));
    }
    if let Some(ep) = p.ep {
        assert(0 <= ep < 64);
    }
}

/// Neither the halfmove clock below a hundred nor the move number changes what is
/// asked.
pub proof fn clocks_do_not_change_the_question(
    syzygy: SyzygyView,
    p: PositionView,
    half: u32,
    full: u32,
)
    requires
        p.half < 100,
        half < 100,
    ensures
        syzygy.question(PositionView { half, full, ..p }) == syzygy.question(p),
{
    let q = PositionView { half, full, ..p };
    crate::chess::clocks::check_ignores_clocks(p, q, p.side.other());
}

/// A higher limit or larger tables never keep the prober from being asked.
pub proof fn more_tables_answer_more(syzygy: SyzygyView, limit: u32, largest: u32, p: PositionView)
    requires
        syzygy.limit <= limit,
        syzygy.largest <= largest,
        syzygy.question(p) is Some,
    ensures
        (SyzygyView { limit, largest, ..syzygy }).question(p) == syzygy.question(p),
{
}

proof fn lemma_powers(n: nat)
    ensures
        tablebase::power_of_two(n) == pow2(n),
        pow2(n) > 0,
    decreases n,
{
    vstd::arithmetic::power2::lemma_pow2_pos(n);
    if n > 0 {
        lemma_powers((n - 1) as nat);
        vstd::arithmetic::power2::lemma_pow2_unfold(n);
    } else {
        vstd::arithmetic::power2::lemma2_to64();
    }
}

/// Bit `i` of a number.
pub open spec fn bit(bits: nat, i: nat) -> bool {
    bits / pow2(i) % 2 == 1
}

proof fn lemma_bits(board: Seq<Option<Piece>>, set: PieceSet, n: nat, i: nat)
    requires
        i < n,
    ensures
        bit(tablebase::bitboard(board, set, n), i) == set.has(board[i as int]),
        tablebase::bitboard(board, set, n) < pow2(n),
    decreases n,
{
    lemma_powers(n);
    lemma_powers((n - 1) as nat);
    lemma_powers(i);
    vstd::arithmetic::power2::lemma_pow2_unfold(n);
    let low = tablebase::bitboard(board, set, (n - 1) as nat);
    let top = pow2((n - 1) as nat);
    lemma_low(board, set, (n - 1) as nat);
    if i == n - 1 {
        if set.has(board[i as int]) {
            assert((low + top) / top == 1) by (nonlinear_arith)
                requires
                    0 <= low < top,
            ;
        } else {
            assert(low / top == 0) by (nonlinear_arith)
                requires
                    0 <= low < top,
            ;
        }
    } else {
        lemma_bits(board, set, (n - 1) as nat, i);
        let small = pow2(i);
        let times = pow2((n - 2 - i) as nat);
        vstd::arithmetic::power2::lemma_pow2_adds(i, (n - 1 - i) as nat);
        vstd::arithmetic::power2::lemma_pow2_unfold((n - 1 - i) as nat);
        assert(top == small * (2 * times));
        vstd::arithmetic::div_mod::lemma_hoist_over_denominator(
            low as int,
            2 * times as int,
            small,
        );
        assert((2 * times) * small == top) by (nonlinear_arith)
            requires
                top == small * (2 * times),
        ;
        let q = low as int / small as int;
        assert((q + 2 * times) % 2 == q % 2);
    }
}

proof fn lemma_low(board: Seq<Option<Piece>>, set: PieceSet, n: nat)
    ensures
        tablebase::bitboard(board, set, n) < pow2(n),
    decreases n,
{
    lemma_powers(n);
    if n > 0 {
        lemma_low(board, set, (n - 1) as nat);
        lemma_powers((n - 1) as nat);
        vstd::arithmetic::power2::lemma_pow2_unfold(n);
    }
}

/// Whether a square holds a piece of this kind.
pub open spec fn holds_kind(content: Option<Piece>, kind: PieceKind) -> bool {
    content matches Some(piece) && piece.kind == kind
}

/// What the prober is told: bit `i` of each bitboard says whether square `i` holds
/// a piece of that color or kind; the en passant square by its number, with zero
/// for none; and one for White to move, zero for Black.
pub proof fn the_question_shows_the_board(syzygy: SyzygyView, p: PositionView, i: nat)
    requires
        p.valid(),
        i < 64,
    ensures
        syzygy.question(p) matches Some(q) ==> {
            let content = p.board[i as int];
            &&& bit(q.white as nat, i) <==> (content matches Some(piece) && piece.color
                == Color::White)
            &&& bit(q.black as nat, i) <==> (content matches Some(piece) && piece.color
                == Color::Black)
            &&& bit(q.kings as nat, i) <==> holds_kind(content, PieceKind::King)
            &&& bit(q.queens as nat, i) <==> holds_kind(content, PieceKind::Queen)
            &&& bit(q.rooks as nat, i) <==> holds_kind(content, PieceKind::Rook)
            &&& bit(q.bishops as nat, i) <==> holds_kind(content, PieceKind::Bishop)
            &&& bit(q.knights as nat, i) <==> holds_kind(content, PieceKind::Knight)
            &&& bit(q.pawns as nat, i) <==> holds_kind(content, PieceKind::Pawn)
            &&& q.ep == (match p.ep {
                Some(square) => square,
                None => 0,
            })
            &&& q.turn == 1 <==> p.side == Color::White
            &&& q.turn <= 1
        },
{
    vstd::arithmetic::power2::lemma2_to64_rest();
    lemma_bits(p.board, PieceSet::Colored(Color::White), 64, i);
    lemma_bits(p.board, PieceSet::Colored(Color::Black), 64, i);
    lemma_bits(p.board, PieceSet::OfKind(PieceKind::King), 64, i);
    lemma_bits(p.board, PieceSet::OfKind(PieceKind::Queen), 64, i);
    lemma_bits(p.board, PieceSet::OfKind(PieceKind::Rook), 64, i);
    lemma_bits(p.board, PieceSet::OfKind(PieceKind::Bishop), 64, i);
    lemma_bits(p.board, PieceSet::OfKind(PieceKind::Knight), 64, i);
    lemma_bits(p.board, PieceSet::OfKind(PieceKind::Pawn), 64, i);
}

/// The number that stands for a promotion in an answer of the prober.
pub open spec fn promotion_number(kind: Option<PieceKind>) -> int {
    match kind {
        Some(PieceKind::Queen) => 1,
        Some(PieceKind::Rook) => 2,
        Some(PieceKind::Bishop) => 3,
        Some(PieceKind::Knight) => 4,
        _ => 0,
    }
}

/// The number of an outcome, from a loss to a win.
pub open spec fn outcome_number(wdl: Wdl) -> int {
    match wdl {
        Wdl::Loss => 0,
        Wdl::BlessedLoss => 1,
        Wdl::Draw => 2,
        Wdl::CursedWin => 3,
        Wdl::Win => 4,
    }
}

/// An answer at the root that is put together from an outcome, a distance and one
/// of the moves is taken apart into just these.
pub proof fn root_answers_are_understood(wdl: Wdl, dtz: u32, moves: Seq<Move>, k: int, raw: u32)
    requires
        0 <= k < moves.len(),
        forall|j: int|
            0 <= j < k ==> moves[k].src() != (#[trigger] moves[j]).src() || moves[k].dst()
                != moves[j].dst() || moves[k].kind().promotes_to() != moves[j].kind().promotes_to(),
        dtz < 4096,
        raw == outcome_number(wdl) + 16 * moves[k].dst() + 1024 * moves[k].src() + 65536
            * promotion_number(moves[k].kind().promotes_to()) + 1048576 * dtz,
        raw != tablebase::PROBE_FAILED,
        raw != tablebase::PROBE_CHECKMATE,
        raw != tablebase::PROBE_STALEMATE,
    ensures
        tablebase::root_answer(raw, moves) == Some((wdl, dtz, moves[k])),
{
    broadcast use crate::chess::moves::lemma_move_squares;

    let mv = moves[k];
    let r = raw as int;
    let low = outcome_number(wdl);
    let promotion = promotion_number(mv.kind().promotes_to());
    assert(0 <= promotion <= 4);
    lemma_taken_apart(r, low, mv.dst(), mv.src(), promotion, dtz as int);
    lemma_first_answer(r, moves, 0, k);
}

proof fn lemma_taken_apart(r: int, low: int, dst: int, src: int, promotion: int, dtz: int)
    requires
        0 <= low < 16,
        0 <= dst < 64,
        0 <= src < 64,
        0 <= promotion < 8,
        0 <= dtz,
        r == low + 16 * dst + 1024 * src + 65536 * promotion + 1048576 * dtz,
    ensures
        r % 16 == low,
        r / 0x10 % 64 == dst,
        r / 0x400 % 64 == src,
        r / 0x1_0000 % 8 == promotion,
        r / 0x10_0000 == dtz,
{
    let a = dst + 64 * src + 4096 * promotion + 65536 * dtz;
    let b = src + 64 * promotion + 1024 * dtz;
    let c = promotion + 16 * dtz;
    lemma_quotient(r, 16, low, a);
    lemma_quotient(r, 1024, low + 16 * dst, b);
    lemma_quotient(r, 65536, low + 16 * dst + 1024 * src, c);
    lemma_quotient(r, 1048576, low + 16 * dst + 1024 * src + 65536 * promotion, dtz);
    lemma_quotient(a, 64, dst, src + 64 * promotion + 1024 * dtz);
    lemma_quotient(b, 64, src, promotion + 16 * dtz);
    lemma_quotient(c, 8, promotion, 2 * dtz);
}

proof fn lemma_quotient(x: int, d: int, rest: int, q: int)
    requires
        d > 0,
        0 <= rest < d,
        x == rest + d * q,
    ensures
        x / d == q,
        x % d == rest,
{
    assert(q * d == d * q) by (nonlinear_arith);
    vstd::arithmetic::div_mod::lemma_fundamental_div_mod_converse(x, d, q, rest);
}

proof fn lemma_first_answer(raw: int, moves: Seq<Move>, i: nat, k: int)
    requires
        i <= k < moves.len(),
        tablebase::answer_names(raw, moves[k]),
        forall|j: int|
            0 <= j < k ==> moves[k].src() != (#[trigger] moves[j]).src() || moves[k].dst()
                != moves[j].dst() || moves[k].kind().promotes_to() != moves[j].kind().promotes_to(),
    ensures
        tablebase::answered_move(raw, moves, i) == Some(moves[k]),
    decreases k - i,
{
    if i < k {
        assert(!tablebase::answer_names(raw, moves[i as int]));
        lemma_first_answer(raw, moves, i + 1, k);
    }
}

/// A failed probe and a finished game are no answers.
pub proof fn some_answers_say_nothing(raw: u32, moves: Seq<Move>)
    requires
        raw == 0xFFFF_FFFF || raw == 4 || raw == 2 || moves.len() == 0 || raw % 16 > 4,
    ensures
        tablebase::root_answer(raw, moves) is None,
{
}

/// Outcomes are numbered from a loss to a win; the number of the other side's
/// outcome is four less this one's, and it is worth the opposite. Only real wins
/// and losses count, and a win beats everything else.
pub proof fn outcomes_are_opposite(value: int)
    ensures
        Wdl::decoded(value) is Some <==> 0 <= value <= 4,
        Wdl::decoded(value) matches Some(wdl) ==> outcome_number(wdl) == value && (Wdl::decoded(
            4 - value,
        ) matches Some(other) && other.worth() == -wdl.worth()),
        value == 4 ==> Wdl::decoded(value)->0.worth() > 0,
        1 <= value <= 3 ==> Wdl::decoded(value)->0.worth() == 0,
{
}

/// Every probe counts once, a successful one is a hit, and a hit that is not worth
/// anything a draw; nothing else changes.
pub proof fn probes_are_counted(stats: TablebaseStats, found: Option<Wdl>)
    requires
        stats.probes < u64::MAX,
        stats.hits < u64::MAX,
        stats.draw_hits < u64::MAX,
    ensures
        ({
            let after = stats.counted(found);
            &&& after.probes == stats.probes + 1
            &&& after.hits == stats.hits + (if found is Some {
                1int
            } else {
                0
            })
            &&& after.draw_hits == stats.draw_hits + (if found == Some(Wdl::Draw) || found == Some(
                Wdl::CursedWin,
            ) || found == Some(Wdl::BlessedLoss) {
                1int
            } else {
                0
            })
            &&& after.first_hit == stats.first_hit
            &&& after.root_hit == stats.root_hit
            &&& after.root_resolved == stats.root_resolved
        }),
{
}

} // verus!
