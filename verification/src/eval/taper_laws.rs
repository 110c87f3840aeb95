//! What the evaluators reward, and how their terms come together.

use super::{Evaluator, MaterialEvaluator, PositionalEvaluator, Taper};
use crate::chess::piece::{Color, Piece, PieceKind};
use crate::chess::position::PositionView;
use vstd::prelude::*;

verus! {

broadcast use crate::chess::position::lemma_board_len;

/// A score from White's side, seen from the side to move.
pub open spec fn seen_by(side: Color, white: int) -> int {
    match side {
        Color::White => white,
        Color::Black => -white,
    }
}

/// With all pieces on the board the value is the middlegame score alone, and
/// with none but kings and pawns it is the endgame score alone.
pub proof fn the_ends_of_the_taper(p: PositionView, mobility: bool)
    ensures
        super::phase(p.board) == 24 ==> super::tapered_value(p, mobility) == seen_by(
            p.side,
            super::white_taper(p, mobility).middle,
        ),
        super::phase(p.board) == 0 ==> super::tapered_value(p, mobility) == seen_by(
            p.side,
            super::white_taper(p, mobility).end,
        ),
{
    let t = super::white_taper(p, mobility);
    assert(t.middle * 24 + t.end * 0 == 24 * t.middle) by (nonlinear_arith);
    assert(t.middle * 0 + t.end * 24 == 24 * t.end) by (nonlinear_arith);
}

/// In between, the middlegame score has as many of 24 parts of the value as the
/// phase says, and the endgame score the others, to less than a centipawn.
pub proof fn the_value_is_a_weighted_mean(p: PositionView, mobility: bool)
    ensures
        ({
            let phase = super::phase(p.board);
            let t = super::white_taper(p, mobility);
            let parts = phase * t.middle + (24 - phase) * t.end;
            -24 < 24 * super::tapered_value(p, mobility) - seen_by(p.side, parts) < 24
        }),
{
    let phase = super::phase(p.board);
    let t = super::white_taper(p, mobility);
    assert(t.middle * phase == phase * t.middle && t.end * (24 - phase) == (24 - phase) * t.end)
        by (nonlinear_arith);
}

/// A value between two whole ones is rounded towards a draw, for either side.
pub proof fn values_are_rounded_towards_zero(t: Taper, phase: int)
    requires
        0 <= phase <= 24,
    ensures
        ({
            let parts = phase * t.middle + (24 - phase) * t.end;
            let value = super::blended(t, phase);
            &&& parts >= 0 ==> 0 <= 24 * value <= parts
            &&& parts <= 0 ==> parts <= 24 * value <= 0
            &&& super::blended(Taper { middle: -t.middle, end: -t.end }, phase) == -value
        }),
{
    assert(t.middle * phase == phase * t.middle && t.end * (24 - phase) == (24 - phase) * t.end
        && (-t.middle) * phase == -(phase * t.middle) && (-t.end) * (24 - phase) == -((24 - phase)
        * t.end)) by (nonlinear_arith);
}

/// The two tapered evaluators are these values, with mobility as configured and
/// without it.
pub proof fn evaluators_are_tapered_values(p: PositionView, evaluator: PositionalEvaluator)
    ensures
        super::phase(p.board) == 24 ==> evaluator.value(p) == seen_by(
            p.side,
            super::white_taper(p, evaluator.options.use_mobility).middle,
        ),
        super::phase(p.board) == 0 ==> evaluator.value(p) == seen_by(
            p.side,
            super::white_taper(p, evaluator.options.use_mobility).end,
        ),
        super::phase(p.board) == 24 ==> super::ExperimentalEvaluator.value(p) == seen_by(
            p.side,
            super::white_taper(p, false).middle,
        ),
{
    the_ends_of_the_taper(p, evaluator.options.use_mobility);
    the_ends_of_the_taper(p, false);
    super::bounds::tapered_scores_are_bounded(p, evaluator.options.use_mobility);
    super::bounds::tapered_scores_are_bounded(p, false);
}

/// Sums that differ in one term differ by as much as that term.
proof fn lemma_one_term(f: spec_fn(int) -> int, g: spec_fn(int) -> int, k: int, n: nat)
    requires
        0 <= k,
        forall|i: int| 0 <= i < n && i != k ==> #[trigger] f(i) == g(i),
    ensures
        super::sum_squares(f, n) - super::sum_squares(g, n) == (if k < n {
            f(k) - g(k)
        } else {
            0
        }),
    decreases n,
{
    if n > 0 {
        lemma_one_term(f, g, k, (n - 1) as nat);
    }
}

/// Sums of nothing.
proof fn lemma_no_terms(f: spec_fn(int) -> int, n: nat)
    requires
        forall|i: int| 0 <= i < n ==> #[trigger] f(i) == 0,
    ensures
        super::sum_squares(f, n) == 0,
    decreases n,
{
    if n > 0 {
        lemma_no_terms(f, (n - 1) as nat);
    }
}

/// How many steps away from the endgame one more piece of a kind keeps the game.
pub open spec fn phase_steps(kind: PieceKind) -> int {
    if kind == PieceKind::Knight || kind == PieceKind::Bishop {
        1
    } else if kind == PieceKind::Rook {
        2
    } else if kind == PieceKind::Queen {
        4
    } else {
        0
    }
}

/// The phase grows by one for a minor piece, two for a rook and four for a queen
/// that comes onto the board, of either color, up to 24; kings and pawns leave it
/// alone, and so it is zero without anything else.
pub proof fn pieces_make_the_phase(board: Seq<Option<Piece>>, k: int, piece: Piece)
    requires
        board.len() == 64,
        0 <= k < 64,
        board[k] is None,
    ensures
        ({
            let grown = super::phase(board) + phase_steps(piece.kind);
            super::phase(board.update(k, Some(piece))) == if grown <= 24 {
                grown
            } else {
                24
            }
        }),
        (forall|i: int|
            0 <= i < 64 ==> (#[trigger] board[i] matches Some(other) ==> other.kind
                == PieceKind::Pawn || other.kind == PieceKind::King)) ==> super::phase(board) == 0,
{
    let after = board.update(k, Some(piece));
    let f = super::phase_terms(after);
    let g = super::phase_terms(board);
    assert forall|i: int| 0 <= i < 64 && i != k implies #[trigger] f(i) == g(i) by {
        assert(after[i] == board[i]);
    }
    lemma_one_term(f, g, k, 64);
    lemma_phase_not_negative(board, 64);
    if forall|i: int|
        0 <= i < 64 ==> (#[trigger] board[i] matches Some(other) ==> other.kind == PieceKind::Pawn
            || other.kind == PieceKind::King) {
        assert forall|i: int| 0 <= i < 64 implies #[trigger] g(i) == 0 by {
            assert(board[i] matches Some(other) ==> other.kind == PieceKind::Pawn || other.kind
                == PieceKind::King);
        }
        lemma_no_terms(g, 64);
    }
}

proof fn lemma_phase_not_negative(board: Seq<Option<Piece>>, n: nat)
    ensures
        super::sum_squares(super::phase_terms(board), n) >= 0,
    decreases n,
{
    if n > 0 {
        lemma_phase_not_negative(board, (n - 1) as nat);
    }
}

/// A piece that comes onto the board changes the material balance by its value:
/// up for its own side, down for the other one. An empty board is balanced.
pub proof fn material_adds_up(p: PositionView, k: int, piece: Piece)
    requires
        p.valid(),
        0 <= k < 64,
        p.board[k] is None,
    ensures
        ({
            let q = PositionView { board: p.board.update(k, Some(piece)), ..p };
            MaterialEvaluator.value(q) - MaterialEvaluator.value(p) == if piece.color == p.side {
                super::material_value(piece.kind)
            } else {
                -super::material_value(piece.kind)
            }
        }),
        (forall|i: int| 0 <= i < 64 ==> #[trigger] p.board[i] is None) ==> MaterialEvaluator.value(p)
            == 0,
{
    let q = PositionView { board: p.board.update(k, Some(piece)), ..p };
    let f = super::material_term(q.board, q.side);
    let g = super::material_term(p.board, p.side);
    assert forall|i: int| 0 <= i < 64 && i != k implies #[trigger] f(i) == g(i) by {
        assert(q.board[i] == p.board[i]);
    }
    lemma_one_term(f, g, k, 64);
    super::bounds::material_is_bounded(p);
    super::bounds::material_is_bounded(q);
    if forall|i: int| 0 <= i < 64 ==> #[trigger] p.board[i] is None {
        assert forall|i: int| 0 <= i < 64 implies #[trigger] g(i) == 0 by {
            assert(p.board[i] is None);
        }
        lemma_no_terms(g, 64);
    }
}

/// A knight is worth more than three pawns and a bishop a little more than a
/// knight; a rook is worth five pawns and a queen nine; kings do not count. The
/// middlegame values of the tapered evaluators are the same, and towards the
/// endgame pawns gain a fifth and rooks a twentieth, while knights lose twenty
/// centipawns and bishops five.
pub proof fn what_pieces_are_worth(kind: PieceKind)
    ensures
        super::material_value(PieceKind::Pawn) == 100,
        super::material_value(PieceKind::Rook) == 5 * super::material_value(PieceKind::Pawn),
        super::material_value(PieceKind::Queen) == 9 * super::material_value(PieceKind::Pawn),
        super::material_value(PieceKind::Knight) == 3 * super::material_value(PieceKind::Pawn) + 20,
        super::material_value(PieceKind::Bishop) == super::material_value(PieceKind::Knight) + 10,
        super::material_value(PieceKind::King) == 0,
        super::piece_taper(kind).middle == super::material_value(kind),
        kind == PieceKind::Pawn ==> 5 * super::piece_taper(kind).end == 6 * super::piece_taper(
            kind,
        ).middle,
        kind == PieceKind::Rook ==> 20 * super::piece_taper(kind).end == 21 * super::piece_taper(
            kind,
        ).middle,
        kind == PieceKind::Knight ==> super::piece_taper(kind).end == super::piece_taper(kind).middle
            - 20,
        kind == PieceKind::Bishop ==> super::piece_taper(kind).end == super::piece_taper(kind).middle
            - 5,
        kind == PieceKind::Queen || kind == PieceKind::King ==> super::piece_taper(kind).end
            == super::piece_taper(kind).middle,
{
}

/// How many steps a file or rank is away from the middle of the board.
pub open spec fn steps_from_middle(x: int) -> int {
    if x < 4 {
        3 - x
    } else {
        x - 4
    }
}

/// What a square is worth to a piece, as changes from square to square:
/// - a step away from the centre costs a knight 12 and 8, a bishop 5 and 4, a
///   queen 3 and 2 centipawns in middlegame and endgame, and a king 12 in the
///   endgame;
/// - a step forward brings a pawn 6 and 12, and costs a king 12 in the
///   middlegame; a step away from the middle files costs a pawn 3 and 2;
/// - a rook gains 20 and 25 on its seventh rank only;
/// - a king gains 28 on the files it castles to, in the middlegame only.
pub proof fn what_squares_are_worth(file: int, rank: int, other_file: int, other_rank: int)
    requires
        0 <= file < 8,
        0 <= rank < 8,
        0 <= other_file < 8,
        0 <= other_rank < 8,
    ensures
        ({
            let further = steps_from_middle(file) + steps_from_middle(rank) - steps_from_middle(
                other_file,
            ) - steps_from_middle(other_rank);
            let outer = steps_from_middle(file) - steps_from_middle(other_file);
            let ahead = rank - other_rank;
            let here = |kind: PieceKind| super::square_taper(kind, file, rank);
            let there = |kind: PieceKind| super::square_taper(kind, other_file, other_rank);
            let more = |kind: PieceKind| here(kind).middle - there(kind).middle;
            let more_late = |kind: PieceKind| here(kind).end - there(kind).end;
            let castled = |f: int|
                if f == 2 || f == 6 {
                    28int
                } else {
                    0
                };
            &&& more(PieceKind::Knight) == -12 * further
            &&& more_late(PieceKind::Knight) == -8 * further
            &&& more(PieceKind::Bishop) == -5 * further
            &&& more_late(PieceKind::Bishop) == -4 * further
            &&& more(PieceKind::Queen) == -3 * further
            &&& more_late(PieceKind::Queen) == -2 * further
            &&& more_late(PieceKind::King) == -12 * further
            &&& more(PieceKind::Pawn) == 6 * ahead - 3 * outer
            &&& more_late(PieceKind::Pawn) == 12 * ahead - 2 * outer
            &&& more(PieceKind::King) == -12 * ahead + castled(file) - castled(other_file)
            &&& rank == 6 ==> here(PieceKind::Rook).middle == 20 && here(PieceKind::Rook).end == 25
            &&& rank != 6 ==> here(PieceKind::Rook).middle == 0 && here(PieceKind::Rook).end == 0
        }),
        super::square_taper(PieceKind::Knight, 3, 3).middle == 30,
        super::square_taper(PieceKind::Knight, 3, 3).end == 20,
        super::square_taper(PieceKind::Bishop, 3, 3).middle == 18,
        super::square_taper(PieceKind::Bishop, 3, 3).end == 22,
        super::square_taper(PieceKind::Queen, 3, 3).middle == 8,
        super::square_taper(PieceKind::Queen, 3, 3).end == 12,
        super::square_taper(PieceKind::King, 3, 3).end == 35,
        super::square_taper(PieceKind::King, 4, 0).middle == 0,
        super::square_taper(PieceKind::Pawn, 3, 0).middle == 0,
        super::square_taper(PieceKind::Pawn, 3, 0).end == 0,
{
}

/// A piece that reaches more squares is worth more, by four centipawns per square
/// for a knight or bishop, two and three for a rook, and one and two for a
/// queen; without mobility it makes no difference.
pub proof fn what_mobility_is_worth(p: PositionView, q: PositionView, k: int, piece: Piece)
    requires
        p.mobility(k, piece.kind, piece.color) is Some,
        q.mobility(k, piece.kind, piece.color) is Some,
    ensures
        ({
            let reach = p.mobility(k, piece.kind, piece.color)->0 - q.mobility(
                k,
                piece.kind,
                piece.color,
            )->0;
            let here = super::piece_worth(p, k, piece, true);
            let there = super::piece_worth(q, k, piece, true);
            let minor = piece.kind == PieceKind::Knight || piece.kind == PieceKind::Bishop;
            &&& minor ==> here.middle - there.middle == 4 * reach && here.end - there.end == 4
                * reach
            &&& piece.kind == PieceKind::Rook ==> here.middle - there.middle == 2 * reach && here.end
                - there.end == 3 * reach
            &&& piece.kind == PieceKind::Queen ==> here.middle - there.middle == reach && here.end
                - there.end == 2 * reach
            &&& super::piece_worth(p, k, piece, false) == super::piece_worth(q, k, piece, false)
            &&& p.mobility(k, piece.kind, piece.color)->0 == 0 ==> here == super::piece_worth(
                p,
                k,
                piece,
                false,
            )
        }),
{
    let a = p.mobility(k, piece.kind, piece.color)->0 as int;
    let b = q.mobility(k, piece.kind, piece.color)->0 as int;
    let w = super::mobility_taper(piece.kind);
    assert(w.middle * a - w.middle * b == w.middle * (a - b)) by (nonlinear_arith);
    assert(w.end * a - w.end * b == w.end * (a - b)) by (nonlinear_arith);
    if piece.kind == PieceKind::Queen {
        assert(w.middle * (a - b) == a - b) by (nonlinear_arith)
            requires
                w.middle == 1,
        ;
    }
    let still = super::piece_worth(p, k, piece, false);
    let here = super::piece_worth(p, k, piece, true);
    let there = super::piece_worth(q, k, piece, true);
    assert(here.middle == still.middle + w.middle * a && here.end == still.end + w.end * a);
    assert(there.middle == still.middle + w.middle * b && there.end == still.end + w.end * b);
}

/// Which pieces have a mobility at all: knights, bishops, rooks and queens.
pub proof fn who_has_mobility(p: PositionView, k: int, kind: PieceKind, side: Color)
    ensures
        p.mobility(k, kind, side) is Some <==> kind != PieceKind::Pawn && kind != PieceKind::King,
{
}

/// A piece without mobility counts its material and its square, the rank taken
/// from its own side.
pub proof fn what_a_piece_is_worth(p: PositionView, k: int, piece: Piece)
    requires
        0 <= k < 64,
    ensures
        ({
            let rank = if piece.color == Color::White {
                k / 8
            } else {
                7 - k / 8
            };
            let worth = super::piece_worth(p, k, piece, false);
            &&& worth.middle == super::piece_taper(piece.kind).middle + super::square_taper(
                piece.kind,
                k % 8,
                rank,
            ).middle
            &&& worth.end == super::piece_taper(piece.kind).end + super::square_taper(
                piece.kind,
                k % 8,
                rank,
            ).end
            &&& piece.kind == PieceKind::Pawn || piece.kind == PieceKind::King
                ==> super::piece_worth(p, k, piece, true) == worth
        }),
{
}

/// Whether square `i` contributes the same to two positions.
pub open spec fn same_contribution(p: PositionView, q: PositionView, i: int, mobility: bool) -> bool {
    &&& super::square_worth(p, i, mobility) == super::square_worth(q, i, mobility)
    &&& super::rook_worth(p.board, i) == super::rook_worth(q.board, i)
}

proof fn lemma_one_square(p: PositionView, q: PositionView, k: int, mobility: bool)
    requires
        0 <= k,
        forall|i: int|
            0 <= i < 64 && i != k ==> #[trigger] same_contribution(p, q, i, mobility),
    ensures
        ({
            let at = |f: spec_fn(int) -> int, g: spec_fn(int) -> int|
                if k < 64 {
                    f(k) - g(k)
                } else {
                    0
                };
            let sums = |f: spec_fn(int) -> int, g: spec_fn(int) -> int|
                super::sum_squares(f, 64) - super::sum_squares(g, 64);
            let (mp, mq) = (super::middle_terms(p, mobility), super::middle_terms(q, mobility));
            let (ep, eq) = (super::end_terms(p, mobility), super::end_terms(q, mobility));
            let (rp, rq) = (super::rook_middle(p.board), super::rook_middle(q.board));
            let (lp, lq) = (super::rook_end(p.board), super::rook_end(q.board));
            &&& sums(mp, mq) == at(mp, mq)
            &&& sums(ep, eq) == at(ep, eq)
            &&& sums(rp, rq) == at(rp, rq)
            &&& sums(lp, lq) == at(lp, lq)
        }),
{
    let (mp, mq) = (super::middle_terms(p, mobility), super::middle_terms(q, mobility));
    let (ep, eq) = (super::end_terms(p, mobility), super::end_terms(q, mobility));
    let (rp, rq) = (super::rook_middle(p.board), super::rook_middle(q.board));
    let (lp, lq) = (super::rook_end(p.board), super::rook_end(q.board));
    assert forall|i: int| 0 <= i < 64 && i != k implies #[trigger] mp(i) == mq(i) by {
        assert(same_contribution(p, q, i, mobility));
    }
    assert forall|i: int| 0 <= i < 64 && i != k implies #[trigger] ep(i) == eq(i) by {
        assert(same_contribution(p, q, i, mobility));
    }
    assert forall|i: int| 0 <= i < 64 && i != k implies #[trigger] rp(i) == rq(i) by {
        assert(same_contribution(p, q, i, mobility));
    }
    assert forall|i: int| 0 <= i < 64 && i != k implies #[trigger] lp(i) == lq(i) by {
        assert(same_contribution(p, q, i, mobility));
    }
    lemma_one_term(mp, mq, k, 64);
    lemma_one_term(ep, eq, k, 64);
    lemma_one_term(rp, rq, k, 64);
    lemma_one_term(lp, lq, k, 64);
}

/// Two positions that differ, as far as the evaluator can see, in one square
/// only, differ by what that square holds: a white piece adds its worth and what
/// its file gains a rook, a black one takes away as much.
pub proof fn pieces_add_up(p: PositionView, q: PositionView, k: int, mobility: bool)
    requires
        0 <= k < 64,
        forall|i: int|
            0 <= i < 64 && i != k ==> #[trigger] same_contribution(p, q, i, mobility),
        super::structure(p.board, Color::White) == super::structure(q.board, Color::White),
        super::structure(p.board, Color::Black) == super::structure(q.board, Color::Black),
        q.board[k] is None,
    ensures
        ({
            let more = super::white_taper(p, mobility).middle - super::white_taper(
                q,
                mobility,
            ).middle;
            let more_late = super::white_taper(p, mobility).end - super::white_taper(
                q,
                mobility,
            ).end;
            match p.board[k] {
                Some(piece) => {
                    let worth = super::piece_worth(p, k, piece, mobility);
                    let file = super::rook_worth(p.board, k);
                    &&& piece.color == Color::White ==> more == worth.middle + file.middle
                        && more_late == worth.end + file.end
                    &&& piece.color == Color::Black ==> more == -worth.middle + file.middle
                        && more_late == -worth.end + file.end
                },
                None => more == 0 && more_late == 0,
            }
        }),
{
    lemma_one_square(p, q, k, mobility);
    if let Some(piece) = p.board[k] {
        let worth = super::piece_worth(p, k, piece, mobility);
        assert(worth.middle * 1 == worth.middle && worth.end * 1 == worth.end);
        assert(worth.middle * -1 == -worth.middle && worth.end * -1 == -worth.end);
    }
}

/// The structure of White's pieces counts for White and that of Black's pieces
/// against it, and an empty board is worth nothing.
pub proof fn structures_add_up(p: PositionView, q: PositionView, mobility: bool)
    requires
        forall|i: int|
            0 <= i < 64 ==> #[trigger] same_contribution(p, q, i, mobility),
    ensures
        super::white_taper(p, mobility).middle - super::white_taper(q, mobility).middle == (
        super::structure(p.board, Color::White).middle - super::structure(
            q.board,
            Color::White,
        ).middle) - (super::structure(p.board, Color::Black).middle - super::structure(
            q.board,
            Color::Black,
        ).middle),
        super::white_taper(p, mobility).end - super::white_taper(q, mobility).end == (
        super::structure(p.board, Color::White).end - super::structure(q.board, Color::White).end)
            - (super::structure(p.board, Color::Black).end - super::structure(
            q.board,
            Color::Black,
        ).end),
{
    lemma_one_square(p, q, 64, mobility);
}

/// A pawn that comes onto a file adds one to the pawns of its color there, and to
/// no others.
pub proof fn pawns_are_counted(board: Seq<Option<Piece>>, k: int, piece: Piece, color: Color, file: int)
    requires
        board.len() == 64,
        0 <= k < 64,
        board[k] is None,
    ensures
        super::pawns_on(board.update(k, Some(piece)), color, file) == super::pawns_on(
            board,
            color,
            file,
        ) + if piece.kind == PieceKind::Pawn && piece.color == color && k % 8 == file {
            1int
        } else {
            0
        },
        (forall|i: int| 0 <= i < 64 ==> #[trigger] board[i] is None) ==> super::pawns_on(
            board,
            color,
            file,
        ) == 0,
{
    let after = board.update(k, Some(piece));
    let f = super::pawn_terms(after, color, file);
    let g = super::pawn_terms(board, color, file);
    assert forall|i: int| 0 <= i < 64 && i != k implies #[trigger] f(i) == g(i) by {
        assert(after[i] == board[i]);
    }
    lemma_one_term(f, g, k, 64);
    if forall|i: int| 0 <= i < 64 ==> #[trigger] board[i] is None {
        assert forall|i: int| 0 <= i < 64 implies #[trigger] g(i) == 0 by {
            assert(board[i] is None);
        }
        lemma_no_terms(g, 64);
    }
}

/// Whether a color has no pawn on either file beside this one.
pub open spec fn stands_alone(board: Seq<Option<Piece>>, color: Color, file: int) -> bool {
    &&& file > 0 ==> super::pawns_on(board, color, file - 1) == 0
    &&& file < 7 ==> super::pawns_on(board, color, file + 1) == 0
}

/// A single pawn with a neighbor costs nothing; each further one on its file
/// costs 12 and 18; and each one without a neighbor costs 10 and 8 on top.
pub proof fn what_pawn_weaknesses_cost(board: Seq<Option<Piece>>, color: Color, file: int)
    requires
        0 <= file < 8,
    ensures
        ({
            let count = super::pawns_on(board, color, file);
            let cost = super::pawn_cost(board, color, file);
            let alone = stands_alone(board, color, file);
            &&& count >= 1 && !alone ==> cost.middle == 12 * (count - 1) && cost.end == 18 * (count
                - 1)
            &&& count >= 1 && alone ==> cost.middle == 22 * count - 12 && cost.end == 26 * count - 18
            &&& count <= 0 ==> cost.middle == 0 && cost.end == 0
        }),
{
}

/// The weaknesses of all files add up, and the bishop pair is worth 30 and 45 to
/// its owner: a second bishop gains it, the first and a third do not.
pub proof fn what_the_structure_is_worth(
    board: Seq<Option<Piece>>,
    other: Seq<Option<Piece>>,
    color: Color,
    file: int,
)
    requires
        0 <= file < 8,
        forall|f: int|
            0 <= f < 8 && f != file ==> #[trigger] super::pawn_cost(board, color, f)
                == super::pawn_cost(other, color, f),
    ensures
        ({
            let paired = |b: Seq<Option<Piece>>|
                if exists|i: int, j: int|
                    0 <= i < j < 64 && #[trigger] b[i] == Some(
                        Piece { kind: PieceKind::Bishop, color },
                    ) && #[trigger] b[j] == Some(Piece { kind: PieceKind::Bishop, color }) {
                    1int
                } else {
                    0
                };
            &&& super::structure(board, color).middle - super::structure(other, color).middle == 30
                * (paired(board) - paired(other)) - (super::pawn_cost(board, color, file).middle
                - super::pawn_cost(other, color, file).middle)
            &&& super::structure(board, color).end - super::structure(other, color).end == 45 * (
            paired(board) - paired(other)) - (super::pawn_cost(board, color, file).end
                - super::pawn_cost(other, color, file).end)
        }),
{
    lemma_bishops(board, color, 64);
    lemma_bishops(other, color, 64);
    lemma_costs(board, other, color, file, 8);
}

proof fn lemma_costs(
    board: Seq<Option<Piece>>,
    other: Seq<Option<Piece>>,
    color: Color,
    file: int,
    n: nat,
)
    requires
        n <= 8,
        0 <= file < 8,
        forall|f: int|
            0 <= f < 8 && f != file ==> #[trigger] super::pawn_cost(board, color, f)
                == super::pawn_cost(other, color, f),
    ensures
        super::pawn_costs(board, color, n).middle - super::pawn_costs(other, color, n).middle == (
        if file < n {
            super::pawn_cost(board, color, file).middle - super::pawn_cost(
                other,
                color,
                file,
            ).middle
        } else {
            0
        }),
        super::pawn_costs(board, color, n).end - super::pawn_costs(other, color, n).end == (
        if file < n {
            super::pawn_cost(board, color, file).end - super::pawn_cost(other, color, file).end
        } else {
            0
        }),
    decreases n,
{
    if n > 0 {
        lemma_costs(board, other, color, file, (n - 1) as nat);
        if file != n - 1 {
            assert(super::pawn_cost(board, color, n - 1) == super::pawn_cost(other, color, n - 1));
        }
    }
}

/// At least two bishops are counted just if there are two.
proof fn lemma_bishops(board: Seq<Option<Piece>>, color: Color, n: nat)
    ensures
        ({
            let bishop = Some(Piece { kind: PieceKind::Bishop, color });
            let count = super::sum_squares(super::bishop_terms(board, color), n);
            &&& count >= 0
            &&& count >= 1 <==> exists|i: int| 0 <= i < n && #[trigger] board[i] == bishop
            &&& count >= 2 <==> exists|i: int, j: int|
                0 <= i < j < n && #[trigger] board[i] == bishop && #[trigger] board[j] == bishop
        }),
    decreases n,
{
    let bishop = Some(Piece { kind: PieceKind::Bishop, color });
    if n > 0 {
        lemma_bishops(board, color, (n - 1) as nat);
        let before = super::sum_squares(super::bishop_terms(board, color), (n - 1) as nat);
        let last = n - 1;
        if board[last] == bishop {
            if before >= 1 {
                let i = choose|i: int| 0 <= i < last && #[trigger] board[i] == bishop;
                assert(board[i] == bishop && board[last] == bishop && i < last);
            }
        }
    }
}

/// A rook gains 20 and 10 on a file without pawns, 10 and 5 on one with pawns of
/// the other side only, and nothing on one with a pawn of its own.
pub proof fn what_open_files_are_worth(board: Seq<Option<Piece>>, k: int, piece: Piece)
    requires
        0 <= k < 64,
        board[k] == Some(piece),
    ensures
        ({
            let gain = super::rook_worth(board, k);
            let own = super::pawns_on(board, piece.color, k % 8);
            let theirs = super::pawns_on(board, piece.color.other(), k % 8);
            let rook = piece.kind == PieceKind::Rook;
            &&& !rook || own > 0 ==> gain.middle == 0 && gain.end == 0
            &&& rook && own == 0 && theirs > 0 ==> seen_by(piece.color, gain.middle) == 10
                && seen_by(piece.color, gain.end) == 5
            &&& rook && own == 0 && theirs == 0 ==> seen_by(piece.color, gain.middle) == 20
                && seen_by(piece.color, gain.end) == 10
        }),
{
}

} // verus!
