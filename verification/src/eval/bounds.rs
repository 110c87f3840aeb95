//! How large scores get, and what follows for the evaluators themselves.

use super::{Evaluator, ExperimentalEvaluator, MaterialEvaluator, PositionalEvaluator};
use crate::chess::piece::{Color, Piece};
use crate::chess::position::PositionView;
use vstd::prelude::*;

verus! {

/// No tapered score is further from zero.
pub const TAPERED_BOUND: i32 = 400_000;

/// No material balance is further from zero.
pub const MATERIAL_BOUND: i32 = 57_600;

/// A sum over squares is bounded by its terms.
proof fn lemma_sum_bound(f: spec_fn(int) -> int, low: int, high: int, n: nat)
    requires
        forall|i: int| 0 <= i < n ==> low <= #[trigger] f(i) <= high,
    ensures
        low * n <= super::sum_squares(f, n) <= high * n,
    decreases n,
{
    if n > 0 {
        lemma_sum_bound(f, low, high, (n - 1) as nat);
        assert(low <= f(n - 1) <= high);
        assert(low * n == low * (n - 1) + low && high * n == high * (n - 1) + high)
            by (nonlinear_arith);
    } else {
        assert(low * n == 0 && high * n == 0) by (nonlinear_arith)
            requires
                n == 0,
        ;
    }
}

proof fn lemma_square_worth_bound(p: PositionView, i: int, mobility: bool)
    requires
        0 <= i < 64,
    ensures
        -1300 <= super::square_worth(p, i, mobility).middle <= 1300,
        -1300 <= super::square_worth(p, i, mobility).end <= 1300,
{
    if let Some(piece) = p.board[i] {
        let file = i % 8;
        let rank = super::relative_rank(i, piece.color);
        assert(0 <= file < 8 && 0 <= rank < 8);
        assert(0 <= super::from_centre(file) <= 3 && 0 <= super::from_centre(rank) <= 3);
        let square = super::square_taper(piece.kind, file, rank);
        assert(-100 <= square.middle <= 100 && -100 <= square.end <= 100);
        super::lemma_mobility_bound(p, i, piece.kind, piece.color);
        if let Some(squares) = p.mobility(i, piece.kind, piece.color) {
            let weight = super::mobility_taper(piece.kind);
            let reach = squares as int;
            assert(0 <= weight.middle * reach <= 224 && 0 <= weight.end * reach <= 224)
                by (nonlinear_arith)
                requires
                    0 <= weight.middle <= 4,
                    0 <= weight.end <= 4,
                    0 <= reach <= 56,
            ;
        }
        let worth = super::piece_worth(p, i, piece, mobility);
        assert(-1300 <= worth.middle <= 1300 && -1300 <= worth.end <= 1300);
    }
}

proof fn lemma_rook_worth_bound(board: Seq<Option<Piece>>, i: int)
    ensures
        -20 <= super::rook_worth(board, i).middle <= 20,
        -20 <= super::rook_worth(board, i).end <= 20,
{
    if let Some(piece) = board[i] {
        match piece.color {
            Color::White => {
                assert(super::sign(piece.color) == 1);
            },
            Color::Black => {
                assert(super::sign(piece.color) == -1);
            },
        }
    }
}

/// Between none and 64 pawns stand on a file.
proof fn lemma_pawns_bound(board: Seq<Option<Piece>>, color: Color, file: int)
    ensures
        0 <= super::pawns_on(board, color, file) <= 64,
{
    lemma_sum_bound(super::pawn_terms(board, color, file), 0, 1, 64);
}

proof fn lemma_pawn_costs_bound(board: Seq<Option<Piece>>, color: Color, n: nat)
    ensures
        0 <= super::pawn_costs(board, color, n).middle <= 2000 * n,
        0 <= super::pawn_costs(board, color, n).end <= 2000 * n,
    decreases n,
{
    if n > 0 {
        lemma_pawn_costs_bound(board, color, (n - 1) as nat);
        lemma_pawns_bound(board, color, n - 1);
    }
}

proof fn lemma_taper_bound(p: PositionView, mobility: bool)
    ensures
        -200_000 <= super::white_taper(p, mobility).middle <= 200_000,
        -200_000 <= super::white_taper(p, mobility).end <= 200_000,
{
    assert forall|i: int| 0 <= i < 64 implies -1300 <= #[trigger] super::middle_terms(
        p,
        mobility,
    )(i) <= 1300 by {
        lemma_square_worth_bound(p, i, mobility);
    }
    assert forall|i: int| 0 <= i < 64 implies -1300 <= #[trigger] super::end_terms(p, mobility)(i)
        <= 1300 by {
        lemma_square_worth_bound(p, i, mobility);
    }
    lemma_sum_bound(super::middle_terms(p, mobility), -1300, 1300, 64);
    lemma_sum_bound(super::end_terms(p, mobility), -1300, 1300, 64);
    assert forall|i: int| 0 <= i < 64 implies -20 <= #[trigger] super::rook_middle(p.board)(i)
        <= 20 by {
        lemma_rook_worth_bound(p.board, i);
    }
    assert forall|i: int| 0 <= i < 64 implies -20 <= #[trigger] super::rook_end(p.board)(i)
        <= 20 by {
        lemma_rook_worth_bound(p.board, i);
    }
    lemma_sum_bound(super::rook_middle(p.board), -20, 20, 64);
    lemma_sum_bound(super::rook_end(p.board), -20, 20, 64);
    lemma_pawn_costs_bound(p.board, Color::White, 8);
    lemma_pawn_costs_bound(p.board, Color::Black, 8);
}

/// Whatever is on the board, a tapered score is within its bound.
pub proof fn tapered_scores_are_bounded(p: PositionView, mobility: bool)
    ensures
        -TAPERED_BOUND <= super::tapered_value(p, mobility) <= TAPERED_BOUND,
{
    let t = super::white_taper(p, mobility);
    let phase = super::phase(p.board);
    lemma_taper_bound(p, mobility);
    lemma_sum_bound(super::phase_terms(p.board), 0, 4, 64);
    assert(-200_000 * 24 <= t.middle * phase <= 200_000 * 24 && -200_000 * 24 <= t.end * (24
        - phase) <= 200_000 * 24) by (nonlinear_arith)
        requires
            -200_000 <= t.middle <= 200_000,
            -200_000 <= t.end <= 200_000,
            0 <= phase <= 24,
    ;
}

/// Likewise for material.
pub proof fn material_is_bounded(p: PositionView)
    ensures
        -MATERIAL_BOUND <= super::material_balance(p) <= MATERIAL_BOUND,
{
    lemma_sum_bound(super::material_term(p.board, p.side), -900, 900, 64);
}

/// The evaluators' scores are the exact ones, and none of them is further from
/// zero than the bounds say.
pub proof fn evaluators_are_bounded(p: PositionView, evaluator: PositionalEvaluator)
    ensures
        evaluator.value(p) == super::tapered_value(p, evaluator.options.use_mobility),
        ExperimentalEvaluator.value(p) == super::tapered_value(p, false),
        MaterialEvaluator.value(p) == super::material_balance(p),
        -TAPERED_BOUND <= evaluator.value(p) <= TAPERED_BOUND,
        -TAPERED_BOUND <= ExperimentalEvaluator.value(p) <= TAPERED_BOUND,
        -MATERIAL_BOUND <= MaterialEvaluator.value(p) <= MATERIAL_BOUND,
{
    tapered_scores_are_bounded(p, evaluator.options.use_mobility);
    tapered_scores_are_bounded(p, false);
    material_is_bounded(p);
}

/// With the other side to move every evaluator gives the opposite score.
pub proof fn evaluators_change_sign_with_the_turn(p: PositionView, evaluator: PositionalEvaluator)
    ensures
        evaluator.value(p.with_turn_passed()) == -evaluator.value(p),
        ExperimentalEvaluator.value(p.with_turn_passed()) == -ExperimentalEvaluator.value(p),
        MaterialEvaluator.value(p.with_turn_passed()) == -MaterialEvaluator.value(p),
{
    evaluators_are_bounded(p, evaluator);
    evaluators_are_bounded(p.with_turn_passed(), evaluator);
    super::symmetry::evaluation_changes_sign_with_the_turn(p, evaluator.options.use_mobility);
    super::symmetry::evaluation_changes_sign_with_the_turn(p, false);
    super::symmetry::material_changes_sign_with_the_turn(p);
}

} // verus!
