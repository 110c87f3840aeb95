//! The evaluators treat both colors alike.

use super::{
    Evaluator, ExperimentalEvaluator, MaterialEvaluator, PositionalEvaluator, Taper,
};
use crate::chess::castling::CastlingRights;
use crate::chess::movegen::{self, BISHOP_DIRECTIONS, KNIGHT_OFFSETS, ROOK_DIRECTIONS};
use crate::chess::piece::{Color, Piece, PieceKind};
use crate::chess::position::PositionView;
use crate::chess::square::Square;
use vstd::prelude::*;

verus! {

/// The square on the same file and the opposite rank.
pub open spec fn flip(i: int) -> int {
    (7 - i / 8) * 8 + i % 8
}

/// The same piece of the other color.
pub open spec fn recolored(content: Option<Piece>) -> Option<Piece> {
    match content {
        Some(piece) => Some(Piece { kind: piece.kind, color: piece.color.other() }),
        None => None,
    }
}

impl PositionView {
    /// The position seen from the other side: ranks reversed, colors swapped,
    /// and the turn with them.
    pub open spec fn mirrored(self) -> PositionView {
        PositionView {
            board: Seq::new(64, |i: int| recolored(self.board[flip(i)])),
            side: self.side.other(),
            rights: CastlingRights {
                white_kingside: self.rights.black_kingside,
                white_queenside: self.rights.black_queenside,
                black_kingside: self.rights.white_kingside,
                black_queenside: self.rights.white_queenside,
            },
            ep: match self.ep {
                Some(i) => Some(flip(i)),
                None => None,
            },
            half: self.half,
            full: self.full,
        }
    }

    /// The same position with the other side to move.
    pub open spec fn with_turn_passed(self) -> PositionView {
        PositionView { side: self.side.other(), ..self }
    }
}

/// Flipping a square twice gives it back.
proof fn lemma_flip(i: int)
    requires
        0 <= i < 64,
    ensures
        0 <= flip(i) < 64,
        flip(flip(i)) == i,
        flip(i) % 8 == i % 8,
        flip(i) / 8 == 7 - i / 8,
{
}

/// Mirroring a position twice gives it back.
pub proof fn mirroring_is_an_involution(p: PositionView)
    requires
        p.valid(),
    ensures
        p.mirrored().mirrored() == p,
{
    assert forall|i: int| 0 <= i < 64 implies #[trigger] p.mirrored().mirrored().board[i]
        == p.board[i] by {
        lemma_flip(i);
    }
    assert(p.mirrored().mirrored().board =~= p.board);
    if let Some(i) = p.ep {
        lemma_flip(i);
    }
}

/// The sum over the squares of one rank.
spec fn rank_sum(f: spec_fn(int) -> int, rank: int) -> int {
    f(rank * 8) + f(rank * 8 + 1) + f(rank * 8 + 2) + f(rank * 8 + 3) + f(rank * 8 + 4) + f(
        rank * 8 + 5,
    ) + f(rank * 8 + 6) + f(rank * 8 + 7)
}

proof fn lemma_rank_sum(f: spec_fn(int) -> int, rank: int)
    requires
        0 <= rank,
    ensures
        super::sum_squares(f, (rank * 8 + 8) as nat) == super::sum_squares(f, (rank * 8) as nat)
            + rank_sum(f, rank),
{
    let n = rank * 8;
    assert(super::sum_squares(f, (n + 1) as nat) == super::sum_squares(f, n as nat) + f(n));
    assert(super::sum_squares(f, (n + 2) as nat) == super::sum_squares(f, (n + 1) as nat) + f(n + 1));
    assert(super::sum_squares(f, (n + 3) as nat) == super::sum_squares(f, (n + 2) as nat) + f(n + 2));
    assert(super::sum_squares(f, (n + 4) as nat) == super::sum_squares(f, (n + 3) as nat) + f(n + 3));
    assert(super::sum_squares(f, (n + 5) as nat) == super::sum_squares(f, (n + 4) as nat) + f(n + 4));
    assert(super::sum_squares(f, (n + 6) as nat) == super::sum_squares(f, (n + 5) as nat) + f(n + 5));
    assert(super::sum_squares(f, (n + 7) as nat) == super::sum_squares(f, (n + 6) as nat) + f(n + 6));
    assert(super::sum_squares(f, (n + 8) as nat) == super::sum_squares(f, (n + 7) as nat) + f(n + 7));
}

proof fn lemma_board_sum(f: spec_fn(int) -> int)
    ensures
        super::sum_squares(f, 64) == rank_sum(f, 0) + rank_sum(f, 1) + rank_sum(f, 2) + rank_sum(
            f,
            3,
        ) + rank_sum(f, 4) + rank_sum(f, 5) + rank_sum(f, 6) + rank_sum(f, 7),
{
    assert(super::sum_squares(f, 0) == 0);
    lemma_rank_sum(f, 0);
    lemma_rank_sum(f, 1);
    lemma_rank_sum(f, 2);
    lemma_rank_sum(f, 3);
    lemma_rank_sum(f, 4);
    lemma_rank_sum(f, 5);
    lemma_rank_sum(f, 6);
    lemma_rank_sum(f, 7);
}

/// `x`, or its opposite.
spec fn signed(opposite: bool, x: int) -> int {
    if opposite {
        -x
    } else {
        x
    }
}

/// Whether `g` is on every square what `f` is on the flipped one, or the
/// opposite of that.
spec fn reflects(f: spec_fn(int) -> int, g: spec_fn(int) -> int, opposite: bool) -> bool {
    forall|i: int| 0 <= i < 64 ==> #[trigger] g(i) == signed(opposite, f(flip(i)))
}

proof fn lemma_rank_reflected(
    f: spec_fn(int) -> int,
    g: spec_fn(int) -> int,
    opposite: bool,
    rank: int,
)
    requires
        reflects(f, g, opposite),
        0 <= rank < 8,
    ensures
        rank_sum(g, rank) == signed(opposite, rank_sum(f, 7 - rank)),
{
    let n = rank * 8;
    let m = (7 - rank) * 8;
    assert(g(n) == signed(opposite, f(flip(n))) && flip(n) == m);
    assert(g(n + 1) == signed(opposite, f(flip(n + 1))) && flip(n + 1) == m + 1);
    assert(g(n + 2) == signed(opposite, f(flip(n + 2))) && flip(n + 2) == m + 2);
    assert(g(n + 3) == signed(opposite, f(flip(n + 3))) && flip(n + 3) == m + 3);
    assert(g(n + 4) == signed(opposite, f(flip(n + 4))) && flip(n + 4) == m + 4);
    assert(g(n + 5) == signed(opposite, f(flip(n + 5))) && flip(n + 5) == m + 5);
    assert(g(n + 6) == signed(opposite, f(flip(n + 6))) && flip(n + 6) == m + 6);
    assert(g(n + 7) == signed(opposite, f(flip(n + 7))) && flip(n + 7) == m + 7);
}

/// Flipping all squares does not change a sum over all of them.
proof fn lemma_reflected_sum(f: spec_fn(int) -> int, g: spec_fn(int) -> int, opposite: bool)
    requires
        reflects(f, g, opposite),
    ensures
        super::sum_squares(g, 64) == signed(opposite, super::sum_squares(f, 64)),
{
    lemma_board_sum(f);
    lemma_board_sum(g);
    lemma_rank_reflected(f, g, opposite, 0);
    lemma_rank_reflected(f, g, opposite, 1);
    lemma_rank_reflected(f, g, opposite, 2);
    lemma_rank_reflected(f, g, opposite, 3);
    lemma_rank_reflected(f, g, opposite, 4);
    lemma_rank_reflected(f, g, opposite, 5);
    lemma_rank_reflected(f, g, opposite, 6);
    lemma_rank_reflected(f, g, opposite, 7);
}

/// Negating every term negates the sum.
proof fn lemma_negated_sum(f: spec_fn(int) -> int, g: spec_fn(int) -> int, n: nat)
    requires
        forall|i: int| 0 <= i < n ==> #[trigger] g(i) == -f(i),
    ensures
        super::sum_squares(g, n) == -super::sum_squares(f, n),
    decreases n,
{
    if n > 0 {
        lemma_negated_sum(f, g, (n - 1) as nat);
    }
}

/// The same terms have the same sum.
proof fn lemma_same_sum(f: spec_fn(int) -> int, g: spec_fn(int) -> int, n: nat)
    requires
        forall|i: int| 0 <= i < n ==> #[trigger] g(i) == f(i),
    ensures
        super::sum_squares(g, n) == super::sum_squares(f, n),
    decreases n,
{
    if n > 0 {
        lemma_same_sum(f, g, (n - 1) as nat);
    }
}

/// What the mirrored board holds.
proof fn lemma_mirrored_square(p: PositionView, i: int)
    requires
        0 <= i < 64,
    ensures
        p.mirrored().board[i] == recolored(p.board[flip(i)]),
        p.mirrored().board[flip(i)] == recolored(p.board[i]),
{
    lemma_flip(i);
}

/// Material counts the same for either color.
pub proof fn material_is_symmetric(p: PositionView)
    requires
        p.valid(),
    ensures
        MaterialEvaluator.value(p.mirrored()) == MaterialEvaluator.value(p),
{
    let q = p.mirrored();
    let f = super::material_term(p.board, p.side);
    let g = super::material_term(q.board, q.side);
    assert forall|i: int| 0 <= i < 64 implies #[trigger] g(i) == f(flip(i)) by {
        lemma_mirrored_square(p, i);
    }
    lemma_reflected_sum(f, g, false);
}

/// With the other side to move the material balance has the opposite sign.
pub proof fn material_changes_sign_with_the_turn(p: PositionView)
    ensures
        super::material_balance(p.with_turn_passed()) == -super::material_balance(p),
{
    let f = super::material_term(p.board, p.side);
    let g = super::material_term(p.board, p.side.other());
    assert forall|i: int| 0 <= i < 64 implies #[trigger] g(i) == -f(i) by {}
    lemma_negated_sum(f, g, 64);
}

/// A step from a flipped square goes to the flipped target.
proof fn lemma_step_mirrored(cur: int, df: int, dr: int)
    requires
        0 <= cur < 64,
    ensures
        Square::shifted(flip(cur), df, -dr) == (match Square::shifted(cur, df, dr) {
            Some(to) => Some(flip(to)),
            None => None,
        }),
{
    lemma_flip(cur);
    if let Some(to) = Square::shifted(cur, df, dr) {
        lemma_flip(to);
    }
}

/// A jump from a flipped square goes to the flipped target.
proof fn lemma_jump_mirrored(p: PositionView, from: int, side: Color, df: int, dr: int)
    requires
        0 <= from < 64,
    ensures
        p.mirrored().jump(flip(from), side.other(), df, -dr).len() == p.jump(
            from,
            side,
            df,
            dr,
        ).len(),
{
    lemma_step_mirrored(from, df, dr);
    if let Some(to) = Square::shifted(from, df, dr) {
        lemma_mirrored_square(p, to);
    }
}

/// A step leaves less room ahead.
proof fn lemma_step_room(cur: int, df: int, dr: int)
    requires
        movegen::is_direction(df, dr),
        0 <= cur < 64,
    ensures
        Square::shifted(cur, df, dr) matches Some(to) ==> 0 <= to < 64 && 0 <= movegen::ray_room(
            to,
            df,
            dr,
        ) < movegen::ray_room(cur, df, dr),
{
}

/// A ray from a flipped square has the same length.
proof fn lemma_ray_mirrored(
    p: PositionView,
    from: int,
    cur: int,
    side: Color,
    df: int,
    dr: int,
)
    requires
        movegen::is_direction(df, dr),
        0 <= cur < 64,
    ensures
        p.mirrored().ray(flip(from), flip(cur), side.other(), df, -dr).len() == p.ray(
            from,
            cur,
            side,
            df,
            dr,
        ).len(),
    decreases movegen::ray_room(cur, df, dr),
{
    let q = p.mirrored();
    lemma_step_mirrored(cur, df, dr);
    lemma_step_room(cur, df, dr);
    assert(0 <= flip(cur) < 64) by {
        lemma_flip(cur);
    }
    assert(movegen::is_direction(df, -dr));
    if let Some(to) = Square::shifted(cur, df, dr) {
        assert(q.board[flip(to)] == recolored(p.board[to])) by {
            lemma_mirrored_square(p, to);
        }
        lemma_ray_mirrored(p, from, to, side, df, dr);
    }
}

/// The number of jumps of a knight.
proof fn lemma_knight_jumps(p: PositionView, from: int, side: Color)
    ensures
        p.jumps(from, side, KNIGHT_OFFSETS@, 8).len() == p.jump(from, side, 1, 2).len() + p.jump(
            from,
            side,
            2,
            1,
        ).len() + p.jump(from, side, 2, -1).len() + p.jump(from, side, 1, -2).len() + p.jump(
            from,
            side,
            -1,
            -2,
        ).len() + p.jump(from, side, -2, -1).len() + p.jump(from, side, -2, 1).len() + p.jump(
            from,
            side,
            -1,
            2,
        ).len(),
{
    movegen::lemma_tables();
    reveal_with_fuel(PositionView::jumps, 9);
    let t = KNIGHT_OFFSETS@;
    assert(t[0] == (1i8, 2i8) && t[1] == (2i8, 1i8) && t[2] == (2i8, -1i8) && t[3] == (1i8, -2i8));
    assert(t[4] == (-1i8, -2i8) && t[5] == (-2i8, -1i8) && t[6] == (-2i8, 1i8) && t[7] == (
        -1i8,
        2i8,
    ));
}

/// The number of squares on the diagonals.
proof fn lemma_bishop_slides(p: PositionView, from: int, side: Color)
    ensures
        p.slides(from, side, BISHOP_DIRECTIONS@, 4).len() == p.ray(from, from, side, 1, 1).len()
            + p.ray(from, from, side, 1, -1).len() + p.ray(from, from, side, -1, 1).len() + p.ray(
            from,
            from,
            side,
            -1,
            -1,
        ).len(),
{
    reveal_with_fuel(PositionView::slides, 5);
    let t = BISHOP_DIRECTIONS@;
    assert(t[0] == (1i8, 1i8) && t[1] == (1i8, -1i8) && t[2] == (-1i8, 1i8) && t[3] == (-1i8, -1i8));
}

/// The number of squares on the file and the rank.
proof fn lemma_rook_slides(p: PositionView, from: int, side: Color)
    ensures
        p.slides(from, side, ROOK_DIRECTIONS@, 4).len() == p.ray(from, from, side, 1, 0).len()
            + p.ray(from, from, side, -1, 0).len() + p.ray(from, from, side, 0, 1).len() + p.ray(
            from,
            from,
            side,
            0,
            -1,
        ).len(),
{
    reveal_with_fuel(PositionView::slides, 5);
    let t = ROOK_DIRECTIONS@;
    assert(t[0] == (1i8, 0i8) && t[1] == (-1i8, 0i8) && t[2] == (0i8, 1i8) && t[3] == (0i8, -1i8));
}

proof fn lemma_knight_mirrored(p: PositionView, from: int, side: Color)
    requires
        0 <= from < 64,
    ensures
        p.mirrored().jumps(flip(from), side.other(), KNIGHT_OFFSETS@, 8).len() == p.jumps(
            from,
            side,
            KNIGHT_OFFSETS@,
            8,
        ).len(),
{
    lemma_knight_jumps(p, from, side);
    lemma_knight_jumps(p.mirrored(), flip(from), side.other());
    lemma_jump_mirrored(p, from, side, 1, 2);
    lemma_jump_mirrored(p, from, side, 2, 1);
    lemma_jump_mirrored(p, from, side, 2, -1);
    lemma_jump_mirrored(p, from, side, 1, -2);
    lemma_jump_mirrored(p, from, side, -1, -2);
    lemma_jump_mirrored(p, from, side, -2, -1);
    lemma_jump_mirrored(p, from, side, -2, 1);
    lemma_jump_mirrored(p, from, side, -1, 2);
}

proof fn lemma_bishop_mirrored(p: PositionView, from: int, side: Color)
    requires
        0 <= from < 64,
    ensures
        p.mirrored().slides(flip(from), side.other(), BISHOP_DIRECTIONS@, 4).len() == p.slides(
            from,
            side,
            BISHOP_DIRECTIONS@,
            4,
        ).len(),
{
    lemma_bishop_slides(p, from, side);
    lemma_bishop_slides(p.mirrored(), flip(from), side.other());
    lemma_ray_mirrored(p, from, from, side, 1, 1);
    lemma_ray_mirrored(p, from, from, side, 1, -1);
    lemma_ray_mirrored(p, from, from, side, -1, 1);
    lemma_ray_mirrored(p, from, from, side, -1, -1);
}

proof fn lemma_rook_mirrored(p: PositionView, from: int, side: Color)
    requires
        0 <= from < 64,
    ensures
        p.mirrored().slides(flip(from), side.other(), ROOK_DIRECTIONS@, 4).len() == p.slides(
            from,
            side,
            ROOK_DIRECTIONS@,
            4,
        ).len(),
{
    lemma_rook_slides(p, from, side);
    lemma_rook_slides(p.mirrored(), flip(from), side.other());
    lemma_ray_mirrored(p, from, from, side, 1, 0);
    lemma_ray_mirrored(p, from, from, side, -1, 0);
    lemma_ray_mirrored(p, from, from, side, 0, 1);
    lemma_ray_mirrored(p, from, from, side, 0, -1);
}

/// A piece reaches as many squares in the mirrored position.
proof fn lemma_mobility_mirrored(p: PositionView, from: int, kind: PieceKind, side: Color)
    requires
        0 <= from < 64,
    ensures
        p.mirrored().mobility(flip(from), kind, side.other()) == p.mobility(from, kind, side),
{
    lemma_knight_mirrored(p, from, side);
    lemma_bishop_mirrored(p, from, side);
    lemma_rook_mirrored(p, from, side);
}

/// What a flipped square contributes is the opposite, from White's side.
proof fn lemma_square_mirrored(p: PositionView, i: int, mobility: bool)
    requires
        0 <= i < 64,
    ensures
        super::square_worth(p.mirrored(), flip(i), mobility) == super::square_worth(
            p,
            i,
            mobility,
        ).times(-1),
{
    lemma_flip(i);
    lemma_mirrored_square(p, i);
    if let Some(piece) = p.board[i] {
        lemma_mobility_mirrored(p, i, piece.kind, piece.color);
        let worth = super::piece_worth(p, i, piece, mobility);
        assert(super::piece_worth(
            p.mirrored(),
            flip(i),
            Piece { kind: piece.kind, color: piece.color.other() },
            mobility,
        ) == worth);
        assert(super::sign(piece.color.other()) == -super::sign(piece.color));
        assert(worth.times(-1) == Taper { middle: -worth.middle, end: -worth.end });
        assert(worth.times(1) == worth);
    }
}

/// As many pawns of the other color stand on a file of the mirrored board.
proof fn lemma_pawns_mirrored(p: PositionView, color: Color, file: int)
    ensures
        super::pawns_on(p.mirrored().board, color.other(), file) == super::pawns_on(
            p.board,
            color,
            file,
        ),
{
    let f = super::pawn_terms(p.board, color, file);
    let g = super::pawn_terms(p.mirrored().board, color.other(), file);
    assert forall|i: int| 0 <= i < 64 implies #[trigger] g(i) == f(flip(i)) by {
        lemma_flip(i);
        lemma_mirrored_square(p, i);
    }
    lemma_reflected_sum(f, g, false);
}

proof fn lemma_pawn_costs_mirrored(p: PositionView, color: Color, n: nat)
    requires
        n <= 8,
    ensures
        super::pawn_costs(p.mirrored().board, color.other(), n) == super::pawn_costs(
            p.board,
            color,
            n,
        ),
    decreases n,
{
    if n > 0 {
        lemma_pawn_costs_mirrored(p, color, (n - 1) as nat);
        lemma_pawns_mirrored(p, color, n - 1);
        lemma_pawns_mirrored(p, color, n - 2);
        lemma_pawns_mirrored(p, color, n as int);
    }
}

/// The structure of the other color is worth as much in the mirrored position.
proof fn lemma_structure_mirrored(p: PositionView, color: Color)
    ensures
        super::structure(p.mirrored().board, color.other()) == super::structure(p.board, color),
{
    lemma_pawn_costs_mirrored(p, color, 8);
    let f = super::bishop_terms(p.board, color);
    let g = super::bishop_terms(p.mirrored().board, color.other());
    assert forall|i: int| 0 <= i < 64 implies #[trigger] g(i) == f(flip(i)) by {
        lemma_mirrored_square(p, i);
    }
    lemma_reflected_sum(f, g, false);
}

proof fn lemma_rook_worth_mirrored(p: PositionView, i: int)
    requires
        0 <= i < 64,
    ensures
        super::rook_worth(p.mirrored().board, flip(i)) == super::rook_worth(p.board, i).times(-1),
{
    lemma_flip(i);
    lemma_mirrored_square(p, i);
    if let Some(piece) = p.board[i] {
        lemma_pawns_mirrored(p, piece.color, i % 8);
        lemma_pawns_mirrored(p, piece.color.other(), i % 8);
        assert(piece.color.other().other() == piece.color);
    }
}

/// All terms together have the opposite sign in the mirrored position.
proof fn lemma_taper_mirrored(p: PositionView, mobility: bool)
    ensures
        super::white_taper(p.mirrored(), mobility).middle == -super::white_taper(p, mobility).middle,
        super::white_taper(p.mirrored(), mobility).end == -super::white_taper(p, mobility).end,
{
    let q = p.mirrored();
    assert forall|i: int| 0 <= i < 64 implies #[trigger] super::middle_terms(q, mobility)(i) ==
        -super::middle_terms(p, mobility)(flip(i)) by {
        lemma_flip(i);
        lemma_square_mirrored(p, flip(i), mobility);
    }
    assert forall|i: int| 0 <= i < 64 implies #[trigger] super::end_terms(q, mobility)(i) ==
        -super::end_terms(p, mobility)(flip(i)) by {
        lemma_flip(i);
        lemma_square_mirrored(p, flip(i), mobility);
    }
    assert forall|i: int| 0 <= i < 64 implies #[trigger] super::rook_middle(q.board)(i) ==
        -super::rook_middle(p.board)(flip(i)) by {
        lemma_flip(i);
        lemma_rook_worth_mirrored(p, flip(i));
    }
    assert forall|i: int| 0 <= i < 64 implies #[trigger] super::rook_end(q.board)(i) ==
        -super::rook_end(p.board)(flip(i)) by {
        lemma_flip(i);
        lemma_rook_worth_mirrored(p, flip(i));
    }
    lemma_reflected_sum(super::middle_terms(p, mobility), super::middle_terms(q, mobility), true);
    lemma_reflected_sum(super::end_terms(p, mobility), super::end_terms(q, mobility), true);
    lemma_reflected_sum(super::rook_middle(p.board), super::rook_middle(q.board), true);
    lemma_reflected_sum(super::rook_end(p.board), super::rook_end(q.board), true);
    lemma_structure_mirrored(p, Color::White);
    lemma_structure_mirrored(p, Color::Black);
    assert(Color::White.other() == Color::Black && Color::Black.other() == Color::White);
}

/// The mirrored position is as far from the endgame.
proof fn lemma_phase_mirrored(p: PositionView)
    ensures
        super::phase(p.mirrored().board) == super::phase(p.board),
{
    let f = super::phase_terms(p.board);
    let g = super::phase_terms(p.mirrored().board);
    assert forall|i: int| 0 <= i < 64 implies #[trigger] g(i) == f(flip(i)) by {
        lemma_mirrored_square(p, i);
    }
    lemma_reflected_sum(f, g, false);
}

/// Blending does not care about the sign.
proof fn lemma_blended_negated(t: Taper, u: Taper, phase: int)
    requires
        u.middle == -t.middle,
        u.end == -t.end,
    ensures
        super::blended(u, phase) == -super::blended(t, phase),
{
    assert(u.middle * phase + u.end * (24 - phase) == -(t.middle * phase + t.end * (24 - phase)))
        by (nonlinear_arith)
        requires
            u.middle == -t.middle,
            u.end == -t.end,
    ;
}

/// No evaluator favors a color: a position and its mirror image are worth the
/// same to the side to move.
pub proof fn evaluation_is_symmetric(p: PositionView, mobility: bool)
    ensures
        super::tapered_value(p.mirrored(), mobility) == super::tapered_value(p, mobility),
{
    lemma_taper_mirrored(p, mobility);
    lemma_phase_mirrored(p);
    lemma_blended_negated(
        super::white_taper(p, mobility),
        super::white_taper(p.mirrored(), mobility),
        super::phase(p.board),
    );
}

/// Likewise for the evaluators themselves.
pub proof fn evaluators_are_symmetric(p: PositionView, evaluator: PositionalEvaluator)
    ensures
        evaluator.value(p.mirrored()) == evaluator.value(p),
        ExperimentalEvaluator.value(p.mirrored()) == ExperimentalEvaluator.value(p),
{
    evaluation_is_symmetric(p, evaluator.options.use_mobility);
    evaluation_is_symmetric(p, false);
}

/// How many squares a piece reaches does not depend on whose turn it is.
proof fn lemma_mobility_with_turn_passed(p: PositionView, from: int, kind: PieceKind, side: Color)
    requires
        0 <= from < 64,
    ensures
        p.with_turn_passed().mobility(from, kind, side) == p.mobility(from, kind, side),
{
    let q = p.with_turn_passed();
    movegen::lemma_tables();
    crate::chess::clocks::lemma_jumps(p, q, from, side, KNIGHT_OFFSETS@, 8);
    crate::chess::clocks::lemma_slides(p, q, from, side, BISHOP_DIRECTIONS@, 4);
    crate::chess::clocks::lemma_slides(p, q, from, side, ROOK_DIRECTIONS@, 4);
}

/// With the other side to move a score has the opposite sign.
pub proof fn evaluation_changes_sign_with_the_turn(p: PositionView, mobility: bool)
    ensures
        super::tapered_value(p.with_turn_passed(), mobility) == -super::tapered_value(p, mobility),
{
    let q = p.with_turn_passed();
    assert forall|i: int| 0 <= i < 64 implies super::square_worth(q, i, mobility)
        == #[trigger] super::square_worth(p, i, mobility) by {
        if let Some(piece) = p.board[i] {
            lemma_mobility_with_turn_passed(p, i, piece.kind, piece.color);
        }
    }
    assert forall|i: int| 0 <= i < 64 implies #[trigger] super::middle_terms(q, mobility)(i)
        == super::middle_terms(p, mobility)(i) by {
        assert(super::square_worth(q, i, mobility) == super::square_worth(p, i, mobility));
    }
    assert forall|i: int| 0 <= i < 64 implies #[trigger] super::end_terms(q, mobility)(i)
        == super::end_terms(p, mobility)(i) by {
        assert(super::square_worth(q, i, mobility) == super::square_worth(p, i, mobility));
    }
    lemma_same_sum(super::middle_terms(p, mobility), super::middle_terms(q, mobility), 64);
    lemma_same_sum(super::end_terms(p, mobility), super::end_terms(q, mobility), 64);
}

/// The starting position is balanced: it is its own mirror image but for the
/// turn.
pub proof fn starting_position_is_balanced(mobility: bool)
    ensures
        super::tapered_value(PositionView::start(), mobility) == 0,
        super::material_balance(PositionView::start()) == 0,
{
    let p = PositionView::start();
    assert forall|i: int| 0 <= i < 64 implies #[trigger] p.mirrored().board[i] == p.board[i] by {
        lemma_flip(i);
    }
    assert(p.mirrored().board =~= p.board);
    assert(p.mirrored() =~= p.with_turn_passed());
    evaluation_is_symmetric(p, mobility);
    evaluation_changes_sign_with_the_turn(p, mobility);
    material_changes_sign_with_the_turn(p);
    let q = p.mirrored();
    let f = super::material_term(p.board, p.side);
    let g = super::material_term(q.board, q.side);
    assert forall|i: int| 0 <= i < 64 implies #[trigger] g(i) == f(flip(i)) by {
        lemma_mirrored_square(p, i);
    }
    lemma_reflected_sum(f, g, false);
}

} // verus!
