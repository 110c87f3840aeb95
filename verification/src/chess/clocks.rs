//! The clocks of a position do not matter to what can be played in it.

use super::movegen::{self, BISHOP_DIRECTIONS, KING_OFFSETS, KNIGHT_OFFSETS, ROOK_DIRECTIONS};
use super::moves::Move;
use super::piece::{Color, PieceKind};
use super::position::PositionView;
use super::square::Square;
use vstd::prelude::*;

verus! {

impl PositionView {
    /// Whether two positions are the same but for their clocks, as far as
    /// repetition is concerned.
    pub open spec fn same_but_clocks(self, other: PositionView) -> bool {
        &&& self.board == other.board
        &&& self.side == other.side
        &&& self.rights == other.rights
        &&& self.ep == other.ep
    }
}

/// Jumps depend on the board alone.
pub(crate) proof fn lemma_jumps(
    p: PositionView,
    q: PositionView,
    from: int,
    side: Color,
    offsets: Seq<(i8, i8)>,
    n: nat,
)
    requires
        p.board == q.board,
    ensures
        p.jumps(from, side, offsets, n) == q.jumps(from, side, offsets, n),
    decreases n,
{
    if n > 0 {
        lemma_jumps(p, q, from, side, offsets, (n - 1) as nat);
    }
}

/// Rays depend on the board alone.
pub(crate) proof fn lemma_ray(
    p: PositionView,
    q: PositionView,
    from: int,
    cur: int,
    side: Color,
    df: int,
    dr: int,
)
    requires
        p.board == q.board,
        movegen::is_direction(df, dr),
        0 <= cur < 64,
    ensures
        p.ray(from, cur, side, df, dr) == q.ray(from, cur, side, df, dr),
    decreases movegen::ray_room(cur, df, dr),
{
    if let Some(to) = Square::shifted(cur, df, dr) {
        lemma_ray(p, q, from, to, side, df, dr);
    }
}

/// Slides depend on the board alone.
pub(crate) proof fn lemma_slides(
    p: PositionView,
    q: PositionView,
    from: int,
    side: Color,
    directions: Seq<(i8, i8)>,
    n: nat,
)
    requires
        p.board == q.board,
        movegen::all_directions(directions),
        n <= directions.len(),
        0 <= from < 64,
    ensures
        p.slides(from, side, directions, n) == q.slides(from, side, directions, n),
    decreases n,
{
    if n > 0 {
        lemma_slides(p, q, from, side, directions, (n - 1) as nat);
        let (df, dr) = directions[n - 1];
        lemma_ray(p, q, from, from, side, df as int, dr as int);
    }
}

proof fn lemma_kind_moves(p: PositionView, q: PositionView, from: int, kind: PieceKind, side: Color)
    requires
        p.same_but_clocks(q),
        0 <= from < 64,
    ensures
        p.kind_moves(from, kind, side) == q.kind_moves(from, kind, side),
{
    movegen::lemma_tables();
    lemma_jumps(p, q, from, side, KNIGHT_OFFSETS@, 8);
    lemma_jumps(p, q, from, side, KING_OFFSETS@, 8);
    lemma_slides(p, q, from, side, BISHOP_DIRECTIONS@, 4);
    lemma_slides(p, q, from, side, ROOK_DIRECTIONS@, 4);
}

proof fn lemma_pseudo_moves(p: PositionView, q: PositionView, n: nat)
    requires
        p.same_but_clocks(q),
        n <= 64,
    ensures
        p.pseudo_moves_upto(n) == q.pseudo_moves_upto(n),
    decreases n,
{
    if n > 0 {
        lemma_pseudo_moves(p, q, (n - 1) as nat);
        if let Some(piece) = p.board[n - 1] {
            lemma_kind_moves(p, q, n - 1, piece.kind, p.side);
        }
    }
}

proof fn lemma_reaches(p: PositionView, q: PositionView, cur: int, to: int, df: int, dr: int)
    requires
        p.same_but_clocks(q),
        movegen::is_direction(df, dr),
        0 <= cur < 64,
    ensures
        p.reaches(cur, to, df, dr) == q.reaches(cur, to, df, dr),
    decreases movegen::ray_room(cur, df, dr),
{
    if let Some(next) = Square::shifted(cur, df, dr) {
        lemma_reaches(p, q, next, to, df, dr);
    }
}

proof fn lemma_attacked(p: PositionView, q: PositionView, sq: int, color: Color)
    requires
        p.same_but_clocks(q),
    ensures
        p.attacked(sq, color) == q.attacked(sq, color),
{
    assert forall|from: int| 0 <= from < 64 implies #[trigger] p.attacks(from, sq, color)
        == q.attacks(from, sq, color) by {
        lemma_reaches(p, q, from, sq, 1, 1);
        lemma_reaches(p, q, from, sq, 1, -1);
        lemma_reaches(p, q, from, sq, -1, 1);
        lemma_reaches(p, q, from, sq, -1, -1);
        lemma_reaches(p, q, from, sq, 1, 0);
        lemma_reaches(p, q, from, sq, -1, 0);
        lemma_reaches(p, q, from, sq, 0, 1);
        lemma_reaches(p, q, from, sq, 0, -1);
    }
    if p.attacked(sq, color) {
        let from = choose|from: int| 0 <= from < 64 && #[trigger] p.attacks(from, sq, color);
        assert(q.attacks(from, sq, color));
    }
    if q.attacked(sq, color) {
        let from = choose|from: int| 0 <= from < 64 && #[trigger] q.attacks(from, sq, color);
        assert(p.attacks(from, sq, color));
    }
}

proof fn lemma_king(p: PositionView, q: PositionView, i: int, color: Color)
    requires
        p.same_but_clocks(q),
    ensures
        p.king_from(i, color) == q.king_from(i, color),
    decreases 64 - i,
{
    if i < 64 {
        lemma_king(p, q, i + 1, color);
    }
}

/// Making the same move keeps positions the same but for their clocks.
pub proof fn made_ignores_clocks(p: PositionView, q: PositionView, mv: Move)
    requires
        p.same_but_clocks(q),
    ensures
        p.made(mv).same_but_clocks(q.made(mv)),
{
}

/// Positions that are the same but for their clocks agree on who is in check.
pub proof fn check_ignores_clocks(p: PositionView, q: PositionView, color: Color)
    requires
        p.same_but_clocks(q),
    ensures
        p.checked(color) == q.checked(color),
{
    lemma_king(p, q, 0, color);
    if let Some(k) = p.king(color) {
        lemma_attacked(p, q, k, color.other());
    }
}

/// Positions that are the same but for their clocks have the same legal moves,
/// in the same order.
pub proof fn legal_moves_ignore_clocks(p: PositionView, q: PositionView)
    requires
        p.same_but_clocks(q),
    ensures
        p.legal_moves() == q.legal_moves(),
{
    reveal(PositionView::legal_moves);
    lemma_pseudo_moves(p, q, 64);
    assert forall|mv: Move| #[trigger] p.allows(mv) == q.allows(mv) by {
        made_ignores_clocks(p, q, mv);
        check_ignores_clocks(p.made(mv), q.made(mv), p.side);
        lemma_attacked(p, q, mv.src(), p.side.other());
        lemma_attacked(p, q, mv.rook_to(), p.side.other());
    }
    assert((|mv: Move| p.allows(mv)) =~= (|mv: Move| q.allows(mv)));
}

} // verus!
