//! What holds of all generated moves.

use super::movegen::{BISHOP_DIRECTIONS, KING_OFFSETS, KNIGHT_OFFSETS, ROOK_DIRECTIONS};
use super::moves::{Move, MoveFlag};
use super::piece::{Color, Piece, PieceKind};
use super::position::PositionView;
use super::square::Square;
use vstd::prelude::*;

verus! {

broadcast use {
    super::moves::lemma_move_squares,
    super::moves::move_round_trip,
    super::square::lemma_at_idx,
};

/// Whether a move can be made and taken back in `p` if there is a piece that
/// makes it, which only castling may lack.
pub open spec fn reversible_if_made(p: PositionView, mv: Move) -> bool {
    &&& p.board[mv.src()] is Some ==> p.reversible(mv)
    &&& !mv.is_castling() ==> p.board[mv.src()] is Some
}

/// Whether that holds of every move of a list.
pub open spec fn all_reversible(p: PositionView, moves: Seq<Move>) -> bool {
    forall|k: int| 0 <= k < moves.len() ==> reversible_if_made(p, #[trigger] moves[k])
}

proof fn lemma_join(p: PositionView, a: Seq<Move>, b: Seq<Move>)
    requires
        all_reversible(p, a),
        all_reversible(p, b),
    ensures
        all_reversible(p, a + b),
{
    assert forall|k: int| 0 <= k < (a + b).len() implies reversible_if_made(
        p,
        #[trigger] (a + b)[k],
    ) by {
        if k < a.len() {
            assert((a + b)[k] == a[k]);
        } else {
            assert((a + b)[k] == b[k - a.len()]);
        }
    }
}

proof fn lemma_jumps(p: PositionView, from: int, side: Color, offsets: Seq<(i8, i8)>, n: nat)
    requires
        p.board.len() == 64,
        0 <= from < 64,
        p.board[from] is Some,
    ensures
        all_reversible(p, p.jumps(from, side, offsets, n)),
    decreases n,
{
    if n > 0 {
        let (df, dr) = offsets[n - 1];
        lemma_jumps(p, from, side, offsets, (n - 1) as nat);
        lemma_join(
            p,
            p.jumps(from, side, offsets, (n - 1) as nat),
            p.jump(from, side, df as int, dr as int),
        );
    }
}

proof fn lemma_ray(p: PositionView, from: int, cur: int, side: Color, df: int, dr: int)
    requires
        p.board.len() == 64,
        0 <= from < 64,
        0 <= cur < 64,
        p.board[from] is Some,
        super::movegen::is_direction(df, dr),
    ensures
        all_reversible(p, p.ray(from, cur, side, df, dr)),
    decreases super::movegen::ray_room(cur, df, dr),
{
    if let Some(to) = Square::shifted(cur, df, dr) {
        if p.board[to] is None {
            lemma_ray(p, from, to, side, df, dr);
            lemma_join(
                p,
                seq![Move::of(from, to, MoveFlag::Quiet)],
                p.ray(from, to, side, df, dr),
            );
        }
    }
}

proof fn lemma_slides(p: PositionView, from: int, side: Color, directions: Seq<(i8, i8)>, n: nat)
    requires
        p.board.len() == 64,
        0 <= from < 64,
        p.board[from] is Some,
        super::movegen::all_directions(directions),
        n <= directions.len(),
    ensures
        all_reversible(p, p.slides(from, side, directions, n)),
    decreases n,
{
    if n > 0 {
        let (df, dr) = directions[n - 1];
        lemma_slides(p, from, side, directions, (n - 1) as nat);
        lemma_ray(p, from, from, side, df as int, dr as int);
        lemma_join(
            p,
            p.slides(from, side, directions, (n - 1) as nat),
            p.ray(from, from, side, df as int, dr as int),
        );
    }
}

proof fn lemma_pawn(p: PositionView, from: int)
    requires
        p.board.len() == 64,
        0 <= from < 64,
        p.board[from] == Some(Piece { kind: PieceKind::Pawn, color: p.side }),
    ensures
        all_reversible(p, p.pawn_moves(from, p.side)),
{
    let side = p.side;
    assert(all_reversible(p, p.pawn_pushes(from, side)));
    assert(all_reversible(p, p.pawn_capture(from, side, -1)));
    assert(all_reversible(p, p.pawn_capture(from, side, 1)));
    lemma_join(p, p.pawn_pushes(from, side), p.pawn_capture(from, side, -1));
    lemma_join(
        p,
        p.pawn_pushes(from, side) + p.pawn_capture(from, side, -1),
        p.pawn_capture(from, side, 1),
    );
}

proof fn lemma_square_moves(p: PositionView, i: int)
    requires
        p.board.len() == 64,
        0 <= i < 64,
    ensures
        all_reversible(p, p.square_moves(i)),
{
    super::movegen::lemma_tables();
    if let Some(piece) = p.board[i] {
        if piece.color == p.side {
            match piece.kind {
                PieceKind::Pawn => {
                    lemma_pawn(p, i);
                },
                PieceKind::Knight => {
                    lemma_jumps(p, i, p.side, KNIGHT_OFFSETS@, 8);
                },
                PieceKind::Bishop => {
                    lemma_slides(p, i, p.side, BISHOP_DIRECTIONS@, 4);
                },
                PieceKind::Rook => {
                    lemma_slides(p, i, p.side, ROOK_DIRECTIONS@, 4);
                },
                PieceKind::Queen => {
                    lemma_slides(p, i, p.side, BISHOP_DIRECTIONS@, 4);
                    lemma_slides(p, i, p.side, ROOK_DIRECTIONS@, 4);
                    lemma_join(
                        p,
                        p.slides(i, p.side, BISHOP_DIRECTIONS@, 4),
                        p.slides(i, p.side, ROOK_DIRECTIONS@, 4),
                    );
                },
                PieceKind::King => {
                    lemma_jumps(p, i, p.side, KING_OFFSETS@, 8);
                    assert(all_reversible(p, p.kingside_castle(p.side)));
                    assert(all_reversible(p, p.queenside_castle(p.side)));
                    lemma_join(p, p.kingside_castle(p.side), p.queenside_castle(p.side));
                    lemma_join(p, p.jumps(i, p.side, KING_OFFSETS@, 8), p.castles(p.side));
                },
            }
        }
    }
}

proof fn lemma_pseudo_moves_upto(p: PositionView, n: nat)
    requires
        p.board.len() == 64,
        n <= 64,
    ensures
        all_reversible(p, p.pseudo_moves_upto(n)),
    decreases n,
{
    if n > 0 {
        lemma_pseudo_moves_upto(p, (n - 1) as nat);
        lemma_square_moves(p, n - 1);
        lemma_join(p, p.pseudo_moves_upto((n - 1) as nat), p.square_moves(n - 1));
    }
}

/// Every pseudo-legal move but for castling starts on an occupied square, and
/// every one that does can be made and taken back without loss.
pub proof fn pseudo_moves_are_reversible(p: PositionView, k: int)
    requires
        p.board.len() == 64,
        0 <= k < p.pseudo_moves().len(),
    ensures
        reversible_if_made(p, p.pseudo_moves()[k]),
{
    lemma_pseudo_moves_upto(p, 64);
}

/// Every legal move is one of the pseudo-legal moves, has a piece that makes
/// it and leaves the mover's king safe; every pseudo-legal move of which that
/// holds is legal.
pub proof fn legal_moves_are_the_safe_ones(p: PositionView, mv: Move)
    ensures
        p.legal_moves().contains(mv) <==> p.pseudo_moves().contains(mv) && p.allows(mv),
{
    reveal(PositionView::legal_moves);
    let allowed = |m: Move| p.allows(m);
    let pseudo = p.pseudo_moves();
    let legal = p.legal_moves();
    if pseudo.contains(mv) && p.allows(mv) {
        let i = choose|i: int| 0 <= i < pseudo.len() && pseudo[i] == mv;
        assert(allowed(pseudo[i]));
        pseudo.lemma_filter_contains(allowed, i);
    }
    if legal.contains(mv) {
        let i = choose|i: int| 0 <= i < legal.len() && legal[i] == mv;
        pseudo.lemma_filter_pred(allowed, i);
        pseudo.lemma_filter_contains_rev(allowed, mv);
    }
}

/// Every legal move starts on an occupied square and can be made and taken
/// back without loss.
pub proof fn legal_moves_are_reversible(p: PositionView, k: int)
    requires
        p.board.len() == 64,
        0 <= k < p.legal_moves().len(),
    ensures
        p.reversible(p.legal_moves()[k]),
        p.allows(p.legal_moves()[k]),
        p.made(p.legal_moves()[k]).board.len() == 64,
{
    let mv = p.legal_moves()[k];
    assert(p.legal_moves().contains(mv));
    legal_moves_are_the_safe_ones(p, mv);
    let i = choose|i: int| 0 <= i < p.pseudo_moves().len() && p.pseudo_moves()[i] == mv;
    pseudo_moves_are_reversible(p, i);
}

} // verus!
