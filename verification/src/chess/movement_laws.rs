//! Where generated moves lead.

use super::movegen::{self, BISHOP_DIRECTIONS, KING_OFFSETS, KNIGHT_OFFSETS, ROOK_DIRECTIONS};
use super::moves::{Move, MoveFlag};
use super::piece::{Color, PieceKind};
use super::position::PositionView;
use super::square::Square;
use vstd::prelude::*;

verus! {

broadcast use {super::moves::lemma_move_squares, super::moves::move_round_trip};

/// A plain move between two squares.
spec fn step(from: int, to: int) -> Move {
    Move::of(from, to, MoveFlag::Quiet)
}

/// Whether one of the first `n` offsets leads from one square to another.
spec fn leads(from: int, to: int, offsets: Seq<(i8, i8)>, n: nat) -> bool {
    exists|k: int|
        0 <= k < n && Square::shifted(
            from,
            (#[trigger] offsets[k]).0 as int,
            offsets[k].1 as int,
        ) == Some(to)
}

/// A sequence has what its parts have.
pub(crate) proof fn lemma_contains_joined(a: Seq<Move>, b: Seq<Move>, mv: Move)
    ensures
        (a + b).contains(mv) <==> a.contains(mv) || b.contains(mv),
{
    if a.contains(mv) {
        let k = choose|k: int| 0 <= k < a.len() && a[k] == mv;
        assert((a + b)[k] == mv);
    }
    if b.contains(mv) {
        let k = choose|k: int| 0 <= k < b.len() && b[k] == mv;
        assert((a + b)[a.len() + k] == mv);
    }
    if (a + b).contains(mv) {
        let k = choose|k: int| 0 <= k < (a + b).len() && (a + b)[k] == mv;
        if k < a.len() {
            assert(a[k] == mv);
        } else {
            assert(b[k - a.len()] == mv);
        }
    }
}

/// The jumps from a square are those that its offsets lead to, but for squares
/// of the same side.
proof fn lemma_jumps(
    p: PositionView,
    from: int,
    to: int,
    side: Color,
    offsets: Seq<(i8, i8)>,
    n: nat,
)
    requires
        0 <= from < 64,
        0 <= to < 64,
        n <= offsets.len(),
    ensures
        p.jumps(from, side, offsets, n).contains(step(from, to)) <==> leads(from, to, offsets, n)
            && !p.occupied_by(to, side),
    decreases n,
{
    let mv = step(from, to);
    if n > 0 {
        let (df, dr) = offsets[n - 1];
        let rest = p.jumps(from, side, offsets, (n - 1) as nat);
        let last = p.jump(from, side, df as int, dr as int);
        lemma_jumps(p, from, to, side, offsets, (n - 1) as nat);
        lemma_contains_joined(rest, last, mv);
        match Square::shifted(from, df as int, dr as int) {
            Some(there) => {
                assert(last.contains(mv) <==> there == to && !p.occupied_by(to, side)) by {
                    if there == to && !p.occupied_by(to, side) {
                        assert(last[0] == mv);
                    }
                    assert(step(from, there).dst() == there);
                }
            },
            None => {},
        }
        if leads(from, to, offsets, (n - 1) as nat) {
            let k = choose|k: int|
                0 <= k < n - 1 && Square::shifted(
                    from,
                    (#[trigger] offsets[k]).0 as int,
                    offsets[k].1 as int,
                ) == Some(to);
            assert(Square::shifted(from, offsets[k].0 as int, offsets[k].1 as int) == Some(to));
        }
        if Square::shifted(from, df as int, dr as int) == Some(to) {
            assert(Square::shifted(from, offsets[n - 1].0 as int, offsets[n - 1].1 as int) == Some(
                to,
            ));
        }
    }
}

/// The moves along a ray are those to the squares it reaches, but for squares
/// of the same side.
proof fn lemma_ray(
    p: PositionView,
    from: int,
    cur: int,
    to: int,
    side: Color,
    df: int,
    dr: int,
)
    requires
        movegen::is_direction(df, dr),
        0 <= from < 64,
        0 <= cur < 64,
        0 <= to < 64,
    ensures
        p.ray(from, cur, side, df, dr).contains(step(from, to)) <==> p.reaches(cur, to, df, dr)
            && !p.occupied_by(to, side),
    decreases movegen::ray_room(cur, df, dr),
{
    let mv = step(from, to);
    if let Some(next) = Square::shifted(cur, df, dr) {
        let here = seq![step(from, next)];
        assert(here.contains(mv) <==> next == to) by {
            if next == to {
                assert(here[0] == mv);
            }
            assert(step(from, next).dst() == next);
        }
        if p.board[next] is None {
            lemma_ray(p, from, next, to, side, df, dr);
            lemma_contains_joined(here, p.ray(from, next, side, df, dr), mv);
        }
    }
}

/// The slides from a square along four directions.
proof fn lemma_slides(
    p: PositionView,
    from: int,
    to: int,
    side: Color,
    directions: Seq<(i8, i8)>,
)
    requires
        movegen::all_directions(directions),
        directions.len() == 4,
        0 <= from < 64,
        0 <= to < 64,
    ensures
        p.slides(from, side, directions, 4).contains(step(from, to)) <==> !p.occupied_by(to, side)
            && (p.reaches(from, to, directions[0].0 as int, directions[0].1 as int) || p.reaches(
            from,
            to,
            directions[1].0 as int,
            directions[1].1 as int,
        ) || p.reaches(from, to, directions[2].0 as int, directions[2].1 as int) || p.reaches(
            from,
            to,
            directions[3].0 as int,
            directions[3].1 as int,
        )),
{
    let mv = step(from, to);
    let rays = |k: int|
        p.ray(from, from, side, directions[k].0 as int, directions[k].1 as int);
    lemma_ray(p, from, from, to, side, directions[0].0 as int, directions[0].1 as int);
    lemma_ray(p, from, from, to, side, directions[1].0 as int, directions[1].1 as int);
    lemma_ray(p, from, from, to, side, directions[2].0 as int, directions[2].1 as int);
    lemma_ray(p, from, from, to, side, directions[3].0 as int, directions[3].1 as int);
    assert(p.slides(from, side, directions, 0) == Seq::<Move>::empty());
    assert(p.slides(from, side, directions, 1) == p.slides(from, side, directions, 0) + rays(0));
    assert(p.slides(from, side, directions, 2) == p.slides(from, side, directions, 1) + rays(1));
    assert(p.slides(from, side, directions, 3) == p.slides(from, side, directions, 2) + rays(2));
    assert(p.slides(from, side, directions, 4) == p.slides(from, side, directions, 3) + rays(3));
    lemma_contains_joined(p.slides(from, side, directions, 0), rays(0), mv);
    lemma_contains_joined(p.slides(from, side, directions, 1), rays(1), mv);
    lemma_contains_joined(p.slides(from, side, directions, 2), rays(2), mv);
    lemma_contains_joined(p.slides(from, side, directions, 3), rays(3), mv);
}

/// A knight's offsets lead to the squares that it attacks.
proof fn lemma_knight(p: PositionView, from: int, to: int, color: Color)
    requires
        0 <= from < 64,
        0 <= to < 64,
    ensures
        leads(from, to, KNIGHT_OFFSETS@, 8) <==> p.attack_pattern(
            from,
            to,
            PieceKind::Knight,
            color,
        ),
{
    let t = KNIGHT_OFFSETS@;
    assert(t[0] == (1i8, 2i8) && t[1] == (2i8, 1i8) && t[2] == (2i8, -1i8) && t[3] == (1i8, -2i8));
    assert(t[4] == (-1i8, -2i8) && t[5] == (-2i8, -1i8) && t[6] == (-2i8, 1i8) && t[7] == (
        -1i8,
        2i8,
    ));
    let df = to % 8 - from % 8;
    let dr = to / 8 - from / 8;
    assert(Square::shifted(from, df, dr) == Some(to));
    if leads(from, to, t, 8) {
        let k = choose|k: int|
            0 <= k < 8 && Square::shifted(from, (#[trigger] t[k]).0 as int, t[k].1 as int) == Some(
                to,
            );
        assert(t[k].0 == df && t[k].1 == dr);
        assert(k == 0 || k == 1 || k == 2 || k == 3 || k == 4 || k == 5 || k == 6 || k == 7);
    }
    if p.attack_pattern(from, to, PieceKind::Knight, color) {
        let k: int = if dr == 2 {
            if df == 1 {
                0
            } else {
                7
            }
        } else if dr == 1 {
            if df == 2 {
                1
            } else {
                6
            }
        } else if dr == -1 {
            if df == 2 {
                2
            } else {
                5
            }
        } else {
            if df == 1 {
                3
            } else {
                4
            }
        };
        assert(t[k].0 == df && t[k].1 == dr);
        assert(Square::shifted(from, t[k].0 as int, t[k].1 as int) == Some(to));
    }
}

/// A king's offsets lead to the squares that it attacks.
proof fn lemma_king(p: PositionView, from: int, to: int, color: Color)
    requires
        0 <= from < 64,
        0 <= to < 64,
    ensures
        leads(from, to, KING_OFFSETS@, 8) <==> p.attack_pattern(from, to, PieceKind::King, color),
{
    let t = KING_OFFSETS@;
    let df = to % 8 - from % 8;
    let dr = to / 8 - from / 8;
    assert(Square::shifted(from, df, dr) == Some(to));
    if leads(from, to, t, 8) {
        let k = choose|k: int|
            0 <= k < 8 && Square::shifted(from, (#[trigger] t[k]).0 as int, t[k].1 as int) == Some(
                to,
            );
        super::attacks::lemma_king_offsets(k);
        assert(t[k].0 == df && t[k].1 == dr);
    }
    if p.attack_pattern(from, to, PieceKind::King, color) {
        let k = super::attacks::lemma_direction_index(df, dr);
        assert(Square::shifted(from, t[k].0 as int, t[k].1 as int) == Some(to));
    }
}

/// Pieces other than pawns move where they attack, unless a piece of their own
/// side stands there.
pub proof fn pieces_move_where_they_attack(
    p: PositionView,
    from: int,
    to: int,
    kind: PieceKind,
    side: Color,
)
    requires
        p.board.len() == 64,
        0 <= from < 64,
        0 <= to < 64,
        kind != PieceKind::Pawn,
    ensures
        p.kind_moves(from, kind, side).contains(Move::of(from, to, MoveFlag::Quiet))
            <==> p.attack_pattern(from, to, kind, side) && !p.occupied_by(to, side),
{
    movegen::lemma_tables();
    let b = BISHOP_DIRECTIONS@;
    let r = ROOK_DIRECTIONS@;
    assert(b[0] == (1i8, 1i8) && b[1] == (1i8, -1i8) && b[2] == (-1i8, 1i8) && b[3] == (
        -1i8,
        -1i8,
    ));
    assert(r[0] == (1i8, 0i8) && r[1] == (-1i8, 0i8) && r[2] == (0i8, 1i8) && r[3] == (0i8, -1i8));
    match kind {
        PieceKind::Knight => {
            lemma_jumps(p, from, to, side, KNIGHT_OFFSETS@, 8);
            lemma_knight(p, from, to, side);
        },
        PieceKind::King => {
            lemma_jumps(p, from, to, side, KING_OFFSETS@, 8);
            lemma_king(p, from, to, side);
        },
        PieceKind::Bishop => {
            lemma_slides(p, from, to, side, b);
        },
        PieceKind::Rook => {
            lemma_slides(p, from, to, side, r);
        },
        PieceKind::Queen => {
            lemma_slides(p, from, to, side, b);
            lemma_slides(p, from, to, side, r);
            lemma_contains_joined(
                p.slides(from, side, b, 4),
                p.slides(from, side, r, 4),
                Move::of(from, to, MoveFlag::Quiet),
            );
        },
        PieceKind::Pawn => {},
    }
}

/// A pawn can capture a piece exactly if it attacks the square that piece
/// stands on.
pub proof fn pawns_capture_where_they_attack(p: PositionView, from: int, to: int, side: Color)
    requires
        p.board.len() == 64,
        0 <= from < 64,
        0 <= to < 64,
        p.occupied_by(to, side.other()),
    ensures
        (exists|mv: Move| #[trigger] p.pawn_moves(from, side).contains(mv) && mv.dst() == to)
            <==> p.attack_pattern(from, to, PieceKind::Pawn, side),
{
    let moves = p.pawn_moves(from, side);
    let pushes = p.pawn_pushes(from, side);
    let left = p.pawn_capture(from, side, -1);
    let right = p.pawn_capture(from, side, 1);
    let df = to % 8 - from % 8;
    let dr = to / 8 - from / 8;
    if p.attack_pattern(from, to, PieceKind::Pawn, side) {
        assert(Square::shifted(from, df, side.forward()) == Some(to));
        let arrival = PositionView::pawn_arrival(from, to, side);
        let mv = arrival[0];
        assert(arrival.contains(mv));
        lemma_contains_joined(pushes, left, mv);
        lemma_contains_joined(pushes + left, right, mv);
        assert(moves.contains(mv) && mv.dst() == to);
    }
    if exists|mv: Move| #[trigger] moves.contains(mv) && mv.dst() == to {
        let mv = choose|mv: Move| #[trigger] moves.contains(mv) && mv.dst() == to;
        lemma_contains_joined(pushes, left, mv);
        lemma_contains_joined(pushes + left, right, mv);
        if pushes.contains(mv) {
            let k = choose|k: int| 0 <= k < pushes.len() && pushes[k] == mv;
            assert(p.board[pushes[k].dst()] is None);
        } else if left.contains(mv) {
            let k = choose|k: int| 0 <= k < left.len() && left[k] == mv;
            assert(Square::shifted(from, -1, side.forward()) == Some(left[k].dst()));
        } else {
            let k = choose|k: int| 0 <= k < right.len() && right[k] == mv;
            assert(Square::shifted(from, 1, side.forward()) == Some(right[k].dst()));
        }
    }
}

/// Whether the side to move moves a piece of its own, and not onto another.
pub open spec fn well_placed(p: PositionView, mv: Move) -> bool {
    p.occupied_by(mv.src(), p.side) && !p.occupied_by(mv.dst(), p.side)
}

spec fn all_well_placed(p: PositionView, moves: Seq<Move>) -> bool {
    forall|k: int| 0 <= k < moves.len() ==> well_placed(p, #[trigger] moves[k])
}

proof fn lemma_all_joined(p: PositionView, a: Seq<Move>, b: Seq<Move>)
    requires
        all_well_placed(p, a),
        all_well_placed(p, b),
    ensures
        all_well_placed(p, a + b),
{
    assert forall|k: int| 0 <= k < (a + b).len() implies well_placed(
        p,
        #[trigger] (a + b)[k],
    ) by {
        if k < a.len() {
            assert((a + b)[k] == a[k]);
        } else {
            assert((a + b)[k] == b[k - a.len()]);
        }
    }
}

proof fn lemma_jumps_well_placed(p: PositionView, from: int, offsets: Seq<(i8, i8)>, n: nat)
    requires
        0 <= from < 64,
        p.occupied_by(from, p.side),
    ensures
        all_well_placed(p, p.jumps(from, p.side, offsets, n)),
    decreases n,
{
    if n > 0 {
        let (df, dr) = offsets[n - 1];
        lemma_jumps_well_placed(p, from, offsets, (n - 1) as nat);
        lemma_all_joined(
            p,
            p.jumps(from, p.side, offsets, (n - 1) as nat),
            p.jump(from, p.side, df as int, dr as int),
        );
    }
}

proof fn lemma_ray_well_placed(p: PositionView, from: int, cur: int, df: int, dr: int)
    requires
        movegen::is_direction(df, dr),
        0 <= from < 64,
        0 <= cur < 64,
        p.occupied_by(from, p.side),
    ensures
        all_well_placed(p, p.ray(from, cur, p.side, df, dr)),
    decreases movegen::ray_room(cur, df, dr),
{
    if let Some(next) = Square::shifted(cur, df, dr) {
        if p.board[next] is None {
            lemma_ray_well_placed(p, from, next, df, dr);
            lemma_all_joined(p, seq![step(from, next)], p.ray(from, next, p.side, df, dr));
        }
    }
}

proof fn lemma_slides_well_placed(p: PositionView, from: int, directions: Seq<(i8, i8)>, n: nat)
    requires
        movegen::all_directions(directions),
        n <= directions.len(),
        0 <= from < 64,
        p.occupied_by(from, p.side),
    ensures
        all_well_placed(p, p.slides(from, p.side, directions, n)),
    decreases n,
{
    if n > 0 {
        let (df, dr) = directions[n - 1];
        lemma_slides_well_placed(p, from, directions, (n - 1) as nat);
        lemma_ray_well_placed(p, from, from, df as int, dr as int);
        lemma_all_joined(
            p,
            p.slides(from, p.side, directions, (n - 1) as nat),
            p.ray(from, from, p.side, df as int, dr as int),
        );
    }
}

/// Whether a castling right is held only with a piece of that side on its
/// king's home square.
pub open spec fn rights_fit(p: PositionView) -> bool {
    p.may_castle_kingside(p.side) || p.may_castle_queenside(p.side) ==> p.occupied_by(
        p.side.home_rank() * 8 + 4,
        p.side,
    )
}

proof fn lemma_square_well_placed(p: PositionView, i: int)
    requires
        p.board.len() == 64,
        0 <= i < 64,
        rights_fit(p),
    ensures
        all_well_placed(p, p.square_moves(i)),
{
    movegen::lemma_tables();
    if p.occupied_by(i, p.side) {
        let kind = (p.board[i]->0).kind;
        match kind {
            PieceKind::Pawn => {
                let pushes = p.pawn_pushes(i, p.side);
                let left = p.pawn_capture(i, p.side, -1);
                let right = p.pawn_capture(i, p.side, 1);
                assert(all_well_placed(p, pushes));
                assert(all_well_placed(p, left));
                assert(all_well_placed(p, right));
                lemma_all_joined(p, pushes, left);
                lemma_all_joined(p, pushes + left, right);
            },
            PieceKind::Knight => {
                lemma_jumps_well_placed(p, i, KNIGHT_OFFSETS@, 8);
            },
            PieceKind::Bishop => {
                lemma_slides_well_placed(p, i, BISHOP_DIRECTIONS@, 4);
            },
            PieceKind::Rook => {
                lemma_slides_well_placed(p, i, ROOK_DIRECTIONS@, 4);
            },
            PieceKind::Queen => {
                lemma_slides_well_placed(p, i, BISHOP_DIRECTIONS@, 4);
                lemma_slides_well_placed(p, i, ROOK_DIRECTIONS@, 4);
                lemma_all_joined(
                    p,
                    p.slides(i, p.side, BISHOP_DIRECTIONS@, 4),
                    p.slides(i, p.side, ROOK_DIRECTIONS@, 4),
                );
            },
            PieceKind::King => {
                lemma_jumps_well_placed(p, i, KING_OFFSETS@, 8);
                assert(all_well_placed(p, p.kingside_castle(p.side)));
                assert(all_well_placed(p, p.queenside_castle(p.side)));
                lemma_all_joined(p, p.kingside_castle(p.side), p.queenside_castle(p.side));
                lemma_all_joined(p, p.jumps(i, p.side, KING_OFFSETS@, 8), p.castles(p.side));
            },
        }
    }
}

proof fn lemma_moves_well_placed(p: PositionView, n: nat)
    requires
        p.board.len() == 64,
        n <= 64,
        rights_fit(p),
    ensures
        all_well_placed(p, p.pseudo_moves_upto(n)),
    decreases n,
{
    if n > 0 {
        lemma_moves_well_placed(p, (n - 1) as nat);
        lemma_square_well_placed(p, n - 1);
        lemma_all_joined(p, p.pseudo_moves_upto((n - 1) as nat), p.square_moves(n - 1));
    }
}

/// The side to move moves its own pieces, and never captures one of them. A
/// castling right without its king at home is left out: such a move would take
/// whatever stands there.
pub proof fn nobody_moves_or_captures_the_wrong_pieces(p: PositionView, mv: Move)
    requires
        p.board.len() == 64,
        rights_fit(p),
        p.legal_moves().contains(mv),
    ensures
        well_placed(p, mv),
{
    super::legality::legal_moves_are_the_safe_ones(p, mv);
    lemma_moves_well_placed(p, 64);
    let k = choose|k: int| 0 <= k < p.pseudo_moves().len() && p.pseudo_moves()[k] == mv;
    assert(well_placed(p, p.pseudo_moves()[k]));
}

} // verus!
