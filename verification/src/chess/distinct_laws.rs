//! No move is generated twice.

use super::movegen::{self, BISHOP_DIRECTIONS, KING_OFFSETS, KNIGHT_OFFSETS, ROOK_DIRECTIONS};
use super::moves::{Move, MoveFlag};
use super::piece::{Color, Piece, PieceKind};
use super::position::PositionView;
use super::square::Square;
use vstd::prelude::*;

verus! {

broadcast use {super::moves::lemma_move_squares, super::moves::move_round_trip};

/// Whether two lists have no move in common.
spec fn apart(a: Seq<Move>, b: Seq<Move>) -> bool {
    forall|i: int, j: int|
        0 <= i < a.len() && 0 <= j < b.len() ==> #[trigger] a[i] != #[trigger] b[j]
}

proof fn lemma_join(a: Seq<Move>, b: Seq<Move>)
    requires
        a.no_duplicates(),
        b.no_duplicates(),
        apart(a, b),
    ensures
        (a + b).no_duplicates(),
{
    let c = a + b;
    assert forall|i: int, j: int| 0 <= i < c.len() && 0 <= j < c.len() && i != j implies c[i]
        != c[j] by {
        if i < a.len() && j >= a.len() {
            assert(a[i] != b[j - a.len()]);
        } else if i >= a.len() && j < a.len() {
            assert(a[j] != b[i - a.len()]);
        } else if i >= a.len() {
            assert(c[i] == b[i - a.len()] && c[j] == b[j - a.len()]);
        }
    }
}

/// -1, 0 or 1.
spec fn sign(x: int) -> int {
    if x < 0 {
        -1
    } else if x > 0 {
        1
    } else {
        0
    }
}

/// Whether `to` lies in direction `(df, dr)` from `from`.
spec fn heads(from: int, to: int, df: int, dr: int) -> bool {
    sign(to % 8 - from % 8) == df && sign(to / 8 - from / 8) == dr
}

/// Whether all moves are plain moves from one square.
spec fn all_plain(moves: Seq<Move>, from: int) -> bool {
    forall|k: int|
        0 <= k < moves.len() ==> (#[trigger] moves[k]).src() == from && moves[k].kind()
            == MoveFlag::Quiet && 0 <= moves[k].dst() < 64
}

/// Whether one of the first `n` directions leads to where each move goes.
spec fn all_head(moves: Seq<Move>, from: int, directions: Seq<(i8, i8)>, n: nat) -> bool {
    forall|k: int|
        0 <= k < moves.len() ==> heads_in(from, (#[trigger] moves[k]).dst(), directions, n)
}

spec fn heads_in(from: int, to: int, directions: Seq<(i8, i8)>, n: nat) -> bool {
    exists|d: int|
        0 <= d < n && heads(from, to, (#[trigger] directions[d]).0 as int, directions[d].1 as int)
}

/// Whether each move goes to a square that one of the first `n` offsets leads to.
spec fn all_jump(moves: Seq<Move>, from: int, offsets: Seq<(i8, i8)>, n: nat) -> bool {
    forall|k: int|
        0 <= k < moves.len() ==> jumps_in(from, (#[trigger] moves[k]).dst(), offsets, n)
}

spec fn jumps_in(from: int, to: int, offsets: Seq<(i8, i8)>, n: nat) -> bool {
    exists|d: int|
        0 <= d < n && to % 8 - from % 8 == (#[trigger] offsets[d]).0 && to / 8 - from / 8
            == offsets[d].1
}

/// Jumps by different offsets are different.
proof fn lemma_jumps(p: PositionView, from: int, side: Color, offsets: Seq<(i8, i8)>, n: nat)
    requires
        0 <= from < 64,
        n <= offsets.len(),
        offsets.no_duplicates(),
    ensures
        p.jumps(from, side, offsets, n).no_duplicates(),
        all_plain(p.jumps(from, side, offsets, n), from),
        all_jump(p.jumps(from, side, offsets, n), from, offsets, n),
    decreases n,
{
    if n > 0 {
        let (df, dr) = offsets[n - 1];
        let rest = p.jumps(from, side, offsets, (n - 1) as nat);
        let last = p.jump(from, side, df as int, dr as int);
        let all = rest + last;
        lemma_jumps(p, from, side, offsets, (n - 1) as nat);
        assert forall|i: int, j: int| 0 <= i < rest.len() && 0 <= j < last.len() implies
            #[trigger] rest[i] != #[trigger] last[j] by {
            assert(jumps_in(from, rest[i].dst(), offsets, (n - 1) as nat));
            let d = choose|d: int|
                0 <= d < n - 1 && rest[i].dst() % 8 - from % 8 == (#[trigger] offsets[d]).0
                    && rest[i].dst() / 8 - from / 8 == offsets[d].1;
            assert(offsets[d] != offsets[n - 1]);
        }
        lemma_join(rest, last);
        assert forall|k: int| 0 <= k < all.len() implies jumps_in(
            from,
            (#[trigger] all[k]).dst(),
            offsets,
            n,
        ) by {
            if k < rest.len() {
                assert(all[k] == rest[k]);
                assert(jumps_in(from, rest[k].dst(), offsets, (n - 1) as nat));
                let d = choose|d: int|
                    0 <= d < n - 1 && rest[k].dst() % 8 - from % 8 == (#[trigger] offsets[d]).0
                        && rest[k].dst() / 8 - from / 8 == offsets[d].1;
                assert(0 <= d < n && all[k].dst() % 8 - from % 8 == offsets[d].0);
            } else {
                assert(all[k] == last[k - rest.len()]);
                assert(all[k].dst() % 8 - from % 8 == offsets[n - 1].0);
            }
        }
        assert forall|k: int| 0 <= k < all.len() implies (#[trigger] all[k]).src() == from
            && all[k].kind() == MoveFlag::Quiet && 0 <= all[k].dst() < 64 by {
            if k < rest.len() {
                assert(all[k] == rest[k]);
            } else {
                assert(all[k] == last[k - rest.len()]);
            }
        }
    }
}

/// The squares along a ray lie in its direction, and each is nearer to the
/// edge than the one before it.
proof fn lemma_ray(p: PositionView, from: int, cur: int, side: Color, df: int, dr: int)
    requires
        movegen::is_direction(df, dr),
        0 <= from < 64,
        0 <= cur < 64,
        cur == from || heads(from, cur, df, dr),
    ensures
        p.ray(from, cur, side, df, dr).no_duplicates(),
        all_plain(p.ray(from, cur, side, df, dr), from),
        forall|k: int|
            0 <= k < p.ray(from, cur, side, df, dr).len() ==> heads(
                from,
                (#[trigger] p.ray(from, cur, side, df, dr)[k]).dst(),
                df,
                dr,
            ),
        forall|k: int|
            0 <= k < p.ray(from, cur, side, df, dr).len() ==> movegen::ray_room(
                (#[trigger] p.ray(from, cur, side, df, dr)[k]).dst(),
                df,
                dr,
            ) < movegen::ray_room(cur, df, dr),
    decreases movegen::ray_room(cur, df, dr),
{
    if let Some(next) = Square::shifted(cur, df, dr) {
        let here = seq![Move::of(from, next, MoveFlag::Quiet)];
        assert(heads(from, next, df, dr));
        assert(movegen::ray_room(next, df, dr) < movegen::ray_room(cur, df, dr));
        if p.board[next] is None {
            let rest = p.ray(from, next, side, df, dr);
            let all = here + rest;
            lemma_ray(p, from, next, side, df, dr);
            assert forall|i: int, j: int| 0 <= i < here.len() && 0 <= j < rest.len() implies
                #[trigger] here[i] != #[trigger] rest[j] by {
                assert(movegen::ray_room(rest[j].dst(), df, dr) < movegen::ray_room(next, df, dr));
            }
            lemma_join(here, rest);
            assert forall|k: int| 0 <= k < all.len() implies (#[trigger] all[k]).src() == from
                && all[k].kind() == MoveFlag::Quiet && 0 <= all[k].dst() < 64 && heads(
                from,
                all[k].dst(),
                df,
                dr,
            ) && movegen::ray_room(all[k].dst(), df, dr) < movegen::ray_room(cur, df, dr) by {
                if k > 0 {
                    assert(all[k] == rest[k - 1]);
                }
            }
        }
    }
}

/// Slides in different directions are different.
proof fn lemma_slides(p: PositionView, from: int, side: Color, directions: Seq<(i8, i8)>, n: nat)
    requires
        0 <= from < 64,
        n <= directions.len(),
        directions.no_duplicates(),
        movegen::all_directions(directions),
    ensures
        p.slides(from, side, directions, n).no_duplicates(),
        all_plain(p.slides(from, side, directions, n), from),
        all_head(p.slides(from, side, directions, n), from, directions, n),
    decreases n,
{
    if n > 0 {
        let df = directions[n - 1].0 as int;
        let dr = directions[n - 1].1 as int;
        let rest = p.slides(from, side, directions, (n - 1) as nat);
        let last = p.ray(from, from, side, df, dr);
        let all = rest + last;
        lemma_slides(p, from, side, directions, (n - 1) as nat);
        lemma_ray(p, from, from, side, df, dr);
        assert forall|i: int, j: int| 0 <= i < rest.len() && 0 <= j < last.len() implies
            #[trigger] rest[i] != #[trigger] last[j] by {
            assert(heads_in(from, rest[i].dst(), directions, (n - 1) as nat));
            let d = choose|d: int|
                0 <= d < n - 1 && heads(
                    from,
                    rest[i].dst(),
                    (#[trigger] directions[d]).0 as int,
                    directions[d].1 as int,
                );
            assert(directions[d] != directions[n - 1]);
            assert(heads(from, last[j].dst(), df, dr));
        }
        lemma_join(rest, last);
        assert forall|k: int| 0 <= k < all.len() implies heads_in(
            from,
            (#[trigger] all[k]).dst(),
            directions,
            n,
        ) by {
            if k < rest.len() {
                assert(all[k] == rest[k]);
                assert(heads_in(from, rest[k].dst(), directions, (n - 1) as nat));
                let d = choose|d: int|
                    0 <= d < n - 1 && heads(
                        from,
                        rest[k].dst(),
                        (#[trigger] directions[d]).0 as int,
                        directions[d].1 as int,
                    );
                assert(0 <= d < n && heads(
                    from,
                    all[k].dst(),
                    directions[d].0 as int,
                    directions[d].1 as int,
                ));
            } else {
                assert(all[k] == last[k - rest.len()]);
                assert(heads(
                    from,
                    all[k].dst(),
                    directions[n - 1].0 as int,
                    directions[n - 1].1 as int,
                ));
            }
        }
        assert forall|k: int| 0 <= k < all.len() implies (#[trigger] all[k]).src() == from
            && all[k].kind() == MoveFlag::Quiet && 0 <= all[k].dst() < 64 by {
            if k < rest.len() {
                assert(all[k] == rest[k]);
            } else {
                assert(all[k] == last[k - rest.len()]);
            }
        }
    }
}

/// The tables hold nothing twice, and no direction is both straight and
/// diagonal.
proof fn lemma_tables_distinct()
    ensures
        KNIGHT_OFFSETS@.no_duplicates(),
        KING_OFFSETS@.no_duplicates(),
        BISHOP_DIRECTIONS@.no_duplicates(),
        ROOK_DIRECTIONS@.no_duplicates(),
        forall|d: int|
            0 <= d < 4 ==> (#[trigger] BISHOP_DIRECTIONS@[d]).0 != 0 && BISHOP_DIRECTIONS@[d].1
                != 0,
        forall|d: int|
            0 <= d < 4 ==> (#[trigger] ROOK_DIRECTIONS@[d]).0 == 0 || ROOK_DIRECTIONS@[d].1 == 0,
{
    let n = KNIGHT_OFFSETS@;
    assert(n[0] == (1i8, 2i8) && n[1] == (2i8, 1i8) && n[2] == (2i8, -1i8) && n[3] == (1i8, -2i8));
    assert(n[4] == (-1i8, -2i8) && n[5] == (-2i8, -1i8) && n[6] == (-2i8, 1i8) && n[7] == (
        -1i8,
        2i8,
    ));
    let k = KING_OFFSETS@;
    assert(k[0] == (1i8, 0i8) && k[1] == (1i8, 1i8) && k[2] == (0i8, 1i8) && k[3] == (-1i8, 1i8));
    assert(k[4] == (-1i8, 0i8) && k[5] == (-1i8, -1i8) && k[6] == (0i8, -1i8) && k[7] == (
        1i8,
        -1i8,
    ));
    let b = BISHOP_DIRECTIONS@;
    let r = ROOK_DIRECTIONS@;
    assert(b[0] == (1i8, 1i8) && b[1] == (1i8, -1i8) && b[2] == (-1i8, 1i8) && b[3] == (
        -1i8,
        -1i8,
    ));
    assert(r[0] == (1i8, 0i8) && r[1] == (-1i8, 0i8) && r[2] == (0i8, 1i8) && r[3] == (0i8, -1i8));
}

/// A queen's diagonal moves are none of its straight ones.
proof fn lemma_queen(p: PositionView, from: int, side: Color)
    requires
        0 <= from < 64,
    ensures
        p.kind_moves(from, PieceKind::Queen, side).no_duplicates(),
        all_plain(p.kind_moves(from, PieceKind::Queen, side), from),
{
    movegen::lemma_tables();
    lemma_tables_distinct();
    let a = p.slides(from, side, BISHOP_DIRECTIONS@, 4);
    let b = p.slides(from, side, ROOK_DIRECTIONS@, 4);
    lemma_slides(p, from, side, BISHOP_DIRECTIONS@, 4);
    lemma_slides(p, from, side, ROOK_DIRECTIONS@, 4);
    assert forall|i: int, j: int| 0 <= i < a.len() && 0 <= j < b.len() implies #[trigger] a[i]
        != #[trigger] b[j] by {
        assert(heads_in(from, a[i].dst(), BISHOP_DIRECTIONS@, 4));
        assert(heads_in(from, b[j].dst(), ROOK_DIRECTIONS@, 4));
    }
    lemma_join(a, b);
    let all = a + b;
    assert forall|k: int| 0 <= k < all.len() implies (#[trigger] all[k]).src() == from
        && all[k].kind() == MoveFlag::Quiet && 0 <= all[k].dst() < 64 by {
        if k < a.len() {
            assert(all[k] == a[k]);
        } else {
            assert(all[k] == b[k - a.len()]);
        }
    }
}

/// Whether a move castles.
spec fn is_castle(mv: Move) -> bool {
    mv.kind() == MoveFlag::CastleKingside || mv.kind() == MoveFlag::CastleQueenside
}

/// Whether all moves start from one square, and none of them castles.
spec fn all_from(moves: Seq<Move>, from: int) -> bool {
    forall|k: int|
        0 <= k < moves.len() ==> (#[trigger] moves[k]).src() == from && !is_castle(moves[k])
}

/// Whether all moves go from a square to a file.
spec fn all_to_file(moves: Seq<Move>, from: int, file: int) -> bool {
    forall|k: int|
        0 <= k < moves.len() ==> (#[trigger] moves[k]).src() == from && !is_castle(moves[k])
            && moves[k].dst() % 8 == file
}

proof fn lemma_arrival(from: int, to: int, side: Color)
    requires
        0 <= from < 64,
        0 <= to < 64,
    ensures
        PositionView::pawn_arrival(from, to, side).no_duplicates(),
        all_to_file(PositionView::pawn_arrival(from, to, side), from, to % 8),
        forall|k: int|
            0 <= k < PositionView::pawn_arrival(from, to, side).len() ==> (
            #[trigger] PositionView::pawn_arrival(from, to, side)[k]).dst() == to,
{
    let moves = PositionView::pawn_arrival(from, to, side);
    if to / 8 == side.other().home_rank() {
        assert(moves[0].kind() == MoveFlag::PromoteQueen && moves[0].dst() == to);
        assert(moves[1].kind() == MoveFlag::PromoteRook && moves[1].dst() == to);
        assert(moves[2].kind() == MoveFlag::PromoteBishop && moves[2].dst() == to);
        assert(moves[3].kind() == MoveFlag::PromoteKnight && moves[3].dst() == to);
    } else {
        assert(moves[0].kind() == MoveFlag::Quiet && moves[0].dst() == to);
    }
}

proof fn lemma_pushes(p: PositionView, from: int, side: Color)
    requires
        0 <= from < 64,
    ensures
        p.pawn_pushes(from, side).no_duplicates(),
        all_to_file(p.pawn_pushes(from, side), from, from % 8),
{
    if let Some(one) = Square::shifted(from, 0, side.forward()) {
        let single = PositionView::pawn_arrival(from, one, side);
        lemma_arrival(from, one, side);
        if let Some(two) = Square::shifted(from, 0, side.forward() * 2) {
            let double = seq![Move::of(from, two, MoveFlag::DoublePawnPush)];
            let both = single + double;
            assert(one != two);
            assert(double[0].dst() == two);
            assert forall|i: int, j: int| 0 <= i < single.len() && 0 <= j < double.len() implies
                #[trigger] single[i] != #[trigger] double[j] by {
                assert(single[i].dst() == one);
            }
            lemma_join(single, double);
            assert forall|k: int| 0 <= k < both.len() implies (#[trigger] both[k]).src() == from
                && !is_castle(both[k]) && both[k].dst() % 8 == from % 8 by {
                if k < single.len() {
                    assert(both[k] == single[k]);
                } else {
                    assert(both[k] == double[0]);
                }
            }
        }
    }
}

proof fn lemma_capture(p: PositionView, from: int, side: Color, df: int)
    requires
        0 <= from < 64,
    ensures
        p.pawn_capture(from, side, df).no_duplicates(),
        all_to_file(p.pawn_capture(from, side, df), from, from % 8 + df),
{
    if let Some(to) = Square::shifted(from, df, side.forward()) {
        lemma_arrival(from, to, side);
    }
}

proof fn lemma_files_apart(a: Seq<Move>, b: Seq<Move>, from: int, one: int, other: int)
    requires
        all_to_file(a, from, one),
        all_to_file(b, from, other),
        one != other,
    ensures
        apart(a, b),
{
}

/// A pawn's moves go to different squares or promote to different pieces.
proof fn lemma_pawn(p: PositionView, from: int, side: Color)
    requires
        0 <= from < 64,
    ensures
        p.pawn_moves(from, side).no_duplicates(),
        all_from(p.pawn_moves(from, side), from),
{
    let file = from % 8;
    let pushes = p.pawn_pushes(from, side);
    let left = p.pawn_capture(from, side, -1);
    let right = p.pawn_capture(from, side, 1);
    lemma_pushes(p, from, side);
    lemma_capture(p, from, side, -1);
    lemma_capture(p, from, side, 1);
    lemma_files_apart(pushes, left, from, file, file - 1);
    lemma_files_apart(pushes, right, from, file, file + 1);
    lemma_files_apart(left, right, from, file - 1, file + 1);
    lemma_join(pushes, left);
    let both = pushes + left;
    assert forall|i: int, j: int| 0 <= i < both.len() && 0 <= j < right.len() implies
        #[trigger] both[i] != #[trigger] right[j] by {
        if i < pushes.len() {
            assert(both[i] == pushes[i]);
        } else {
            assert(both[i] == left[i - pushes.len()]);
        }
    }
    lemma_join(both, right);
    let all = both + right;
    assert forall|k: int| 0 <= k < all.len() implies (#[trigger] all[k]).src() == from
        && !is_castle(all[k]) by {
        if k < pushes.len() {
            assert(all[k] == pushes[k]);
        } else if k < both.len() {
            assert(all[k] == left[k - pushes.len()]);
        } else {
            assert(all[k] == right[k - both.len()]);
        }
    }
}

/// A piece's moves are all different.
proof fn lemma_kind(p: PositionView, from: int, kind: PieceKind, side: Color)
    requires
        0 <= from < 64,
    ensures
        p.kind_moves(from, kind, side).no_duplicates(),
        all_from(p.kind_moves(from, kind, side), from),
{
    movegen::lemma_tables();
    lemma_tables_distinct();
    match kind {
        PieceKind::Pawn => {
            lemma_pawn(p, from, side);
        },
        PieceKind::Knight => {
            lemma_jumps(p, from, side, KNIGHT_OFFSETS@, 8);
        },
        PieceKind::King => {
            lemma_jumps(p, from, side, KING_OFFSETS@, 8);
        },
        PieceKind::Bishop => {
            lemma_slides(p, from, side, BISHOP_DIRECTIONS@, 4);
        },
        PieceKind::Rook => {
            lemma_slides(p, from, side, ROOK_DIRECTIONS@, 4);
        },
        PieceKind::Queen => {
            lemma_queen(p, from, side);
        },
    }
}

/// Mobility is the number of different moves that a piece has; pawns and kings have
/// none counted.
pub proof fn mobility_counts_moves(p: PositionView, from: int, kind: PieceKind, side: Color)
    requires
        0 <= from < 64,
    ensures
        kind == PieceKind::Pawn || kind == PieceKind::King <==> p.mobility(from, kind, side)
            is None,
        p.mobility(from, kind, side) matches Some(n) ==> n == p.kind_moves(from, kind, side).len(),
        p.kind_moves(from, kind, side).no_duplicates(),
{
    lemma_kind(p, from, kind, side);
}

/// Whether square `i` holds a king of `side`.
pub open spec fn king_stands(p: PositionView, side: Color, i: int) -> bool {
    p.board[i] == Some(Piece { kind: PieceKind::King, color: side })
}

/// Whether `side` has one king at most.
pub open spec fn one_king(p: PositionView, side: Color) -> bool {
    forall|i: int, j: int|
        0 <= i < 64 && 0 <= j < 64 && #[trigger] king_stands(p, side, i) && #[trigger] king_stands(
            p,
            side,
            j,
        ) ==> i == j
}

/// Whether square `i` is where a move of the side to move is generated.
spec fn stems_from(p: PositionView, mv: Move, i: int) -> bool {
    if is_castle(mv) {
        king_stands(p, p.side, i)
    } else {
        mv.src() == i
    }
}

/// What a square contributes is all different, and stems from it.
proof fn lemma_square(p: PositionView, i: int)
    requires
        0 <= i < 64,
    ensures
        p.square_moves(i).no_duplicates(),
        forall|k: int|
            0 <= k < p.square_moves(i).len() ==> stems_from(p, #[trigger] p.square_moves(i)[k], i),
{
    if let Some(piece) = p.board[i] {
        let moves = p.kind_moves(i, piece.kind, p.side);
        lemma_kind(p, i, piece.kind, p.side);
        if piece.color == p.side && piece.kind == PieceKind::King {
            let short = p.kingside_castle(p.side);
            let long = p.queenside_castle(p.side);
            let castles = short + long;
            assert forall|k: int| 0 <= k < short.len() implies (#[trigger] short[k]).kind()
                == MoveFlag::CastleKingside by {}
            assert forall|k: int| 0 <= k < long.len() implies (#[trigger] long[k]).kind()
                == MoveFlag::CastleQueenside by {}
            lemma_join(short, long);
            assert forall|k: int| 0 <= k < castles.len() implies is_castle(
                #[trigger] castles[k],
            ) by {
                if k < short.len() {
                    assert(castles[k] == short[k]);
                } else {
                    assert(castles[k] == long[k - short.len()]);
                }
            }
            lemma_join(moves, castles);
            let all = moves + castles;
            assert(king_stands(p, p.side, i));
            assert forall|k: int| 0 <= k < all.len() implies stems_from(
                p,
                #[trigger] all[k],
                i,
            ) by {
                if k < moves.len() {
                    assert(all[k] == moves[k]);
                } else {
                    assert(all[k] == castles[k - moves.len()]);
                }
            }
        }
    }
}

/// Whether a move stems from one of the first `n` squares.
spec fn stems_before(p: PositionView, mv: Move, n: int) -> bool {
    exists|i: int| 0 <= i < n && #[trigger] stems_from(p, mv, i)
}

proof fn lemma_upto(p: PositionView, n: nat)
    requires
        n <= 64,
        one_king(p, p.side),
    ensures
        p.pseudo_moves_upto(n).no_duplicates(),
        forall|k: int|
            0 <= k < p.pseudo_moves_upto(n).len() ==> stems_before(
                p,
                #[trigger] p.pseudo_moves_upto(n)[k],
                n as int,
            ),
    decreases n,
{
    if n > 0 {
        let rest = p.pseudo_moves_upto((n - 1) as nat);
        let last = p.square_moves(n - 1);
        let all = rest + last;
        lemma_upto(p, (n - 1) as nat);
        lemma_square(p, n - 1);
        assert forall|i: int, j: int| 0 <= i < rest.len() && 0 <= j < last.len() implies
            #[trigger] rest[i] != #[trigger] last[j] by {
            assert(stems_before(p, rest[i], n - 1));
            let from = choose|from: int| 0 <= from < n - 1 && #[trigger] stems_from(p, rest[i], from);
            assert(stems_from(p, last[j], n - 1));
            if rest[i] == last[j] && is_castle(rest[i]) {
                assert(king_stands(p, p.side, from) && king_stands(p, p.side, n - 1));
            }
        }
        lemma_join(rest, last);
        assert forall|k: int| 0 <= k < all.len() implies stems_before(
            p,
            #[trigger] all[k],
            n as int,
        ) by {
            if k < rest.len() {
                assert(all[k] == rest[k]);
                assert(stems_before(p, rest[k], n - 1));
                let from = choose|from: int|
                    0 <= from < n - 1 && #[trigger] stems_from(p, rest[k], from);
                assert(stems_from(p, all[k], from));
            } else {
                assert(all[k] == last[k - rest.len()]);
                assert(stems_from(p, all[k], n - 1));
            }
        }
    }
}

/// What is kept of a list without duplicates has none.
proof fn lemma_filtered(moves: Seq<Move>, keep: spec_fn(Move) -> bool)
    requires
        moves.no_duplicates(),
    ensures
        moves.filter(keep).no_duplicates(),
    decreases moves.len(),
{
    reveal(Seq::filter);
    if moves.len() > 0 {
        let rest = moves.drop_last();
        let kept = rest.filter(keep);
        lemma_filtered(rest, keep);
        if keep(moves.last()) {
            assert forall|k: int| 0 <= k < kept.len() implies #[trigger] kept[k]
                != moves.last() by {
                assert(kept.contains(kept[k]));
                rest.lemma_filter_contains_rev(keep, kept[k]);
                let j = choose|j: int| 0 <= j < rest.len() && rest[j] == kept[k];
                assert(moves[j] == kept[k]);
            }
        }
    }
}

/// No move is generated twice, neither among the pseudo-legal nor among the
/// legal moves, and the legal moves come in the order of the pseudo-legal
/// ones. A second king of the side to move is left out: each would castle.
pub proof fn no_move_is_generated_twice(p: PositionView)
    requires
        one_king(p, p.side),
    ensures
        p.pseudo_moves().no_duplicates(),
        p.legal_moves().no_duplicates(),
        p.legal_moves() == p.pseudo_moves().filter(|mv: Move| p.allows(mv)),
{
    reveal(PositionView::legal_moves);
    lemma_upto(p, 64);
    lemma_filtered(p.pseudo_moves(), |mv: Move| p.allows(mv));
}

} // verus!
