//! The rules of chess as a player would put them: which squares a piece attacks,
//! how pawns and castling kings move, and what makes a move legal.

use super::movement_laws::lemma_contains_joined;
use super::moves::{Move, MoveFlag};
use super::piece::{Color, Piece, PieceKind};
use super::position::PositionView;
use super::square::Square;
use vstd::prelude::*;

verus! {

broadcast use {super::moves::lemma_move_squares, super::moves::move_round_trip};

/// How far `n` steps go along a file or a rank: forward, backward or not at all.
pub open spec fn along(d: int, n: int) -> int {
    if d > 0 {
        n
    } else if d < 0 {
        -n
    } else {
        0
    }
}

/// The square `k` steps away in a direction.
pub open spec fn spot(from: int, df: int, dr: int, k: int) -> int {
    (from / 8 + along(dr, k)) * 8 + from % 8 + along(df, k)
}

/// Whether `to` is `n` steps away in a direction, with nothing in between.
spec fn on_line(p: PositionView, from: int, to: int, df: int, dr: int, n: int) -> bool {
    &&& 1 <= n <= 7
    &&& to / 8 == from / 8 + along(dr, n)
    &&& to % 8 == from % 8 + along(df, n)
    &&& forall|k: int| 0 < k < n ==> p.board[#[trigger] spot(from, df, dr, k)] is None
}

proof fn lemma_line_reaches(p: PositionView, from: int, to: int, df: int, dr: int, n: int)
    requires
        super::movegen::is_direction(df, dr),
        0 <= from < 64,
        0 <= to < 64,
        on_line(p, from, to, df, dr, n),
    ensures
        p.reaches(from, to, df, dr),
    decreases n,
{
    let next = spot(from, df, dr, 1);
    assert(Square::shifted(from, df, dr) == Some(next));
    if n > 1 {
        assert(p.board[next] is None);
        assert forall|k: int| 0 < k < n - 1 implies p.board[#[trigger] spot(next, df, dr, k)]
            is None by {
            assert(spot(next, df, dr, k) == spot(from, df, dr, k + 1));
        }
        lemma_line_reaches(p, next, to, df, dr, n - 1);
    }
}

proof fn lemma_reaches_line(p: PositionView, from: int, to: int, df: int, dr: int) -> (n: int)
    requires
        super::movegen::is_direction(df, dr),
        0 <= from < 64,
        0 <= to < 64,
        p.reaches(from, to, df, dr),
    ensures
        on_line(p, from, to, df, dr, n),
    decreases super::movegen::ray_room(from, df, dr),
{
    let next = spot(from, df, dr, 1);
    assert(Square::shifted(from, df, dr) == Some(next));
    if next == to {
        1
    } else {
        let m = lemma_reaches_line(p, next, to, df, dr);
        assert forall|k: int| 0 < k < m + 1 implies p.board[#[trigger] spot(from, df, dr, k)]
            is None by {
            if k == 1 {
                assert(p.board[next] is None);
            } else {
                assert(spot(next, df, dr, k - 1) == spot(from, df, dr, k));
            }
        }
        m + 1
    }
}

/// A distance without its sign.
pub open spec fn width(d: int) -> int {
    if d < 0 {
        -d
    } else {
        d
    }
}

/// Whether every square strictly between two squares on a common line is empty.
pub open spec fn open_between(p: PositionView, from: int, to: int) -> bool {
    let df = to % 8 - from % 8;
    let dr = to / 8 - from / 8;
    forall|k: int|
        0 < k < width(df) || 0 < k < width(dr) ==> p.board[#[trigger] spot(from, df, dr, k)] is None
}

/// A direction reaches a square just when the square lies that way and nothing
/// stands in between.
proof fn lemma_direction(p: PositionView, from: int, to: int, df: int, dr: int)
    requires
        super::movegen::is_direction(df, dr),
        0 <= from < 64,
        0 <= to < 64,
    ensures
        p.reaches(from, to, df, dr) <==> {
            let f = to % 8 - from % 8;
            let r = to / 8 - from / 8;
            let n = if width(f) > width(r) {
                width(f)
            } else {
                width(r)
            };
            n > 0 && f == along(df, n) && r == along(dr, n) && open_between(p, from, to)
        },
{
    let f = to % 8 - from % 8;
    let r = to / 8 - from / 8;
    let n = if width(f) > width(r) {
        width(f)
    } else {
        width(r)
    };
    if p.reaches(from, to, df, dr) {
        let m = lemma_reaches_line(p, from, to, df, dr);
        assert(m == n);
        assert forall|k: int| 0 < k < width(f) || 0 < k < width(r) implies p.board[#[trigger] spot(
            from,
            f,
            r,
            k,
        )] is None by {
            assert(spot(from, f, r, k) == spot(from, df, dr, k));
        }
    }
    if n > 0 && f == along(df, n) && r == along(dr, n) && open_between(p, from, to) {
        assert forall|k: int| 0 < k < n implies p.board[#[trigger] spot(from, df, dr, k)]
            is None by {
            assert(spot(from, f, r, k) == spot(from, df, dr, k));
        }
        lemma_line_reaches(p, from, to, df, dr, n);
    }
}

/// Bishops attack along diagonals, rooks along files and ranks, queens along both,
/// as far as the line is open. Knights, kings and pawns attack by distance alone:
/// knights one square one way and two the other, kings the squares next to them,
/// pawns the two squares diagonally ahead.
pub proof fn what_pieces_attack(p: PositionView, from: int, to: int, color: Color)
    requires
        0 <= from < 64,
        0 <= to < 64,
    ensures
        ({
            let f = width(to % 8 - from % 8);
            let r = width(to / 8 - from / 8);
            let ahead = if color == Color::White {
                to / 8 - from / 8
            } else {
                from / 8 - to / 8
            };
            let diagonal = f == r && f > 0 && open_between(p, from, to);
            let straight = (f == 0 || r == 0) && from != to && open_between(p, from, to);
            &&& p.attack_pattern(from, to, PieceKind::Bishop, color) <==> diagonal
            &&& p.attack_pattern(from, to, PieceKind::Rook, color) <==> straight
            &&& p.attack_pattern(from, to, PieceKind::Queen, color) <==> diagonal || straight
            &&& p.attack_pattern(from, to, PieceKind::Knight, color) <==> f + r == 3 && f > 0 && r
                > 0
            &&& p.attack_pattern(from, to, PieceKind::King, color) <==> f <= 1 && r <= 1 && from
                != to
            &&& p.attack_pattern(from, to, PieceKind::Pawn, color) <==> f == 1 && ahead == 1
        }),
{
    lemma_direction(p, from, to, 1, 1);
    lemma_direction(p, from, to, 1, -1);
    lemma_direction(p, from, to, -1, 1);
    lemma_direction(p, from, to, -1, -1);
    lemma_direction(p, from, to, 1, 0);
    lemma_direction(p, from, to, -1, 0);
    lemma_direction(p, from, to, 0, 1);
    lemma_direction(p, from, to, 0, -1);
}

/// A pawn steps ahead onto an empty square, two squares from where it starts if
/// both are empty, and takes diagonally ahead: what stands there, or the pawn that
/// just passed. On the last rank it becomes a knight, bishop, rook or queen, and
/// only there.
pub proof fn where_pawns_go(p: PositionView, from: int, to: int, flag: MoveFlag, side: Color)
    requires
        p.board.len() == 64,
        0 <= from < 64,
        0 <= to < 64,
    ensures
        p.pawn_moves(from, side).contains(Move::of(from, to, flag)) <==> {
            let white = side == Color::White;
            let sideways = width(to % 8 - from % 8);
            let ahead = if white {
                to / 8 - from / 8
            } else {
                from / 8 - to / 8
            };
            let last = to / 8 == (if white {
                7int
            } else {
                0
            });
            let first = from / 8 == (if white {
                1int
            } else {
                6
            });
            let push = sideways == 0 && ahead == 1 && p.board[to] is None;
            let capture = sideways == 1 && ahead == 1 && (p.board[to] matches Some(
                piece,
            ) && piece.color != side);
            match flag {
                MoveFlag::Quiet => (push || capture) && !last,
                MoveFlag::PromoteKnight
                | MoveFlag::PromoteBishop
                | MoveFlag::PromoteRook
                | MoveFlag::PromoteQueen => (push || capture) && last,
                MoveFlag::DoublePawnPush => sideways == 0 && ahead == 2 && first && p.board[to]
                    is None && p.board[(from + to) / 2] is None,
                MoveFlag::EnPassant => sideways == 1 && ahead == 1 && p.ep == Some(to)
                    && p.board[to] is None,
                MoveFlag::CastleKingside | MoveFlag::CastleQueenside => false,
            }
        },
{
    let mv = Move::of(from, to, flag);
    let pushes = p.pawn_pushes(from, side);
    let left = p.pawn_capture(from, side, -1);
    let right = p.pawn_capture(from, side, 1);
    lemma_contains_joined(pushes, left, mv);
    lemma_contains_joined(pushes + left, right, mv);
    lemma_pushes(p, from, to, flag, side);
    lemma_capture(p, from, to, flag, side, -1);
    lemma_capture(p, from, to, flag, side, 1);
}

/// Which moves arrive at a square as a pawn does.
spec fn arrives(to: int, flag: MoveFlag, side: Color) -> bool {
    if to / 8 == (if side == Color::White {
        7int
    } else {
        0
    }) {
        flag == MoveFlag::PromoteKnight || flag == MoveFlag::PromoteBishop || flag
            == MoveFlag::PromoteRook || flag == MoveFlag::PromoteQueen
    } else {
        flag == MoveFlag::Quiet
    }
}

proof fn lemma_arrival(from: int, at: int, to: int, flag: MoveFlag, side: Color)
    requires
        0 <= from < 64,
        0 <= to < 64,
        0 <= at < 64,
    ensures
        PositionView::pawn_arrival(from, at, side).contains(Move::of(from, to, flag)) <==> to == at
            && arrives(to, flag, side),
{
    let all = PositionView::pawn_arrival(from, at, side);
    let mv = Move::of(from, to, flag);
    if to == at && arrives(to, flag, side) {
        let k: int = match flag {
            MoveFlag::PromoteRook => 1,
            MoveFlag::PromoteBishop => 2,
            MoveFlag::PromoteKnight => 3,
            _ => 0,
        };
        assert(all[k] == mv);
    }
    if all.contains(mv) {
        let k = choose|k: int| 0 <= k < all.len() && all[k] == mv;
        assert(all[k].dst() == at && all[k].kind() == mv.kind());
    }
}

proof fn lemma_pushes(p: PositionView, from: int, to: int, flag: MoveFlag, side: Color)
    requires
        p.board.len() == 64,
        0 <= from < 64,
        0 <= to < 64,
    ensures
        p.pawn_pushes(from, side).contains(Move::of(from, to, flag)) <==> {
            let up = if side == Color::White {
                8int
            } else {
                -8
            };
            let first = from / 8 == (if side == Color::White {
                1int
            } else {
                6
            });
            ||| to == from + up && p.board[to] is None && arrives(to, flag, side)
            ||| to == from + 2 * up && first && p.board[to] is None && p.board[from + up] is None
                && flag == MoveFlag::DoublePawnPush
        },
{
    let mv = Move::of(from, to, flag);
    let up = if side == Color::White {
        8int
    } else {
        -8
    };
    match Square::shifted(from, 0, side.forward()) {
        Some(one) => {
            assert(one == from + up);
            lemma_arrival(from, one, to, flag, side);
            let single = PositionView::pawn_arrival(from, one, side);
            match Square::shifted(from, 0, side.forward() * 2) {
                Some(two) => {
                    assert(two == from + 2 * up);
                    let double = seq![Move::of(from, two, MoveFlag::DoublePawnPush)];
                    lemma_contains_joined(single, double, mv);
                    if double.contains(mv) {
                        assert(double[0] == mv);
                        assert(mv.kind() == MoveFlag::DoublePawnPush && mv.dst() == two);
                    }
                    if to == two && flag == MoveFlag::DoublePawnPush {
                        assert(double[0] == mv);
                    }
                },
                None => {},
            }
        },
        None => {},
    }
}

proof fn lemma_capture(p: PositionView, from: int, to: int, flag: MoveFlag, side: Color, df: int)
    requires
        p.board.len() == 64,
        0 <= from < 64,
        0 <= to < 64,
        df == 1 || df == -1,
    ensures
        p.pawn_capture(from, side, df).contains(Move::of(from, to, flag)) <==> {
            &&& to % 8 - from % 8 == df
            &&& to / 8 - from / 8 == (if side == Color::White {
                1int
            } else {
                -1
            })
            &&& {
                ||| (p.board[to] matches Some(piece) && piece.color != side && arrives(
                    to,
                    flag,
                    side,
                ))
                ||| (p.board[to] is None && p.ep == Some(to) && flag == MoveFlag::EnPassant)
            }
        },
{
    let mv = Move::of(from, to, flag);
    match Square::shifted(from, df, side.forward()) {
        Some(at) => {
            lemma_arrival(from, at, to, flag, side);
            let passing = seq![Move::of(from, at, MoveFlag::EnPassant)];
            if passing.contains(mv) {
                assert(passing[0] == mv);
                assert(mv.kind() == MoveFlag::EnPassant && mv.dst() == at);
            }
            if to == at && flag == MoveFlag::EnPassant {
                assert(passing[0] == mv);
            }
        },
        None => {},
    }
}

/// A king castles from its home square, two squares towards the rook, if it has the
/// right to and nothing stands between king and rook.
pub proof fn where_kings_castle(p: PositionView, from: int, to: int, flag: MoveFlag, side: Color)
    requires
        p.board.len() == 64,
        0 <= from < 64,
        0 <= to < 64,
    ensures
        p.castles(side).contains(Move::of(from, to, flag)) <==> {
            let white = side == Color::White;
            let king = if white {
                4int
            } else {
                60
            };
            &&& from == king
            &&& match flag {
                MoveFlag::CastleKingside => to == king + 2 && (if white {
                    p.rights.white_kingside
                } else {
                    p.rights.black_kingside
                }) && p.board[king + 1] is None && p.board[king + 2] is None,
                MoveFlag::CastleQueenside => to == king - 2 && (if white {
                    p.rights.white_queenside
                } else {
                    p.rights.black_queenside
                }) && p.board[king - 1] is None && p.board[king - 2] is None && p.board[king - 3]
                    is None,
                _ => false,
            }
        },
{
    let mv = Move::of(from, to, flag);
    let short = p.kingside_castle(side);
    let long = p.queenside_castle(side);
    lemma_contains_joined(short, long, mv);
    if short.contains(mv) {
        assert(short[0] == mv);
    }
    if long.contains(mv) {
        assert(long[0] == mv);
    }
    let home = side.home_rank() * 8;
    if short.len() > 0 && from == home + 4 && to == home + 6 && flag == MoveFlag::CastleKingside {
        assert(short[0] == mv);
    }
    if long.len() > 0 && from == home + 4 && to == home + 2 && flag == MoveFlag::CastleQueenside {
        assert(long[0] == mv);
    }
}

/// Whether `k` is where the one king of a side stands.
pub open spec fn is_the_king(p: PositionView, k: int, color: Color) -> bool {
    &&& 0 <= k < 64
    &&& p.board[k] == Some(Piece { kind: PieceKind::King, color })
    &&& forall|i: int|
        0 <= i < 64 && i != k ==> #[trigger] p.board[i] != Some(
            Piece { kind: PieceKind::King, color },
        )
}

proof fn lemma_the_king(p: PositionView, k: int, color: Color, i: int)
    requires
        is_the_king(p, k, color),
        0 <= i <= k,
    ensures
        p.king_from(i, color) == Some(k),
    decreases k - i,
{
    if i < k {
        lemma_the_king(p, k, color, i + 1);
    }
}

/// A side is in check just when some piece of the other side attacks its king.
pub proof fn what_check_is(p: PositionView, k: int, color: Color)
    requires
        is_the_king(p, k, color),
    ensures
        p.king(color) == Some(k),
        p.checked(color) <==> exists|from: int|
            0 <= from < 64 && p.board[from] is Some && p.board[from]->0.color != color
                && #[trigger] p.attack_pattern(from, k, p.board[from]->0.kind, color.other()),
{
    lemma_the_king(p, k, color, 0);
    if p.checked(color) {
        let from = choose|from: int| 0 <= from < 64 && #[trigger] p.attacks(from, k, color.other());
        assert(p.attack_pattern(from, k, p.board[from]->0.kind, color.other()));
    }
    if exists|from: int|
        0 <= from < 64 && p.board[from] is Some && p.board[from]->0.color != color
            && #[trigger] p.attack_pattern(from, k, p.board[from]->0.kind, color.other()) {
        let from = choose|from: int|
            0 <= from < 64 && p.board[from] is Some && p.board[from]->0.color != color
                && #[trigger] p.attack_pattern(from, k, p.board[from]->0.kind, color.other());
        assert(p.attacks(from, k, color.other()));
    }
}

/// A move is legal just when it is one that the pieces can make, it does not leave
/// the own king attacked, and, if it castles, the king neither starts from nor
/// passes over an attacked square.
pub proof fn what_legal_moves_are(p: PositionView, mv: Move, k: int)
    requires
        p.board[mv.src()] is Some,
        is_the_king(p.made(mv), k, p.side),
        mv.kind() == MoveFlag::CastleKingside ==> mv.src() % 8 == 4 && mv.dst() == mv.src() + 2,
        mv.kind() == MoveFlag::CastleQueenside ==> mv.src() % 8 == 4 && mv.dst() == mv.src() - 2,
    ensures
        p.legal_moves().contains(mv) <==> {
            let enemy = p.side.other();
            let castles = mv.kind() == MoveFlag::CastleKingside || mv.kind()
                == MoveFlag::CastleQueenside;
            &&& p.pseudo_moves().contains(mv)
            &&& !p.made(mv).attacked(k, enemy)
            &&& castles ==> !p.attacked(mv.src(), enemy) && !p.attacked(
                (mv.src() + mv.dst()) / 2,
                enemy,
            )
        },
{
    lemma_the_king(p.made(mv), k, p.side, 0);
    super::legality::legal_moves_are_the_safe_ones(p, mv);
}

proof fn lemma_generated(p: PositionView, mv: Move, n: nat)
    ensures
        p.pseudo_moves_upto(n).contains(mv) <==> exists|i: int|
            0 <= i < n && #[trigger] p.square_moves(i).contains(mv),
    decreases n,
{
    if n > 0 {
        let rest = (n - 1) as nat;
        lemma_generated(p, mv, rest);
        lemma_contains_joined(p.pseudo_moves_upto(rest), p.square_moves(rest as int), mv);
    }
}

/// A side moves all the pieces of its own, each as its kind moves, its king by
/// castling too, and no others.
pub proof fn what_pieces_may_do(p: PositionView, mv: Move)
    ensures
        p.pseudo_moves().contains(mv) <==> exists|i: int|
            {
                &&& 0 <= i < 64
                &&& #[trigger] p.occupied_by(i, p.side)
                &&& p.kind_moves(i, p.board[i]->0.kind, p.side).contains(mv) || (p.board[i]->0.kind
                    == PieceKind::King && p.castles(p.side).contains(mv))
            },
{
    lemma_generated(p, mv, 64);
    assert forall|i: int| 0 <= i < 64 implies (#[trigger] p.square_moves(i).contains(mv)
        <==> p.occupied_by(i, p.side) && (p.kind_moves(i, p.board[i]->0.kind, p.side).contains(mv)
        || (p.board[i]->0.kind == PieceKind::King && p.castles(p.side).contains(mv)))) by {
        if p.board[i] is Some {
            lemma_contains_joined(
                p.kind_moves(i, p.board[i]->0.kind, p.side),
                p.castles(p.side),
                mv,
            );
        }
    }
    if p.pseudo_moves().contains(mv) {
        let i = choose|i: int| 0 <= i < 64 && #[trigger] p.square_moves(i).contains(mv);
        assert(p.occupied_by(i, p.side));
    }
    if exists|i: int|
        {
            &&& 0 <= i < 64
            &&& #[trigger] p.occupied_by(i, p.side)
            &&& p.kind_moves(i, p.board[i]->0.kind, p.side).contains(mv) || (p.board[i]->0.kind
                == PieceKind::King && p.castles(p.side).contains(mv))
        } {
        let i = choose|i: int|
            {
                &&& 0 <= i < 64
                &&& #[trigger] p.occupied_by(i, p.side)
                &&& p.kind_moves(i, p.board[i]->0.kind, p.side).contains(mv) || (p.board[i]->0.kind
                    == PieceKind::King && p.castles(p.side).contains(mv))
            };
        assert(p.square_moves(i).contains(mv));
    }
}

/// Cheaper pieces come first among attackers, and kings last.
pub proof fn attackers_come_in_order_of_value()
    ensures
        PieceKind::Pawn.attacker_rank() < PieceKind::Knight.attacker_rank(),
        PieceKind::Knight.attacker_rank() < PieceKind::Bishop.attacker_rank(),
        PieceKind::Bishop.attacker_rank() < PieceKind::Rook.attacker_rank(),
        PieceKind::Rook.attacker_rank() < PieceKind::Queen.attacker_rank(),
        PieceKind::Queen.attacker_rank() < PieceKind::King.attacker_rank(),
{
}

/// Only the four promotions make something else of a pawn: what they say.
pub proof fn what_pawns_become(flag: MoveFlag)
    ensures
        flag == MoveFlag::PromoteKnight <==> flag.promotes_to() == Some(PieceKind::Knight),
        flag == MoveFlag::PromoteBishop <==> flag.promotes_to() == Some(PieceKind::Bishop),
        flag == MoveFlag::PromoteRook <==> flag.promotes_to() == Some(PieceKind::Rook),
        flag == MoveFlag::PromoteQueen <==> flag.promotes_to() == Some(PieceKind::Queen),
        flag.promotes_to() is None || flag.promotes_to() == Some(PieceKind::Knight)
            || flag.promotes_to() == Some(PieceKind::Bishop) || flag.promotes_to() == Some(
            PieceKind::Rook,
        ) || flag.promotes_to() == Some(PieceKind::Queen),
{
}

} // verus!
