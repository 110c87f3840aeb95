//! What static exchange evaluation promises.

use super::exchange;
use crate::chess::moves::{Move, MoveFlag};
use crate::chess::piece::{Color, Piece, PieceKind};
use crate::chess::position::PositionView;
use vstd::prelude::*;

verus! {

broadcast use {crate::chess::moves::lemma_move_squares, crate::chess::position::lemma_board_len};

/// What `side` can win at most by capturing on `target`, where a piece of kind
/// `standing` stands, if both sides always capture with their cheapest piece and
/// may stop at any time: nothing, or that piece less what the other side can win
/// back.
pub open spec fn best_reply(p: PositionView, target: int, side: Color, standing: PieceKind) -> int
    decreases exchange::occupied(p.board, 64),
    when exchange::on_turn(p, target, side)
    via best_reply_decreases
{
    match p.least_attacker(target, side) {
        None => 0,
        Some((from, kind)) => {
            let won = exchange::exchange_value(standing) - best_reply(
                exchange::recaptured(p, target, side, from, kind),
                target,
                side.other(),
                kind,
            );
            if won > 0 {
                won
            } else {
                0
            }
        },
    }
}

#[via_fn]
proof fn best_reply_decreases(p: PositionView, target: int, side: Color, standing: PieceKind) {
    if p.least_attacker(target, side) is Some {
        exchange::lemma_recapture(p, target, side);
    }
}

/// A swap list only grows at its end.
proof fn lemma_swap_list(
    p: PositionView,
    target: int,
    side: Color,
    standing: PieceKind,
    gains: Seq<int>,
)
    requires
        exchange::on_turn(p, target, side),
        gains.len() > 0,
    ensures
        exchange::swap_list(p, target, side, standing, gains) == gains.drop_last()
            + exchange::swap_list(p, target, side, standing, seq![gains.last()]),
        exchange::swap_list(p, target, side, standing, gains).len() >= gains.len(),
    decreases exchange::occupied(p.board, 64),
{
    if let Some((from, kind)) = p.least_attacker(target, side) {
        exchange::lemma_recapture(p, target, side);
        let next = exchange::recaptured(p, target, side, from, kind);
        let g = exchange::exchange_value(standing) - gains.last();
        let last = seq![gains.last()];
        lemma_swap_list(next, target, side.other(), kind, gains.push(g));
        lemma_swap_list(next, target, side.other(), kind, last.push(g));
        assert(gains.push(g).drop_last() =~= gains);
        assert(last.push(g).drop_last() =~= last);
        let tail = exchange::swap_list(next, target, side.other(), kind, seq![g]);
        assert(gains + tail =~= gains.drop_last() + (last + tail));
    } else {
        assert(gains =~= gains.drop_last() + seq![gains.last()]);
    }
}

proof fn lemma_resolved(p: PositionView, target: int, side: Color, standing: PieceKind, g: int)
    requires
        exchange::on_turn(p, target, side),
    ensures
        exchange::resolved(exchange::swap_list(p, target, side, standing, seq![g])) == g
            - best_reply(p, target, side, standing),
        0 <= best_reply(p, target, side, standing) <= exchange::exchange_value(standing),
    decreases exchange::occupied(p.board, 64),
{
    if let Some((from, kind)) = p.least_attacker(target, side) {
        exchange::lemma_recapture(p, target, side);
        let next = exchange::recaptured(p, target, side, from, kind);
        let won = exchange::exchange_value(standing) - g;
        lemma_resolved(next, target, side.other(), kind, won);
        lemma_swap_list(next, target, side.other(), kind, seq![g].push(won));
        let tail = exchange::swap_list(next, target, side.other(), kind, seq![won]);
        lemma_swap_list(next, target, side.other(), kind, seq![won]);
        let all = exchange::swap_list(p, target, side, standing, seq![g]);
        assert(seq![g].push(won).drop_last() =~= seq![g]);
        assert(all =~= seq![g] + tail);
        assert(all.drop_first() =~= tail);
    }
}

/// What the square that a move goes to, or the pawn that it takes in passing, is
/// worth in an exchange.
pub open spec fn taken(p: PositionView, mv: Move) -> int {
    if mv.kind() == MoveFlag::EnPassant {
        exchange::exchange_value(PieceKind::Pawn)
    } else {
        match p.board[mv.dst()] {
            Some(piece) => exchange::exchange_value(piece.kind),
            None => 0,
        }
    }
}

/// The result of an exchange is what the first capture takes, less what the other
/// side can win back at best; so it is at most the piece taken, and at least that
/// less the piece that takes it.
pub proof fn exchanges_are_played_out(p: PositionView, mv: Move, piece: Piece)
    requires
        p.board.len() == 64,
        p.board[mv.src()] == Some(piece),
    ensures
        exchange::exchange_result(p, mv) == taken(p, mv) - best_reply(
            exchange::exchange_start(p, mv, piece),
            mv.dst(),
            piece.color.other(),
            piece.kind,
        ),
        taken(p, mv) - exchange::exchange_value(piece.kind) <= exchange::exchange_result(p, mv),
        exchange::exchange_result(p, mv) <= taken(p, mv),
{
    lemma_resolved(
        exchange::exchange_start(p, mv, piece),
        mv.dst(),
        piece.color.other(),
        piece.kind,
        taken(p, mv),
    );
}

/// Capturing something worth no less than the piece that captures never loses.
pub proof fn good_captures_never_lose(p: PositionView, mv: Move, piece: Piece)
    requires
        p.board.len() == 64,
        p.board[mv.src()] == Some(piece),
        taken(p, mv) >= exchange::exchange_value(piece.kind),
    ensures
        exchange::exchange_result(p, mv) >= 0,
        !super::model::loses_exchange(p, mv),
{
    exchanges_are_played_out(p, mv, piece);
}

/// An exchange starts with the capturing piece on its target, its own square
/// empty, and a pawn taken in passing gone; the rest of the board is as it was.
pub proof fn how_an_exchange_starts(p: PositionView, mv: Move, piece: Piece, i: int)
    requires
        p.board.len() == 64,
        0 <= i < 64,
        mv.src() != mv.dst(),
    ensures
        ({
            let start = exchange::exchange_start(p, mv, piece);
            let beside = (mv.src() / 8) * 8 + mv.dst() % 8;
            &&& i == mv.dst() ==> start.board[i] == Some(piece)
            &&& i == mv.src() ==> start.board[i] is None
            &&& mv.kind() == MoveFlag::EnPassant && i == beside && i != mv.dst()
                ==> start.board[i] is None
            &&& i != mv.src() && i != mv.dst() && (mv.kind() != MoveFlag::EnPassant || i != beside)
                ==> start.board[i] == p.board[i]
        }),
{
}

/// In an exchange, pieces count as much as in the material balance, and a king
/// more than everything else that one side can have.
pub proof fn exchange_values_are_material_values(kind: PieceKind)
    ensures
        kind != PieceKind::King ==> exchange::exchange_value(kind) == crate::eval::material_value(
            kind,
        ),
        exchange::exchange_value(PieceKind::King) > 9 * exchange::exchange_value(PieceKind::Queen)
            + 2 * exchange::exchange_value(PieceKind::Rook) + 2 * exchange::exchange_value(
            PieceKind::Bishop,
        ) + 2 * exchange::exchange_value(PieceKind::Knight),
{
}

/// A move captures if it takes in passing or goes to an occupied square, and then
/// it takes something worth counting.
pub proof fn captures_take_something(p: PositionView, mv: Move)
    ensures
        p.captures(mv) <==> mv.kind() == MoveFlag::EnPassant || p.board[mv.dst()] is Some,
        p.captures(mv) <==> taken(p, mv) > 0,
        exchange::victim_value(p, mv) == taken(p, mv),
{
}

} // verus!
