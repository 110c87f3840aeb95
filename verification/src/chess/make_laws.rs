//! What making a move does to a position, square by square and field by field.

use super::castling::CastlingRights;
use super::moves::{Move, MoveFlag};
use super::piece::{Color, Piece, PieceKind};
use super::position::PositionView;
use vstd::prelude::*;

verus! {

broadcast use {super::moves::lemma_move_squares, super::position::lemma_board_len};

/// Whether a move castles.
pub open spec fn castles(mv: Move) -> bool {
    mv.kind() == MoveFlag::CastleKingside || mv.kind() == MoveFlag::CastleQueenside
}

/// A move that does not castle empties its starting square, puts the moving piece
/// on its target square, and leaves all others alone; a pawn taken in passing,
/// beside the starting square on the target's file, is gone as well. A promoting
/// pawn becomes a piece of the side that moves.
pub proof fn what_a_move_does_to_the_board(p: PositionView, mv: Move, i: int)
    requires
        p.board.len() == 64,
        mv.src() != mv.dst(),
        !castles(mv),
        0 <= i < 64,
    ensures
        ({
            let after = p.made(mv).board;
            let beside = (mv.src() / 8) * 8 + mv.dst() % 8;
            let passing = mv.kind() == MoveFlag::EnPassant && i == beside;
            &&& after.len() == 64
            &&& i == mv.src() ==> after[i] is None
            &&& i == mv.dst() && mv.kind().promotes_to() is None ==> after[i] == p.board[mv.src()]
            &&& i == mv.dst() && mv.kind().promotes_to() is Some ==> after[i] == Some(
                Piece { kind: mv.kind().promotes_to()->0, color: p.side },
            )
            &&& i != mv.src() && i != mv.dst() && passing ==> after[i] is None
            &&& i != mv.src() && i != mv.dst() && !passing ==> after[i] == p.board[i]
        }),
{
}

/// Castling moves the king as it says, and the rook from its corner to the square
/// that the king passes over; everything else stays.
pub proof fn what_castling_does_to_the_board(p: PositionView, mv: Move, i: int)
    requires
        p.board.len() == 64,
        castles(mv),
        mv.src() % 8 == 4,
        mv.dst() == mv.src() + (if mv.kind() == MoveFlag::CastleKingside {
            2int
        } else {
            -2
        }),
        0 <= i < 64,
    ensures
        ({
            let after = p.made(mv).board;
            let short = mv.kind() == MoveFlag::CastleKingside;
            let corner = if short {
                mv.src() + 3
            } else {
                mv.src() - 4
            };
            let inner = if short {
                mv.src() + 1
            } else {
                mv.src() - 1
            };
            &&& after.len() == 64
            &&& i == mv.src() || i == corner ==> after[i] is None
            &&& i == mv.dst() ==> after[i] == p.board[mv.src()]
            &&& i == inner ==> after[i] == p.board[corner]
            &&& i != mv.src() && i != mv.dst() && i != corner && i != inner ==> after[i]
                == p.board[i]
        }),
{
}

/// Whether a move takes something: what stands on its target square, or a pawn
/// beside its starting square.
pub open spec fn takes(p: PositionView, mv: Move) -> bool {
    if mv.kind() == MoveFlag::EnPassant {
        p.board[(mv.src() / 8) * 8 + mv.dst() % 8] is Some
    } else {
        p.board[mv.dst()] is Some
    }
}

/// The halfmove clock starts over with a pawn move or a capture and goes up by one
/// with any other move; the move number goes up after Black's moves.
pub proof fn what_a_move_does_to_the_clocks(p: PositionView, mv: Move)
    requires
        p.half < u32::MAX,
        p.full < u32::MAX,
    ensures
        ({
            let pawn = p.board[mv.src()] matches Some(piece) && piece.kind == PieceKind::Pawn;
            &&& pawn || takes(p, mv) ==> p.made(mv).half == 0
            &&& !pawn && !takes(p, mv) ==> p.made(mv).half == p.half + 1
            &&& p.side == Color::White ==> p.made(mv).full == p.full
            &&& p.side == Color::Black ==> p.made(mv).full == p.full + 1
        }),
{
}

/// A double step leaves the square that the pawn passed over as the one to take it
/// on, halfway between where it started and where it stands.
pub proof fn what_a_double_step_leaves(p: PositionView, mv: Move)
    requires
        mv.kind() == MoveFlag::DoublePawnPush,
        mv.dst() == mv.src() + 16 || mv.dst() == mv.src() - 16,
    ensures
        p.made(mv).ep matches Some(passed) && 2 * passed == mv.src() + mv.dst(),
{
}

/// Whether a piece leaves a square with this move, by moving away or by being
/// taken.
pub open spec fn leaves(p: PositionView, mv: Move, i: int, piece: Piece) -> bool {
    p.board[i] == Some(piece) && (mv.src() == i || (mv.kind() != MoveFlag::EnPassant && mv.dst() == i)
        || (mv.kind() == MoveFlag::EnPassant && i == (mv.src() / 8) * 8 + mv.dst() % 8))
}

/// A castling right is lost just when the king leaves its home square or the rook
/// its corner, by moving or by being taken, as long as that is where they stand.
pub proof fn when_castling_rights_are_lost(p: PositionView, mv: Move)
    requires
        p.board.len() == 64,
        forall|i: int|
            0 <= i < 64 && i != 4 ==> #[trigger] p.board[i] != Some(
                Piece { kind: PieceKind::King, color: Color::White },
            ),
        forall|i: int|
            0 <= i < 64 && i != 60 ==> #[trigger] p.board[i] != Some(
                Piece { kind: PieceKind::King, color: Color::Black },
            ),
        mv.kind() == MoveFlag::EnPassant ==> 24 <= mv.src() < 40,
    ensures
        ({
            let after = p.made(mv).rights;
            let white_king = Piece { kind: PieceKind::King, color: Color::White };
            let black_king = Piece { kind: PieceKind::King, color: Color::Black };
            let white_rook = Piece { kind: PieceKind::Rook, color: Color::White };
            let black_rook = Piece { kind: PieceKind::Rook, color: Color::Black };
            &&& after.white_kingside == (p.rights.white_kingside && !leaves(p, mv, 4, white_king)
                && !leaves(p, mv, 7, white_rook))
            &&& after.white_queenside == (p.rights.white_queenside && !leaves(p, mv, 4, white_king)
                && !leaves(p, mv, 0, white_rook))
            &&& after.black_kingside == (p.rights.black_kingside && !leaves(p, mv, 60, black_king)
                && !leaves(p, mv, 63, black_rook))
            &&& after.black_queenside == (p.rights.black_queenside && !leaves(p, mv, 60, black_king)
                && !leaves(p, mv, 56, black_rook))
        }),
{
}

/// A king without rights on its side loses none of the other side's.
pub proof fn rights_of_the_other_side_stay(rights: CastlingRights, i: int, piece: Piece)
    ensures
        ({
            let after = rights.after_departure(i, Some(piece));
            &&& piece.color == Color::White ==> after.black_kingside == rights.black_kingside
                && after.black_queenside == rights.black_queenside
            &&& piece.color == Color::Black ==> after.white_kingside == rights.white_kingside
                && after.white_queenside == rights.white_queenside
            &&& rights.after_departure(i, None) == rights
        }),
{
}

} // verus!
