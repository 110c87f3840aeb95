//! Compact move representation.
//!
//! `Move` is deliberately packed into a `u16` (from/to squares plus a
//! 4-bit flag) rather than a struct of separate fields, since move
//! generation and search create very large numbers of these.

use super::piece::PieceKind;
use super::square::Square;
use vstd::prelude::*;

verus! {

/// The special-move category a `Move` belongs to. Plain captures are not
/// distinguished from plain quiet moves here -- that requires looking at
/// the board, not the move alone -- but promotion, en passant, castling,
/// and double pawn pushes are encoded directly since move generation
/// always knows them at creation time.
#[derive(Debug, Clone, Copy, PartialEq, Eq, Structural)]
pub enum MoveFlag {
    Quiet,
    DoublePawnPush,
    EnPassant,
    CastleKingside,
    CastleQueenside,
    PromoteKnight,
    PromoteBishop,
    PromoteRook,
    PromoteQueen,
}

impl MoveFlag {
    /// The number that stands for this flag in a packed move.
    pub open spec fn code(self) -> int {
        match self {
            MoveFlag::Quiet => 0,
            MoveFlag::DoublePawnPush => 1,
            MoveFlag::EnPassant => 2,
            MoveFlag::CastleKingside => 3,
            MoveFlag::CastleQueenside => 4,
            MoveFlag::PromoteKnight => 5,
            MoveFlag::PromoteBishop => 6,
            MoveFlag::PromoteRook => 7,
            MoveFlag::PromoteQueen => 8,
        }
    }

    /// The flag that a number stands for.
    pub open spec fn decoded(code: int) -> MoveFlag {
        if code == 0 {
            MoveFlag::Quiet
        } else if code == 1 {
            MoveFlag::DoublePawnPush
        } else if code == 2 {
            MoveFlag::EnPassant
        } else if code == 3 {
            MoveFlag::CastleKingside
        } else if code == 4 {
            MoveFlag::CastleQueenside
        } else if code == 5 {
            MoveFlag::PromoteKnight
        } else if code == 6 {
            MoveFlag::PromoteBishop
        } else if code == 7 {
            MoveFlag::PromoteRook
        } else {
            MoveFlag::PromoteQueen
        }
    }

    /// The piece kind a pawn moving with this flag turns into, if any.
    pub open spec fn promotes_to(self) -> Option<PieceKind> {
        match self {
            MoveFlag::PromoteKnight => Some(PieceKind::Knight),
            MoveFlag::PromoteBishop => Some(PieceKind::Bishop),
            MoveFlag::PromoteRook => Some(PieceKind::Rook),
            MoveFlag::PromoteQueen => Some(PieceKind::Queen),
            _ => None,
        }
    }

    pub(crate) fn to_bits(self) -> (bits: u16)
        ensures
            bits == self.code(),
            bits <= 8,
    {
        match self {
            MoveFlag::Quiet => 0,
            MoveFlag::DoublePawnPush => 1,
            MoveFlag::EnPassant => 2,
            MoveFlag::CastleKingside => 3,
            MoveFlag::CastleQueenside => 4,
            MoveFlag::PromoteKnight => 5,
            MoveFlag::PromoteBishop => 6,
            MoveFlag::PromoteRook => 7,
            MoveFlag::PromoteQueen => 8,
        }
    }

    pub(crate) fn from_bits(bits: u16) -> (flag: MoveFlag)
        requires
            bits <= 8,
        ensures
            flag == MoveFlag::decoded(bits as int),
    {
        match bits {
            0 => MoveFlag::Quiet,
            1 => MoveFlag::DoublePawnPush,
            2 => MoveFlag::EnPassant,
            3 => MoveFlag::CastleKingside,
            4 => MoveFlag::CastleQueenside,
            5 => MoveFlag::PromoteKnight,
            6 => MoveFlag::PromoteBishop,
            7 => MoveFlag::PromoteRook,
            _ => MoveFlag::PromoteQueen,
        }
    }

    /// The piece kind to promote to, if this flag is a promotion.
    #[must_use]
    pub fn promotion_kind(self) -> (kind: Option<PieceKind>)
        ensures
            kind == self.promotes_to(),
    {
        match self {
            MoveFlag::PromoteKnight => Some(PieceKind::Knight),
            MoveFlag::PromoteBishop => Some(PieceKind::Bishop),
            MoveFlag::PromoteRook => Some(PieceKind::Rook),
            MoveFlag::PromoteQueen => Some(PieceKind::Queen),
            _ => None,
        }
    }
}

/// A single chess move, packed into 16 bits: 6 bits `from` square, 6 bits
/// `to` square, 4 bits flag. This encodes everything needed to apply the
/// move to a `Position`; it does not carry the captured piece or any
/// other information needed to *undo* it, which belongs in the
/// `Undo` record that `Position::make_move` returns.
#[derive(Debug, Clone, Copy, PartialEq, Eq, Structural)]
pub struct Move(u16);

impl Move {
    /// The flag bits hold the number of a flag.
    #[verifier::type_invariant]
    pub closed spec fn well_formed(self) -> bool {
        self.0 < 9 * 4096
    }

    /// The index of the square the move starts on.
    pub closed spec fn src(self) -> int {
        self.0 as int % 64
    }

    /// The index of the square the move ends on.
    pub closed spec fn dst(self) -> int {
        self.0 as int / 64 % 64
    }

    /// The move's flag.
    pub closed spec fn kind(self) -> MoveFlag {
        MoveFlag::decoded(self.0 as int / 4096)
    }

    /// The move between two square indices with the given flag.
    pub closed spec fn of(from: int, to: int, flag: MoveFlag) -> Move {
        Move((from + 64 * to + 4096 * flag.code()) as u16)
    }

    /// The move from one square to another with the given flag.
    #[must_use]
    pub fn new(from: Square, to: Square, flag: MoveFlag) -> (mv: Move)
        ensures
            mv.src() == from.idx(),
            mv.dst() == to.idx(),
            mv.kind() == flag,
            mv == Move::of(from.idx(), to.idx(), flag),
    {
        let from_bits: u16 = from.index() as u16;
        let to_bits: u16 = to.index() as u16;
        let flag_bits: u16 = flag.to_bits();
        Move(from_bits + 64 * to_bits + 4096 * flag_bits)
    }

    /// The square the move starts on.
    #[must_use]
    pub fn from(self) -> (square: Square)
        ensures
            square.idx() == self.src(),
            square == Square::at(self.src()),
            0 <= self.src() < 64,
    {
        Square::new((self.0 % 64) as u8)
    }

    /// The square the move ends on.
    #[must_use]
    pub fn to(self) -> (square: Square)
        ensures
            square.idx() == self.dst(),
            square == Square::at(self.dst()),
            0 <= self.dst() < 64,
    {
        Square::new((self.0 / 64 % 64) as u8)
    }

    /// The move's flag.
    #[must_use]
    pub fn flag(self) -> (flag: MoveFlag)
        ensures
            flag == self.kind(),
    {
        proof {
            use_type_invariant(&self);
        }
        MoveFlag::from_bits(self.0 / 4096)
    }

    /// Whether the move turns a pawn into another piece.
    #[must_use]
    pub fn is_promotion(self) -> (promotes: bool)
        ensures
            promotes == (self.kind().promotes_to() is Some),
    {
        match self.flag() {
            MoveFlag::PromoteKnight
            | MoveFlag::PromoteBishop
            | MoveFlag::PromoteRook
            | MoveFlag::PromoteQueen => true,
            _ => false,
        }
    }
}

impl Default for Move {
    fn default() -> (mv: Move)
        ensures
            mv == Move::of(0, 0, MoveFlag::Quiet),
    {
        Move(0)
    }
}

/// Packing a move and taking it apart again gives back its two squares and
/// its flag.
pub broadcast proof fn move_round_trip(from: int, to: int, flag: MoveFlag)
    requires
        0 <= from < 64,
        0 <= to < 64,
    ensures
        (#[trigger] Move::of(from, to, flag)).src() == from,
        Move::of(from, to, flag).dst() == to,
        Move::of(from, to, flag).kind() == flag,
{
}

/// A move is made of its two squares and its flag.
pub proof fn move_is_its_parts(mv: Move)
    requires
        mv.well_formed(),
    ensures
        Move::of(mv.src(), mv.dst(), mv.kind()) == mv,
{
}

/// The squares of a move are on the board.
pub broadcast proof fn lemma_move_squares(mv: Move)
    ensures
        #![trigger mv.src()]
        #![trigger mv.dst()]
        0 <= mv.src() < 64,
        0 <= mv.dst() < 64,
{
}

} // verus!
