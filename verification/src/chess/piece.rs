//! Piece types and colors.

use vstd::prelude::*;

verus! {

/// The side to move or the owner of a piece.
#[derive(Debug, Clone, Copy, PartialEq, Eq, Hash, Structural)]
pub enum Color {
    White,
    Black,
}

impl Color {
    /// The other color.
    pub open spec fn other(self) -> Color {
        match self {
            Color::White => Color::Black,
            Color::Black => Color::White,
        }
    }

    /// The direction in which this color's pawns advance, in ranks.
    pub open spec fn forward(self) -> int {
        match self {
            Color::White => 1,
            Color::Black => -1,
        }
    }

    /// The rank on which this color's king and rooks start.
    pub open spec fn home_rank(self) -> int {
        match self {
            Color::White => 0,
            Color::Black => 7,
        }
    }

    /// The other color.
    #[must_use]
    pub fn opposite(self) -> (color: Color)
        ensures
            color == self.other(),
    {
        match self {
            Color::White => Color::Black,
            Color::Black => Color::White,
        }
    }
}

/// A chess piece type, independent of color.
#[derive(Debug, Clone, Copy, PartialEq, Eq, Hash, Structural)]
pub enum PieceKind {
    Pawn,
    Knight,
    Bishop,
    Rook,
    Queen,
    King,
}

/// A piece: a kind plus the color that owns it.
#[derive(Debug, Clone, Copy, PartialEq, Eq, Hash, Structural)]
pub struct Piece {
    pub kind: PieceKind,
    pub color: Color,
}

impl Piece {
    /// The piece of the given kind and color.
    #[must_use]
    pub fn new(kind: PieceKind, color: Color) -> (piece: Piece)
        ensures
            piece.kind == kind,
            piece.color == color,
    {
        Piece { kind, color }
    }
}

/// Taking the opposite color twice changes nothing, and once always does.
pub proof fn opposite_is_an_involution(color: Color)
    ensures
        color.other().other() == color,
        color.other() != color,
{
}

} // verus!
