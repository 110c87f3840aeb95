//! Static Exchange Evaluation (SEE) support.
//!
//! SEE answers "if both sides keep capturing on this one square with
//! their cheapest available attacker, who comes out ahead materially?"
//! -- a cheap way to judge a capture sequence without a real search.
//! This module supplies the one primitive the simulation loop (in
//! `crate::search`) needs repeatedly: "of every piece of `color` currently
//! attacking `square`, which one is cheapest to move there?" -- called
//! again after each simulated capture removes a piece, since removing an
//! attacker can reveal a new one behind it (an x-ray attack, e.g. a rook
//! standing behind a knight that just captured).

use super::movegen::{BISHOP_DIRECTIONS, KING_OFFSETS, KNIGHT_OFFSETS, ROOK_DIRECTIONS};
use super::piece::{Color, PieceKind};
use super::position::{Position, PositionView};
use super::square::Square;
use vstd::prelude::*;

verus! {

broadcast use {super::position::lemma_board_len, super::square::lemma_at_idx};

impl PieceKind {
    /// The order in which attackers are preferred, cheapest first.
    pub open spec fn attacker_rank(self) -> int {
        match self {
            PieceKind::Pawn => 0,
            PieceKind::Knight => 1,
            PieceKind::Bishop => 2,
            PieceKind::Rook => 3,
            PieceKind::Queen => 4,
            PieceKind::King => 5,
        }
    }
}

impl PositionView {
    /// Where a queen of `color` that attacks `sq` stands, the diagonals before
    /// the ranks and files.
    pub open spec fn queen_origin(self, sq: int, color: Color) -> Option<int> {
        match self.slide_origin(sq, BISHOP_DIRECTIONS@, 0, PieceKind::Queen, color) {
            Some(from) => Some(from),
            None => self.slide_origin(sq, ROOK_DIRECTIONS@, 0, PieceKind::Queen, color),
        }
    }

    /// The cheapest attacker of `color` on `sq`, with its square: pawn before
    /// knight before bishop before rook before queen before king, and among
    /// equals the one that looking outward in the usual order finds first.
    pub open spec fn least_attacker(self, sq: int, color: Color) -> Option<(int, PieceKind)> {
        if let Some(from) = self.jump_origin(
            sq,
            super::attacks::pawn_origins(color),
            0,
            PieceKind::Pawn,
            color,
        ) {
            Some((from, PieceKind::Pawn))
        } else if let Some(from) = self.jump_origin(
            sq,
            KNIGHT_OFFSETS@,
            0,
            PieceKind::Knight,
            color,
        ) {
            Some((from, PieceKind::Knight))
        } else if let Some(from) = self.slide_origin(
            sq,
            BISHOP_DIRECTIONS@,
            0,
            PieceKind::Bishop,
            color,
        ) {
            Some((from, PieceKind::Bishop))
        } else if let Some(from) = self.slide_origin(
            sq,
            ROOK_DIRECTIONS@,
            0,
            PieceKind::Rook,
            color,
        ) {
            Some((from, PieceKind::Rook))
        } else if let Some(from) = self.queen_origin(sq, color) {
            Some((from, PieceKind::Queen))
        } else if let Some(from) = self.jump_origin(sq, KING_OFFSETS@, 0, PieceKind::King, color) {
            Some((from, PieceKind::King))
        } else {
            None
        }
    }
}

/// An attacker found with its square, in terms of indices.
pub open spec fn attacker_view(found: Option<(Square, PieceKind)>) -> Option<(int, PieceKind)> {
    match found {
        Some((square, kind)) => Some((square.idx(), kind)),
        None => None,
    }
}

impl Position {
    /// The cheapest piece of `color` currently attacking `square`, if
    /// any -- `(attacker_square, attacker_kind)`. "Cheapest" uses the
    /// same classical material ordering SEE's own simulation compares
    /// exchanges with (pawn < knight/bishop < rook < queen < king);
    /// ties (e.g. two rooks) resolve to whichever this scans first.
    ///
    /// Looks outward from `square` along each attack pattern (pawn,
    /// knight, then bishop/rook sliding directions, then king), rather than
    /// generating every pseudo-legal move for `color` and filtering by
    /// destination.
    #[must_use]
    pub fn least_valuable_attacker(&self, square: Square, color: Color) -> (found: Option<
        (Square, PieceKind),
    >)
        ensures
            attacker_view(found) == self@.least_attacker(square.idx(), color),
    {
        proof {
            super::movegen::lemma_tables();
        }
        // Checked in ascending material order so the first match found
        // is already the cheapest -- no need to collect every attacker
        // and sort.
        if let Some(from) = self.pawn_attacker(square, color) {
            return Some((from, PieceKind::Pawn));
        }
        if let Some(from) = self.jump_attacker(square, color, &KNIGHT_OFFSETS, PieceKind::Knight) {
            return Some((from, PieceKind::Knight));
        }
        // Bishops and knights share a material value in this engine's
        // classical scale, so a bishop is checked right after knights,
        // before rooks.
        if let Some(from) = self.sliding_attacker(
            square,
            color,
            &BISHOP_DIRECTIONS,
            PieceKind::Bishop,
        ) {
            return Some((from, PieceKind::Bishop));
        }
        if let Some(from) = self.sliding_attacker(square, color, &ROOK_DIRECTIONS, PieceKind::Rook) {
            return Some((from, PieceKind::Rook));
        }
        if let Some(from) = self.queen_attacker(square, color) {
            return Some((from, PieceKind::Queen));
        }
        if let Some(from) = self.jump_attacker(square, color, &KING_OFFSETS, PieceKind::King) {
            return Some((from, PieceKind::King));
        }
        None
    }

    /// A queen specifically (not "a bishop/rook slider or a queen").
    fn queen_attacker(&self, square: Square, color: Color) -> (from: Option<Square>)
        ensures
            Square::index_of(from) == self@.queen_origin(square.idx(), color),
    {
        proof {
            super::movegen::lemma_tables();
        }
        if let Some(from) = self.sliding_attacker(
            square,
            color,
            &BISHOP_DIRECTIONS,
            PieceKind::Queen,
        ) {
            return Some(from);
        }
        self.sliding_attacker(square, color, &ROOK_DIRECTIONS, PieceKind::Queen)
    }
}

/// There is a cheapest attacker exactly if the square is attacked; it is then
/// a piece of that color and kind that attacks the square, and no attacker
/// comes before it in the order of preference.
pub proof fn least_attacker_is_cheapest(p: PositionView, sq: int, color: Color)
    requires
        p.board.len() == 64,
        0 <= sq < 64,
    ensures
        p.least_attacker(sq, color) is Some <==> p.attacked(sq, color),
        p.least_attacker(sq, color) matches Some((from, kind)) ==> {
            &&& 0 <= from < 64
            &&& p.holds(from, kind, color)
            &&& p.attacks(from, sq, color)
            &&& forall|other: int|
                0 <= other < 64 && #[trigger] p.attacks(other, sq, color) ==> kind.attacker_rank()
                    <= (p.board[other]->0).kind.attacker_rank()
        },
{
    super::attacks::lemma_attacked_by_scans(p, sq, color);
    super::attacks::lemma_pawn_scan(p, sq, color);
    super::attacks::lemma_knight_scan(p, sq, color);
    super::attacks::lemma_king_scan(p, sq, color);
    super::attacks::lemma_diagonal_scan(p, sq, PieceKind::Bishop, color);
    super::attacks::lemma_diagonal_scan(p, sq, PieceKind::Queen, color);
    super::attacks::lemma_straight_scan(p, sq, PieceKind::Rook, color);
    super::attacks::lemma_straight_scan(p, sq, PieceKind::Queen, color);
    if let Some((from, kind)) = p.least_attacker(sq, color) {
        assert forall|other: int|
            0 <= other < 64 && #[trigger] p.attacks(other, sq, color) implies kind.attacker_rank()
            <= (p.board[other]->0).kind.attacker_rank() by {
            let piece = p.board[other]->0;
            assert(p.holds(other, piece.kind, color));
            assert(piece.kind == PieceKind::Bishop ==> p.reaches_diagonally(other, sq));
            assert(piece.kind == PieceKind::Rook ==> p.reaches_straight(other, sq));
            assert(piece.kind == PieceKind::Queen ==> p.reaches_diagonally(other, sq)
                || p.reaches_straight(other, sq));
        }
    }
}

} // verus!
