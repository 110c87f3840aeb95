//! Castling rights.

use vstd::prelude::*;

verus! {

/// Which castling moves are still available, tracked independently of
/// whether a castling move is currently legal (that also depends on
/// attacked squares and empty squares, checked at move-generation time).
#[derive(Debug, Clone, Copy, PartialEq, Eq, Structural)]
pub struct CastlingRights {
    pub white_kingside: bool,
    pub white_queenside: bool,
    pub black_kingside: bool,
    pub black_queenside: bool,
}

impl CastlingRights {
    /// All four rights.
    pub open spec fn every() -> CastlingRights {
        CastlingRights {
            white_kingside: true,
            white_queenside: true,
            black_kingside: true,
            black_queenside: true,
        }
    }

    /// None of the rights.
    pub open spec fn nothing() -> CastlingRights {
        CastlingRights {
            white_kingside: false,
            white_queenside: false,
            black_kingside: false,
            black_queenside: false,
        }
    }

    /// All four castling rights available, as at the start of a game.
    #[must_use]
    pub fn all() -> (rights: CastlingRights)
        ensures
            rights == CastlingRights::every(),
    {
        CastlingRights {
            white_kingside: true,
            white_queenside: true,
            black_kingside: true,
            black_queenside: true,
        }
    }

    /// No castling rights available.
    #[must_use]
    pub fn none() -> (rights: CastlingRights)
        ensures
            rights == CastlingRights::nothing(),
    {
        CastlingRights {
            white_kingside: false,
            white_queenside: false,
            black_kingside: false,
            black_queenside: false,
        }
    }
}

impl Default for CastlingRights {
    fn default() -> (rights: CastlingRights)
        ensures
            rights == CastlingRights::nothing(),
    {
        CastlingRights::none()
    }
}

} // verus!
