//! The position identity that an experience book is keyed by.
//!
//! A book key is deliberately computed under its own seeds rather than being
//! `Position::zobrist_hash`: that hash is a detail of the search and may
//! change for its sake, while a book artifact is meant to survive many
//! versions of the engine unchanged.

use crate::chess::position::{Position, PositionView};
use crate::chess::zobrist::{self, KeySeeds};
use vstd::prelude::*;

verus! {

/// The version of the key scheme. It changes whenever what a key is made of
/// changes, so that an artifact built under one scheme is never misread
/// under another.
pub const KEY_SCHEME_VERSION: u16 = 1;

pub const BOOK_PIECE_SQUARE_SEED: u64 = 0xB00C_1357_9BDF_2468;

pub const BOOK_SIDE_TO_MOVE_SEED: u64 = 0xB00C_C0FF_EE00_D15E;

pub const BOOK_CASTLING_SEED: u64 = 0xB00C_FEED_FACE_CAFE;

pub const BOOK_EN_PASSANT_SEED: u64 = 0xB00C_DEAD_BEEF_1234;

/// The seeds of the book's hashing scheme.
pub open spec fn book_seeds() -> KeySeeds {
    KeySeeds {
        piece_square: BOOK_PIECE_SQUARE_SEED,
        side_to_move: BOOK_SIDE_TO_MOVE_SEED,
        castling: BOOK_CASTLING_SEED,
        en_passant: BOOK_EN_PASSANT_SEED,
    }
}

/// The book key of a position: every occupied square, the side to move, the
/// castling rights and the en passant square, but neither of the clocks.
pub open spec fn book_key(p: PositionView) -> u64 {
    zobrist::position_hash(book_seeds(), p)
}

/// Computes the book key of `position`.
#[must_use]
pub fn book_position_key(position: &Position) -> (key: u64)
    ensures
        key == book_key(position@),
{
    let seeds = KeySeeds {
        piece_square: BOOK_PIECE_SQUARE_SEED,
        side_to_move: BOOK_SIDE_TO_MOVE_SEED,
        castling: BOOK_CASTLING_SEED,
        en_passant: BOOK_EN_PASSANT_SEED,
    };
    zobrist::hash_position(&seeds, position)
}

/// Positions that differ only in their clocks have the same book key: the
/// same position reached at another point of another game is the same to a
/// book.
pub proof fn book_key_ignores_clocks(p: PositionView, q: PositionView)
    requires
        p.board == q.board,
        p.side == q.side,
        p.rights == q.rights,
        p.ep == q.ep,
    ensures
        book_key(p) == book_key(q),
{
    zobrist::hash_ignores_clocks(book_seeds(), p, q);
}

} // verus!
