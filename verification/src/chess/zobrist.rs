//! Zobrist hashing: a single `u64` fingerprint of a `Position`, used for
//! repetition detection (three identical positions => draw) and
//! transposition table indexing.
//!
//! The hash is deliberately **not** stored as a `Position` field: it is
//! computed fresh by `Position::zobrist_hash()` from the board, side to
//! move, castling rights, and en passant square, so it can never silently
//! desync from the position it describes.
//!
//! The keys are the successive outputs of fixed-seed splitmix64
//! generators, so they are the same in every build and on every platform.
//! Each key is computed where it is needed: the state after `i` steps is
//! the seed plus `i` times a constant, so any output can be had directly.
//!
//! En passant is hashed by target square whenever one is set, not only
//! when a pawn could actually capture there.

use super::castling::CastlingRights;
use super::piece::{Color, Piece, PieceKind};
use super::position::{Position, PositionView};
use super::square::Square;
use vstd::prelude::*;

verus! {

broadcast use {super::position::lemma_board_len, super::square::lemma_at_idx};

/// What a splitmix64 generator adds to its state with every step.
pub const SPLITMIX_STEP: u64 = 0x9E37_79B9_7F4A_7C15;

pub const PIECE_SQUARE_SEED: u64 = 0x1357_9BDF_2468_ACE0;

pub const SIDE_TO_MOVE_SEED: u64 = 0xC0FF_EE00_D15E_A5E5;

pub const CASTLING_SEED: u64 = 0xFEED_FACE_CAFE_BEEF;

pub const EN_PASSANT_SEED: u64 = 0xDEAD_BEEF_1234_5678;

/// The output of a splitmix64 generator in the given state.
pub open spec fn splitmix_output(state: u64) -> u64 {
    let a = (state ^ (state >> 30)).wrapping_mul(0xBF58_476D_1CE4_E5B9);
    let b = (a ^ (a >> 27)).wrapping_mul(0x94D0_49BB_1331_11EB);
    b ^ (b >> 31)
}

/// The state of a splitmix64 generator after `n` steps from `seed`.
pub open spec fn splitmix_state(seed: u64, n: nat) -> u64
    decreases n,
{
    if n == 0 {
        seed
    } else {
        splitmix_state(seed, (n - 1) as nat).wrapping_add(SPLITMIX_STEP)
    }
}

/// The `index`-th output (from zero) of the generator started from `seed`.
pub open spec fn splitmix_key(seed: u64, index: nat) -> u64 {
    splitmix_output(splitmix_state(seed, index + 1))
}

/// The four seeds of a hashing scheme.
#[derive(Clone, Copy)]
pub struct KeySeeds {
    pub piece_square: u64,
    pub side_to_move: u64,
    pub castling: u64,
    pub en_passant: u64,
}

/// Which key belongs to a piece on a square: six kinds of two colors on 64 squares.
pub open spec fn piece_square_number(piece: Piece, sq: int) -> int {
    let kind = match piece.kind {
        PieceKind::Pawn => 0int,
        PieceKind::Knight => 1,
        PieceKind::Bishop => 2,
        PieceKind::Rook => 3,
        PieceKind::Queen => 4,
        PieceKind::King => 5,
    };
    let color = match piece.color {
        Color::White => 0int,
        Color::Black => 1,
    };
    (kind * 2 + color) * 64 + sq
}

/// What the first `n` squares contribute to a hash: the exclusive or of the
/// keys of the pieces on them.
pub open spec fn board_hash(seeds: KeySeeds, board: Seq<Option<Piece>>, n: nat) -> u64
    decreases n,
{
    if n == 0 {
        0
    } else {
        let rest = board_hash(seeds, board, (n - 1) as nat);
        match board[n - 1] {
            Some(piece) => rest ^ splitmix_key(
                seeds.piece_square,
                piece_square_number(piece, n - 1) as nat,
            ),
            None => rest,
        }
    }
}

/// `hash` with the `index`-th castling key added if the right is held.
pub open spec fn with_castling(seeds: KeySeeds, hash: u64, held: bool, index: nat) -> u64 {
    if held {
        hash ^ splitmix_key(seeds.castling, index)
    } else {
        hash
    }
}

/// `hash` with the keys of the held castling rights added.
pub open spec fn with_rights(seeds: KeySeeds, hash: u64, rights: CastlingRights) -> u64 {
    let a = with_castling(seeds, hash, rights.white_kingside, 0);
    let b = with_castling(seeds, a, rights.white_queenside, 1);
    let c = with_castling(seeds, b, rights.black_kingside, 2);
    with_castling(seeds, c, rights.black_queenside, 3)
}

/// The fingerprint of a position under a hashing scheme: the exclusive or of
/// the keys of everything that makes the position what it is.
pub open spec fn position_hash(seeds: KeySeeds, p: PositionView) -> u64 {
    let board = board_hash(seeds, p.board, 64);
    let sided = if p.side == Color::Black {
        board ^ splitmix_key(seeds.side_to_move, 0)
    } else {
        board
    };
    let righted = with_rights(seeds, sided, p.rights);
    match p.ep {
        Some(sq) => righted ^ splitmix_key(seeds.en_passant, sq as nat),
        None => righted,
    }
}

impl PositionView {
    /// The seeds of the hash that search and repetition detection use.
    pub open spec fn search_seeds() -> KeySeeds {
        KeySeeds {
            piece_square: PIECE_SQUARE_SEED,
            side_to_move: SIDE_TO_MOVE_SEED,
            castling: CASTLING_SEED,
            en_passant: EN_PASSANT_SEED,
        }
    }

    /// The position's Zobrist hash.
    #[verifier::opaque]
    pub open spec fn hash(self) -> u64 {
        position_hash(Self::search_seeds(), self)
    }
}

/// Adding a step to a sum kept modulo 2^64 gives the next sum modulo 2^64.
proof fn lemma_wrapped_step(x: int, step: u64)
    requires
        x >= 0,
    ensures
        ((x % 0x1_0000_0000_0000_0000) as u64).wrapping_add(step) as int == (x + step)
            % 0x1_0000_0000_0000_0000,
{
}

/// After `n` steps the state is the seed plus `n` times the step, modulo 2^64.
pub(crate) proof fn lemma_splitmix_state(seed: u64, n: nat)
    ensures
        splitmix_state(seed, n) as int == (seed + n * (SPLITMIX_STEP as int))
            % 0x1_0000_0000_0000_0000,
    decreases n,
{
    let step = SPLITMIX_STEP as int;
    if n > 0 {
        let before = seed + (n - 1) * step;
        lemma_splitmix_state(seed, (n - 1) as nat);
        assert(seed + n * step == before + step && before >= 0) by (nonlinear_arith)
            requires
                n > 0,
                step >= 0,
                before == seed + (n - 1) * step,
        ;
        lemma_wrapped_step(before, SPLITMIX_STEP);
    } else {
        assert(n * step == 0) by (nonlinear_arith)
            requires
                n == 0,
        ;
    }
}

/// Adding a product kept modulo 2^64 is adding the product modulo 2^64.
proof fn lemma_wrapped_product(seed: u64, product: int)
    requires
        product >= 0,
    ensures
        seed.wrapping_add((product % 0x1_0000_0000_0000_0000) as u64) as int == (seed + product)
            % 0x1_0000_0000_0000_0000,
{
}

/// The state of the generator with the given seed after `n` steps.
fn splitmix_state_at(seed: u64, n: u64) -> (state: u64)
    ensures
        state == splitmix_state(seed, n as nat),
{
    let step: u64 = SPLITMIX_STEP;
    proof {
        let product = (n as int) * (step as int);
        assert(product >= 0) by (nonlinear_arith)
            requires
                product == (n as int) * (step as int),
                n >= 0,
                step >= 0,
        ;
        lemma_splitmix_state(seed, n as nat);
        lemma_wrapped_product(seed, product);
        assert(n.wrapping_mul(step) as int == product % 0x1_0000_0000_0000_0000);
    }
    seed.wrapping_add(n.wrapping_mul(step))
}

/// The `index`-th output of the splitmix64 generator with the given seed.
pub(crate) fn splitmix_key_at(seed: u64, index: u64) -> (key: u64)
    requires
        index < 1024,
    ensures
        key == splitmix_key(seed, index as nat),
{
    splitmix_output_of(splitmix_state_at(seed, index + 1))
}

/// The output of a splitmix64 generator in the given state.
pub(crate) fn splitmix_output_of(state: u64) -> (output: u64)
    ensures
        output == splitmix_output(state),
{
    let a: u64 = (state ^ (state >> 30)).wrapping_mul(0xBF58_476D_1CE4_E5B9);
    let b: u64 = (a ^ (a >> 27)).wrapping_mul(0x94D0_49BB_1331_11EB);
    b ^ (b >> 31)
}

fn piece_square_index(piece: Piece, square: Square) -> (index: u64)
    ensures
        index == piece_square_number(piece, square.idx()),
        index < 768,
{
    let kind_index: u64 = match piece.kind {
        PieceKind::Pawn => 0,
        PieceKind::Knight => 1,
        PieceKind::Bishop => 2,
        PieceKind::Rook => 3,
        PieceKind::Queen => 4,
        PieceKind::King => 5,
    };
    let color_index: u64 = match piece.color {
        Color::White => 0,
        Color::Black => 1,
    };
    (kind_index * 2 + color_index) * 64 + square.index() as u64
}

/// Computes the fingerprint of `position` under the given scheme.
pub(crate) fn hash_position(seeds: &KeySeeds, position: &Position) -> (hash: u64)
    ensures
        hash == position_hash(*seeds, position@),
{
    let mut hash: u64 = 0;
    let mut index: u8 = 0;
    while index < 64
        invariant
            index <= 64,
            hash == board_hash(*seeds, position@.board, index as nat),
        decreases 64 - index,
    {
        let square = Square::new(index);
        if let Some(piece) = position.piece_at(square) {
            hash = hash ^ splitmix_key_at(seeds.piece_square, piece_square_index(piece, square));
        }
        index += 1;
    }
    if position.side_to_move() == Color::Black {
        hash = hash ^ splitmix_key_at(seeds.side_to_move, 0);
    }
    let rights = position.castling_rights();
    if rights.white_kingside {
        hash = hash ^ splitmix_key_at(seeds.castling, 0);
    }
    if rights.white_queenside {
        hash = hash ^ splitmix_key_at(seeds.castling, 1);
    }
    if rights.black_kingside {
        hash = hash ^ splitmix_key_at(seeds.castling, 2);
    }
    if rights.black_queenside {
        hash = hash ^ splitmix_key_at(seeds.castling, 3);
    }
    if let Some(square) = position.en_passant_square() {
        hash = hash ^ splitmix_key_at(seeds.en_passant, square.index() as u64);
    }
    hash
}

impl Position {
    /// Computes this position's Zobrist hash from scratch: every
    /// occupied square, side to move, castling rights, and en passant
    /// square. See the module docs for why this isn't incrementally
    /// cached on `Position` itself.
    #[must_use]
    pub fn zobrist_hash(&self) -> (hash: u64)
        ensures
            hash == self@.hash(),
    {
        proof {
            reveal(PositionView::hash);
        }
        let seeds = KeySeeds {
            piece_square: PIECE_SQUARE_SEED,
            side_to_move: SIDE_TO_MOVE_SEED,
            castling: CASTLING_SEED,
            en_passant: EN_PASSANT_SEED,
        };
        hash_position(&seeds, self)
    }
}

/// A fingerprint depends on the board, the side to move, castling rights and
/// en passant square alone: positions that differ only in their clocks have
/// the same one.
pub proof fn hash_ignores_clocks(seeds: KeySeeds, p: PositionView, q: PositionView)
    requires
        p.board == q.board,
        p.side == q.side,
        p.rights == q.rights,
        p.ep == q.ep,
    ensures
        position_hash(seeds, p) == position_hash(seeds, q),
{
}

/// Adding one key to a hash before the castling keys adds it to what comes out.
proof fn lemma_with_castling(seeds: KeySeeds, hash: u64, key: u64, held: bool, index: nat)
    ensures
        with_castling(seeds, hash ^ key, held, index) == with_castling(seeds, hash, held, index)
            ^ key,
{
    let castling = splitmix_key(seeds.castling, index);
    assert((hash ^ key) ^ castling == (hash ^ castling) ^ key) by (bit_vector);
}

/// Positions that differ in the side to move, and otherwise at most in their
/// clocks, have fingerprints that differ by the side's key: whatever the
/// position, the exclusive or of the two is the same.
pub proof fn side_to_move_adds_one_key(seeds: KeySeeds, p: PositionView, q: PositionView)
    requires
        p.board == q.board,
        p.side != q.side,
        p.rights == q.rights,
        p.ep == q.ep,
    ensures
        position_hash(seeds, p) ^ position_hash(seeds, q) == splitmix_key(seeds.side_to_move, 0),
{
    let key = splitmix_key(seeds.side_to_move, 0);
    let board = board_hash(seeds, p.board, 64);
    let rights = p.rights;
    let a = with_castling(seeds, board, rights.white_kingside, 0);
    let b = with_castling(seeds, a, rights.white_queenside, 1);
    let c = with_castling(seeds, b, rights.black_kingside, 2);
    let d = with_castling(seeds, c, rights.black_queenside, 3);
    lemma_with_castling(seeds, board, key, rights.white_kingside, 0);
    lemma_with_castling(seeds, a, key, rights.white_queenside, 1);
    lemma_with_castling(seeds, b, key, rights.black_kingside, 2);
    lemma_with_castling(seeds, c, key, rights.black_queenside, 3);
    assert(with_rights(seeds, board ^ key, rights) == d ^ key);
    let passant = match p.ep {
        Some(sq) => splitmix_key(seeds.en_passant, sq as nat),
        None => 0u64,
    };
    assert(d ^ 0 == d && (d ^ key) ^ 0 == d ^ key) by (bit_vector);
    assert(((d ^ key) ^ passant) ^ (d ^ passant) == key && (d ^ passant) ^ ((d ^ key) ^ passant)
        == key) by (bit_vector);
}

/// The key of the side to move in the hash that search and repetition
/// detection use.
pub const SIDE_TO_MOVE_KEY: u64 = 0x5020_7435_8FAA_C661;

proof fn lemma_side_to_move_key()
    ensures
        splitmix_key(SIDE_TO_MOVE_SEED, 0) == SIDE_TO_MOVE_KEY,
{
    let state: u64 = 0x5F37_67BA_50A9_21FA;
    let a: u64 = 0x64A0_61FE_D036_13BB;
    let b: u64 = 0x5020_7435_2FEA_2E0B;
    assert(splitmix_state(SIDE_TO_MOVE_SEED, 0) == SIDE_TO_MOVE_SEED);
    assert(splitmix_state(SIDE_TO_MOVE_SEED, 1) == state);
    assert(0x5F37_67BA_50A9_21FAu64 ^ (0x5F37_67BA_50A9_21FAu64 >> 30) == 0x5F37_67BB_2C74_BF13u64) by (bit_vector);
    assert(0x5F37_67BB_2C74_BF13u64.wrapping_mul(0xBF58_476D_1CE4_E5B9) == a);
    assert(0x64A0_61FE_D036_13BBu64 ^ (0x64A0_61FE_D036_13BBu64 >> 27) == 0x64A0_61F2_443A_2C61u64) by (bit_vector);
    assert(0x64A0_61F2_443A_2C61u64.wrapping_mul(0x94D0_49BB_1331_11EB) == b);
    assert(0x5020_7435_2FEA_2E0Bu64 ^ (0x5020_7435_2FEA_2E0Bu64 >> 31) == 0x5020_7435_8FAA_C661u64) by (bit_vector);
}

/// Positions that differ in the side to move, and otherwise at most in their
/// clocks, have hashes whose exclusive or is one fixed key that is not zero.
/// So the hashes differ.
pub proof fn side_to_move_changes_the_hash(p: PositionView, q: PositionView)
    requires
        p.board == q.board,
        p.side != q.side,
        p.rights == q.rights,
        p.ep == q.ep,
    ensures
        p.hash() ^ q.hash() == SIDE_TO_MOVE_KEY,
        SIDE_TO_MOVE_KEY != 0,
        p.hash() != q.hash(),
{
    reveal(PositionView::hash);
    side_to_move_adds_one_key(PositionView::search_seeds(), p, q);
    lemma_side_to_move_key();
    let hash = p.hash();
    assert(hash ^ hash == 0) by (bit_vector);
}

/// Making a reversible move and taking it back leaves the hash as it was.
pub proof fn hash_survives_make_and_unmake(p: PositionView, mv: super::moves::Move)
    requires
        p.board.len() == 64,
        p.reversible(mv),
    ensures
        p.made(mv).unmade(mv, p.undo_of(mv)).hash() == p.hash(),
{
    super::make_unmake::unmake_restores(p, mv);
}

} // verus!
