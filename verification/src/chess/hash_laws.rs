//! What a fingerprint tells apart: whatever changes in one place of a position
//! changes its hash.

use super::castling::CastlingRights;
use super::piece::{Color, Piece};
use super::position::PositionView;
use super::zobrist::{self, KeySeeds, SPLITMIX_STEP};
use vstd::arithmetic::div_mod::{
    lemma_add_mod_noop_right, lemma_mod_multiples_vanish, lemma_mul_mod_noop_left, lemma_small_mod,
};
use vstd::prelude::*;

verus! {

broadcast use super::position::lemma_board_len;

/// The number of 64-bit words.
pub const WORDS: u128 = 0x1_0000_0000_0000_0000;

/// Multiplying by an odd constant and then by its inverse gives a word back.
proof fn lemma_inverse(a: int, c: int, inverse: int, k: int)
    requires
        0 <= a < WORDS,
        c * inverse == 1 + k * WORDS,
        c > 0,
    ensures
        (((a * c) % (WORDS as int)) * inverse) % (WORDS as int) == a,
{
    let m = WORDS as int;
    lemma_mul_mod_noop_left(a * c, inverse, m);
    assert((a * c) * inverse == m * (a * k) + a) by (nonlinear_arith)
        requires
            c * inverse == 1 + k * m,
    ;
    lemma_mod_multiples_vanish(a * k, a, m);
    lemma_small_mod(a as nat, m as nat);
}

spec fn first_factor() -> int {
    0xBF58_476D_1CE4_E5B9
}

spec fn second_factor() -> int {
    0x94D0_49BB_1331_11EB
}

proof fn lemma_first_factor(a: u64, b: u64)
    requires
        a.wrapping_mul(0xBF58_476D_1CE4_E5B9) == b.wrapping_mul(0xBF58_476D_1CE4_E5B9),
    ensures
        a == b,
{
    let inverse = 0x96de_1b17_3f11_9089int;
    let k = (first_factor() * inverse) / (WORDS as int);
    assert(first_factor() * inverse == 1 + k * WORDS);
    lemma_inverse(a as int, first_factor(), inverse, k);
    lemma_inverse(b as int, first_factor(), inverse, k);
}

proof fn lemma_second_factor(a: u64, b: u64)
    requires
        a.wrapping_mul(0x94D0_49BB_1331_11EB) == b.wrapping_mul(0x94D0_49BB_1331_11EB),
    ensures
        a == b,
{
    let inverse = 0x3196_42b2_d24d_8ec3int;
    let k = (second_factor() * inverse) / (WORDS as int);
    assert(second_factor() * inverse == 1 + k * WORDS);
    lemma_inverse(a as int, second_factor(), inverse, k);
    lemma_inverse(b as int, second_factor(), inverse, k);
}

/// Different states of a generator have different outputs.
pub proof fn outputs_tell_states_apart(x: u64, y: u64)
    requires
        zobrist::splitmix_output(x) == zobrist::splitmix_output(y),
    ensures
        x == y,
{
    let a = (x ^ (x >> 30)).wrapping_mul(0xBF58_476D_1CE4_E5B9);
    let b = (a ^ (a >> 27)).wrapping_mul(0x94D0_49BB_1331_11EB);
    let c = (y ^ (y >> 30)).wrapping_mul(0xBF58_476D_1CE4_E5B9);
    let d = (c ^ (c >> 27)).wrapping_mul(0x94D0_49BB_1331_11EB);
    assert(b ^ (b >> 31) == d ^ (d >> 31) ==> b == d) by (bit_vector);
    lemma_second_factor(a ^ (a >> 27), c ^ (c >> 27));
    assert(a ^ (a >> 27) == c ^ (c >> 27) ==> a == c) by (bit_vector);
    lemma_first_factor(x ^ (x >> 30), y ^ (y >> 30));
    assert(x ^ (x >> 30) == y ^ (y >> 30) ==> x == y) by (bit_vector);
}

/// Only the state zero has the output zero.
proof fn lemma_zero_output(x: u64)
    requires
        zobrist::splitmix_output(x) == 0,
    ensures
        x == 0,
{
    assert(0u64 ^ (0u64 >> 30) == 0) by (bit_vector);
    assert(0u64 ^ (0u64 >> 27) == 0) by (bit_vector);
    assert(0u64 ^ (0u64 >> 31) == 0) by (bit_vector);
    assert(0u64.wrapping_mul(0xBF58_476D_1CE4_E5B9) == 0);
    assert(0u64.wrapping_mul(0x94D0_49BB_1331_11EB) == 0);
    outputs_tell_states_apart(x, 0);
}

spec fn step_inverse() -> int {
    0xf1de_83e1_9937_733d
}

/// How many steps a state is away from zero, and how the seed matters.
proof fn lemma_steps(seed: u64, n: nat)
    requires
        n < WORDS,
    ensures
        (zobrist::splitmix_state(seed, n) * step_inverse()) % (WORDS as int) == (seed
            * step_inverse() + n) % (WORDS as int),
{
    let m = WORDS as int;
    let step = SPLITMIX_STEP as int;
    let k = (step * step_inverse()) / m;
    assert(step * step_inverse() == 1 + k * m);
    zobrist::lemma_splitmix_state(seed, n);
    let total = seed + n * step;
    lemma_mul_mod_noop_left(total, step_inverse(), m);
    assert(total * step_inverse() == m * (n * k) + (seed * step_inverse() + n)) by (nonlinear_arith)
        requires
            total == seed + n * step,
            step * step_inverse() == 1 + k * m,
    ;
    lemma_mod_multiples_vanish(n * k, seed * step_inverse() + n, m);
}

/// The keys of one generator are all different.
pub proof fn keys_are_different(seed: u64, i: nat, j: nat)
    requires
        i < j < 1024,
    ensures
        zobrist::splitmix_key(seed, i) != zobrist::splitmix_key(seed, j),
{
    if zobrist::splitmix_key(seed, i) == zobrist::splitmix_key(seed, j) {
        outputs_tell_states_apart(
            zobrist::splitmix_state(seed, i + 1),
            zobrist::splitmix_state(seed, j + 1),
        );
        lemma_steps(seed, i + 1);
        lemma_steps(seed, j + 1);
        let s = seed * step_inverse();
        let m = WORDS as int;
        vstd::arithmetic::div_mod::lemma_fundamental_div_mod(s + (i + 1), m);
        vstd::arithmetic::div_mod::lemma_fundamental_div_mod(s + (j + 1), m);
        let a = (s + (i + 1)) / m;
        let b = (s + (j + 1)) / m;
        assert(j - i == m * b - m * a);
        assert(false) by (nonlinear_arith)
            requires
                j - i == m * b - m * a,
                0 < j - i < 1024,
                m == 0x1_0000_0000_0000_0000,
        ;
    }
}

/// Whether no key of a generator that a position can need is zero.
pub open spec fn sound_seed(seed: u64) -> bool {
    forall|i: nat| i < 1024 ==> #[trigger] zobrist::splitmix_key(seed, i) != 0
}

proof fn lemma_sound_seed(seed: u64, steps: int)
    requires
        (seed * step_inverse()) % (WORDS as int) == steps,
        0 <= steps < WORDS - 2000,
    ensures
        sound_seed(seed),
{
    assert forall|i: nat| i < 1024 implies #[trigger] zobrist::splitmix_key(seed, i) != 0 by {
        if zobrist::splitmix_key(seed, i) == 0 {
            lemma_zero_output(zobrist::splitmix_state(seed, i + 1));
            lemma_steps(seed, i + 1);
            let s = seed * step_inverse();
            lemma_add_mod_noop_right((i + 1) as int, s, WORDS as int);
            lemma_small_mod((steps + i + 1) as nat, WORDS as nat);
            assert(0 * step_inverse() == 0);
        }
    }
}

/// The seeds that search and books use have no key that is zero.
pub proof fn seeds_are_sound()
    ensures
        sound_seed(PositionView::search_seeds().piece_square),
        sound_seed(PositionView::search_seeds().castling),
        sound_seed(PositionView::search_seeds().en_passant),
        sound_seed(crate::book::key::book_seeds().piece_square),
        sound_seed(crate::book::key::book_seeds().castling),
        sound_seed(crate::book::key::book_seeds().en_passant),
{
    lemma_sound_seed(zobrist::PIECE_SQUARE_SEED, 3120805656466674016);
    lemma_sound_seed(zobrist::CASTLING_SEED, 8645682432849337331);
    lemma_sound_seed(zobrist::EN_PASSANT_SEED, 13815210260410434200);
    lemma_sound_seed(crate::book::key::BOOK_PIECE_SQUARE_SEED, 10122974860056356040);
    lemma_sound_seed(crate::book::key::BOOK_CASTLING_SEED, 3569247140465637510);
    lemma_sound_seed(crate::book::key::BOOK_EN_PASSANT_SEED, 5553394766207562340);
}

/// What the content of a square adds to a hash.
spec fn content_key(seeds: KeySeeds, content: Option<Piece>, i: int) -> u64 {
    match content {
        Some(piece) => zobrist::splitmix_key(
            seeds.piece_square,
            zobrist::piece_square_number(piece, i) as nat,
        ),
        None => 0,
    }
}

proof fn lemma_same_key(a: u64, b: u64, x: u64)
    ensures
        (a ^ x) ^ (b ^ x) == a ^ b,
        (a ^ x) ^ a == x,
        a ^ (a ^ x) == x,
        (a ^ x) ^ (a ^ b) == x ^ b,
        a ^ a == 0,
        a ^ b == 0 ==> a == b,
        a ^ 0 == a,
        0 ^ a == a,
{
    assert((a ^ x) ^ (b ^ x) == a ^ b && (a ^ x) ^ a == x && a ^ (a ^ x) == x && (a ^ x) ^ (a ^ b)
        == x ^ b && a ^ a == 0 && (a ^ b == 0 ==> a == b) && a ^ 0 == a && 0 ^ a == a)
        by (bit_vector);
}

proof fn lemma_one_square(
    seeds: KeySeeds,
    a: Seq<Option<Piece>>,
    b: Seq<Option<Piece>>,
    k: int,
    n: nat,
)
    requires
        a.len() == 64,
        b.len() == 64,
        n <= 64,
        0 <= k < 64,
        forall|i: int| 0 <= i < 64 && i != k ==> #[trigger] a[i] == b[i],
    ensures
        n <= k ==> zobrist::board_hash(seeds, a, n) == zobrist::board_hash(seeds, b, n),
        n > k ==> zobrist::board_hash(seeds, a, n) ^ zobrist::board_hash(seeds, b, n)
            == content_key(seeds, a[k], k) ^ content_key(seeds, b[k], k),
    decreases n,
{
    if n > 0 {
        lemma_one_square(seeds, a, b, k, (n - 1) as nat);
        let ha = zobrist::board_hash(seeds, a, (n - 1) as nat);
        let hb = zobrist::board_hash(seeds, b, (n - 1) as nat);
        let ca = content_key(seeds, a[n - 1], n - 1);
        let cb = content_key(seeds, b[n - 1], n - 1);
        lemma_same_key(ha, hb, ca);
        lemma_same_key(ha, cb, ca);
        lemma_same_key(hb, ha, cb);
        lemma_same_key(ca, cb, ca);
        lemma_same_key(cb, ca, cb);
        assert(zobrist::board_hash(seeds, a, n) == ha ^ ca);
        assert(zobrist::board_hash(seeds, b, n) == hb ^ cb);
        if n - 1 != k {
            assert(a[n - 1] == b[n - 1]);
        }
    }
}

/// Two pieces that differ, or stand on different squares, have different numbers.
pub proof fn piece_numbers_are_different(one: Piece, i: int, other: Piece, j: int)
    requires
        0 <= i < 64,
        0 <= j < 64,
        one != other || i != j,
    ensures
        zobrist::piece_square_number(one, i) != zobrist::piece_square_number(other, j),
        0 <= zobrist::piece_square_number(one, i) < 768,
{
}

/// The keys of side, rights and en passant square come on top of the board's.
proof fn lemma_on_top(seeds: KeySeeds, p: PositionView, q: PositionView)
    requires
        p.side == q.side,
        p.rights == q.rights,
        p.ep == q.ep,
    ensures
        zobrist::position_hash(seeds, p) ^ zobrist::position_hash(seeds, q) == zobrist::board_hash(
            seeds,
            p.board,
            64,
        ) ^ zobrist::board_hash(seeds, q.board, 64),
{
    let a = zobrist::board_hash(seeds, p.board, 64);
    let b = zobrist::board_hash(seeds, q.board, 64);
    let side = zobrist::splitmix_key(seeds.side_to_move, 0);
    lemma_same_key(a, b, side);
    let (a1, b1) = if p.side == Color::Black {
        (a ^ side, b ^ side)
    } else {
        (a, b)
    };
    lemma_rights_on_top(seeds, a1, b1, p.rights);
    let a2 = zobrist::with_rights(seeds, a1, p.rights);
    let b2 = zobrist::with_rights(seeds, b1, p.rights);
    if let Some(sq) = p.ep {
        lemma_same_key(a2, b2, zobrist::splitmix_key(seeds.en_passant, sq as nat));
    }
}

proof fn lemma_rights_on_top(seeds: KeySeeds, a: u64, b: u64, rights: CastlingRights)
    ensures
        zobrist::with_rights(seeds, a, rights) ^ zobrist::with_rights(seeds, b, rights) == a ^ b,
{
    let k0 = zobrist::splitmix_key(seeds.castling, 0);
    let k1 = zobrist::splitmix_key(seeds.castling, 1);
    let k2 = zobrist::splitmix_key(seeds.castling, 2);
    let k3 = zobrist::splitmix_key(seeds.castling, 3);
    lemma_same_key(a, b, k0);
    let a1 = zobrist::with_castling(seeds, a, rights.white_kingside, 0);
    let b1 = zobrist::with_castling(seeds, b, rights.white_kingside, 0);
    lemma_same_key(a1, b1, k1);
    let a2 = zobrist::with_castling(seeds, a1, rights.white_queenside, 1);
    let b2 = zobrist::with_castling(seeds, b1, rights.white_queenside, 1);
    lemma_same_key(a2, b2, k2);
    let a3 = zobrist::with_castling(seeds, a2, rights.black_kingside, 2);
    let b3 = zobrist::with_castling(seeds, b2, rights.black_kingside, 2);
    lemma_same_key(a3, b3, k3);
}

/// Positions that differ in what stands on one square have different
/// fingerprints.
pub proof fn every_square_counts(seeds: KeySeeds, p: PositionView, q: PositionView, k: int)
    requires
        sound_seed(seeds.piece_square),
        p.board.len() == 64,
        q.board.len() == 64,
        0 <= k < 64,
        p.board[k] != q.board[k],
        forall|i: int| 0 <= i < 64 && i != k ==> #[trigger] p.board[i] == q.board[i],
        p.side == q.side,
        p.rights == q.rights,
        p.ep == q.ep,
    ensures
        zobrist::position_hash(seeds, p) != zobrist::position_hash(seeds, q),
{
    lemma_on_top(seeds, p, q);
    lemma_one_square(seeds, p.board, q.board, k, 64);
    let a = content_key(seeds, p.board[k], k);
    let b = content_key(seeds, q.board[k], k);
    let h = zobrist::position_hash(seeds, p);
    lemma_same_key(h, h, h);
    lemma_same_key(a, b, a);
    lemma_same_key(b, a, b);
    match (p.board[k], q.board[k]) {
        (Some(one), Some(other)) => {
            piece_numbers_are_different(one, k, other, k);
            piece_numbers_are_different(other, k, one, k);
            let i = zobrist::piece_square_number(one, k) as nat;
            let j = zobrist::piece_square_number(other, k) as nat;
            if i < j {
                keys_are_different(seeds.piece_square, i, j);
            } else {
                keys_are_different(seeds.piece_square, j, i);
            }
        },
        (Some(one), None) => {
            lemma_number_small(one, k);
            assert(zobrist::splitmix_key(
                seeds.piece_square,
                zobrist::piece_square_number(one, k) as nat,
            ) != 0);
        },
        (None, Some(other)) => {
            lemma_number_small(other, k);
            assert(zobrist::splitmix_key(
                seeds.piece_square,
                zobrist::piece_square_number(other, k) as nat,
            ) != 0);
        },
        (None, None) => {},
    }
}

proof fn lemma_number_small(piece: Piece, i: int)
    requires
        0 <= i < 64,
    ensures
        0 <= zobrist::piece_square_number(piece, i) < 768,
{
}

/// Positions that differ in one castling right have different fingerprints.
pub proof fn every_right_counts(seeds: KeySeeds, p: PositionView, q: PositionView)
    requires
        sound_seed(seeds.castling),
        p.board == q.board,
        p.side == q.side,
        p.ep == q.ep,
        ({
            let (a, b) = (p.rights, q.rights);
            ||| a == (CastlingRights { white_kingside: !b.white_kingside, ..b })
            ||| a == (CastlingRights { white_queenside: !b.white_queenside, ..b })
            ||| a == (CastlingRights { black_kingside: !b.black_kingside, ..b })
            ||| a == (CastlingRights { black_queenside: !b.black_queenside, ..b })
        }),
    ensures
        zobrist::position_hash(seeds, p) != zobrist::position_hash(seeds, q),
{
    let board = zobrist::board_hash(seeds, p.board, 64);
    let h = if p.side == Color::Black {
        board ^ zobrist::splitmix_key(seeds.side_to_move, 0)
    } else {
        board
    };
    let k0 = zobrist::splitmix_key(seeds.castling, 0);
    let k1 = zobrist::splitmix_key(seeds.castling, 1);
    let k2 = zobrist::splitmix_key(seeds.castling, 2);
    let k3 = zobrist::splitmix_key(seeds.castling, 3);
    assert(k0 != 0 && k1 != 0 && k2 != 0 && k3 != 0);
    let (a, b) = (p.rights, q.rights);
    let a1 = zobrist::with_castling(seeds, h, a.white_kingside, 0);
    let b1 = zobrist::with_castling(seeds, h, b.white_kingside, 0);
    let a2 = zobrist::with_castling(seeds, a1, a.white_queenside, 1);
    let b2 = zobrist::with_castling(seeds, b1, b.white_queenside, 1);
    let a3 = zobrist::with_castling(seeds, a2, a.black_kingside, 2);
    let b3 = zobrist::with_castling(seeds, b2, b.black_kingside, 2);
    let a4 = zobrist::with_castling(seeds, a3, a.black_queenside, 3);
    let b4 = zobrist::with_castling(seeds, b3, b.black_queenside, 3);
    lemma_key_matters(h, h, k0);
    lemma_key_matters(a1, b1, k1);
    lemma_key_matters(a2, b2, k2);
    lemma_key_matters(a3, b3, k3);
    assert(a4 != b4);
    if let Some(sq) = p.ep {
        lemma_key_matters(a4, b4, zobrist::splitmix_key(seeds.en_passant, sq as nat));
    }
}

proof fn lemma_key_matters(a: u64, b: u64, x: u64)
    ensures
        a != b ==> a ^ x != b ^ x,
        x != 0 ==> a ^ x != a,
        a == b && x != 0 ==> a ^ x != b && a != b ^ x,
{
    assert((a != b ==> a ^ x != b ^ x) && (x != 0 ==> a ^ x != a)) by (bit_vector);
    assert(x != 0 ==> b ^ x != b) by (bit_vector);
}

/// Positions that differ in their en passant square have different fingerprints.
pub proof fn every_en_passant_square_counts(seeds: KeySeeds, p: PositionView, q: PositionView)
    requires
        sound_seed(seeds.en_passant),
        p.board == q.board,
        p.side == q.side,
        p.rights == q.rights,
        p.ep != q.ep,
        p.ep matches Some(sq) ==> 0 <= sq < 64,
        q.ep matches Some(sq) ==> 0 <= sq < 64,
    ensures
        zobrist::position_hash(seeds, p) != zobrist::position_hash(seeds, q),
{
    let board = zobrist::board_hash(seeds, p.board, 64);
    let sided = if p.side == Color::Black {
        board ^ zobrist::splitmix_key(seeds.side_to_move, 0)
    } else {
        board
    };
    let h = zobrist::with_rights(seeds, sided, p.rights);
    match (p.ep, q.ep) {
        (Some(i), Some(j)) => {
            let x = zobrist::splitmix_key(seeds.en_passant, i as nat);
            let y = zobrist::splitmix_key(seeds.en_passant, j as nat);
            if i < j {
                keys_are_different(seeds.en_passant, i as nat, j as nat);
            } else {
                keys_are_different(seeds.en_passant, j as nat, i as nat);
            }
            assert(x != y ==> h ^ x != h ^ y) by (bit_vector);
        },
        (Some(i), None) => {
            lemma_key_matters(h, h, zobrist::splitmix_key(seeds.en_passant, i as nat));
        },
        (None, Some(j)) => {
            lemma_key_matters(h, h, zobrist::splitmix_key(seeds.en_passant, j as nat));
        },
        (None, None) => {},
    }
}

/// So the hash that search and repetitions go by, and the key of a book, tell
/// apart any two positions that differ in one square, one castling right or the
/// en passant square.
pub proof fn hashes_tell_positions_apart(p: PositionView, q: PositionView, k: int)
    requires
        p.valid(),
        q.valid(),
        p.side == q.side,
        ({
            let (a, b) = (p.rights, q.rights);
            ||| 0 <= k < 64 && q == (PositionView { board: p.board.update(k, q.board[k]), ..p })
                && p.board[k] != q.board[k]
            ||| p.board == q.board && a == b && p.ep != q.ep
            ||| p.board == q.board && p.ep == q.ep && (a == (CastlingRights {
                white_kingside: !b.white_kingside,
                ..b
            }) || a == (CastlingRights { white_queenside: !b.white_queenside, ..b }) || a == (
            CastlingRights { black_kingside: !b.black_kingside, ..b }) || a == (CastlingRights {
                black_queenside: !b.black_queenside,
                ..b
            }))
        }),
    ensures
        p.hash() != q.hash(),
        crate::book::key::book_key(p) != crate::book::key::book_key(q),
{
    reveal(PositionView::hash);
    seeds_are_sound();
    let search = PositionView::search_seeds();
    let book = crate::book::key::book_seeds();
    if p.board != q.board {
        assert forall|i: int| 0 <= i < 64 && i != k implies #[trigger] p.board[i] == q.board[i] by {}
        every_square_counts(search, p, q, k);
        every_square_counts(book, p, q, k);
    } else if p.ep != q.ep {
        every_en_passant_square_counts(search, p, q);
        every_en_passant_square_counts(book, p, q);
    } else {
        every_right_counts(search, p, q);
        every_right_counts(book, p, q);
    }
}

/// The key of a book tells whose turn it is.
pub proof fn book_keys_tell_whose_turn_it_is(p: PositionView, q: PositionView)
    requires
        p.board == q.board,
        p.side != q.side,
        p.rights == q.rights,
        p.ep == q.ep,
    ensures
        crate::book::key::book_key(p) != crate::book::key::book_key(q),
{
    let seeds = crate::book::key::book_seeds();
    lemma_sound_seed(crate::book::key::BOOK_SIDE_TO_MOVE_SEED, 13931518013849279846);
    zobrist::side_to_move_adds_one_key(seeds, p, q);
    assert(zobrist::splitmix_key(seeds.side_to_move, 0) != 0);
    lemma_same_key(zobrist::position_hash(seeds, p), 0, 0);
}

} // verus!
