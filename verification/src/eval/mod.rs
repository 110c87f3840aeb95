//! Evaluator contract and the concrete evaluators.
//!
//! An `Evaluator` scores a position from the side-to-move's perspective
//! (i.e. positive always means "good for whoever is about to move" --
//! this is what lets negamax negate scores uniformly instead of
//! branching on color).

use crate::chess::piece::{Color, Piece, PieceKind};
use crate::chess::position::{Position, PositionView};
use crate::chess::square::Square;
use crate::search::Score;
use vstd::prelude::*;

pub mod bounds;
pub mod symmetry;
pub mod taper_laws;

verus! {

broadcast use {
    crate::chess::position::lemma_board_len,
    crate::chess::square::lemma_at_idx,
};

/// Scores a position. A score depends on the position alone.
pub trait Evaluator {
    /// The score of a position.
    spec fn value(&self, position: PositionView) -> Score;

    fn evaluate(&self, position: &Position) -> (score: Score)
        ensures
            score == self.value(position@),
    ;
}

/// The sum of `f` over the first `n` squares.
pub open spec fn sum_squares(f: spec_fn(int) -> int, n: nat) -> int
    decreases n,
{
    if n == 0 {
        0
    } else {
        sum_squares(f, (n - 1) as nat) + f(n - 1)
    }
}

/// A score for the middlegame and one for the endgame.
pub struct Taper {
    pub middle: int,
    pub end: int,
}

impl Taper {
    /// No score.
    pub open spec fn zero() -> Taper {
        Taper { middle: 0, end: 0 }
    }

    /// The sum of two.
    pub open spec fn plus(self, other: Taper) -> Taper {
        Taper { middle: self.middle + other.middle, end: self.end + other.end }
    }

    /// A multiple.
    pub open spec fn times(self, factor: int) -> Taper {
        Taper { middle: self.middle * factor, end: self.end * factor }
    }
}

/// Toggles for experimental evaluator terms, exposed to UCI as
/// `setoption`s. Every field defaults to `true` (the evaluator's normal,
/// strongest configuration); turning one off is always a deliberate
/// experiment, never the baseline.
#[derive(Debug, Clone, Copy, PartialEq, Eq, Structural)]
pub struct EvalOptions {
    /// Whether `PositionalEvaluator` scores knight/bishop/rook/queen
    /// mobility (how many pseudo-legal squares each piece can reach --
    /// see `Position::mobility_squares`). Without it the score is that of
    /// `ExperimentalEvaluator` (see `mobility_is_the_only_difference`).
    pub use_mobility: bool,
}

impl Default for EvalOptions {
    fn default() -> (options: EvalOptions)
        ensures
            options == (EvalOptions { use_mobility: true }),
    {
        EvalOptions { use_mobility: true }
    }
}

/// A deliberately simple evaluator used for evaluation experiments.
pub struct ExperimentalEvaluator;

impl Evaluator for ExperimentalEvaluator {
    open spec fn value(&self, position: PositionView) -> Score {
        tapered_value(position, false) as i32
    }

    fn evaluate(&self, position: &Position) -> Score {
        tapered_score(position, false)
    }
}

/// Standard piece values in centipawns, from the classical scale.
pub const PAWN_VALUE: Score = 100;

pub const KNIGHT_VALUE: Score = 320;

pub const BISHOP_VALUE: Score = 330;

pub const ROOK_VALUE: Score = 500;

pub const QUEEN_VALUE: Score = 900;

/// The king is never captured (search stops at checkmate before that
/// could happen), so it contributes nothing to material score.
pub const KING_VALUE: Score = 0;

/// What a piece is worth.
pub open spec fn material_value(kind: PieceKind) -> int {
    match kind {
        PieceKind::Pawn => PAWN_VALUE as int,
        PieceKind::Knight => KNIGHT_VALUE as int,
        PieceKind::Bishop => BISHOP_VALUE as int,
        PieceKind::Rook => ROOK_VALUE as int,
        PieceKind::Queen => QUEEN_VALUE as int,
        PieceKind::King => KING_VALUE as int,
    }
}

fn piece_value(kind: PieceKind) -> (value: Score)
    ensures
        value == material_value(kind),
        0 <= value <= 900,
{
    match kind {
        PieceKind::Pawn => PAWN_VALUE,
        PieceKind::Knight => KNIGHT_VALUE,
        PieceKind::Bishop => BISHOP_VALUE,
        PieceKind::Rook => ROOK_VALUE,
        PieceKind::Queen => QUEEN_VALUE,
        PieceKind::King => KING_VALUE,
    }
}

/// What the squares contribute to the material balance of `side`.
pub open spec fn material_term(board: Seq<Option<Piece>>, side: Color) -> spec_fn(int) -> int {
    |i: int|
        match board[i] {
            Some(piece) => if piece.color == side {
                material_value(piece.kind)
            } else {
                -material_value(piece.kind)
            },
            None => 0,
        }
}

/// The material balance from the side to move's point of view.
pub open spec fn material_balance(p: PositionView) -> int {
    sum_squares(material_term(p.board, p.side), 64)
}

/// Evaluates a position purely by material balance: the sum of the
/// side-to-move's own piece values minus their opponent's, so the
/// result is already in the side-to-move-relative form `Evaluator`
/// requires.
pub struct MaterialEvaluator;

impl Evaluator for MaterialEvaluator {
    open spec fn value(&self, position: PositionView) -> Score {
        material_balance(position) as i32
    }

    fn evaluate(&self, position: &Position) -> Score {
        let side = position.side_to_move();
        let mut score: Score = 0;
        let mut index: u8 = 0;
        while index < 64
            invariant
                index <= 64,
                side == position@.side,
                score == sum_squares(material_term(position@.board, side), index as nat),
                -900 * index <= score <= 900 * index,
            decreases 64 - index,
        {
            if let Some(piece) = position.piece_at(Square::new(index)) {
                let value: Score = piece_value(piece.kind);
                if piece.color == side {
                    score = score + value;
                } else {
                    score = score - value;
                }
            }
            index += 1;
        }
        score
    }
}

/// A tapered classical evaluator. Material and square activity are scored
/// separately for the middlegame and endgame, then blended according to the
/// non-pawn material left on the board. This keeps kings sheltered early but
/// makes them active once the major pieces have gone.
///
/// The deliberately small set of terms is cheap enough to run at every leaf:
/// piece-square activity, pawn advancement/structure, the bishop pair, and
/// (optionally, see `EvalOptions::use_mobility`) knight/bishop/rook/queen
/// mobility. Scores, like every [`Evaluator`], are returned from the
/// side-to-move's perspective.
#[derive(Debug, Clone, Copy)]
pub struct PositionalEvaluator {
    pub options: EvalOptions,
}

impl Default for PositionalEvaluator {
    fn default() -> (evaluator: PositionalEvaluator)
        ensures
            evaluator.options == (EvalOptions { use_mobility: true }),
    {
        PositionalEvaluator { options: EvalOptions::default() }
    }
}

impl PositionalEvaluator {
    /// A `PositionalEvaluator` with every optional term on -- the same
    /// as `Default`, spelled out for call sites that want to be explicit
    /// about not passing a caller-configured `EvalOptions`.
    pub fn new() -> (evaluator: PositionalEvaluator)
        ensures
            evaluator.options == (EvalOptions { use_mobility: true }),
    {
        PositionalEvaluator::default()
    }
}

impl Evaluator for PositionalEvaluator {
    open spec fn value(&self, position: PositionView) -> Score {
        tapered_value(position, self.options.use_mobility) as i32
    }

    fn evaluate(&self, position: &Position) -> Score {
        tapered_score(position, self.options.use_mobility)
    }
}

/// +1 for White, -1 for Black: scores are summed up from White's side.
pub open spec fn sign(color: Color) -> int {
    match color {
        Color::White => 1,
        Color::Black => -1,
    }
}

/// Material values for middlegame and endgame.
pub open spec fn piece_taper(kind: PieceKind) -> Taper {
    match kind {
        PieceKind::Pawn => Taper { middle: 100, end: 120 },
        PieceKind::Knight => Taper { middle: 320, end: 300 },
        PieceKind::Bishop => Taper { middle: 330, end: 325 },
        PieceKind::Rook => Taper { middle: 500, end: 525 },
        PieceKind::Queen => Taper { middle: 900, end: 900 },
        PieceKind::King => Taper { middle: 0, end: 0 },
    }
}

/// How much a piece speaks for the middlegame.
pub open spec fn phase_weight(kind: PieceKind) -> int {
    match kind {
        PieceKind::Pawn | PieceKind::King => 0,
        PieceKind::Knight | PieceKind::Bishop => 1,
        PieceKind::Rook => 2,
        PieceKind::Queen => 4,
    }
}

/// How far a file or rank is from the two middle ones.
pub open spec fn from_centre(x: int) -> int {
    if x <= 3 {
        3 - x
    } else {
        x - 4
    }
}

/// Piece-square values. `rank` is always measured from the piece owner's home
/// rank, making color symmetry explicit.
pub open spec fn square_taper(kind: PieceKind, file: int, rank: int) -> Taper {
    let file_distance = from_centre(file);
    let centre_distance = file_distance + from_centre(rank);
    match kind {
        PieceKind::Pawn => Taper {
            middle: rank * 6 - file_distance * 3,
            end: rank * 12 - file_distance * 2,
        },
        PieceKind::Knight => Taper {
            middle: 30 - centre_distance * 12,
            end: 20 - centre_distance * 8,
        },
        PieceKind::Bishop => Taper { middle: 18 - centre_distance * 5, end: 22 - centre_distance * 4 },
        PieceKind::Rook => if rank == 6 {
            Taper { middle: 20, end: 25 }
        } else {
            Taper::zero()
        },
        PieceKind::Queen => Taper { middle: 8 - centre_distance * 3, end: 12 - centre_distance * 2 },
        PieceKind::King => Taper {
            middle: -rank * 12 + (if file == 2 || file == 6 {
                28int
            } else {
                0int
            }),
            end: 35 - centre_distance * 12,
        },
    }
}

/// Centipawns per reachable square.
pub open spec fn mobility_taper(kind: PieceKind) -> Taper {
    match kind {
        PieceKind::Knight | PieceKind::Bishop => Taper { middle: 4, end: 4 },
        PieceKind::Rook => Taper { middle: 2, end: 3 },
        PieceKind::Queen => Taper { middle: 1, end: 2 },
        PieceKind::Pawn | PieceKind::King => Taper { middle: 0, end: 0 },
    }
}

/// How many ranks a square is from the home rank of `color`.
pub open spec fn relative_rank(sq: int, color: Color) -> int {
    match color {
        Color::White => sq / 8,
        Color::Black => 7 - sq / 8,
    }
}

/// What the piece on square `i` is worth to its owner.
pub open spec fn piece_worth(p: PositionView, i: int, piece: Piece, mobility: bool) -> Taper {
    let still = piece_taper(piece.kind).plus(
        square_taper(piece.kind, i % 8, relative_rank(i, piece.color)),
    );
    match p.mobility(i, piece.kind, piece.color) {
        Some(squares) if mobility => still.plus(mobility_taper(piece.kind).times(squares as int)),
        _ => still,
    }
}

/// What square `i` contributes, from White's side.
pub open spec fn square_worth(p: PositionView, i: int, mobility: bool) -> Taper {
    match p.board[i] {
        Some(piece) => piece_worth(p, i, piece, mobility).times(sign(piece.color)),
        None => Taper::zero(),
    }
}

/// The middlegame part of what the squares contribute.
pub open spec fn middle_terms(p: PositionView, mobility: bool) -> spec_fn(int) -> int {
    |i: int| square_worth(p, i, mobility).middle
}

/// The endgame part of what the squares contribute.
pub open spec fn end_terms(p: PositionView, mobility: bool) -> spec_fn(int) -> int {
    |i: int| square_worth(p, i, mobility).end
}

/// How much each square speaks for the middlegame.
pub open spec fn phase_terms(board: Seq<Option<Piece>>) -> spec_fn(int) -> int {
    |i: int|
        match board[i] {
            Some(piece) => phase_weight(piece.kind),
            None => 0,
        }
}

/// One for every square that holds a bishop of `color`.
pub open spec fn bishop_terms(board: Seq<Option<Piece>>, color: Color) -> spec_fn(int) -> int {
    |i: int|
        if board[i] == Some(Piece { kind: PieceKind::Bishop, color }) {
            1int
        } else {
            0
        }
}

/// One for every square of a file that holds a pawn of `color`.
pub open spec fn pawn_terms(board: Seq<Option<Piece>>, color: Color, file: int) -> spec_fn(
    int,
) -> int {
    |i: int|
        if i % 8 == file && board[i] == Some(Piece { kind: PieceKind::Pawn, color }) {
            1int
        } else {
            0
        }
}

/// How many pawns of `color` stand on a file.
pub open spec fn pawns_on(board: Seq<Option<Piece>>, color: Color, file: int) -> int {
    sum_squares(pawn_terms(board, color, file), 64)
}

/// What holding both bishops is worth.
pub open spec fn pair_worth(board: Seq<Option<Piece>>, color: Color) -> Taper {
    if sum_squares(bishop_terms(board, color), 64) >= 2 {
        Taper { middle: 30, end: 45 }
    } else {
        Taper::zero()
    }
}

/// What the pawns of a file cost their owner: doubled pawns, and pawns without
/// a neighbor on either side.
pub open spec fn pawn_cost(board: Seq<Option<Piece>>, color: Color, file: int) -> Taper {
    let count = pawns_on(board, color, file);
    let doubled = if count > 1 {
        Taper { middle: 12, end: 18 }.times(count - 1)
    } else {
        Taper::zero()
    };
    let isolated = if count > 0 && (file == 0 || pawns_on(board, color, file - 1) == 0) && (file
        == 7 || pawns_on(board, color, file + 1) == 0) {
        Taper { middle: 10, end: 8 }.times(count)
    } else {
        Taper::zero()
    };
    doubled.plus(isolated)
}

/// What the pawns of the first `n` files cost their owner.
pub open spec fn pawn_costs(board: Seq<Option<Piece>>, color: Color, n: nat) -> Taper
    decreases n,
{
    if n == 0 {
        Taper::zero()
    } else {
        pawn_costs(board, color, (n - 1) as nat).plus(pawn_cost(board, color, n - 1))
    }
}

/// What a rook on square `i` gains from its file being open or half open.
pub open spec fn rook_worth(board: Seq<Option<Piece>>, i: int) -> Taper {
    match board[i] {
        Some(piece) => {
            if piece.kind != PieceKind::Rook || pawns_on(board, piece.color, i % 8) != 0 {
                Taper::zero()
            } else if pawns_on(board, piece.color.other(), i % 8) == 0 {
                Taper { middle: 20, end: 10 }.times(sign(piece.color))
            } else {
                Taper { middle: 10, end: 5 }.times(sign(piece.color))
            }
        },
        None => Taper::zero(),
    }
}

/// The middlegame part of the rooks' gains.
pub open spec fn rook_middle(board: Seq<Option<Piece>>) -> spec_fn(int) -> int {
    |i: int| rook_worth(board, i).middle
}

/// The endgame part of the rooks' gains.
pub open spec fn rook_end(board: Seq<Option<Piece>>) -> spec_fn(int) -> int {
    |i: int| rook_worth(board, i).end
}

/// What the bishop pair and the pawn structure are worth to `color`.
pub open spec fn structure(board: Seq<Option<Piece>>, color: Color) -> Taper {
    pair_worth(board, color).plus(pawn_costs(board, color, 8).times(-1))
}

/// All terms together, from White's side.
pub open spec fn white_taper(p: PositionView, mobility: bool) -> Taper {
    Taper {
        middle: sum_squares(middle_terms(p, mobility), 64),
        end: sum_squares(end_terms(p, mobility), 64),
    }.plus(structure(p.board, Color::White)).plus(structure(p.board, Color::Black).times(-1)).plus(
        Taper {
            middle: sum_squares(rook_middle(p.board), 64),
            end: sum_squares(rook_end(p.board), 64),
        },
    )
}

/// How far the game still is from the endgame: 24 with all pieces on the
/// board, and 24 at most.
pub open spec fn phase(board: Seq<Option<Piece>>) -> int {
    let sum = sum_squares(phase_terms(board), 64);
    if sum > 24 {
        24
    } else {
        sum
    }
}

/// The quotient by 24, rounded towards zero.
pub open spec fn quotient24(x: int) -> int {
    if x >= 0 {
        x / 24
    } else {
        -((-x) / 24)
    }
}

/// Middlegame and endgame scores blended by phase.
pub open spec fn blended(t: Taper, phase: int) -> int {
    quotient24(t.middle * phase + t.end * (24 - phase))
}

/// The tapered score from the side to move's point of view.
pub open spec fn tapered_value(p: PositionView, mobility: bool) -> int {
    let white = blended(white_taper(p, mobility), phase(p.board));
    if p.side == Color::White {
        white
    } else {
        -white
    }
}

fn piece_values(kind: PieceKind) -> (values: (Score, Score, Score))
    ensures
        values.0 == piece_taper(kind).middle,
        values.1 == piece_taper(kind).end,
        values.2 == phase_weight(kind),
{
    match kind {
        PieceKind::Pawn => (100, 120, 0),
        PieceKind::Knight => (320, 300, 1),
        PieceKind::Bishop => (330, 325, 1),
        PieceKind::Rook => (500, 525, 2),
        PieceKind::Queen => (900, 900, 4),
        PieceKind::King => (0, 0, 0),
    }
}

/// Centipawns awarded per reachable square (from
/// `Position::mobility_squares`), separately for middlegame/endgame,
/// deliberately conservative. Rooks and queens get a smaller per-square
/// weight than knights/bishops since they naturally reach more squares
/// on an open board.
fn mobility_weight(kind: PieceKind) -> (weights: (Score, Score))
    ensures
        weights.0 == mobility_taper(kind).middle,
        weights.1 == mobility_taper(kind).end,
        0 <= weights.0 <= 4,
        0 <= weights.1 <= 4,
{
    match kind {
        PieceKind::Knight => (4, 4),
        PieceKind::Bishop => (4, 4),
        PieceKind::Rook => (2, 3),
        PieceKind::Queen => (1, 2),
        PieceKind::Pawn | PieceKind::King => (0, 0),
    }
}

fn centre_distance_of(x: u8) -> (distance: Score)
    requires
        x < 8,
    ensures
        distance == from_centre(x as int),
        0 <= distance <= 3,
{
    if x <= 3 {
        3 - x as Score
    } else {
        x as Score - 4
    }
}

/// Compact, symmetric piece-square functions. `rank` is always measured from
/// the piece owner's home rank, making color symmetry explicit.
fn square_bonus(kind: PieceKind, file: u8, rank: u8) -> (bonus: (Score, Score))
    requires
        file < 8,
        rank < 8,
    ensures
        bonus.0 == square_taper(kind, file as int, rank as int).middle,
        bonus.1 == square_taper(kind, file as int, rank as int).end,
        -100 <= bonus.0 <= 100,
        -100 <= bonus.1 <= 100,
{
    let file_distance: Score = centre_distance_of(file);
    let rank_distance: Score = centre_distance_of(rank);
    let centre_distance: Score = file_distance + rank_distance;
    match kind {
        PieceKind::Pawn => {
            let advance: Score = rank as Score;
            (advance * 6 - file_distance * 3, advance * 12 - file_distance * 2)
        },
        PieceKind::Knight => (30 - centre_distance * 12, 20 - centre_distance * 8),
        PieceKind::Bishop => (18 - centre_distance * 5, 22 - centre_distance * 4),
        PieceKind::Rook => if rank == 6 {
            (20, 25)
        } else {
            (0, 0)
        },
        PieceKind::Queen => (8 - centre_distance * 3, 12 - centre_distance * 2),
        PieceKind::King => {
            // In the middlegame prefer the back rank and castled files; in
            // the ending reverse course and walk toward the centre.
            let castled_file_bonus: Score = if file == 2 || file == 6 {
                28
            } else {
                0
            };
            (castled_file_bonus - rank as Score * 12, 35 - centre_distance * 12)
        },
    }
}

/// A piece reaches at most seven squares in one direction.
proof fn lemma_ray_len(p: PositionView, from: int, cur: int, side: Color, df: int, dr: int)
    requires
        crate::chess::movegen::is_direction(df, dr),
        0 <= cur < 64,
    ensures
        p.ray(from, cur, side, df, dr).len() <= crate::chess::movegen::ray_room(cur, df, dr),
    decreases crate::chess::movegen::ray_room(cur, df, dr),
{
    if let Some(to) = Square::shifted(cur, df, dr) {
        if p.board[to] is None {
            lemma_ray_len(p, from, to, side, df, dr);
        }
    }
}

proof fn lemma_slides_len(p: PositionView, from: int, side: Color, directions: Seq<(i8, i8)>, n: nat)
    requires
        crate::chess::movegen::all_directions(directions),
        n <= directions.len(),
        0 <= from < 64,
    ensures
        p.slides(from, side, directions, n).len() <= 7 * n,
    decreases n,
{
    if n > 0 {
        let (df, dr) = directions[n - 1];
        lemma_slides_len(p, from, side, directions, (n - 1) as nat);
        lemma_ray_len(p, from, from, side, df as int, dr as int);
    }
}

proof fn lemma_jumps_len(p: PositionView, from: int, side: Color, offsets: Seq<(i8, i8)>, n: nat)
    ensures
        p.jumps(from, side, offsets, n).len() <= n,
    decreases n,
{
    if n > 0 {
        lemma_jumps_len(p, from, side, offsets, (n - 1) as nat);
    }
}

/// No piece reaches more than 56 squares.
proof fn lemma_mobility_bound(p: PositionView, from: int, kind: PieceKind, side: Color)
    requires
        0 <= from < 64,
    ensures
        p.mobility(from, kind, side) matches Some(n) ==> n <= 56,
{
    crate::chess::movegen::lemma_tables();
    lemma_jumps_len(p, from, side, crate::chess::movegen::KNIGHT_OFFSETS@, 8);
    lemma_slides_len(p, from, side, crate::chess::movegen::BISHOP_DIRECTIONS@, 4);
    lemma_slides_len(p, from, side, crate::chess::movegen::ROOK_DIRECTIONS@, 4);
}

/// What the piece on `square` is worth to its owner, for middlegame and endgame.
fn piece_score(position: &Position, square: Square, piece: Piece, mobility: bool) -> (worth: (
    Score,
    Score,
))
    ensures
        worth.0 == piece_worth(position@, square.idx(), piece, mobility).middle,
        worth.1 == piece_worth(position@, square.idx(), piece, mobility).end,
        -1300 <= worth.0 <= 1300,
        -1300 <= worth.1 <= 1300,
{
    let relative: u8 = if piece.color == Color::White {
        square.rank()
    } else {
        7 - square.rank()
    };
    let index: u8 = square.index();
    let (mg_material, eg_material, _) = piece_values(piece.kind);
    let (mg_square, eg_square) = square_bonus(piece.kind, square.file(), relative);
    let mut middle: Score = mg_material + mg_square;
    let mut end: Score = eg_material + eg_square;
    if mobility {
        proof {
            lemma_mobility_bound(position@, square.idx(), piece.kind, piece.color);
        }
        if let Some(squares) = position.mobility_squares(square, piece.kind, piece.color) {
            let (mg_weight, eg_weight) = mobility_weight(piece.kind);
            let reach: Score = squares as Score;
            assert(0 <= mg_weight * reach <= 224 && 0 <= eg_weight * reach <= 224)
                by (nonlinear_arith)
                requires
                    0 <= mg_weight <= 4,
                    0 <= eg_weight <= 4,
                    0 <= reach <= 56,
            ;
            middle = middle + mg_weight * reach;
            end = end + eg_weight * reach;
        }
    }
    (middle, end)
}

/// Where the pawns of a color and file are counted.
spec fn slot(color: Color, file: int) -> int {
    match color {
        Color::White => file,
        Color::Black => 8 + file,
    }
}

fn pawn_slot(color: Color, file: u8) -> (index: usize)
    requires
        file < 8,
    ensures
        index == slot(color, file as int),
        index < 16,
{
    match color {
        Color::White => file as usize,
        Color::Black => 8 + file as usize,
    }
}

/// Whether `counts` holds the number of pawns among the first `n` squares, per
/// color and file.
spec fn counts_pawns(counts: Seq<u8>, board: Seq<Option<Piece>>, n: nat) -> bool {
    &&& counts.len() == 16
    &&& forall|color: Color, file: int|
        #![trigger pawn_terms(board, color, file)]
        0 <= file < 8 ==> counts[slot(color, file)] == sum_squares(
            pawn_terms(board, color, file),
            n,
        ) && counts[slot(color, file)] <= n
}

/// No pawns yet, per color and file.
fn no_pawns() -> (counts: [u8; 16])
    ensures
        counts@ == Seq::new(16, |i: int| 0u8),
{
    let counts: [u8; 16] = [0, 0, 0, 0, 0, 0, 0, 0, 0, 0, 0, 0, 0, 0, 0, 0];
    assert(counts@ =~= Seq::new(16, |i: int| 0u8));
    counts
}

/// Counts the pawns per color and file.
fn count_pawns(position: &Position) -> (counts: [u8; 16])
    ensures
        counts_pawns(counts@, position@.board, 64),
{
    let mut counts: [u8; 16] = no_pawns();
    let mut index: u8 = 0;
    proof {
        assert forall|color: Color, f: int|
            #![trigger pawn_terms(position@.board, color, f)]
            0 <= f < 8 implies counts@[slot(color, f)] == sum_squares(
            pawn_terms(position@.board, color, f),
            0,
        ) && counts@[slot(color, f)] <= 0 by {
            assert(0 <= slot(color, f) < 16);
            assert(counts@[slot(color, f)] == 0);
        }
    }
    while index < 64
        invariant
            index <= 64,
            counts_pawns(counts@, position@.board, index as nat),
        decreases 64 - index,
    {
        let square = Square::new(index);
        let ghost before = counts@;
        let ghost board = position@.board;
        let file: u8 = square.file();
        if let Some(piece) = position.piece_at(square) {
            if piece.kind == PieceKind::Pawn {
                let k: usize = pawn_slot(piece.color, file);
                proof {
                    let term = pawn_terms(board, piece.color, file as int);
                    assert(before[slot(piece.color, file as int)] <= index);
                }
                counts[k] = counts[k] + 1;
            }
        }
        proof {
            assert forall|color: Color, f: int|
                #![trigger pawn_terms(board, color, f)]
                0 <= f < 8 implies counts@[slot(color, f)] == sum_squares(
                pawn_terms(board, color, f),
                (index + 1) as nat,
            ) && counts@[slot(color, f)] <= index + 1 by {
                let term = pawn_terms(board, color, f);
                assert(sum_squares(term, (index + 1) as nat) == sum_squares(term, index as nat)
                    + term(index as int));
                assert(before[slot(color, f)] == sum_squares(term, index as nat));
            }
        }
        index += 1;
    }
    counts
}

/// What the pawns of one file cost their owner.
fn pawn_file_score(position: &Position, counts: &[u8; 16], color: Color, file: u8) -> (cost: (
    Score,
    Score,
))
    requires
        file < 8,
        counts_pawns(counts@, position@.board, 64),
    ensures
        cost.0 == pawn_cost(position@.board, color, file as int).middle,
        cost.1 == pawn_cost(position@.board, color, file as int).end,
        0 <= cost.0 <= 2000,
        0 <= cost.1 <= 2000,
{
    let ghost board = position@.board;
    proof {
        let a = pawn_terms(board, color, file as int);
        let b = pawn_terms(board, color, file - 1);
        let c = pawn_terms(board, color, file + 1);
    }
    let count: Score = counts[pawn_slot(color, file)] as Score;
    let mut middle: Score = 0;
    let mut end: Score = 0;
    if count > 1 {
        let extras: Score = count - 1;
        middle = middle + 12 * extras;
        end = end + 18 * extras;
    }
    if count > 0 && (file == 0 || counts[pawn_slot(color, file - 1)] == 0) && (file == 7
        || counts[pawn_slot(color, file + 1)] == 0) {
        middle = middle + 10 * count;
        end = end + 8 * count;
    }
    (middle, end)
}

/// What the bishop pair and the pawn structure are worth to `color`.
fn structure_score(position: &Position, counts: &[u8; 16], color: Color) -> (worth: (Score, Score))
    requires
        counts_pawns(counts@, position@.board, 64),
    ensures
        worth.0 == structure(position@.board, color).middle,
        worth.1 == structure(position@.board, color).end,
        -20000 <= worth.0 <= 20000,
        -20000 <= worth.1 <= 20000,
{
    let ghost board = position@.board;
    let mut middle: Score = 0;
    let mut end: Score = 0;
    let mut bishops: u8 = 0;
    let mut index: u8 = 0;
    while index < 64
        invariant
            index <= 64,
            board == position@.board,
            bishops <= index,
            bishops == sum_squares(bishop_terms(board, color), index as nat),
        decreases 64 - index,
    {
        if let Some(piece) = position.piece_at(Square::new(index)) {
            if piece.kind == PieceKind::Bishop && piece.color == color {
                bishops += 1;
            }
        }
        index += 1;
    }
    if bishops >= 2 {
        middle = 30;
        end = 45;
    }
    let ghost pair = Taper { middle: middle as int, end: end as int };
    assert(pair == pair_worth(board, color));
    let mut file: u8 = 0;
    while file < 8
        invariant
            file <= 8,
            board == position@.board,
            counts_pawns(counts@, position@.board, 64),
            pair == pair_worth(board, color),
            middle == pair.middle - pawn_costs(board, color, file as nat).middle,
            end == pair.end - pawn_costs(board, color, file as nat).end,
            -2000 * file <= middle <= 45,
            -2000 * file <= end <= 45,
        decreases 8 - file,
    {
        let (mg, eg) = pawn_file_score(position, counts, color, file);
        middle = middle - mg;
        end = end - eg;
        file += 1;
    }
    (middle, end)
}

/// What a rook gains from its file being open or half open, from White's side.
fn rook_score(position: &Position, counts: &[u8; 16], square: Square) -> (worth: (Score, Score))
    requires
        counts_pawns(counts@, position@.board, 64),
    ensures
        worth.0 == rook_worth(position@.board, square.idx()).middle,
        worth.1 == rook_worth(position@.board, square.idx()).end,
        -20 <= worth.0 <= 20,
        -20 <= worth.1 <= 20,
{
    let file: u8 = square.file();
    match position.piece_at(square) {
        Some(piece) => {
            proof {
                let a = pawn_terms(position@.board, piece.color, file as int);
                let b = pawn_terms(position@.board, piece.color.other(), file as int);
            }
            if piece.kind != PieceKind::Rook || counts[pawn_slot(piece.color, file)] != 0 {
                return (0, 0);
            }
            let (middle, end): (Score, Score) = if counts[pawn_slot(
                piece.color.opposite(),
                file,
            )] == 0 {
                // Open file: no pawn of either color blocks the rook.
                (20, 10)
            } else {
                // Semi-open file: only an opposing pawn remains.
                (10, 5)
            };
            if piece.color == Color::White {
                (middle, end)
            } else {
                (-middle, -end)
            }
        },
        None => (0, 0),
    }
}

/// The tapered score from the side to move's point of view.
fn tapered_score(position: &Position, mobility: bool) -> (score: Score)
    ensures
        score == tapered_value(position@, mobility),
        -400_000 <= score <= 400_000,
{
    let ghost p = position@;
    let counts: [u8; 16] = count_pawns(position);
    let mut middle: Score = 0;
    let mut end: Score = 0;
    let mut phase_sum: Score = 0;
    let mut rooks_middle: Score = 0;
    let mut rooks_end: Score = 0;
    let mut index: u8 = 0;
    while index < 64
        invariant
            index <= 64,
            p == position@,
            counts_pawns(counts@, p.board, 64),
            middle == sum_squares(middle_terms(p, mobility), index as nat),
            end == sum_squares(end_terms(p, mobility), index as nat),
            phase_sum == sum_squares(phase_terms(p.board), index as nat),
            rooks_middle == sum_squares(rook_middle(p.board), index as nat),
            rooks_end == sum_squares(rook_end(p.board), index as nat),
            -1300 * index <= middle <= 1300 * index,
            -1300 * index <= end <= 1300 * index,
            0 <= phase_sum <= 4 * index,
            -20 * index <= rooks_middle <= 20 * index,
            -20 * index <= rooks_end <= 20 * index,
        decreases 64 - index,
    {
        let square = Square::new(index);
        if let Some(piece) = position.piece_at(square) {
            let (mg, eg) = piece_score(position, square, piece, mobility);
            if piece.color == Color::White {
                middle = middle + mg;
                end = end + eg;
            } else {
                middle = middle - mg;
                end = end - eg;
            }
            let (_, _, phase_value) = piece_values(piece.kind);
            phase_sum = phase_sum + phase_value;
        }
        let (rook_mg, rook_eg) = rook_score(position, &counts, square);
        rooks_middle = rooks_middle + rook_mg;
        rooks_end = rooks_end + rook_eg;
        index += 1;
    }
    let (white_mg, white_eg) = structure_score(position, &counts, Color::White);
    let (black_mg, black_eg) = structure_score(position, &counts, Color::Black);
    middle = middle + white_mg - black_mg + rooks_middle;
    end = end + white_eg - black_eg + rooks_end;
    // Both armies together contribute 24 phase units initially: four
    // queens' worth, four rooks, and eight minor pieces at their weights.
    let phase: Score = if phase_sum > 24 {
        24
    } else {
        phase_sum
    };
    let ghost t = white_taper(p, mobility);
    proof {
        assert(middle == t.middle && end == t.end);
        assert(-200_000 * 24 <= middle * phase <= 200_000 * 24 && -200_000 * 24 <= end * (24
            - phase) <= 200_000 * 24) by (nonlinear_arith)
            requires
                -200_000 <= middle <= 200_000,
                -200_000 <= end <= 200_000,
                0 <= phase <= 24,
        ;
    }
    let total: Score = middle * phase + end * (24 - phase);
    let white_score: Score = if total >= 0 {
        total / 24
    } else {
        -((-total) / 24)
    };
    if position.side_to_move() == Color::White {
        white_score
    } else {
        -white_score
    }
}

/// Without mobility, the positional evaluator is the experimental one.
pub proof fn mobility_is_the_only_difference(p: PositionView)
    ensures
        (PositionalEvaluator { options: EvalOptions { use_mobility: false } }).value(p)
            == ExperimentalEvaluator.value(p),
{
}

} // verus!
