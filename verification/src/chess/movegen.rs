//! Pseudo-legal move generation.
//!
//! "Pseudo-legal" here means: the move follows the piece's normal
//! movement pattern and does not move onto a square occupied by a piece
//! of the same color. It does **not** check whether the side to move is
//! left in check afterward -- that is legality, which `super::attacks`
//! adds. Castling moves generated here likewise only check that the
//! relevant squares are empty and the castling right is still held; they
//! do not check that the king is at home, is not currently in check or
//! does not pass through an attacked square.
//!
//! This is deliberately a simple, unoptimized generator over the
//! array-of-`Option<Piece>` board.

use super::moves::{Move, MoveFlag};
use super::piece::{Color, PieceKind};
use super::position::{Position, PositionView};
use super::square::{offset_square, Square};
use vstd::prelude::*;

verus! {

broadcast use {
    super::moves::lemma_move_squares,
    super::moves::move_round_trip,
    super::position::lemma_board_len,
    super::square::lemma_at_idx,
};

pub const KNIGHT_OFFSETS: [(i8, i8); 8] = [
    (1, 2),
    (2, 1),
    (2, -1),
    (1, -2),
    (-1, -2),
    (-2, -1),
    (-2, 1),
    (-1, 2),
];

pub const KING_OFFSETS: [(i8, i8); 8] = [
    (1, 0),
    (1, 1),
    (0, 1),
    (-1, 1),
    (-1, 0),
    (-1, -1),
    (0, -1),
    (1, -1),
];

pub const BISHOP_DIRECTIONS: [(i8, i8); 4] = [(1, 1), (1, -1), (-1, 1), (-1, -1)];

pub const ROOK_DIRECTIONS: [(i8, i8); 4] = [(1, 0), (-1, 0), (0, 1), (0, -1)];

pub const PROMOTION_KINDS: [MoveFlag; 4] = [
    MoveFlag::PromoteQueen,
    MoveFlag::PromoteRook,
    MoveFlag::PromoteBishop,
    MoveFlag::PromoteKnight,
];

/// Whether every offset is small enough to be applied to a square.
pub open spec fn small_offsets(offsets: Seq<(i8, i8)>) -> bool {
    forall|k: int|
        0 <= k < offsets.len() ==> -2 <= (#[trigger] offsets[k]).0 <= 2 && -2 <= offsets[k].1 <= 2
}

/// Whether `(df, dr)` is one step along a rank, file or diagonal.
pub open spec fn is_direction(df: int, dr: int) -> bool {
    -1 <= df <= 1 && -1 <= dr <= 1 && (df != 0 || dr != 0)
}

/// Whether all of these are directions.
pub open spec fn all_directions(directions: Seq<(i8, i8)>) -> bool {
    forall|k: int|
        0 <= k < directions.len() ==> is_direction(
            (#[trigger] directions[k]).0 as int,
            directions[k].1 as int,
        )
}

/// How many steps in direction `(df, dr)` there can be from `sq` before the
/// edge of the board.
pub open spec fn ray_room(sq: int, df: int, dr: int) -> int {
    if df > 0 {
        7 - sq % 8
    } else if df < 0 {
        sq % 8
    } else if dr > 0 {
        7 - sq / 8
    } else {
        sq / 8
    }
}

impl PositionView {
    /// What a jump by `(df, dr)` from `from` adds to the moves: the jump, if
    /// it stays on the board and does not land on a piece of `side`.
    pub open spec fn jump(self, from: int, side: Color, df: int, dr: int) -> Seq<Move> {
        match Square::shifted(from, df, dr) {
            Some(to) => if self.occupied_by(to, side) {
                Seq::empty()
            } else {
                seq![Move::of(from, to, MoveFlag::Quiet)]
            },
            None => Seq::empty(),
        }
    }

    /// The jumps from `from` by the first `n` of the given offsets.
    pub open spec fn jumps(self, from: int, side: Color, offsets: Seq<(i8, i8)>, n: nat) -> Seq<Move>
        decreases n,
    {
        if n == 0 {
            Seq::empty()
        } else {
            let (df, dr) = offsets[n - 1];
            self.jumps(from, side, offsets, (n - 1) as nat) + self.jump(
                from,
                side,
                df as int,
                dr as int,
            )
        }
    }

    /// The moves from `from` to the squares beyond `cur` in direction
    /// `(df, dr)`: over empty squares, up to and onto the first piece if it is
    /// not one of `side`.
    pub open spec fn ray(self, from: int, cur: int, side: Color, df: int, dr: int) -> Seq<Move>
        decreases ray_room(cur, df, dr),
        when is_direction(df, dr) && 0 <= cur < 64
    {
        match Square::shifted(cur, df, dr) {
            None => Seq::empty(),
            Some(to) => {
                if self.board[to] is None {
                    seq![Move::of(from, to, MoveFlag::Quiet)] + self.ray(from, to, side, df, dr)
                } else if self.occupied_by(to, side) {
                    Seq::empty()
                } else {
                    seq![Move::of(from, to, MoveFlag::Quiet)]
                }
            },
        }
    }

    /// The slides from `from` in the first `n` of the given directions.
    pub open spec fn slides(self, from: int, side: Color, directions: Seq<(i8, i8)>, n: nat) -> Seq<
        Move,
    >
        decreases n,
    {
        if n == 0 {
            Seq::empty()
        } else {
            let (df, dr) = directions[n - 1];
            self.slides(from, side, directions, (n - 1) as nat) + self.ray(
                from,
                from,
                side,
                df as int,
                dr as int,
            )
        }
    }

    /// A pawn's move onto `to`: one move, or the four promotions on the last rank.
    pub open spec fn pawn_arrival(from: int, to: int, side: Color) -> Seq<Move> {
        if to / 8 == side.other().home_rank() {
            seq![
                Move::of(from, to, MoveFlag::PromoteQueen),
                Move::of(from, to, MoveFlag::PromoteRook),
                Move::of(from, to, MoveFlag::PromoteBishop),
                Move::of(from, to, MoveFlag::PromoteKnight),
            ]
        } else {
            seq![Move::of(from, to, MoveFlag::Quiet)]
        }
    }

    /// A pawn's moves straight ahead: one square onto an empty square, and two
    /// from its starting rank if both are empty.
    pub open spec fn pawn_pushes(self, from: int, side: Color) -> Seq<Move> {
        match Square::shifted(from, 0, side.forward()) {
            Some(one) => {
                if self.board[one] is None {
                    let single = Self::pawn_arrival(from, one, side);
                    if from / 8 == side.home_rank() + side.forward() {
                        match Square::shifted(from, 0, side.forward() * 2) {
                            Some(two) => if self.board[two] is None {
                                single + seq![Move::of(from, two, MoveFlag::DoublePawnPush)]
                            } else {
                                single
                            },
                            None => single,
                        }
                    } else {
                        single
                    }
                } else {
                    Seq::empty()
                }
            },
            None => Seq::empty(),
        }
    }

    /// A pawn's capture `df` files to the side: of a piece of the other color,
    /// or en passant.
    pub open spec fn pawn_capture(self, from: int, side: Color, df: int) -> Seq<Move> {
        match Square::shifted(from, df, side.forward()) {
            Some(to) => {
                if self.occupied_by(to, side.other()) {
                    Self::pawn_arrival(from, to, side)
                } else if self.ep == Some(to) && self.board[to] is None {
                    seq![Move::of(from, to, MoveFlag::EnPassant)]
                } else {
                    Seq::empty()
                }
            },
            None => Seq::empty(),
        }
    }

    /// All moves of a pawn.
    pub open spec fn pawn_moves(self, from: int, side: Color) -> Seq<Move> {
        self.pawn_pushes(from, side) + self.pawn_capture(from, side, -1) + self.pawn_capture(
            from,
            side,
            1,
        )
    }

    /// Whether `side` may still castle towards the h-file.
    pub open spec fn may_castle_kingside(self, side: Color) -> bool {
        match side {
            Color::White => self.rights.white_kingside,
            Color::Black => self.rights.black_kingside,
        }
    }

    /// Whether `side` may still castle towards the a-file.
    pub open spec fn may_castle_queenside(self, side: Color) -> bool {
        match side {
            Color::White => self.rights.white_queenside,
            Color::Black => self.rights.black_queenside,
        }
    }

    /// Castling towards the h-file, where the right is held and the squares
    /// between are empty. Nothing is asked of the king's home square.
    pub open spec fn kingside_castle(self, side: Color) -> Seq<Move> {
        let home = side.home_rank() * 8;
        if self.may_castle_kingside(side) && self.board[home + 5] is None && self.board[home + 6]
            is None {
            seq![Move::of(home + 4, home + 6, MoveFlag::CastleKingside)]
        } else {
            Seq::empty()
        }
    }

    /// Castling towards the a-file, likewise.
    pub open spec fn queenside_castle(self, side: Color) -> Seq<Move> {
        let home = side.home_rank() * 8;
        if self.may_castle_queenside(side) && self.board[home + 1] is None && self.board[home + 2]
            is None && self.board[home + 3] is None {
            seq![Move::of(home + 4, home + 2, MoveFlag::CastleQueenside)]
        } else {
            Seq::empty()
        }
    }

    /// Both castling moves, as far as they are available.
    pub open spec fn castles(self, side: Color) -> Seq<Move> {
        self.kingside_castle(side) + self.queenside_castle(side)
    }

    /// The moves of a piece of the given kind and color from `from`, not
    /// counting castling.
    pub open spec fn kind_moves(self, from: int, kind: PieceKind, side: Color) -> Seq<Move> {
        match kind {
            PieceKind::Pawn => self.pawn_moves(from, side),
            PieceKind::Knight => self.jumps(from, side, KNIGHT_OFFSETS@, 8),
            PieceKind::Bishop => self.slides(from, side, BISHOP_DIRECTIONS@, 4),
            PieceKind::Rook => self.slides(from, side, ROOK_DIRECTIONS@, 4),
            PieceKind::Queen => self.slides(from, side, BISHOP_DIRECTIONS@, 4) + self.slides(
                from,
                side,
                ROOK_DIRECTIONS@,
                4,
            ),
            PieceKind::King => self.jumps(from, side, KING_OFFSETS@, 8),
        }
    }

    /// The pseudo-legal moves that square `i` contributes: those of its piece,
    /// if it belongs to the side to move.
    pub open spec fn square_moves(self, i: int) -> Seq<Move> {
        match self.board[i] {
            Some(piece) => {
                if piece.color == self.side {
                    let moves = self.kind_moves(i, piece.kind, self.side);
                    if piece.kind == PieceKind::King {
                        moves + self.castles(self.side)
                    } else {
                        moves
                    }
                } else {
                    Seq::empty()
                }
            },
            None => Seq::empty(),
        }
    }

    /// The pseudo-legal moves of the first `n` squares.
    pub open spec fn pseudo_moves_upto(self, n: nat) -> Seq<Move>
        decreases n,
    {
        if n == 0 {
            Seq::empty()
        } else {
            self.pseudo_moves_upto((n - 1) as nat) + self.square_moves(n - 1)
        }
    }

    /// All pseudo-legal moves of the side to move, square by square.
    pub open spec fn pseudo_moves(self) -> Seq<Move> {
        self.pseudo_moves_upto(64)
    }

    /// How many squares a knight, bishop, rook or queen of the given color
    /// reaches from `from`; pawns and kings are not counted.
    pub open spec fn mobility(self, from: int, kind: PieceKind, side: Color) -> Option<nat> {
        match kind {
            PieceKind::Pawn | PieceKind::King => None,
            _ => Some(self.kind_moves(from, kind, side).len()),
        }
    }
}

/// The tables hold what the specification functions need of them.
pub proof fn lemma_tables()
    ensures
        small_offsets(KNIGHT_OFFSETS@),
        small_offsets(KING_OFFSETS@),
        all_directions(BISHOP_DIRECTIONS@),
        all_directions(ROOK_DIRECTIONS@),
        KNIGHT_OFFSETS@.len() == 8,
        KING_OFFSETS@.len() == 8,
        BISHOP_DIRECTIONS@.len() == 4,
        ROOK_DIRECTIONS@.len() == 4,
{
    assert forall|k: int| 0 <= k < 8 implies -2 <= (#[trigger] KNIGHT_OFFSETS@[k]).0 <= 2 && -2
        <= KNIGHT_OFFSETS@[k].1 <= 2 by {
        if k == 0 {
        } else if k == 1 {
        } else if k == 2 {
        } else if k == 3 {
        } else if k == 4 {
        } else if k == 5 {
        } else if k == 6 {
        } else {
        }
    }
    assert forall|k: int| 0 <= k < 8 implies -2 <= (#[trigger] KING_OFFSETS@[k]).0 <= 2 && -2
        <= KING_OFFSETS@[k].1 <= 2 by {
        if k == 0 {
        } else if k == 1 {
        } else if k == 2 {
        } else if k == 3 {
        } else if k == 4 {
        } else if k == 5 {
        } else if k == 6 {
        } else {
        }
    }
    assert forall|k: int| 0 <= k < 4 implies is_direction(
        (#[trigger] BISHOP_DIRECTIONS@[k]).0 as int,
        BISHOP_DIRECTIONS@[k].1 as int,
    ) by {
        if k == 0 {
        } else if k == 1 {
        } else if k == 2 {
        } else {
        }
    }
    assert forall|k: int| 0 <= k < 4 implies is_direction(
        (#[trigger] ROOK_DIRECTIONS@[k]).0 as int,
        ROOK_DIRECTIONS@[k].1 as int,
    ) by {
        if k == 0 {
        } else if k == 1 {
        } else if k == 2 {
        } else {
        }
    }
}

impl Position {
    /// Generates all pseudo-legal moves for the side to move.
    ///
    /// See the module docs for exactly what "pseudo-legal" means here.
    #[must_use]
    pub fn generate_pseudo_legal_moves(&self) -> (moves: Vec<Move>)
        ensures
            moves@ == self@.pseudo_moves(),
    {
        let mut moves: Vec<Move> = Vec::with_capacity(64);
        let side = self.side_to_move();
        let mut index: u8 = 0;
        while index < 64
            invariant
                index <= 64,
                side == self@.side,
                moves@ == self@.pseudo_moves_upto(index as nat),
            decreases 64 - index,
        {
            let square = Square::new(index);
            let ghost before = moves@;
            if let Some(piece) = self.piece_at(square) {
                if piece.color == side {
                    self.generate_kind_moves(square, piece.kind, side, &mut moves);
                    if piece.kind == PieceKind::King {
                        self.generate_castling_moves(side, &mut moves);
                    }
                }
            }
            assert(moves@ =~= before + self@.square_moves(index as int));
            index += 1;
        }
        moves
    }

    /// Adds the moves of a piece of the given kind and color, not counting
    /// castling.
    fn generate_kind_moves(
        &self,
        square: Square,
        kind: PieceKind,
        side: Color,
        moves: &mut Vec<Move>,
    )
        ensures
            final(moves)@ == old(moves)@ + self@.kind_moves(square.idx(), kind, side),
    {
        proof {
            lemma_tables();
        }
        match kind {
            PieceKind::Pawn => self.generate_pawn_moves(square, side, moves),
            PieceKind::Knight => {
                self.generate_offset_moves(square, side, &KNIGHT_OFFSETS, moves);
            },
            PieceKind::Bishop => {
                self.generate_sliding_moves(square, side, &BISHOP_DIRECTIONS, moves);
            },
            PieceKind::Rook => {
                self.generate_sliding_moves(square, side, &ROOK_DIRECTIONS, moves);
            },
            PieceKind::Queen => {
                self.generate_sliding_moves(square, side, &BISHOP_DIRECTIONS, moves);
                self.generate_sliding_moves(square, side, &ROOK_DIRECTIONS, moves);
                assert(moves@ =~= old(moves)@ + self@.kind_moves(square.idx(), kind, side));
            },
            PieceKind::King => {
                self.generate_offset_moves(square, side, &KING_OFFSETS, moves);
            },
        }
    }

    fn generate_offset_moves(
        &self,
        from: Square,
        side: Color,
        offsets: &[(i8, i8)],
        moves: &mut Vec<Move>,
    )
        requires
            small_offsets(offsets@),
        ensures
            final(moves)@ == old(moves)@ + self@.jumps(
                from.idx(),
                side,
                offsets@,
                offsets@.len(),
            ),
    {
        let mut k: usize = 0;
        assert(moves@ =~= old(moves)@ + Seq::<Move>::empty());
        while k < offsets.len()
            invariant
                k <= offsets.len(),
                small_offsets(offsets@),
                moves@ == old(moves)@ + self@.jumps(from.idx(), side, offsets@, k as nat),
            decreases offsets.len() - k,
        {
            let ghost before = moves@;
            let (df, dr) = offsets[k];
            if let Some(to) = offset_square(from, df, dr) {
                if !self.occupied_by(to, side) {
                    moves.push(Move::new(from, to, MoveFlag::Quiet));
                }
            }
            assert(moves@ =~= before + self@.jump(from.idx(), side, df as int, dr as int));
            k += 1;
            assert(moves@ =~= old(moves)@ + self@.jumps(from.idx(), side, offsets@, k as nat));
        }
    }

    fn generate_sliding_moves(
        &self,
        from: Square,
        side: Color,
        directions: &[(i8, i8)],
        moves: &mut Vec<Move>,
    )
        requires
            all_directions(directions@),
        ensures
            final(moves)@ == old(moves)@ + self@.slides(
                from.idx(),
                side,
                directions@,
                directions@.len(),
            ),
    {
        let mut k: usize = 0;
        assert(moves@ =~= old(moves)@ + Seq::<Move>::empty());
        while k < directions.len()
            invariant
                k <= directions.len(),
                all_directions(directions@),
                moves@ == old(moves)@ + self@.slides(from.idx(), side, directions@, k as nat),
            decreases directions.len() - k,
        {
            let ghost before = moves@;
            let (df, dr) = directions[k];
            self.generate_ray(from, side, df, dr, moves);
            k += 1;
            assert(moves@ =~= old(moves)@ + self@.slides(from.idx(), side, directions@, k as nat));
        }
    }

    /// Adds the slides from `from` in one direction.
    fn generate_ray(&self, from: Square, side: Color, df: i8, dr: i8, moves: &mut Vec<Move>)
        requires
            is_direction(df as int, dr as int),
        ensures
            final(moves)@ == old(moves)@ + self@.ray(
                from.idx(),
                from.idx(),
                side,
                df as int,
                dr as int,
            ),
    {
        let ghost whole = self@.ray(from.idx(), from.idx(), side, df as int, dr as int);
        let start_index: u8 = from.index();
        let mut current = from;
        let mut going = true;
        while going
            invariant
                is_direction(df as int, dr as int),
                0 <= current.idx() < 64,
                going ==> moves@ + self@.ray(
                    from.idx(),
                    current.idx(),
                    side,
                    df as int,
                    dr as int,
                ) == old(moves)@ + whole,
                !going ==> moves@ == old(moves)@ + whole,
            decreases
                    (if going {
                        ray_room(current.idx(), df as int, dr as int) + 1
                    } else {
                        0
                    }),
        {
            let ghost before = moves@;
            let ghost rest = self@.ray(from.idx(), current.idx(), side, df as int, dr as int);
            match offset_square(current, df, dr) {
                None => {
                    assert(before + rest =~= before);
                    going = false;
                },
                Some(to) => {
                    match self.piece_at(to) {
                        None => {
                            moves.push(Move::new(from, to, MoveFlag::Quiet));
                            assert(moves@ + self@.ray(
                                from.idx(),
                                to.idx(),
                                side,
                                df as int,
                                dr as int,
                            ) =~= before + rest);
                            current = to;
                        },
                        Some(occupant) => {
                            if occupant.color != side {
                                moves.push(Move::new(from, to, MoveFlag::Quiet));
                                assert(moves@ =~= before + rest);
                            } else {
                                assert(moves@ =~= before + rest);
                            }
                            going = false;
                        },
                    }
                },
            }
        }
    }

    fn generate_pawn_moves(&self, from: Square, side: Color, moves: &mut Vec<Move>)
        ensures
            final(moves)@ == old(moves)@ + self@.pawn_moves(from.idx(), side),
    {
        let (forward, start_rank, promotion_rank): (i8, u8, u8) = match side {
            Color::White => (1, 1, 7),
            Color::Black => (-1, 6, 0),
        };

        // Single push.
        if let Some(one_ahead) = offset_square(from, 0, forward) {
            if self.piece_at(one_ahead).is_none() {
                push_pawn_move(from, one_ahead, side, promotion_rank, moves);

                // Double push, only from the starting rank and only if
                // both squares ahead are empty.
                if from.rank() == start_rank {
                    if let Some(two_ahead) = offset_square(from, 0, forward * 2) {
                        if self.piece_at(two_ahead).is_none() {
                            moves.push(Move::new(from, two_ahead, MoveFlag::DoublePawnPush));
                        }
                    }
                }
            }
        }
        assert(moves@ =~= old(moves)@ + self@.pawn_pushes(from.idx(), side));

        // Captures (including en passant), diagonally forward.
        self.generate_pawn_capture(from, side, -1, moves);
        self.generate_pawn_capture(from, side, 1, moves);
        assert(moves@ =~= old(moves)@ + self@.pawn_moves(from.idx(), side));
    }

    /// Adds a pawn's capture `df` files to the side.
    fn generate_pawn_capture(&self, from: Square, side: Color, df: i8, moves: &mut Vec<Move>)
        requires
            df == -1 || df == 1,
        ensures
            final(moves)@ == old(moves)@ + self@.pawn_capture(from.idx(), side, df as int),
    {
        let (forward, promotion_rank): (i8, u8) = match side {
            Color::White => (1, 7),
            Color::Black => (-1, 0),
        };
        if let Some(to) = offset_square(from, df, forward) {
            if self.occupied_by(to, side.opposite()) {
                push_pawn_move(from, to, side, promotion_rank, moves);
            } else if let Some(target) = self.en_passant_square() {
                if target.index() == to.index() && self.piece_at(to).is_none() {
                    moves.push(Move::new(from, to, MoveFlag::EnPassant));
                }
            }
        }
        assert(moves@ =~= old(moves)@ + self@.pawn_capture(from.idx(), side, df as int));
    }

    fn generate_castling_moves(&self, side: Color, moves: &mut Vec<Move>)
        ensures
            final(moves)@ == old(moves)@ + self@.castles(side),
    {
        let rights = self.castling_rights();
        let rank: u8 = match side {
            Color::White => 0,
            Color::Black => 7,
        };
        let king_square = Square::from_file_rank(4, rank);
        let (kingside_allowed, queenside_allowed) = match side {
            Color::White => (rights.white_kingside, rights.white_queenside),
            Color::Black => (rights.black_kingside, rights.black_queenside),
        };
        if kingside_allowed && self.square_empty(Square::from_file_rank(5, rank))
            && self.square_empty(Square::from_file_rank(6, rank)) {
            moves.push(
                Move::new(king_square, Square::from_file_rank(6, rank), MoveFlag::CastleKingside),
            );
        }
        assert(moves@ =~= old(moves)@ + self@.kingside_castle(side));
        if queenside_allowed && self.square_empty(Square::from_file_rank(1, rank))
            && self.square_empty(Square::from_file_rank(2, rank)) && self.square_empty(
            Square::from_file_rank(3, rank),
        ) {
            moves.push(
                Move::new(king_square, Square::from_file_rank(2, rank), MoveFlag::CastleQueenside),
            );
        }
        assert(moves@ =~= old(moves)@ + self@.castles(side));
    }

    fn square_empty(&self, square: Square) -> (empty: bool)
        ensures
            empty == (self@.board[square.idx()] is None),
    {
        self.piece_at(square).is_none()
    }

    fn occupied_by(&self, square: Square, color: Color) -> (occupied: bool)
        ensures
            occupied == self@.occupied_by(square.idx(), color),
    {
        match self.piece_at(square) {
            Some(piece) => piece.color == color,
            None => false,
        }
    }

    /// How many squares a knight, bishop, rook or queen of `color` standing on
    /// `square` could move to, its own side's pieces in the way counted as
    /// blocked. `None` for pawns and kings, which have no mobility score.
    #[must_use]
    pub fn mobility_squares(&self, square: Square, kind: PieceKind, color: Color) -> (count: Option<
        usize,
    >)
        ensures
            match count {
                Some(n) => self@.mobility(square.idx(), kind, color) == Some(n as nat),
                None => self@.mobility(square.idx(), kind, color) is None,
            },
    {
        match kind {
            PieceKind::Pawn | PieceKind::King => None,
            _ => {
                let mut moves: Vec<Move> = Vec::new();
                self.generate_kind_moves(square, kind, color, &mut moves);
                assert(moves@ =~= self@.kind_moves(square.idx(), kind, color));
                Some(moves.len())
            },
        }
    }
}

/// Pushes a pawn move to `to`, expanding it into all four promotion
/// moves if `to` is on the promotion rank, or a single quiet/capture
/// move otherwise. Whether it is a capture is implicit in whether `to`
/// was occupied by the opponent; that distinction is not encoded on
/// `Move` itself (see `moves.rs`).
fn push_pawn_move(
    from: Square,
    to: Square,
    side: Color,
    promotion_rank: u8,
    moves: &mut Vec<Move>,
)
    requires
        promotion_rank == side.other().home_rank(),
    ensures
        final(moves)@ == old(moves)@ + PositionView::pawn_arrival(from.idx(), to.idx(), side),
{
    if to.rank() == promotion_rank {
        let mut k: usize = 0;
        assert(moves@ =~= old(moves)@ + PositionView::pawn_arrival(
            from.idx(),
            to.idx(),
            side,
        ).take(0));
        while k < 4
            invariant
                k <= 4,
                to.idx() / 8 == promotion_rank,
                promotion_rank == side.other().home_rank(),
                moves@ == old(moves)@ + PositionView::pawn_arrival(
                    from.idx(),
                    to.idx(),
                    side,
                ).take(k as int),
            decreases 4 - k,
        {
            moves.push(Move::new(from, to, PROMOTION_KINDS[k]));
            k += 1;
            assert(moves@ =~= old(moves)@ + PositionView::pawn_arrival(
                from.idx(),
                to.idx(),
                side,
            ).take(k as int));
        }
        assert(moves@ =~= old(moves)@ + PositionView::pawn_arrival(from.idx(), to.idx(), side));
    } else {
        moves.push(Move::new(from, to, MoveFlag::Quiet));
        assert(moves@ =~= old(moves)@ + PositionView::pawn_arrival(from.idx(), to.idx(), side));
    }
}

} // verus!
