//! Chess position: board state plus everything needed to make/unmake
//! moves and detect draws.
//!
//! The board is a plain 8x8 array of optional pieces. FEN
//! parsing/serialization lives in `super::fen`, make/unmake in
//! `super::make_unmake`, move generation in `super::movegen` and
//! `super::attacks`, and hashing in `super::zobrist`.

use super::castling::CastlingRights;
use super::piece::{Color, Piece, PieceKind};
use super::square::Square;
use vstd::prelude::*;

verus! {

/// What a position is, mathematically: the contents of the 64 squares and
/// the rest of the state that the rules depend on. Squares are indices.
#[verifier::ext_equal]
pub struct PositionView {
    pub board: Seq<Option<Piece>>,
    pub side: Color,
    pub rights: CastlingRights,
    pub ep: Option<int>,
    pub half: u32,
    pub full: u32,
}

impl PositionView {
    /// There are 64 squares, and the en passant square is one of them.
    pub open spec fn valid(self) -> bool {
        self.board.len() == 64 && (self.ep matches Some(i) ==> 0 <= i < 64)
    }

    /// Whether square `i` holds a piece of `color`.
    pub open spec fn occupied_by(self, i: int, color: Color) -> bool {
        self.board[i] matches Some(piece) && piece.color == color
    }

    /// The position with the given content on square `i`.
    pub open spec fn put(self, i: int, piece: Option<Piece>) -> PositionView {
        PositionView { board: self.board.update(i, piece), ..self }
    }

    /// No pieces, White to move, no castling rights, no en passant square,
    /// clocks at their initial values.
    pub open spec fn blank() -> PositionView {
        PositionView {
            board: Seq::new(64, |i: int| None),
            side: Color::White,
            rights: CastlingRights::nothing(),
            ep: None,
            half: 0,
            full: 1,
        }
    }

    /// The kind of piece that starts on the given file of a back rank.
    pub open spec fn back_rank_kind(file: int) -> PieceKind {
        if file == 0 || file == 7 {
            PieceKind::Rook
        } else if file == 1 || file == 6 {
            PieceKind::Knight
        } else if file == 2 || file == 5 {
            PieceKind::Bishop
        } else if file == 3 {
            PieceKind::Queen
        } else {
            PieceKind::King
        }
    }

    /// What stands on square `i` when a game starts.
    pub open spec fn start_piece(i: int) -> Option<Piece> {
        let rank = i / 8;
        if rank == 0 {
            Some(Piece { kind: Self::back_rank_kind(i % 8), color: Color::White })
        } else if rank == 1 {
            Some(Piece { kind: PieceKind::Pawn, color: Color::White })
        } else if rank == 6 {
            Some(Piece { kind: PieceKind::Pawn, color: Color::Black })
        } else if rank == 7 {
            Some(Piece { kind: Self::back_rank_kind(i % 8), color: Color::Black })
        } else {
            None
        }
    }

    /// The position in which a game starts.
    pub open spec fn start() -> PositionView {
        PositionView {
            board: Seq::new(64, |i: int| Self::start_piece(i)),
            side: Color::White,
            rights: CastlingRights::every(),
            ep: None,
            half: 0,
            full: 1,
        }
    }
}

/// A standard chess position.
///
/// The board is a simple 8x8 array of optional pieces indexed by
/// `Square::index()`.
#[derive(Debug, PartialEq, Eq)]
pub struct Position {
    board: [Option<Piece>; 64],
    side_to_move: Color,
    castling_rights: CastlingRights,
    /// The square a pawn can capture on-passant this move, if any.
    en_passant_square: Option<Square>,
    /// Halfmove clock since the last capture or pawn move, for the
    /// fifty-move rule.
    halfmove_clock: u32,
    /// Full move number, incremented after Black's move, per FEN/PGN
    /// convention (starts at 1).
    fullmove_number: u32,
}

impl View for Position {
    type V = PositionView;

    closed spec fn view(&self) -> PositionView {
        PositionView {
            board: self.board@,
            side: self.side_to_move,
            rights: self.castling_rights,
            ep: Square::index_of(self.en_passant_square),
            half: self.halfmove_clock,
            full: self.fullmove_number,
        }
    }
}

/// The board of every position has 64 squares.
pub broadcast proof fn lemma_board_len(p: Position)
    ensures
        (#[trigger] p@).board.len() == 64,
{
}

impl Clone for Position {
    fn clone(&self) -> (copy: Position)
        ensures
            copy@ == self@,
    {
        Position {
            board: self.board,
            side_to_move: self.side_to_move,
            castling_rights: self.castling_rights,
            en_passant_square: self.en_passant_square,
            halfmove_clock: self.halfmove_clock,
            fullmove_number: self.fullmove_number,
        }
    }
}

fn back_rank_kind(file: u8) -> (kind: PieceKind)
    requires
        file < 8,
    ensures
        kind == PositionView::back_rank_kind(file as int),
{
    match file {
        0 | 7 => PieceKind::Rook,
        1 | 6 => PieceKind::Knight,
        2 | 5 => PieceKind::Bishop,
        3 => PieceKind::Queen,
        _ => PieceKind::King,
    }
}

impl Position {
    /// An empty board: no pieces, White to move, no castling rights, no
    /// en passant square, clocks at their initial values. Mostly useful
    /// as a building block for constructing specific positions (e.g. in
    /// `Position::startpos`, or in FEN parsing).
    #[must_use]
    pub fn empty() -> (position: Position)
        ensures
            position@ == PositionView::blank(),
    {
        let position = Position {
            board: [None; 64],
            side_to_move: Color::White,
            castling_rights: CastlingRights::none(),
            en_passant_square: None,
            halfmove_clock: 0,
            fullmove_number: 1,
        };
        assert(position@.board =~= PositionView::blank().board);
        position
    }

    /// The standard chess starting position.
    #[must_use]
    pub fn startpos() -> (position: Position)
        ensures
            position@ == PositionView::start(),
    {
        let mut position = Position::empty();
        position.castling_rights = CastlingRights::all();
        let mut file: u8 = 0;
        while file < 8
            invariant
                file <= 8,
                position@.board.len() == 64,
                forall|i: int|
                    0 <= i < 64 ==> #[trigger] position@.board[i] == (if i % 8 < file {
                        PositionView::start_piece(i)
                    } else {
                        None
                    }),
                position@.side == Color::White,
                position@.rights == CastlingRights::every(),
                position@.ep is None,
                position@.half == 0,
                position@.full == 1,
            decreases 8 - file,
        {
            let kind: PieceKind = back_rank_kind(file);
            position.set_piece(Square::from_file_rank(file, 0), Some(Piece::new(kind, Color::White)));
            position.set_piece(
                Square::from_file_rank(file, 1),
                Some(Piece::new(PieceKind::Pawn, Color::White)),
            );
            position.set_piece(
                Square::from_file_rank(file, 6),
                Some(Piece::new(PieceKind::Pawn, Color::Black)),
            );
            position.set_piece(Square::from_file_rank(file, 7), Some(Piece::new(kind, Color::Black)));
            file += 1;
        }
        assert(position@.board =~= PositionView::start().board);
        position
    }

    /// The piece on `square`, if any.
    #[must_use]
    pub fn piece_at(&self, square: Square) -> (piece: Option<Piece>)
        ensures
            piece == self@.board[square.idx()],
    {
        self.board[square.index() as usize]
    }

    /// Puts `piece` on `square`, or clears it.
    pub fn set_piece(&mut self, square: Square, piece: Option<Piece>)
        ensures
            final(self)@ == old(self)@.put(square.idx(), piece),
    {
        self.board[square.index() as usize] = piece;
    }

    /// The side whose turn it is.
    #[must_use]
    pub fn side_to_move(&self) -> (color: Color)
        ensures
            color == self@.side,
    {
        self.side_to_move
    }

    /// Gives the turn to `color`.
    pub fn set_side_to_move(&mut self, color: Color)
        ensures
            final(self)@ == (PositionView { side: color, ..old(self)@ }),
    {
        self.side_to_move = color;
    }

    /// The castling rights that are still held.
    #[must_use]
    pub fn castling_rights(&self) -> (rights: CastlingRights)
        ensures
            rights == self@.rights,
    {
        self.castling_rights
    }

    /// Replaces the castling rights.
    pub fn set_castling_rights(&mut self, rights: CastlingRights)
        ensures
            final(self)@ == (PositionView { rights: rights, ..old(self)@ }),
    {
        self.castling_rights = rights;
    }

    /// The square a pawn can capture on en passant, if any.
    #[must_use]
    pub fn en_passant_square(&self) -> (square: Option<Square>)
        ensures
            Square::index_of(square) == self@.ep,
            self@.ep matches Some(i) ==> 0 <= i < 64,
    {
        proof {
            if let Some(s) = self.en_passant_square {
                use_type_invariant(&s);
            }
        }
        self.en_passant_square
    }

    /// Replaces the en passant square.
    pub fn set_en_passant_square(&mut self, square: Option<Square>)
        ensures
            final(self)@ == (PositionView { ep: Square::index_of(square), ..old(self)@ }),
    {
        self.en_passant_square = square;
    }

    /// Halfmoves since the last capture or pawn move.
    #[must_use]
    pub fn halfmove_clock(&self) -> (clock: u32)
        ensures
            clock == self@.half,
    {
        self.halfmove_clock
    }

    /// Replaces the halfmove clock.
    pub fn set_halfmove_clock(&mut self, halfmove_clock: u32)
        ensures
            final(self)@ == (PositionView { half: halfmove_clock, ..old(self)@ }),
    {
        self.halfmove_clock = halfmove_clock;
    }

    /// The number of the current full move.
    #[must_use]
    pub fn fullmove_number(&self) -> (number: u32)
        ensures
            number == self@.full,
    {
        self.fullmove_number
    }

    /// Replaces the fullmove number.
    pub fn set_fullmove_number(&mut self, fullmove_number: u32)
        ensures
            final(self)@ == (PositionView { full: fullmove_number, ..old(self)@ }),
    {
        self.fullmove_number = fullmove_number;
    }
}

impl Default for Position {
    fn default() -> (position: Position)
        ensures
            position@ == PositionView::start(),
    {
        Position::startpos()
    }
}

} // verus!
