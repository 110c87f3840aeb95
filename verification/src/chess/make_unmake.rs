//! Make/unmake move application.
//!
//! `Position::make_move` mutates the position in place and returns an
//! `Undo` record; `Position::unmake_move` uses that record to restore
//! the exact prior state. This avoids cloning the whole `Position` at
//! every ply.
//!
//! `make_move` trusts its caller: it does not itself check legality (or
//! even pseudo-legality) of `mv` against the current position. The two
//! clocks are counted modulo 2^32.

use super::castling::CastlingRights;
use super::moves::{Move, MoveFlag};
use super::piece::{Color, Piece, PieceKind};
use super::position::{Position, PositionView};
use super::square::Square;
use vstd::prelude::*;

verus! {

broadcast use {
    super::moves::lemma_move_squares,
    super::position::lemma_board_len,
    super::square::lemma_at_idx,
};

/// Everything needed to reverse a `make_move` call. Deliberately small:
/// only what cannot be cheaply re-derived from the move itself.
#[derive(Debug, Clone, Copy, PartialEq, Eq)]
pub struct Undo {
    /// The piece captured by this move, if any, and the square it was
    /// captured on. For en passant this is the pawn on the pre-capture
    /// square, not the move's target: the capturing pawn lands on an empty
    /// square.
    captured: Option<(Square, Piece)>,
    en_passant_square: Option<Square>,
    castling_rights: CastlingRights,
    halfmove_clock: u32,
    fullmove_number: u32,
}

/// What an undo record holds, with squares as indices.
pub struct UndoView {
    pub captured: Option<(int, Piece)>,
    pub ep: Option<int>,
    pub rights: CastlingRights,
    pub half: u32,
    pub full: u32,
}

impl View for Undo {
    type V = UndoView;

    closed spec fn view(&self) -> UndoView {
        UndoView {
            captured: match self.captured {
                Some((square, piece)) => Some((square.idx(), piece)),
                None => None,
            },
            ep: Square::index_of(self.en_passant_square),
            rights: self.castling_rights,
            half: self.halfmove_clock,
            full: self.fullmove_number,
        }
    }
}

impl Move {
    /// The square on which this move captures, if it captures: its target,
    /// except that en passant captures beside the starting square.
    pub open spec fn capture_square(self) -> int {
        if self.kind() == MoveFlag::EnPassant {
            (self.src() / 8) * 8 + self.dst() % 8
        } else {
            self.dst()
        }
    }

    /// Where the castling rook starts.
    pub open spec fn rook_from(self) -> int {
        (self.src() / 8) * 8 + (if self.kind() == MoveFlag::CastleKingside {
            7int
        } else {
            0int
        })
    }

    /// Where the castling rook ends up.
    pub open spec fn rook_to(self) -> int {
        (self.src() / 8) * 8 + (if self.kind() == MoveFlag::CastleKingside {
            5int
        } else {
            3int
        })
    }

    /// Whether this is a castling move.
    pub open spec fn is_castling(self) -> bool {
        self.kind() == MoveFlag::CastleKingside || self.kind() == MoveFlag::CastleQueenside
    }
}

impl CastlingRights {
    /// The rights left once `piece` is gone from square `sq`: a king that
    /// leaves its home rank's squares takes both rights of its color with it,
    /// a rook that leaves its corner takes that corner's.
    pub open spec fn after_departure(self, sq: int, piece: Option<Piece>) -> CastlingRights {
        match piece {
            None => self,
            Some(p) => {
                if p.kind == PieceKind::King && p.color == Color::White && sq / 8 == 0 {
                    CastlingRights { white_kingside: false, white_queenside: false, ..self }
                } else if p.kind == PieceKind::King && p.color == Color::Black && sq / 8 == 7 {
                    CastlingRights { black_kingside: false, black_queenside: false, ..self }
                } else if p.kind == PieceKind::Rook && p.color == Color::White && sq == 0 {
                    CastlingRights { white_queenside: false, ..self }
                } else if p.kind == PieceKind::Rook && p.color == Color::White && sq == 7 {
                    CastlingRights { white_kingside: false, ..self }
                } else if p.kind == PieceKind::Rook && p.color == Color::Black && sq == 56 {
                    CastlingRights { black_queenside: false, ..self }
                } else if p.kind == PieceKind::Rook && p.color == Color::Black && sq == 63 {
                    CastlingRights { black_kingside: false, ..self }
                } else {
                    self
                }
            },
        }
    }
}

/// The board with the castling rook moved from `from` to `to`.
pub open spec fn rook_moved(board: Seq<Option<Piece>>, from: int, to: int) -> Seq<Option<Piece>> {
    board.update(from, None).update(to, board[from])
}

impl PositionView {
    /// The piece that stands on the target square once `mv` is made: the
    /// moving piece, or what it promotes to.
    pub open spec fn placed_piece(self, mv: Move) -> Option<Piece> {
        match mv.kind().promotes_to() {
            Some(kind) => Some(Piece { kind, color: self.side }),
            None => self.board[mv.src()],
        }
    }

    /// The board after `mv`.
    pub open spec fn made_board(self, mv: Move) -> Seq<Option<Piece>> {
        let cleared = if mv.kind() == MoveFlag::EnPassant {
            self.board.update(mv.capture_square(), None)
        } else {
            self.board
        };
        let moved = cleared.update(mv.src(), None).update(mv.dst(), self.placed_piece(mv));
        if mv.is_castling() {
            rook_moved(moved, mv.rook_from(), mv.rook_to())
        } else {
            moved
        }
    }

    /// Whether `mv` moves a pawn or captures, and so restarts the fifty-move count.
    pub open spec fn is_irreversible(self, mv: Move) -> bool {
        (self.board[mv.src()] matches Some(piece) && piece.kind == PieceKind::Pawn)
            || self.board[mv.capture_square()] is Some
    }

    /// The position after `mv`.
    pub open spec fn made(self, mv: Move) -> PositionView {
        PositionView {
            board: self.made_board(mv),
            side: self.side.other(),
            rights: self.rights.after_departure(
                mv.src(),
                self.board[mv.src()],
            ).after_departure(mv.capture_square(), self.board[mv.capture_square()]),
            ep: if mv.kind() == MoveFlag::DoublePawnPush {
                Some(((mv.src() / 8 + mv.dst() / 8) / 2) * 8 + mv.src() % 8)
            } else {
                None
            },
            half: if self.is_irreversible(mv) {
                0
            } else {
                self.half.wrapping_add(1)
            },
            full: if self.side == Color::Black {
                self.full.wrapping_add(1)
            } else {
                self.full
            },
        }
    }

    /// What has to be remembered to take `mv` back.
    pub open spec fn undo_of(self, mv: Move) -> UndoView {
        UndoView {
            captured: match self.board[mv.capture_square()] {
                Some(piece) => Some((mv.capture_square(), piece)),
                None => None,
            },
            ep: self.ep,
            rights: self.rights,
            half: self.half,
            full: self.full,
        }
    }

    /// The board after taking `mv` back.
    pub open spec fn unmade_board(self, mv: Move, undo: UndoView) -> Seq<Option<Piece>> {
        let original = match mv.kind().promotes_to() {
            Some(_) => Some(Piece { kind: PieceKind::Pawn, color: self.side.other() }),
            None => self.board[mv.dst()],
        };
        let returned = self.board.update(mv.dst(), None).update(mv.src(), original);
        let restored = match undo.captured {
            Some((square, piece)) => returned.update(square, Some(piece)),
            None => returned,
        };
        if mv.is_castling() {
            rook_moved(restored, mv.rook_to(), mv.rook_from())
        } else {
            restored
        }
    }

    /// The position after taking `mv` back.
    pub open spec fn unmade(self, mv: Move, undo: UndoView) -> PositionView {
        PositionView {
            board: self.unmade_board(mv, undo),
            side: self.side.other(),
            rights: undo.rights,
            ep: undo.ep,
            half: undo.half,
            full: undo.full,
        }
    }

    /// Whether taking `mv` back after making it loses nothing: only a pawn of
    /// the side to move may promote, en passant lands on an empty square, and
    /// castling moves a rook past a king onto an empty square.
    pub open spec fn reversible(self, mv: Move) -> bool {
        let from = mv.src();
        let to = mv.dst();
        &&& self.board[from] is Some
        &&& mv.kind().promotes_to() is Some ==> from == to || self.board[from] == Some(
            Piece { kind: PieceKind::Pawn, color: self.side },
        )
        &&& mv.kind() == MoveFlag::EnPassant ==> to == from || to == mv.capture_square()
            || self.board[to] is None
        &&& mv.is_castling() ==> from != mv.rook_from() && from != mv.rook_to() && to
            != mv.rook_from() && to != mv.rook_to() && self.board[mv.rook_to()] is None
    }
}

impl Position {
    /// Applies `mv` to this position, mutating it in place, and returns
    /// an `Undo` record that can later restore the pre-move state via
    /// `unmake_move`. There has to be a piece on the move's starting square.
    pub fn make_move(&mut self, mv: Move) -> (undo: Undo)
        requires
            old(self)@.board[mv.src()] is Some,
        ensures
            final(self)@ == old(self)@.made(mv),
            undo@ == old(self)@.undo_of(mv),
    {
        let from = mv.from();
        let to = mv.to();
        let flag = mv.flag();
        let moving_color = self.side_to_move();
        let moving_piece = self.piece_at(from).unwrap();

        // Determine the captured piece (if any) and the square it sits
        // on, before mutating the board. En passant captures a pawn on
        // a different square than `to`.
        let capture_square = if flag == MoveFlag::EnPassant {
            Square::from_file_rank(to.file(), from.rank())
        } else {
            to
        };
        let captured_piece = self.piece_at(capture_square);
        let undo = Undo {
            captured: match captured_piece {
                Some(piece) => Some((capture_square, piece)),
                None => None,
            },
            en_passant_square: self.en_passant_square(),
            castling_rights: self.castling_rights(),
            halfmove_clock: self.halfmove_clock(),
            fullmove_number: self.fullmove_number(),
        };

        // Halfmove clock: reset on capture or pawn move, otherwise
        // increment.
        let is_pawn_move = moving_piece.kind == PieceKind::Pawn;
        let is_capture = captured_piece.is_some();
        let new_halfmove_clock: u32 = if is_pawn_move || is_capture {
            0
        } else {
            self.halfmove_clock().wrapping_add(1)
        };
        self.set_halfmove_clock(new_halfmove_clock);

        // Move the piece, clearing any captured piece first (en passant
        // clears a square other than `to`).
        if flag == MoveFlag::EnPassant {
            self.set_piece(capture_square, None);
        }
        self.set_piece(from, None);
        let placed_piece = match flag.promotion_kind() {
            Some(promotion_kind) => Piece::new(promotion_kind, moving_color),
            None => moving_piece,
        };
        self.set_piece(to, Some(placed_piece));

        // Castling also moves the rook.
        match flag {
            MoveFlag::CastleKingside => {
                let rank: u8 = from.rank();
                let rook_from = Square::from_file_rank(7, rank);
                let rook_to = Square::from_file_rank(5, rank);
                let rook = self.piece_at(rook_from);
                self.set_piece(rook_from, None);
                self.set_piece(rook_to, rook);
            },
            MoveFlag::CastleQueenside => {
                let rank: u8 = from.rank();
                let rook_from = Square::from_file_rank(0, rank);
                let rook_to = Square::from_file_rank(3, rank);
                let rook = self.piece_at(rook_from);
                self.set_piece(rook_from, None);
                self.set_piece(rook_to, rook);
            },
            _ => {},
        }

        // New en passant square: only set immediately after a double
        // pawn push, to the square the pawn skipped over.
        let new_en_passant_square = if flag == MoveFlag::DoublePawnPush {
            let skipped_rank: u8 = (from.rank() + to.rank()) / 2;
            Some(Square::from_file_rank(from.file(), skipped_rank))
        } else {
            None
        };
        self.set_en_passant_square(new_en_passant_square);

        // Castling rights: lost when a king or rook moves, or when a
        // rook is captured on its home square.
        let mut rights = self.castling_rights();
        update_castling_rights_on_departure(&mut rights, from, Some(moving_piece));
        update_castling_rights_on_departure(&mut rights, capture_square, captured_piece);
        self.set_castling_rights(rights);

        // Side to move and fullmove number.
        self.set_side_to_move(moving_color.opposite());
        if moving_color == Color::Black {
            let number: u32 = self.fullmove_number();
            self.set_fullmove_number(number.wrapping_add(1));
        }
        undo
    }

    /// Reverses a previous `make_move(mv)` call using the `Undo` record
    /// it returned. There has to be a piece on the move's target square.
    /// `undo` is meant to be the value returned by the matching
    /// `make_move(mv)` call on this same position; then the position is
    /// restored exactly (see `unmake_restores`).
    pub fn unmake_move(&mut self, mv: Move, undo: Undo)
        requires
            old(self)@.board[mv.dst()] is Some,
        ensures
            final(self)@ == old(self)@.unmade(mv, undo@),
    {
        let from = mv.from();
        let to = mv.to();
        let flag = mv.flag();

        // The side that made this move is the opposite of the current
        // (post-move) side to move.
        let moving_color = self.side_to_move().opposite();

        let moved_piece = self.piece_at(to).unwrap();
        let original_piece = match flag.promotion_kind() {
            Some(_) => Piece::new(PieceKind::Pawn, moving_color),
            None => moved_piece,
        };

        self.set_piece(to, None);
        self.set_piece(from, Some(original_piece));

        if let Some((square, piece)) = undo.captured {
            self.set_piece(square, Some(piece));
        }
        if flag == MoveFlag::CastleKingside {
            let rank: u8 = from.rank();
            let rook_to = Square::from_file_rank(5, rank);
            let rook_from = Square::from_file_rank(7, rank);
            let rook = self.piece_at(rook_to);
            self.set_piece(rook_to, None);
            self.set_piece(rook_from, rook);
        } else if flag == MoveFlag::CastleQueenside {
            let rank: u8 = from.rank();
            let rook_to = Square::from_file_rank(3, rank);
            let rook_from = Square::from_file_rank(0, rank);
            let rook = self.piece_at(rook_to);
            self.set_piece(rook_to, None);
            self.set_piece(rook_from, rook);
        }
        self.set_en_passant_square(undo.en_passant_square);
        self.set_castling_rights(undo.castling_rights);
        self.set_halfmove_clock(undo.halfmove_clock);
        self.set_fullmove_number(undo.fullmove_number);
        self.set_side_to_move(moving_color);
    }
}

/// What is needed to take back a null move.
#[derive(Debug, Clone, Copy, PartialEq, Eq)]
pub struct NullUndo {
    en_passant_square: Option<Square>,
    halfmove_clock: u32,
    fullmove_number: u32,
}

/// What a null-move undo record holds, with the square as an index.
pub struct NullUndoView {
    pub ep: Option<int>,
    pub half: u32,
    pub full: u32,
}

impl View for NullUndo {
    type V = NullUndoView;

    closed spec fn view(&self) -> NullUndoView {
        NullUndoView {
            ep: Square::index_of(self.en_passant_square),
            half: self.halfmove_clock,
            full: self.fullmove_number,
        }
    }
}

impl PositionView {
    /// The position after passing the turn: nothing moves, the en passant
    /// chance is gone, and the clocks run on.
    pub open spec fn passed(self) -> PositionView {
        PositionView {
            side: self.side.other(),
            ep: None,
            half: self.half.wrapping_add(1),
            full: if self.side == Color::Black {
                self.full.wrapping_add(1)
            } else {
                self.full
            },
            ..self
        }
    }

    /// What has to be remembered to take back passing the turn.
    pub open spec fn null_undo(self) -> NullUndoView {
        NullUndoView { ep: self.ep, half: self.half, full: self.full }
    }

    /// The position after taking back passing the turn.
    pub open spec fn unpassed(self, undo: NullUndoView) -> PositionView {
        PositionView {
            side: self.side.other(),
            ep: undo.ep,
            half: undo.half,
            full: undo.full,
            ..self
        }
    }
}

impl Position {
    /// Passes the turn without moving a piece.
    pub fn make_null_move(&mut self) -> (undo: NullUndo)
        ensures
            final(self)@ == old(self)@.passed(),
            undo@ == old(self)@.null_undo(),
    {
        let moving_color = self.side_to_move();
        let clock: u32 = self.halfmove_clock();
        let number: u32 = self.fullmove_number();
        let undo = NullUndo {
            en_passant_square: self.en_passant_square(),
            halfmove_clock: clock,
            fullmove_number: number,
        };
        self.set_en_passant_square(None);
        self.set_halfmove_clock(clock.wrapping_add(1));
        self.set_side_to_move(moving_color.opposite());
        if moving_color == Color::Black {
            self.set_fullmove_number(number.wrapping_add(1));
        }
        undo
    }

    /// Takes back a null move, using the record that `make_null_move` returned.
    pub fn unmake_null_move(&mut self, undo: NullUndo)
        ensures
            final(self)@ == old(self)@.unpassed(undo@),
    {
        let color = self.side_to_move().opposite();
        self.set_side_to_move(color);
        self.set_en_passant_square(undo.en_passant_square);
        self.set_halfmove_clock(undo.halfmove_clock);
        self.set_fullmove_number(undo.fullmove_number);
    }
}

/// Passing the turn and taking that back restores the position exactly.
pub proof fn unmake_null_restores(p: PositionView)
    ensures
        p.passed().unpassed(p.null_undo()) == p,
{
    assert(p.side.other().other() == p.side);
}

/// Clears the castling right associated with `square` if a king or rook
/// left it (via moving or being captured). `piece` is the piece that
/// was on `square` before this event, if any.
fn update_castling_rights_on_departure(
    rights: &mut CastlingRights,
    square: Square,
    piece: Option<Piece>,
)
    ensures
        *final(rights) == old(rights).after_departure(square.idx(), piece),
{
    let index: u8 = square.index();
    if let Some(piece) = piece {
        match (piece.color, piece.kind, square.file(), square.rank()) {
            (Color::White, PieceKind::King, _, 0) => {
                rights.white_kingside = false;
                rights.white_queenside = false;
            },
            (Color::Black, PieceKind::King, _, 7) => {
                rights.black_kingside = false;
                rights.black_queenside = false;
            },
            (Color::White, PieceKind::Rook, 0, 0) => {
                rights.white_queenside = false;
            },
            (Color::White, PieceKind::Rook, 7, 0) => {
                rights.white_kingside = false;
            },
            (Color::Black, PieceKind::Rook, 0, 7) => {
                rights.black_queenside = false;
            },
            (Color::Black, PieceKind::Rook, 7, 7) => {
                rights.black_kingside = false;
            },
            _ => {},
        }
    }
}

/// Making a reversible move and taking it back restores the position exactly:
/// every square, the side to move, castling rights, en passant square and
/// both clocks. The target square is occupied in between, so that
/// `unmake_move` may be called.
pub proof fn unmake_restores(p: PositionView, mv: Move)
    requires
        p.board.len() == 64,
        p.reversible(mv),
    ensures
        p.made(mv).board[mv.dst()] is Some,
        p.made(mv).unmade(mv, p.undo_of(mv)) == p,
{
    assert(p.side.other().other() == p.side);
    assert(p.made(mv).unmade_board(mv, p.undo_of(mv)) =~= p.board);
}

/// The moves that `unmake_restores` leaves out are exactly those for which
/// something is lost: if the starting square is occupied, the target square
/// still is after the move, and taking the move back restores the position,
/// then the move is reversible.
pub proof fn only_reversible_moves_restore(p: PositionView, mv: Move)
    requires
        p.board.len() == 64,
        p.board[mv.src()] is Some,
        p.made(mv).board[mv.dst()] is Some,
        p.made(mv).unmade(mv, p.undo_of(mv)) == p,
    ensures
        p.reversible(mv),
{
    let after = p.made(mv).unmade_board(mv, p.undo_of(mv));
    assert(after[mv.src()] == p.board[mv.src()]);
    assert(after[mv.dst()] == p.board[mv.dst()]);
    if mv.is_castling() {
        assert(after[mv.rook_from()] == p.board[mv.rook_from()]);
        assert(after[mv.rook_to()] == p.board[mv.rook_to()]);
    }
}

/// Every move passes the turn, and the en passant square is set only by a
/// double pawn push.
pub proof fn make_passes_the_turn(p: PositionView, mv: Move)
    ensures
        p.made(mv).side == p.side.other(),
        p.made(mv).ep is Some <==> mv.kind() == MoveFlag::DoublePawnPush,
{
}

/// Castling rights are never regained.
pub proof fn rights_never_return(p: PositionView, mv: Move)
    ensures
        p.made(mv).rights.white_kingside ==> p.rights.white_kingside,
        p.made(mv).rights.white_queenside ==> p.rights.white_queenside,
        p.made(mv).rights.black_kingside ==> p.rights.black_kingside,
        p.made(mv).rights.black_queenside ==> p.rights.black_queenside,
{
}

} // verus!
