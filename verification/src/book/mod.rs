//! Opening books: a cheap, position-keyed lookup that the engine can consult
//! *before* search.
//!
//! `OpeningBook::probe` takes a position, not a hash or a ply count: keying
//! by the position is what makes a book work across transpositions, and it
//! leaves the key scheme of a book on disk to that book.

use crate::chess::moves::{Move, MoveFlag};
use crate::chess::piece::{Color, Piece, PieceKind};
use crate::chess::position::{Position, PositionView};
use crate::chess::square::Square;
use vstd::prelude::*;

pub mod artifact;
pub mod artifact_laws;
pub mod book_laws;
pub mod experience;
pub mod key;

verus! {

broadcast use {
    crate::chess::position::lemma_board_len,
    crate::chess::square::lemma_at_idx,
};

/// Looks up a known-good move for a position, if any. What a book offers is
/// a currently *legal* move; a book that cannot vouch for its data has to
/// check legality itself.
///
/// A book miss (`None`) is always a completely ordinary outcome, not
/// an error -- see `NoBook`.
pub trait OpeningBook: Send + Sync {
    /// What the book offers in a position.
    spec fn offers(&self, p: PositionView) -> Option<Move>;

    fn probe(&self, position: &Position) -> (mv: Option<Move>)
        ensures
            mv == self.offers(position@),
            mv matches Some(m) ==> position@.legal_moves().contains(m),
    ;
}

/// Whether `mv` is among `moves`.
pub(crate) fn contains_move(moves: &Vec<Move>, mv: Move) -> (found: bool)
    ensures
        found == moves@.contains(mv),
{
    let mut k: usize = 0;
    while k < moves.len()
        invariant
            k <= moves.len(),
            forall|j: int| 0 <= j < k ==> moves@[j] != mv,
        decreases moves.len() - k,
    {
        if moves[k] == mv {
            assert(moves@[k as int] == mv);
            return true;
        }
        k += 1;
    }
    false
}

/// The null opening book: always a miss. "No book" is just another
/// `OpeningBook`, not a special case.
pub struct NoBook;

impl OpeningBook for NoBook {
    open spec fn offers(&self, p: PositionView) -> Option<Move> {
        None
    }

    fn probe(&self, position: &Position) -> (mv: Option<Move>) {
        let _ = position;
        None
    }
}

/// The Cow: pawns to d3/e3, knights rerouted to the "horns" on b3/g3
/// (via d2/e2), completely irrespective of what the opponent does. A
/// real, if eccentric and objectively passive, setup that is simple enough
/// to encode as "which setup move is still pending".
///
/// The setup order for one side: e-pawn to e3, d-pawn to d3, king knight to
/// e2, queen knight to d2, then the knight on e2 continues to g3 and the
/// knight on d2 continues to b3. The pending step is the first one that has
/// not happened yet, going by the actual piece placement: a step has happened
/// once its starting square is empty, or once a knight on its way to the horns
/// stands where a pawn was. The pending step is offered if the piece that makes
/// it is there and it is a legal move now; if not, this is a book miss rather
/// than a reason to skip ahead to a later step -- the Cow is a starting point
/// to commit to only while it stays reasonable, never a script to play blindly.
///
/// Symmetric for both colors: the shape is mirrored (rank 2->3 for
/// White becomes rank 7->6 for Black, etc.).
pub struct CowOpeningBook;

/// The index of the square on `file`, `n` ranks forward of the back rank of
/// `side`.
pub open spec fn relative_square(side: Color, file: int, n: int) -> int {
    (side.home_rank() + side.forward() * n) * 8 + file
}

/// The Cow's setup steps for `side`, in the order they should be played: which
/// kind of piece moves, from where, and where to. They are e2-e3, d2-d3,
/// Ng1-e2, Nb1-d2, Ne2-g3 and Nd2-b3 for White, and their mirror images for
/// Black.
pub open spec fn cow_steps(side: Color) -> Seq<(PieceKind, int, int)> {
    seq![
        (PieceKind::Pawn, relative_square(side, 4, 1), relative_square(side, 4, 2)),
        (PieceKind::Pawn, relative_square(side, 3, 1), relative_square(side, 3, 2)),
        (PieceKind::Knight, relative_square(side, 6, 0), relative_square(side, 4, 1)),
        (PieceKind::Knight, relative_square(side, 1, 0), relative_square(side, 3, 1)),
        (PieceKind::Knight, relative_square(side, 4, 1), relative_square(side, 6, 2)),
        (PieceKind::Knight, relative_square(side, 3, 1), relative_square(side, 1, 2)),
    ]
}

/// Whether the `k`-th setup step can still be made: the piece that makes it is
/// where it starts.
pub open spec fn cow_step_is_open(p: PositionView, k: int) -> bool {
    let (kind, from, _) = cow_steps(p.side)[k];
    p.board[from] == Some(Piece { kind, color: p.side })
}

/// Whether the `k`-th setup step has happened: its starting square is empty, or
/// one of the side's own knights, on its way, stands where a pawn was.
pub open spec fn cow_step_is_past(p: PositionView, k: int) -> bool {
    let (kind, from, _) = cow_steps(p.side)[k];
    p.board[from] is None || (kind == PieceKind::Pawn && p.board[from] == Some(
        Piece { kind: PieceKind::Knight, color: p.side },
    ))
}

/// What the Cow offers when only the steps from the `k`-th on are looked at.
pub open spec fn cow_offer(p: PositionView, k: nat) -> Option<Move>
    decreases 6 - k,
{
    if k >= 6 {
        None
    } else if cow_step_is_past(p, k as int) {
        cow_offer(p, k + 1)
    } else {
        let (_, from, to) = cow_steps(p.side)[k as int];
        let mv = Move::of(from, to, MoveFlag::Quiet);
        if cow_step_is_open(p, k as int) && p.legal_moves().contains(mv) {
            Some(mv)
        } else {
            None
        }
    }
}

impl OpeningBook for CowOpeningBook {
    open spec fn offers(&self, p: PositionView) -> Option<Move> {
        cow_offer(p, 0)
    }

    fn probe(&self, position: &Position) -> (mv: Option<Move>) {
        let legal_moves: Vec<Move> = position.generate_legal_moves();
        let side = position.side_to_move();
        let steps: [(PieceKind, Square, Square); 6] = cow_setup_steps(side);
        let mut k: usize = 0;
        while k < 6
            invariant
                k <= 6,
                side == position@.side,
                legal_moves@ == position@.legal_moves(),
                forall|j: int|
                    0 <= j < 6 ==> (#[trigger] steps@[j]).0 == cow_steps(side)[j].0
                        && steps@[j].1.idx() == cow_steps(side)[j].1 && steps@[j].2.idx()
                        == cow_steps(side)[j].2,
                cow_offer(position@, k as nat) == cow_offer(position@, 0),
            decreases 6 - k,
        {
            let (kind, from, to) = steps[k];
            assert(steps@[k as int] == (kind, from, to));
            let found = position.piece_at(from);
            // Already played this step: move on to the next one rather than
            // getting stuck on it forever.
            let past = found.is_none() || (kind == PieceKind::Pawn && found == Some(
                Piece::new(PieceKind::Knight, side),
            ));
            if !past {
                let mv = Move::new(from, to, MoveFlag::Quiet);
                // The pending step is blocked, or its piece is not the one that
                // belongs here: skipping ahead out of setup order could make
                // an already questionable setup actively unsound.
                return if found == Some(Piece::new(kind, side)) && contains_move(
                    &legal_moves,
                    mv,
                ) {
                    Some(mv)
                } else {
                    None
                };
            }
            k += 1;
        }
        // Every setup step has already been played: the Cow is fully built,
        // nothing left for this book to offer.
        None
    }
}

/// The square on `file`, `n` ranks forward of the back rank of `side`.
fn square_ahead(side: Color, file: u8, n: u8) -> (square: Square)
    requires
        file < 8,
        n < 8,
    ensures
        square.idx() == relative_square(side, file as int, n as int),
{
    match side {
        Color::White => Square::from_file_rank(file, n),
        Color::Black => Square::from_file_rank(file, 7 - n),
    }
}

/// The Cow's six setup steps for `side`, in the order they should be played --
/// see `CowOpeningBook`'s docs.
fn cow_setup_steps(side: Color) -> (steps: [(PieceKind, Square, Square); 6])
    ensures
        forall|j: int|
            0 <= j < 6 ==> (#[trigger] steps@[j]).0 == cow_steps(side)[j].0 && steps@[j].1.idx()
                == cow_steps(side)[j].1 && steps@[j].2.idx() == cow_steps(side)[j].2,
{
    [
        (PieceKind::Pawn, square_ahead(side, 4, 1), square_ahead(side, 4, 2)),
        (PieceKind::Pawn, square_ahead(side, 3, 1), square_ahead(side, 3, 2)),
        (PieceKind::Knight, square_ahead(side, 6, 0), square_ahead(side, 4, 1)),
        (PieceKind::Knight, square_ahead(side, 1, 0), square_ahead(side, 3, 1)),
        (PieceKind::Knight, square_ahead(side, 4, 1), square_ahead(side, 6, 2)),
        (PieceKind::Knight, square_ahead(side, 3, 1), square_ahead(side, 1, 2)),
    ]
}

/// What the Cow offers from the `k`-th step on, likewise.
proof fn lemma_cow_offer(p: PositionView, q: PositionView, k: nat)
    requires
        p.same_but_clocks(q),
    ensures
        cow_offer(p, k) == cow_offer(q, k),
    decreases 6 - k,
{
    if k < 6 {
        lemma_cow_offer(p, q, k + 1);
        crate::chess::clocks::legal_moves_ignore_clocks(p, q);
    }
}

/// The first step that has not happened yet is offered, if the piece that
/// makes it is there and it is legal, and nothing else ever is.
pub proof fn cow_offers_the_first_open_step(p: PositionView, k: nat)
    requires
        k < 6,
        forall|j: int| 0 <= j < k ==> #[trigger] cow_step_is_past(p, j),
        !cow_step_is_past(p, k as int),
    ensures
        ({
            let (_, from, to) = cow_steps(p.side)[k as int];
            let mv = Move::of(from, to, MoveFlag::Quiet);
            CowOpeningBook.offers(p) == (if cow_step_is_open(p, k as int)
                && p.legal_moves().contains(mv) {
                Some(mv)
            } else {
                None
            })
        }),
{
    lemma_cow_skips(p, 0, k);
}

/// Once every step has happened, the Cow is built and nothing is offered.
pub proof fn cow_is_built_after_the_last_step(p: PositionView)
    requires
        forall|j: int| 0 <= j < 6 ==> #[trigger] cow_step_is_past(p, j),
    ensures
        CowOpeningBook.offers(p) is None,
{
    lemma_cow_skips(p, 0, 6);
}

proof fn lemma_cow_skips(p: PositionView, i: nat, k: nat)
    requires
        i <= k <= 6,
        forall|j: int| i <= j < k ==> #[trigger] cow_step_is_past(p, j),
    ensures
        cow_offer(p, i) == cow_offer(p, k),
    decreases k - i,
{
    if i < k {
        assert(cow_step_is_past(p, i as int));
        lemma_cow_skips(p, i + 1, k);
    }
}

/// What the Cow offers depends on the position alone, not on how and after
/// how many moves it was reached.
pub proof fn cow_ignores_clocks(p: PositionView, q: PositionView)
    requires
        p.same_but_clocks(q),
    ensures
        CowOpeningBook.offers(p) == CowOpeningBook.offers(q),
{
    lemma_cow_offer(p, q, 0);
}

} // verus!
