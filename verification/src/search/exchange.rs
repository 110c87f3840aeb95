//! Captures and their likely consequences: exchange values, static exchange
//! evaluation, and the material conditions that pruning depends on.

use crate::chess::moves::{Move, MoveFlag};
use crate::chess::piece::{Color, Piece, PieceKind};
use crate::chess::position::{Position, PositionView};
use crate::chess::square::Square;
use vstd::prelude::*;

verus! {

broadcast use {
    crate::chess::moves::lemma_move_squares,
    crate::chess::position::lemma_board_len,
    crate::chess::square::lemma_at_idx,
};

/// What a piece counts for in an exchange. The king counts for more than
/// everything else together.
pub open spec fn exchange_value(kind: PieceKind) -> int {
    match kind {
        PieceKind::Pawn => 100,
        PieceKind::Knight => 320,
        PieceKind::Bishop => 330,
        PieceKind::Rook => 500,
        PieceKind::Queen => 900,
        PieceKind::King => 20_000,
    }
}

/// What the content of a square counts for in an exchange.
pub open spec fn content_value(content: Option<Piece>) -> int {
    match content {
        Some(piece) => exchange_value(piece.kind),
        None => 0,
    }
}

/// What a move captures counts for in an exchange.
pub open spec fn victim_value(p: PositionView, mv: Move) -> int {
    if mv.kind() == MoveFlag::EnPassant {
        exchange_value(PieceKind::Pawn)
    } else {
        content_value(p.board[mv.dst()])
    }
}

impl PositionView {
    /// Whether `mv` captures a piece.
    pub open spec fn captures(self, mv: Move) -> bool {
        mv.kind() == MoveFlag::EnPassant || self.board[mv.dst()] is Some
    }

    /// Whether a rook or queen of either color is on the board.
    pub open spec fn has_majors(self) -> bool {
        exists|i: int|
            0 <= i < 64 && (#[trigger] self.board[i] matches Some(piece) && (piece.kind
                == PieceKind::Rook || piece.kind == PieceKind::Queen))
    }

    /// Whether `color` has anything besides pawns and kings.
    pub open spec fn has_pieces(self, color: Color) -> bool {
        exists|i: int|
            0 <= i < 64 && (#[trigger] self.board[i] matches Some(piece) && piece.color == color
                && piece.kind != PieceKind::Pawn && piece.kind != PieceKind::King)
    }
}

/// How many of the first `n` squares are occupied.
pub open spec fn occupied(board: Seq<Option<Piece>>, n: nat) -> nat
    decreases n,
{
    if n == 0 {
        0
    } else {
        occupied(board, (n - 1) as nat) + (if board[n - 1] is Some {
            1nat
        } else {
            0
        })
    }
}

proof fn lemma_occupied_update(board: Seq<Option<Piece>>, i: int, content: Option<Piece>, n: nat)
    requires
        0 <= i < board.len(),
        n <= board.len(),
    ensures
        occupied(board.update(i, content), n) == occupied(board, n) + (if i < n && content is Some
            && board[i] is None {
            1int
        } else if i < n && content is None && board[i] is Some {
            -1int
        } else {
            0int
        }),
    decreases n,
{
    if n > 0 {
        lemma_occupied_update(board, i, content, (n - 1) as nat);
    }
}

proof fn lemma_occupied_bound(board: Seq<Option<Piece>>, n: nat)
    ensures
        occupied(board, n) <= n,
    decreases n,
{
    if n > 0 {
        lemma_occupied_bound(board, (n - 1) as nat);
    }
}

/// Whether the exchange on `target` is `side`'s turn: the other color stands
/// there.
pub open spec fn on_turn(p: PositionView, target: int, side: Color) -> bool {
    p.board.len() == 64 && 0 <= target < 64 && (p.board[target] matches Some(piece) && piece.color
        == side.other())
}

/// The board after `side` has captured on `target` with the piece on `from`.
pub open spec fn recaptured(p: PositionView, target: int, side: Color, from: int, kind: PieceKind) -> PositionView {
    p.put(from, None).put(target, Some(Piece { kind, color: side }))
}

/// Every recapture takes a piece off the board.
pub(crate) proof fn lemma_recapture(p: PositionView, target: int, side: Color)
    requires
        on_turn(p, target, side),
        p.least_attacker(target, side) is Some,
    ensures
        ({
            let (from, kind) = p.least_attacker(target, side)->0;
            let after = recaptured(p, target, side, from, kind);
            &&& 0 <= from < 64
            &&& occupied(after.board, 64) == occupied(p.board, 64) - 1
            &&& on_turn(after, target, side.other())
        }),
{
    crate::chess::see::least_attacker_is_cheapest(p, target, side);
    let (from, kind) = p.least_attacker(target, side)->0;
    assert(p.holds(from, kind, side));
    assert(from != target);
    let without = p.board.update(from, None);
    lemma_occupied_update(p.board, from, None, 64);
    lemma_occupied_update(without, target, Some(Piece { kind, color: side }), 64);
}

/// The swap list of an exchange on `target`: what each capture wins, less what
/// the one before it had won. Both sides always capture with their cheapest
/// attacker, and `standing` is the piece that stands on `target`.
pub open spec fn swap_list(
    p: PositionView,
    target: int,
    side: Color,
    standing: PieceKind,
    gains: Seq<int>,
) -> Seq<int>
    decreases occupied(p.board, 64),
    when on_turn(p, target, side)
    via swap_list_decreases
{
    match p.least_attacker(target, side) {
        None => gains,
        Some((from, kind)) => swap_list(
            recaptured(p, target, side, from, kind),
            target,
            side.other(),
            kind,
            gains.push(exchange_value(standing) - gains.last()),
        ),
    }
}

#[via_fn]
proof fn swap_list_decreases(
    p: PositionView,
    target: int,
    side: Color,
    standing: PieceKind,
    gains: Seq<int>,
) {
    if p.least_attacker(target, side) is Some {
        lemma_recapture(p, target, side);
    }
}

/// What the first side gets out of a swap list when both sides may stop
/// capturing whenever going on would leave them worse off.
pub open spec fn resolved(gains: Seq<int>) -> int
    decreases gains.len(),
{
    if gains.len() == 0 {
        0
    } else if gains.len() == 1 {
        gains[0]
    } else {
        let rest = resolved(gains.drop_first());
        if -gains[0] >= rest {
            gains[0]
        } else {
            -rest
        }
    }
}

/// The board after the first capture of an exchange.
pub open spec fn exchange_start(p: PositionView, mv: Move, piece: Piece) -> PositionView {
    let lifted = p.put(mv.src(), None);
    let cleared = if mv.kind() == MoveFlag::EnPassant {
        lifted.put(mv.capture_square(), None)
    } else {
        lifted
    };
    cleared.put(mv.dst(), Some(piece))
}

/// The net material result of the exchange that `mv` starts, from the mover's
/// point of view.
pub open spec fn exchange_result(p: PositionView, mv: Move) -> int {
    match p.board[mv.src()] {
        None => 0,
        Some(piece) => resolved(
            swap_list(
                exchange_start(p, mv, piece),
                mv.dst(),
                piece.color.other(),
                piece.kind,
                seq![victim_value(p, mv)],
            ),
        ),
    }
}

/// What a piece counts for in an exchange.
pub fn ordering_piece_value(kind: PieceKind) -> (value: i32)
    ensures
        value == exchange_value(kind),
        100 <= value <= 20_000,
{
    match kind {
        PieceKind::Pawn => 100,
        PieceKind::Knight => 320,
        PieceKind::Bishop => 330,
        PieceKind::Rook => 500,
        PieceKind::Queen => 900,
        PieceKind::King => 20_000,
    }
}

/// What the content of a square counts for in an exchange.
fn ordering_content_value(content: Option<Piece>) -> (value: i32)
    ensures
        value == content_value(content),
        0 <= value <= 20_000,
{
    match content {
        Some(piece) => ordering_piece_value(piece.kind),
        None => 0,
    }
}

/// What `mv` captures counts for in an exchange.
pub(crate) fn captured_value(position: &Position, mv: Move) -> (value: i32)
    ensures
        value == victim_value(position@, mv),
        0 <= value <= 20_000,
{
    if mv.flag() == MoveFlag::EnPassant {
        ordering_piece_value(PieceKind::Pawn)
    } else {
        ordering_content_value(position.piece_at(mv.to()))
    }
}

/// Whether `mv` captures a piece in `position`. Not carried on `Move`
/// itself (see `moves.rs`'s docs): a plain capture looks identical to a
/// quiet move without checking what's actually on the destination
/// square, except for en passant, whose destination square is always
/// empty (the captured pawn sits beside it, not on it).
pub fn is_capture(position: &Position, mv: Move) -> (captures: bool)
    ensures
        captures == position@.captures(mv),
{
    mv.flag() == MoveFlag::EnPassant || position.piece_at(mv.to()).is_some()
}

/// Whether a rook or queen of either color is on the board.
pub fn has_major_material(position: &Position) -> (found: bool)
    ensures
        found == position@.has_majors(),
{
    let mut index: u8 = 0;
    while index < 64
        invariant
            index <= 64,
            forall|i: int|
                0 <= i < index ==> !(#[trigger] position@.board[i] matches Some(piece) && (piece.kind
                    == PieceKind::Rook || piece.kind == PieceKind::Queen)),
        decreases 64 - index,
    {
        if let Some(piece) = position.piece_at(Square::new(index)) {
            if piece.kind == PieceKind::Rook || piece.kind == PieceKind::Queen {
                assert(position@.board[index as int] is Some);
                return true;
            }
        }
        index += 1;
    }
    false
}

/// Whether `color` has anything besides pawns and kings.
pub fn has_non_pawn_material(position: &Position, color: Color) -> (found: bool)
    ensures
        found == position@.has_pieces(color),
{
    let mut index: u8 = 0;
    while index < 64
        invariant
            index <= 64,
            forall|i: int|
                0 <= i < index ==> !(#[trigger] position@.board[i] matches Some(piece)
                    && piece.color == color && piece.kind != PieceKind::Pawn && piece.kind
                    != PieceKind::King),
        decreases 64 - index,
    {
        if let Some(piece) = position.piece_at(Square::new(index)) {
            if piece.color == color && piece.kind != PieceKind::Pawn && piece.kind
                != PieceKind::King {
                assert(position@.board[index as int] is Some);
                return true;
            }
        }
        index += 1;
    }
    false
}

/// Swap lists as sequences of integers.
pub open spec fn as_ints(gains: Seq<i32>) -> Seq<int> {
    Seq::new(gains.len(), |i: int| gains[i] as int)
}

/// Static Exchange Evaluation: simulates the likely capture sequence on
/// `mv`'s destination square (both sides always recapturing with their
/// cheapest available attacker, per `Position::least_valuable_attacker`)
/// and returns the net material result in centipawns, from the mover's
/// perspective -- positive means the exchange favors whoever plays
/// `mv`, negative means it doesn't.
///
/// This is a heuristic, not truth: it ignores checks, pins, discovered
/// attacks, and any positional consequence of the exchange. A move from an
/// empty square is worth nothing.
///
/// Runs on a cloned scratch board via `Position::set_piece` rather than
/// `make_move`/`unmake_move`: the simulation only cares about which
/// pieces occupy which squares as the exchange proceeds.
pub fn static_exchange_evaluation(position: &Position, mv: Move) -> (result: i32)
    ensures
        result == exchange_result(position@, mv),
        -2_000_000 <= result <= 2_000_000,
{
    let target = mv.to();
    let (mover_color, first_kind) = match position.piece_at(mv.from()) {
        Some(piece) => (piece.color, piece.kind),
        None => {
            return 0;
        },
    };
    let mut attacker_kind = first_kind;
    let mut board = position.clone();
    // The first capture's gain is fixed by the move itself (en passant
    // captures a pawn that isn't actually on the destination square), not
    // re-derived from `least_valuable_attacker` below.
    let mut gains: Vec<i32> = Vec::new();
    gains.push(captured_value(position, mv));
    board.set_piece(mv.from(), None);
    if mv.flag() == MoveFlag::EnPassant {
        // The captured pawn sits beside the destination square, not on
        // it -- see `is_capture`'s docs.
        let captured_pawn_rank: u8 = mv.from().rank();
        board.set_piece(Square::from_file_rank(target.file(), captured_pawn_rank), None);
    }
    board.set_piece(target, Some(Piece::new(attacker_kind, mover_color)));
    let mut side_to_capture = mover_color.opposite();
    let ghost start = exchange_start(
        position@,
        mv,
        Piece { kind: first_kind, color: mover_color },
    );
    let ghost whole = swap_list(
        start,
        mv.dst(),
        mover_color.other(),
        first_kind,
        seq![victim_value(position@, mv)],
    );
    proof {
        assert(board@ == start);
        assert(as_ints(gains@) =~= seq![victim_value(position@, mv)]);
        lemma_occupied_bound(board@.board, 64);
    }
    let mut done = false;
    while !done
        invariant
            target.idx() == mv.dst(),
            on_turn(board@, target.idx(), side_to_capture),
            gains@.len() >= 1,
            gains@.len() + occupied(board@.board, 64) <= 65,
            forall|k: int|
                0 <= k < gains@.len() ==> -20_000 * (k + 1) <= #[trigger] gains@[k] <= 20_000 * (k
                    + 1),
            !done ==> swap_list(
                board@,
                target.idx(),
                side_to_capture,
                attacker_kind,
                as_ints(gains@),
            ) == whole,
            done ==> as_ints(gains@) == whole,
        decreases
                (if done {
                    0
                } else {
                    occupied(board@.board, 64) + 1
                }),
    {
        match board.least_valuable_attacker(target, side_to_capture) {
            None => {
                done = true;
            },
            Some((attacker_square, kind)) => {
                // Each new gain is "what this recapture wins" (the value of
                // whatever is currently sitting on `target`, i.e. the previous
                // attacker) minus whatever the previous exchange already
                // banked -- the standard SEE swap-list recurrence.
                proof {
                    lemma_recapture(board@, target.idx(), side_to_capture);
                }
                let ghost before = as_ints(gains@);
                let last: i32 = gains[gains.len() - 1];
                let value: i32 = ordering_piece_value(attacker_kind);
                gains.push(value - last);
                assert(as_ints(gains@) =~= before.push(
                    exchange_value(attacker_kind) - before.last(),
                ));
                board.set_piece(attacker_square, None);
                board.set_piece(target, Some(Piece::new(kind, side_to_capture)));
                attacker_kind = kind;
                side_to_capture = side_to_capture.opposite();
            },
        }
    }
    proof {
        lemma_resolved_bound(whole, 0, 65);
    }
    resolve_see_gains(gains.as_slice())
}

/// The resolved value of a swap list is bounded by its entries.
proof fn lemma_resolved_bound(gains: Seq<int>, offset: int, limit: int)
    requires
        offset >= 0,
        offset + gains.len() <= limit,
        forall|k: int|
            0 <= k < gains.len() ==> -20_000 * limit <= #[trigger] gains[k] <= 20_000 * limit,
    ensures
        -20_000 * limit <= resolved(gains) <= 20_000 * limit,
    decreases gains.len(),
{
    if gains.len() > 1 {
        let rest = gains.drop_first();
        assert forall|k: int| 0 <= k < rest.len() implies -20_000 * limit <= #[trigger] rest[k]
            <= 20_000 * limit by {
            assert(rest[k] == gains[k + 1]);
        }
        lemma_resolved_bound(rest, offset + 1, limit);
    }
}

/// Folds a SEE swap list (`gains[0]` is the value of the very first
/// piece captured; each entry after that is the value of the attacker that
/// moved onto the target square in the step before, less the entry before)
/// into the single net result the *first* mover actually achieves, assuming
/// both sides play optimally -- i.e. a side only recaptures if doing
/// so doesn't leave them worse off than simply stopping the exchange
/// right there. Walking backward, each entry becomes
/// `-max(-gains[i], gains[i+1])`.
pub fn resolve_see_gains(gains: &[i32]) -> (result: i32)
    requires
        forall|k: int| 0 <= k < gains@.len() - 1 ==> #[trigger] gains@[k] > i32::MIN,
    ensures
        result == resolved(as_ints(gains@)),
{
    let n: usize = gains.len();
    if n == 0 {
        return 0;
    }
    let ghost ints = as_ints(gains@);
    let mut folded: i32 = gains[n - 1];
    let mut i: usize = n - 1;
    assert(ints.skip(n - 1) =~= seq![gains@[n - 1] as int]);
    while i > 0
        invariant
            i < n,
            n == gains@.len(),
            ints == as_ints(gains@),
            forall|k: int| 0 <= k < gains@.len() - 1 ==> #[trigger] gains@[k] > i32::MIN,
            folded == resolved(ints.skip(i as int)),
        decreases i,
    {
        i -= 1;
        let ghost rest = ints.skip(i as int);
        assert(rest.drop_first() =~= ints.skip(i + 1));
        let declined: i32 = -gains[i];
        folded = -(if declined >= folded {
            declined
        } else {
            folded
        });
    }
    assert(ints.skip(0) =~= ints);
    folded
}

/// An exchange never wins more than the piece that the first capture takes:
/// the other side may always decline to recapture.
pub proof fn exchange_wins_at_most_the_victim(gains: Seq<int>)
    requires
        gains.len() > 0,
    ensures
        resolved(gains) <= gains[0],
{
}

/// A capture that nobody can answer wins exactly what it takes.
pub proof fn undefended_captures_win_the_victim(p: PositionView, mv: Move)
    requires
        p.board.len() == 64,
        p.board[mv.src()] matches Some(piece) && exchange_start(p, mv, piece).least_attacker(
            mv.dst(),
            piece.color.other(),
        ) is None,
    ensures
        exchange_result(p, mv) == victim_value(p, mv),
{
    let piece = p.board[mv.src()]->0;
    assert(on_turn(exchange_start(p, mv, piece), mv.dst(), piece.color.other()));
}

} // verus!
