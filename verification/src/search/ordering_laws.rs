//! In which order moves are searched.

use super::exchange_laws;
use super::ordering;
use super::state::StateView;
use crate::chess::moves::Move;
use crate::chess::position::PositionView;
use vstd::prelude::*;

verus! {

broadcast use {crate::chess::moves::lemma_move_squares, crate::chess::position::lemma_board_len};

/// The class of a move: the move to try first, captures and promotions, the newer
/// and the older killer of the ply, and all others.
pub open spec fn class_of(
    p: PositionView,
    state: StateView,
    ply: int,
    first: Option<Move>,
    mv: Move,
) -> int {
    if first == Some(mv) {
        4
    } else if p.captures(mv) || mv.kind().promotes_to() is Some {
        3
    } else if ply < state.killers.len() && state.killers[ply].0 == Some(mv) {
        2
    } else if ply < state.killers.len() && state.killers[ply].1 == Some(mv) {
        1
    } else {
        0
    }
}

/// Whether no history counts for more than being a killer.
pub open spec fn modest_history(state: StateView) -> bool {
    state.history.len() == 4096 && forall|i: int|
        0 <= i < 4096 ==> 0 <= #[trigger] state.history[i] < 800_000
}

/// How often a move has cut off, as far as that is remembered.
pub open spec fn remembered_history(state: StateView, mv: Move) -> int {
    state.history[mv.src() * 64 + mv.dst()] as int
}

proof fn lemma_keys(p: PositionView, state: StateView, ply: int, first: Option<Move>, mv: Move)
    requires
        p.board.len() == 64,
        modest_history(state),
        p.board[mv.src()] is Some,
    ensures
        ({
            let key = ordering::order_key(p, state, ply, first, mv);
            let class = class_of(p, state, ply, first, mv);
            &&& class == 4 ==> key == 2_000_000
            &&& class == 3 ==> 950_000 <= key < 2_000_000
            &&& class == 2 ==> key == 900_000
            &&& class == 1 ==> key == 800_000
            &&& class == 0 ==> 0 <= key < 800_000 && key == remembered_history(state, mv)
        }),
{
    let piece = p.board[mv.src()]->0;
    exchange_laws::exchanges_are_played_out(p, mv, piece);
    assert(0 <= mv.src() * 64 + mv.dst() < 4096);
    assert(0 <= state.history[mv.src() * 64 + mv.dst()] < 800_000);
}

/// Moves are searched class by class, the move to try first before all others,
/// and quiet moves by how often they have cut off.
pub proof fn moves_are_searched_class_by_class(
    p: PositionView,
    moves: Seq<Move>,
    state: StateView,
    ply: int,
    first: Option<Move>,
    i: int,
    j: int,
)
    requires
        p.board.len() == 64,
        modest_history(state),
        forall|k: int| 0 <= k < moves.len() ==> p.board[(#[trigger] moves[k]).src()] is Some,
        0 <= i < j < moves.len(),
    ensures
        ({
            let ordered = ordering::ordered(p, moves, state, ply, first);
            let earlier = class_of(p, state, ply, first, ordered[i]);
            let later = class_of(p, state, ply, first, ordered[j]);
            &&& ordered.len() == moves.len()
            &&& earlier >= later
            &&& earlier == 0 ==> remembered_history(state, ordered[i]) >= remembered_history(
                state,
                ordered[j],
            )
            &&& later == 3 ==> earlier == 4 || ordering::capture_key(p, ordered[i], state.options)
                >= ordering::capture_key(p, ordered[j], state.options)
        }),
{
    reveal(ordering::ordered);
    let items = ordering::keyed_moves(p, moves, state, ply, first);
    ordering::ordering_is_descending(items, i, j);
    ordering::ordering_permutes(items);
    let sorted = ordering::sorted_upto(items, items.len());
    let ordered = ordering::ordered(p, moves, state, ply, first);
    lemma_sorted_item(items, i);
    lemma_sorted_item(items, j);
    assert(ordered[i] == sorted[i].1 && ordered[j] == sorted[j].1);
    let a = choose|k: int| 0 <= k < items.len() && items[k] == sorted[i];
    let b = choose|k: int| 0 <= k < items.len() && items[k] == sorted[j];
    assert(moves[a] == ordered[i] && moves[b] == ordered[j]);
    lemma_keys(p, state, ply, first, ordered[i]);
    lemma_keys(p, state, ply, first, ordered[j]);
}

proof fn lemma_sorted_item(items: Seq<ordering::Keyed>, i: int)
    requires
        0 <= i < items.len(),
    ensures
        ordering::sorted_upto(items, items.len()).len() == items.len(),
        exists|k: int|
            0 <= k < items.len() && #[trigger] items[k] == ordering::sorted_upto(
                items,
                items.len(),
            )[i],
{
    broadcast use vstd::seq_lib::group_to_multiset_ensures;

    ordering::ordering_permutes(items);
    let sorted = ordering::sorted_upto(items, items.len());
    assert(sorted.len() == ordering::sorted_moves(items).len());
    assert(sorted.contains(sorted[i]));
    assert(sorted.to_multiset().count(sorted[i]) > 0);
    assert(items.contains(sorted[i]));
}

/// The move to try first is first, if it is among the moves.
pub proof fn the_suggested_move_comes_first(
    p: PositionView,
    moves: Seq<Move>,
    state: StateView,
    ply: int,
    first: Move,
)
    requires
        p.board.len() == 64,
        modest_history(state),
        forall|k: int| 0 <= k < moves.len() ==> p.board[(#[trigger] moves[k]).src()] is Some,
        moves.contains(first),
    ensures
        ordering::ordered(p, moves, state, ply, Some(first))[0] == first,
{
    let ordered = ordering::ordered(p, moves, state, ply, Some(first));
    ordering::lemma_ordered_members(p, moves, state, ply, Some(first));
    assert(ordered.contains(first));
    let k = choose|k: int| 0 <= k < ordered.len() && ordered[k] == first;
    if k > 0 {
        moves_are_searched_class_by_class(p, moves, state, ply, Some(first), 0, k);
    }
}

/// A capture is ordered by the result of its exchange, if that is computed; if
/// not, then of two captures of the same victim the one by the cheaper piece
/// comes first, and of two captures by the same piece the one that takes more;
/// a promotion is worth what it makes of the pawn.
pub proof fn what_captures_are_ordered_by(
    p: PositionView,
    a: Move,
    b: Move,
    options: super::SearchOptions,
)
    requires
        p.board.len() == 64,
        p.board[a.src()] is Some,
        p.board[b.src()] is Some,
    ensures
        ({
            let key = |mv: Move| ordering::capture_key(p, mv, options);
            let risk = |mv: Move| super::exchange::content_value(p.board[mv.src()]);
            let won = |mv: Move| exchange_laws::taken(p, mv);
            let plain = |mv: Move| (!options.use_see || !p.captures(mv)) && mv.kind().promotes_to()
                is None;
            &&& options.use_see && p.captures(a) && p.captures(b) ==> (key(a) >= key(b)
                <==> super::exchange::exchange_result(p, a) >= super::exchange::exchange_result(
                p,
                b,
            ))
            &&& plain(a) && plain(b) && won(a) == won(b) ==> (key(a) >= key(b) <==> risk(a) <= risk(
                b,
            ))
            &&& plain(a) && plain(b) && risk(a) == risk(b) ==> (key(a) >= key(b) <==> won(a) >= won(
                b,
            ))
            &&& !options.use_see && risk(a) == risk(b) && won(a) == won(b) && a.kind().promotes_to()
                is Some && b.kind().promotes_to() is Some ==> (key(a) >= key(b)
                <==> super::exchange::exchange_value(a.kind().promotes_to()->0)
                >= super::exchange::exchange_value(b.kind().promotes_to()->0))
        }),
{
}

/// Quiescence searches its moves by the same key, best first.
pub proof fn captures_are_searched_best_first(
    p: PositionView,
    moves: Seq<Move>,
    options: super::SearchOptions,
    i: int,
    j: int,
)
    requires
        p.board.len() == 64,
        forall|k: int| 0 <= k < moves.len() ==> p.board[(#[trigger] moves[k]).src()] is Some,
        0 <= i < j < moves.len(),
    ensures
        ({
            let ordered = ordering::ordered_captures(p, moves, options);
            ordering::capture_key(p, ordered[i], options) >= ordering::capture_key(
                p,
                ordered[j],
                options,
            )
        }),
{
    let items = ordering::keyed_captures(p, moves, options);
    ordering::ordering_is_descending(items, i, j);
    ordering::ordering_permutes(items);
    lemma_sorted_item(items, i);
    lemma_sorted_item(items, j);
    let sorted = ordering::sorted_upto(items, items.len());
    let ordered = ordering::ordered_captures(p, moves, options);
    assert(ordered[i] == sorted[i].1 && ordered[j] == sorted[j].1);
    let a = choose|k: int| 0 <= k < items.len() && items[k] == sorted[i];
    let b = choose|k: int| 0 <= k < items.len() && items[k] == sorted[j];
    assert(moves[a] == ordered[i] && moves[b] == ordered[j]);
    exchange_laws::exchanges_are_played_out(p, ordered[i], p.board[ordered[i].src()]->0);
    exchange_laws::exchanges_are_played_out(p, ordered[j], p.board[ordered[j].src()]->0);
}

} // verus!
