//! Move ordering: the table's move first, then captures and promotions, killer
//! moves, and quiet moves by their history.

use super::exchange;
use super::state::{history_index, is_move, SearchState, StateView};
use super::SearchOptions;
use crate::chess::moves::Move;
use crate::chess::position::{Position, PositionView};
use vstd::prelude::*;

verus! {

broadcast use {
    crate::chess::moves::lemma_move_squares,
    crate::chess::position::lemma_board_len,
};

/// A move with the key it is ordered by.
pub type Keyed = (i32, Move);

/// Where an item with the given key is inserted into an ordered list: behind
/// everything with at least that key.
pub open spec fn place(sorted: Seq<Keyed>, key: i32) -> nat
    decreases sorted.len(),
{
    if sorted.len() == 0 {
        0
    } else if sorted.last().0 >= key {
        sorted.len()
    } else {
        place(sorted.drop_last(), key)
    }
}

/// The list with one more item in its place.
pub open spec fn inserted(sorted: Seq<Keyed>, item: Keyed) -> Seq<Keyed> {
    sorted.insert(place(sorted, item.0) as int, item)
}

/// The first `n` items by descending key; items with the same key keep their order.
pub open spec fn sorted_upto(items: Seq<Keyed>, n: nat) -> Seq<Keyed>
    decreases n,
{
    if n == 0 {
        Seq::empty()
    } else {
        inserted(sorted_upto(items, (n - 1) as nat), items[n - 1])
    }
}

/// The moves of a list of keyed moves.
pub open spec fn moves_of(items: Seq<Keyed>) -> Seq<Move> {
    Seq::new(items.len(), |i: int| items[i].1)
}

/// The moves of a list by descending key.
pub open spec fn sorted_moves(items: Seq<Keyed>) -> Seq<Move> {
    moves_of(sorted_upto(items, items.len()))
}

/// Most valuable victim, least valuable attacker: what a capture takes counts
/// sixteen times as much as what it risks.
pub open spec fn mvv_lva(p: PositionView, mv: Move) -> int {
    let promotion = match mv.kind().promotes_to() {
        Some(kind) => exchange::exchange_value(kind),
        None => 0,
    };
    exchange::victim_value(p, mv) * 16 - exchange::content_value(p.board[mv.src()]) + promotion
}

/// What a capture or promotion is ordered by: the result of the exchange for a
/// capture, if that is computed at all.
pub open spec fn capture_key(p: PositionView, mv: Move, options: SearchOptions) -> int {
    if options.use_see && p.captures(mv) {
        exchange::exchange_result(p, mv)
    } else {
        mvv_lva(p, mv)
    }
}

/// What a move is ordered by.
pub open spec fn order_key(
    p: PositionView,
    state: StateView,
    ply: int,
    tt_move: Option<Move>,
    mv: Move,
) -> int {
    if tt_move == Some(mv) {
        2_000_000
    } else if p.captures(mv) || mv.kind().promotes_to() is Some {
        1_000_000 + capture_key(p, mv, state.options)
    } else if ply < state.killers.len() && state.killers[ply].0 == Some(mv) {
        900_000
    } else if ply < state.killers.len() && state.killers[ply].1 == Some(mv) {
        800_000
    } else {
        state.history[super::state::history_slot(mv)] as int
    }
}

/// The moves with their ordering keys.
pub open spec fn keyed_moves(
    p: PositionView,
    moves: Seq<Move>,
    state: StateView,
    ply: int,
    tt_move: Option<Move>,
) -> Seq<Keyed> {
    Seq::new(
        moves.len(),
        |k: int| (order_key(p, state, ply, tt_move, moves[k]) as i32, moves[k]),
    )
}

/// The moves in the order in which they are searched.
#[verifier::opaque]
pub open spec fn ordered(
    p: PositionView,
    moves: Seq<Move>,
    state: StateView,
    ply: int,
    tt_move: Option<Move>,
) -> Seq<Move> {
    sorted_moves(keyed_moves(p, moves, state, ply, tt_move))
}

/// The moves with their capture keys.
pub open spec fn keyed_captures(p: PositionView, moves: Seq<Move>, options: SearchOptions) -> Seq<
    Keyed,
> {
    Seq::new(moves.len(), |k: int| (capture_key(p, moves[k], options) as i32, moves[k]))
}

/// Captures in the order in which quiescence searches them.
pub open spec fn ordered_captures(p: PositionView, moves: Seq<Move>, options: SearchOptions) -> Seq<
    Move,
> {
    sorted_moves(keyed_captures(p, moves, options))
}

proof fn lemma_place(sorted: Seq<Keyed>, key: i32)
    ensures
        place(sorted, key) <= sorted.len(),
        forall|k: int| place(sorted, key) <= k < sorted.len() ==> (#[trigger] sorted[k]).0 < key,
        place(sorted, key) > 0 ==> sorted[place(sorted, key) - 1].0 >= key,
    decreases sorted.len(),
{
    if sorted.len() > 0 && sorted.last().0 < key {
        let rest = sorted.drop_last();
        lemma_place(rest, key);
        assert forall|k: int| place(sorted, key) <= k < sorted.len() implies (#[trigger] sorted[k]).0
            < key by {
            if k < rest.len() {
                assert(rest[k] == sorted[k]);
            }
        }
    }
}

/// Sorts keyed moves by descending key; moves with the same key keep their order.
fn sort_keyed(items: &Vec<Keyed>) -> (sorted: Vec<Keyed>)
    ensures
        sorted@ == sorted_upto(items@, items@.len()),
{
    let mut sorted: Vec<Keyed> = Vec::with_capacity(items.len());
    let mut k: usize = 0;
    while k < items.len()
        invariant
            k <= items.len(),
            sorted@ == sorted_upto(items@, k as nat),
        decreases items.len() - k,
    {
        let item: Keyed = items[k];
        let mut at: usize = sorted.len();
        assert(sorted@.take(at as int) =~= sorted@);
        while at > 0 && sorted[at - 1].0 < item.0
            invariant
                at <= sorted@.len(),
                place(sorted@, item.0) == place(sorted@.take(at as int), item.0),
            decreases at,
        {
            assert(sorted@.take(at as int).drop_last() =~= sorted@.take(at - 1));
            at -= 1;
        }
        sorted.insert(at, item);
        k += 1;
    }
    sorted
}

/// The moves of a list of keyed moves.
fn strip_keys(items: &Vec<Keyed>) -> (moves: Vec<Move>)
    ensures
        moves@ == moves_of(items@),
{
    let mut moves: Vec<Move> = Vec::with_capacity(items.len());
    let mut k: usize = 0;
    while k < items.len()
        invariant
            k <= items.len(),
            moves@ == moves_of(items@).take(k as int),
        decreases items.len() - k,
    {
        moves.push(items[k].1);
        k += 1;
        assert(moves@ =~= moves_of(items@).take(k as int));
    }
    assert(moves_of(items@).take(k as int) =~= moves_of(items@));
    moves
}

/// Most valuable victim, least valuable attacker.
fn capture_order_score(position: &Position, mv: Move) -> (score: i32)
    ensures
        score == mvv_lva(position@, mv),
        -20_000 <= score <= 400_000,
{
    let attacker: i32 = match position.piece_at(mv.from()) {
        Some(piece) => exchange::ordering_piece_value(piece.kind),
        None => 0,
    };
    let victim: i32 = exchange::captured_value(position, mv);
    let promotion: i32 = match mv.flag().promotion_kind() {
        Some(kind) => exchange::ordering_piece_value(kind),
        None => 0,
    };
    victim * 16 - attacker + promotion
}

/// The score `order_moves`/quiescence's capture sort actually uses for
/// a capture: SEE's real exchange result when `use_see` is on (falling
/// back to plain MVV-LVA when it's off, or for a non-capturing promotion,
/// which SEE has nothing to say about).
fn capture_ordering_score(position: &Position, mv: Move, options: SearchOptions) -> (score: i32)
    ensures
        score == capture_key(position@, mv, options),
        -2_000_000 <= score <= 2_000_000,
{
    if options.use_see && exchange::is_capture(position, mv) {
        exchange::static_exchange_evaluation(position, mv)
    } else {
        capture_order_score(position, mv)
    }
}

/// What a move is ordered by.
fn move_score(
    position: &Position,
    state: &SearchState,
    ply: usize,
    tt_move: Option<Move>,
    mv: Move,
) -> (score: i32)
    ensures
        score == order_key(position@, state@, ply as int, tt_move, mv),
{
    if is_move(tt_move, mv) {
        return 2_000_000;
    }
    if exchange::is_capture(position, mv) || mv.flag().promotion_kind().is_some() {
        return 1_000_000 + capture_ordering_score(position, mv, state.options);
    }
    if ply < state.killers.len() {
        let (newest, older) = state.killers[ply];
        if is_move(newest, mv) {
            return 900_000;
        }
        if is_move(older, mv) {
            return 800_000;
        }
    }
    state.history[history_index(mv)]
}

/// Puts moves into the order in which they are searched.
pub fn order_moves(
    position: &Position,
    moves: &mut Vec<Move>,
    state: &SearchState,
    ply: usize,
    tt_move: Option<Move>,
)
    ensures
        final(moves)@ == ordered(position@, old(moves)@, state@, ply as int, tt_move),
{
    proof {
        reveal(ordered);
    }
    let ghost keyed = keyed_moves(position@, moves@, state@, ply as int, tt_move);
    let mut items: Vec<Keyed> = Vec::with_capacity(moves.len());
    let mut k: usize = 0;
    while k < moves.len()
        invariant
            k <= moves.len(),
            *moves == *old(moves),
            keyed == keyed_moves(position@, moves@, state@, ply as int, tt_move),
            items@ == keyed.take(k as int),
        decreases moves.len() - k,
    {
        let mv = moves[k];
        items.push((move_score(position, state, ply, tt_move, mv), mv));
        k += 1;
        assert(items@ =~= keyed.take(k as int));
    }
    assert(keyed.take(k as int) =~= keyed);
    let sorted: Vec<Keyed> = sort_keyed(&items);
    *moves = strip_keys(&sorted);
}

/// Puts captures into the order in which quiescence searches them.
pub(crate) fn order_captures(position: &Position, moves: &Vec<Move>, options: SearchOptions) -> (result:
    Vec<Move>)
    ensures
        result@ == ordered_captures(position@, moves@, options),
{
    let ghost keyed = keyed_captures(position@, moves@, options);
    let mut items: Vec<Keyed> = Vec::with_capacity(moves.len());
    let mut k: usize = 0;
    while k < moves.len()
        invariant
            k <= moves.len(),
            keyed == keyed_captures(position@, moves@, options),
            items@ == keyed.take(k as int),
        decreases moves.len() - k,
    {
        let mv = moves[k];
        items.push((capture_ordering_score(position, mv, options), mv));
        k += 1;
        assert(items@ =~= keyed.take(k as int));
    }
    assert(keyed.take(k as int) =~= keyed);
    let sorted: Vec<Keyed> = sort_keyed(&items);
    strip_keys(&sorted)
}

proof fn lemma_sorted_upto(items: Seq<Keyed>, n: nat)
    requires
        n <= items.len(),
    ensures
        sorted_upto(items, n).len() == n,
        sorted_upto(items, n).to_multiset() == items.take(n as int).to_multiset(),
        forall|i: int, j: int|
            0 <= i <= j < n ==> sorted_upto(items, n)[i].0 >= sorted_upto(items, n)[j].0,
    decreases n,
{
    broadcast use vstd::seq_lib::group_to_multiset_ensures;

    if n > 0 {
        let before = sorted_upto(items, (n - 1) as nat);
        let item = items[n - 1];
        let at = place(before, item.0) as int;
        let after = sorted_upto(items, n);
        lemma_sorted_upto(items, (n - 1) as nat);
        lemma_place(before, item.0);
        assert(items.take(n as int) =~= items.take(n - 1).push(item));
        assert(after == before.insert(at, item));
        assert(after.remove(at) =~= before);
        assert(after[at] == item);
        assert(after.contains(item));
        assert(after.to_multiset().count(item) > 0);
        assert(after.to_multiset().remove(item).insert(item) =~= after.to_multiset());
        assert forall|i: int, j: int| 0 <= i <= j < n implies after[i].0 >= after[j].0 by {
            if i < at && j > at {
                assert(before[i].0 >= before[j - 1].0);
            } else if i < at && j == at {
                assert(before[i].0 >= before[at - 1].0);
            } else if i < at && j < at {
                assert(before[i].0 >= before[j].0);
            } else if i > at {
                assert(before[i - 1].0 >= before[j - 1].0);
            }
        }
    } else {
        assert(items.take(0) =~= Seq::<Keyed>::empty());
    }
}

/// Ordering only permutes the moves: every move of the ordered list is one of
/// the given ones, and none is lost.
pub proof fn ordering_permutes(items: Seq<Keyed>)
    ensures
        sorted_moves(items).len() == items.len(),
        sorted_upto(items, items.len()).to_multiset() == items.to_multiset(),
        forall|mv: Move| sorted_moves(items).contains(mv) <==> moves_of(items).contains(mv),
{
    broadcast use vstd::seq_lib::group_to_multiset_ensures;

    lemma_sorted_upto(items, items.len());
    assert(items.take(items.len() as int) =~= items);
    let sorted = sorted_upto(items, items.len());
    assert forall|mv: Move| sorted_moves(items).contains(mv) <==> moves_of(items).contains(mv) by {
        if sorted_moves(items).contains(mv) {
            let k = choose|k: int| 0 <= k < sorted_moves(items).len() && sorted_moves(items)[k] == mv;
            assert(sorted.contains(sorted[k]));
            assert(sorted.to_multiset().count(sorted[k]) > 0);
            assert(items.contains(sorted[k]));
            let j = choose|j: int| 0 <= j < items.len() && items[j] == sorted[k];
            assert(moves_of(items)[j] == mv);
        }
        if moves_of(items).contains(mv) {
            let j = choose|j: int| 0 <= j < moves_of(items).len() && moves_of(items)[j] == mv;
            assert(items.contains(items[j]));
            assert(items.to_multiset().count(items[j]) > 0);
            assert(sorted.contains(items[j]));
            let k = choose|k: int| 0 <= k < sorted.len() && sorted[k] == items[j];
            assert(sorted_moves(items)[k] == mv);
        }
    }
}

/// The ordered list is sorted: no move comes before one with a higher key.
pub proof fn ordering_is_descending(items: Seq<Keyed>, i: int, j: int)
    requires
        0 <= i <= j < items.len(),
    ensures
        sorted_upto(items, items.len())[i].0 >= sorted_upto(items, items.len())[j].0,
{
    lemma_sorted_upto(items, items.len());
}

/// The moves searched at a node are the moves given, in another order.
pub proof fn lemma_ordered_members(
    p: PositionView,
    moves: Seq<Move>,
    state: StateView,
    ply: int,
    tt_move: Option<Move>,
)
    ensures
        ordered(p, moves, state, ply, tt_move).len() == moves.len(),
        forall|mv: Move|
            ordered(p, moves, state, ply, tt_move).contains(mv) <==> moves.contains(mv),
{
    reveal(ordered);
    let items = keyed_moves(p, moves, state, ply, tt_move);
    ordering_permutes(items);
    assert(moves_of(items) =~= moves);
}

/// Likewise for captures.
pub proof fn lemma_ordered_capture_members(p: PositionView, moves: Seq<Move>, options: SearchOptions)
    ensures
        ordered_captures(p, moves, options).len() == moves.len(),
        forall|mv: Move| ordered_captures(p, moves, options).contains(mv) <==> moves.contains(mv),
{
    let items = keyed_captures(p, moves, options);
    ordering_permutes(items);
    assert(moves_of(items) =~= moves);
}

} // verus!
