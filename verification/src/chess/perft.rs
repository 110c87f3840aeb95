//! Perft (performance test): counts leaf nodes in the legal move tree to
//! a fixed depth, as a correctness oracle for move generation and
//! make/unmake. See <https://www.chessprogramming.org/Perft>.
//!
//! Known starting-position counts (20, 400, 8_902, 197_281, 4_865_609 for
//! depths 1-5) and a handful of "nasty" castling/en-passant/promotion
//! positions with published perft results must match exactly. Counts are
//! kept modulo 2^64.

use super::moves::Move;
use super::position::{Position, PositionView};
use vstd::prelude::*;

verus! {

broadcast use super::position::lemma_board_len;

impl PositionView {
    /// The number of leaves of the legal move tree of the given depth.
    pub open spec fn perft(self, depth: nat) -> nat
        decreases depth, 0nat,
    {
        if depth == 0 {
            1
        } else {
            self.perft_sum(self.legal_moves(), self.legal_moves().len(), (depth - 1) as nat)
        }
    }

    /// The leaves below the first `n` of the given moves, each to `depth` more plies.
    pub open spec fn perft_sum(self, moves: Seq<Move>, n: nat, depth: nat) -> nat
        decreases depth, n + 1,
    {
        if n == 0 {
            0
        } else {
            self.perft_sum(moves, (n - 1) as nat, depth) + self.made(moves[n - 1]).perft(depth)
        }
    }
}

/// A count as it is kept in 64 bits.
pub open spec fn in_u64(n: nat) -> nat {
    n % 0x1_0000_0000_0000_0000
}

proof fn lemma_one_ply(p: PositionView, moves: Seq<Move>, n: nat)
    ensures
        p.perft_sum(moves, n, 0) == n,
    decreases n,
{
    if n > 0 {
        lemma_one_ply(p, moves, (n - 1) as nat);
        assert(p.made(moves[n - 1]).perft(0) == 1);
    }
}

proof fn lemma_even_tree(p: PositionView, moves: Seq<Move>, n: nat, depth: nat, leaves: nat)
    requires
        n <= moves.len(),
        forall|i: int| 0 <= i < n ==> p.made(#[trigger] moves[i]).perft(depth) == leaves,
    ensures
        p.perft_sum(moves, n, depth) == n * leaves,
    decreases n,
{
    if n > 0 {
        lemma_even_tree(p, moves, (n - 1) as nat, depth, leaves);
        assert(p.made(moves[n - 1]).perft(depth) == leaves);
        assert((n - 1) * leaves + leaves == n * leaves) by (nonlinear_arith);
    } else {
        assert(0 * leaves == 0) by (nonlinear_arith);
    }
}

/// Where every legal move leads to equally many leaves, a position has so many for
/// each of them; in particular one for each move at one ply, and none where there
/// is no legal move.
pub proof fn leaves_are_counted_under_every_move(p: PositionView, depth: nat, leaves: nat)
    requires
        forall|mv: Move|
            #[trigger] p.legal_moves().contains(mv) ==> p.made(mv).perft(depth) == leaves,
    ensures
        p.perft(depth + 1) == p.legal_moves().len() * leaves,
        p.perft(1) == p.legal_moves().len(),
        p.perft(0) == 1,
{
    let moves = p.legal_moves();
    assert forall|i: int| 0 <= i < moves.len() implies p.made(#[trigger] moves[i]).perft(depth)
        == leaves by {
        assert(moves.contains(moves[i]));
    }
    lemma_even_tree(p, moves, moves.len(), depth, leaves);
    lemma_one_ply(p, moves, moves.len());
}

/// Counts leaf nodes in the legal move tree rooted at `position`, to
/// `depth` plies. The position is the same afterwards as before.
#[must_use]
pub fn perft(position: &mut Position, depth: u32) -> (nodes: u64)
    ensures
        nodes == in_u64(old(position)@.perft(depth as nat)),
        final(position)@ == old(position)@,
    decreases depth,
{
    if depth == 0 {
        return 1;
    }
    let ghost start = position@;
    let moves: Vec<Move> = position.generate_legal_moves();
    if depth == 1 {
        // At the last ply we only need the count, not a recursive
        // descent into each resulting position.
        proof {
            lemma_one_ply(start, moves@, moves@.len());
        }
        return moves.len() as u64;
    }
    let mut nodes: u64 = 0;
    let mut k: usize = 0;
    while k < moves.len()
        invariant
            k <= moves.len(),
            depth >= 2,
            position@ == start,
            moves@ == start.legal_moves(),
            start.board.len() == 64,
            nodes == in_u64(start.perft_sum(moves@, k as nat, (depth - 1) as nat)),
        decreases moves.len() - k,
    {
        let mv = moves[k];
        proof {
            super::legality::legal_moves_are_reversible(start, k as int);
            super::make_unmake::unmake_restores(start, mv);
        }
        let undo = position.make_move(mv);
        let below: u64 = perft(position, depth - 1);
        nodes = nodes.wrapping_add(below);
        position.unmake_move(mv, undo);
        k += 1;
    }
    nodes
}

/// Per-root-move node counts ("perft divide"), useful for narrowing
/// down exactly which branch of the move tree disagrees with a known
/// perft result.
#[must_use]
pub fn perft_divide(position: &mut Position, depth: u32) -> (counts: Vec<(Move, u64)>)
    ensures
        final(position)@ == old(position)@,
        depth == 0 ==> counts@.len() == 0,
        depth > 0 ==> counts@.len() == old(position)@.legal_moves().len(),
        forall|k: int|
            0 <= k < counts@.len() ==> (#[trigger] counts@[k]).0 == old(
                position,
            )@.legal_moves()[k] && counts@[k].1 == in_u64(
                old(position)@.made(counts@[k].0).perft((depth - 1) as nat),
            ),
{
    let mut counts: Vec<(Move, u64)> = Vec::new();
    if depth == 0 {
        return counts;
    }
    let ghost start = position@;
    let moves: Vec<Move> = position.generate_legal_moves();
    let mut k: usize = 0;
    while k < moves.len()
        invariant
            k <= moves.len(),
            depth > 0,
            position@ == start,
            moves@ == start.legal_moves(),
            start.board.len() == 64,
            counts@.len() == k,
            forall|j: int|
                0 <= j < k ==> (#[trigger] counts@[j]).0 == moves@[j] && counts@[j].1 == in_u64(
                    start.made(counts@[j].0).perft((depth - 1) as nat),
                ),
        decreases moves.len() - k,
    {
        let mv = moves[k];
        proof {
            super::legality::legal_moves_are_reversible(start, k as int);
            super::make_unmake::unmake_restores(start, mv);
        }
        let undo = position.make_move(mv);
        let nodes: u64 = perft(position, depth - 1);
        position.unmake_move(mv, undo);
        counts.push((mv, nodes));
        k += 1;
    }
    counts
}

/// The count at a position is the sum of the counts of its divided moves.
pub proof fn perft_is_the_sum_of_its_division(p: PositionView, depth: nat)
    requires
        depth > 0,
    ensures
        p.perft(depth) == p.perft_sum(p.legal_moves(), p.legal_moves().len(), (depth - 1) as nat),
{
}

/// One ply of perft counts the legal moves, and none counts the position itself.
pub proof fn perft_of_small_depths(p: PositionView)
    ensures
        p.perft(0) == 1,
        p.perft(1) == p.legal_moves().len(),
{
    lemma_one_ply(p, p.legal_moves(), p.legal_moves().len());
}

} // verus!
