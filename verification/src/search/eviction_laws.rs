//! What a full table gives up, and what tells the games behind its entries apart.

use super::tt::{self, TableView, TtEntry, TtKey, TtReuse};
use crate::chess::hash_laws;
use crate::chess::zobrist::SPLITMIX_STEP;
use vstd::arithmetic::div_mod::{lemma_add_mod_noop_right, lemma_mod_bound, lemma_small_mod};
use vstd::prelude::*;

verus! {

/// Per search, a table with room keeps everything when something is added, and a full
/// one starts over with what is added.
pub proof fn what_a_full_table_forgets(
    table: TableView,
    key: TtKey,
    entry: TtEntry,
    other: TtKey,
)
    requires
        table.policy == TtReuse::PerSearch,
        table.found(key) is None,
        other != key,
    ensures
        table.entries.len() < table.capacity ==> table.stored(key, entry).found(other)
            == table.found(other),
        table.entries.len() >= table.capacity ==> table.stored(key, entry).found(other) is None,
        table.stored(key, entry).found(key) is Some,
{
    if tt::packed(key) == tt::packed(other) {
        tt::packed_is_injective(key, other);
    }
}

/// What an entry is worth that stands at some place, counted around from a cursor.
pub open spec fn worth_at(table: TableView, from: int, j: int) -> int {
    table.priority(table.entries[table.keys[(from + j) % (table.keys.len() as int)]])
}

proof fn lemma_scan(table: TableView, victim: int, cursor: int, n: nat)
    requires
        table.keys.len() > 0,
        0 <= victim < table.keys.len(),
        0 <= cursor < table.keys.len(),
    ensures
        ({
            let (found, next) = table.scanned(victim, cursor, n);
            let worth = table.priority(table.entries[table.keys[found]]);
            &&& worth <= table.priority(table.entries[table.keys[victim]])
            &&& forall|j: int| 0 <= j < n ==> worth <= #[trigger] worth_at(table, cursor, j)
            &&& next == (cursor + n) % (table.keys.len() as int)
        }),
    decreases n,
{
    let len = table.keys.len() as int;
    if n == 0 {
        lemma_small_mod(cursor as nat, len as nat);
    } else {
        let better = if table.priority(table.entries[table.keys[cursor]]) < table.priority(
            table.entries[table.keys[victim]],
        ) {
            cursor
        } else {
            victim
        };
        let next = (cursor + 1) % len;
        lemma_mod_bound(cursor + 1, len);
        lemma_scan(table, better, next, (n - 1) as nat);
        lemma_add_mod_noop_right(n - 1, cursor + 1, len);
        let (found, _) = table.scanned(victim, cursor, n);
        let worth = table.priority(table.entries[table.keys[found]]);
        assert forall|j: int| 0 <= j < n implies worth <= #[trigger] worth_at(
            table,
            cursor,
            j,
        ) by {
            if j == 0 {
                lemma_small_mod(cursor as nat, len as nat);
            } else {
                lemma_add_mod_noop_right(j - 1, cursor + 1, len);
                assert(worth_at(table, next, j - 1) == worth_at(table, cursor, j));
            }
        }
    }
}

/// Per game, a full table compares the next eight entries, gives up the least
/// valuable of them if any, and goes on behind them the next time.
pub proof fn eight_entries_are_compared(
    table: TableView,
    key: TtKey,
    entry: TtEntry,
    other: TtKey,
    j: int,
)
    requires
        table.wf(),
        table.policy == TtReuse::PerGame,
        table.found(key) is None,
        table.keys.len() == table.capacity,
        table.keys.len() >= 8,
        0 <= j < 8,
        other != key,
    ensures
        table.stored(key, entry).cursor == (table.cursor + 8) % (table.keys.len() as int),
        table.found(other) is Some && table.stored(key, entry).found(other) is None
            ==> table.priority(table.entries[tt::packed(other)]) <= worth_at(
            table,
            table.cursor,
            j,
        ),
{
    if tt::packed(key) == tt::packed(other) {
        tt::packed_is_injective(key, other);
    }
    lemma_scan(table, table.cursor, table.cursor, 8);
}

/// Positions count differently towards the history.
proof fn lemma_shares(a: u64, b: u64)
    requires
        tt::history_share(a) == tt::history_share(b),
    ensures
        a == b,
{
    hash_laws::outputs_tell_states_apart(
        a.wrapping_add(SPLITMIX_STEP),
        b.wrapping_add(SPLITMIX_STEP),
    );
}

proof fn lemma_one_place(a: Seq<u64>, b: Seq<u64>, m: nat, n: nat)
    requires
        a.len() == b.len(),
        n <= a.len(),
        m < a.len(),
        forall|k: int| 0 <= k < a.len() && k != a.len() - 1 - m ==> #[trigger] a[k] == b[k],
        a[a.len() - 1 - m] != b[a.len() - 1 - m],
    ensures
        n <= m ==> tt::tail_sum(a, n) == tt::tail_sum(b, n),
        n > m ==> tt::tail_sum(a, n) != tt::tail_sum(b, n),
    decreases n,
{
    if n > 0 {
        lemma_one_place(a, b, m, (n - 1) as nat);
        let k = a.len() - n;
        if k == a.len() - 1 - m {
            if tt::history_share(a[k]) == tt::history_share(b[k]) {
                lemma_shares(a[k], b[k]);
            }
        } else {
            assert(a[k] == b[k]);
        }
    }
}

/// The history of a node is told by the positions since the last move that cannot be
/// taken back, the present one included: another position at any of these places
/// makes another history, and no earlier one does.
pub proof fn which_positions_make_the_history(a: Seq<u64>, b: Seq<u64>, half: u32, m: nat)
    requires
        a.len() == b.len(),
        m < a.len(),
        forall|k: int| 0 <= k < a.len() && k != a.len() - 1 - m ==> #[trigger] a[k] == b[k],
        a[a.len() - 1 - m] != b[a.len() - 1 - m],
    ensures
        tt::tail_sum(a, tt::repeatable(a, half)) == tt::tail_sum(b, tt::repeatable(b, half)) <==> m
            > half,
{
    lemma_one_place(a, b, m, tt::repeatable(a, half));
}

} // verus!
