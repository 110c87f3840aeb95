//! Transposition table storage and lifetime policy. `PerSearch` keeps the
//! deepest entry of a position and flushes the table when it is full;
//! `PerGame` evicts individual entries using age and search depth.

use super::Score;
use crate::chess::moves::Move;
use crate::chess::position::Position;
use crate::chess::zobrist::{self, SPLITMIX_STEP};
use crate::text;
use std::collections::HashMap;
use vstd::prelude::*;

verus! {

broadcast use vstd::std_specs::hash::group_hash_axioms;

/// How many entries a table holds unless told otherwise.
pub const MAX_TT_ENTRIES: usize = 1_048_576;

/// What identifies a position to the table: its hash, its halfmove clock and
/// how often it has occurred.
pub type TtKey = (u64, u32, u8);

/// Whether each search starts with an empty table or completed
/// work is retained across moves. Per-game reuse is the default.
#[derive(Debug, Clone, Copy, PartialEq, Eq, Structural)]
pub enum TtReuse {
    PerSearch,
    PerGame,
}

impl Default for TtReuse {
    fn default() -> (policy: TtReuse)
        ensures
            policy == TtReuse::PerGame,
    {
        TtReuse::PerGame
    }
}

impl TtReuse {
    /// The policy that a text names, whatever its case and the white space
    /// around it.
    pub open spec fn named(s: Seq<char>) -> Option<TtReuse> {
        let word = text::lowered(text::trimmed(s));
        if word == "persearch"@ {
            Some(TtReuse::PerSearch)
        } else if word == "pergame"@ {
            Some(TtReuse::PerGame)
        } else {
            None
        }
    }

    /// Reads a policy's name, in any case.
    pub fn parse(value: &str) -> (policy: Option<TtReuse>)
        ensures
            policy == TtReuse::named(value@),
    {
        let word: Vec<char> = text::lowercase(&text::trim(&text::chars_of(value)));
        if text::chars_equal(&word, "persearch") {
            Some(TtReuse::PerSearch)
        } else if text::chars_equal(&word, "pergame") {
            Some(TtReuse::PerGame)
        } else {
            None
        }
    }
}

/// How a stored score relates to the position's value.
#[derive(Debug, Clone, Copy, PartialEq, Eq, Structural)]
pub enum Bound {
    Exact,
    Lower,
    Upper,
}

/// What the table remembers of a searched position.
#[derive(Debug, Clone, Copy, PartialEq, Eq, Structural)]
pub struct TtEntry {
    pub depth: u32,
    pub score: Score,
    pub bound: Bound,
    pub best_move: Option<Move>,
    pub history: u64,
    pub generation: u64,
}

impl TtEntry {
    /// A new entry, not yet assigned to a search.
    pub fn new(
        depth: u32,
        score: Score,
        bound: Bound,
        best_move: Option<Move>,
        history: u64,
    ) -> (entry: TtEntry)
        ensures
            entry == (TtEntry { depth, score, bound, best_move, history, generation: 0 }),
    {
        TtEntry { depth, score, bound, best_move, history, generation: 0 }
    }
}

/// A key as a single number.
pub open spec fn packed(key: TtKey) -> u128 {
    (key.0 * 0x100_0000_0000 + key.1 * 0x100 + key.2) as u128
}

fn pack(key: TtKey) -> (number: u128)
    ensures
        number == packed(key),
{
    let (hash, clock, repetition) = key;
    (hash as u128) * 0x100_0000_0000 + (clock as u128) * 0x100 + (repetition as u128)
}

/// Different keys have different numbers.
pub proof fn packed_is_injective(a: TtKey, b: TtKey)
    requires
        packed(a) == packed(b),
    ensures
        a == b,
{
}

/// What a table holds. `keys` and `cursor` are used by the per-game policy
/// only: a rotating sample of keys gives bounded eviction work.
pub struct TableView {
    pub policy: TtReuse,
    pub entries: Map<u128, TtEntry>,
    pub generation: u64,
    pub keys: Seq<u128>,
    pub cursor: int,
    pub capacity: nat,
}

impl TableView {
    /// An empty table.
    pub open spec fn fresh(policy: TtReuse, capacity: nat) -> TableView {
        TableView {
            policy,
            entries: Map::empty(),
            generation: 0,
            keys: Seq::empty(),
            cursor: 0,
            capacity,
        }
    }

    /// The number of entries is finite and, under the per-game policy, the
    /// list of keys names exactly the positions that have an entry, each once,
    /// and never more than the table may hold.
    pub open spec fn wf(self) -> bool {
        &&& self.entries.dom().finite()
        &&& self.policy == TtReuse::PerGame ==> {
            &&& self.capacity > 0
            &&& self.keys.no_duplicates()
            &&& self.entries.dom() == self.keys.to_set()
            &&& self.keys.len() <= self.capacity
            &&& 0 <= self.cursor
            &&& (self.cursor < self.keys.len() || (self.cursor == 0 && self.keys.len() == 0))
        }
    }

    /// The table at the start of a search.
    pub open spec fn begun(self) -> TableView {
        let base = if self.policy == TtReuse::PerSearch || self.generation == u64::MAX {
            TableView::fresh(self.policy, self.capacity)
        } else {
            self
        };
        TableView { generation: (base.generation + 1) as u64, ..base }
    }

    /// The entry of a position, marked as used by the current search.
    pub open spec fn found(self, key: TtKey) -> Option<TtEntry> {
        if self.entries.contains_key(packed(key)) {
            Some(TtEntry { generation: self.generation, ..self.entries[packed(key)] })
        } else {
            None
        }
    }

    /// The table after looking up a position.
    pub open spec fn probed(self, key: TtKey) -> TableView {
        match self.found(key) {
            Some(entry) => TableView { entries: self.entries.insert(packed(key), entry), ..self },
            None => self,
        }
    }

    /// How much an entry is worth keeping: its depth, less eight plies for
    /// every search since it was last used.
    pub open spec fn priority(self, entry: TtEntry) -> int {
        let age = if self.generation >= entry.generation {
            self.generation - entry.generation
        } else {
            0
        };
        entry.depth - (if age > u32::MAX {
            u32::MAX as int
        } else {
            age
        }) * 8
    }

    /// The victim and the cursor after `n` more of the rotating candidates.
    pub open spec fn scanned(self, victim: int, cursor: int, n: nat) -> (int, int)
        decreases n,
    {
        if n == 0 {
            (victim, cursor)
        } else {
            let better = if self.priority(self.entries[self.keys[cursor]]) < self.priority(
                self.entries[self.keys[victim]],
            ) {
                cursor
            } else {
                victim
            };
            self.scanned(better, (cursor + 1) % (self.keys.len() as int), (n - 1) as nat)
        }
    }

    /// How many candidates for eviction are looked at.
    pub open spec fn sample_size(self) -> nat {
        if self.keys.len() < 8 {
            self.keys.len()
        } else {
            8
        }
    }

    /// The table after storing `entry`, which already carries the current
    /// generation, per search: the deeper entry stays, and a full table is
    /// flushed first.
    pub open spec fn stored_per_search(self, key: u128, entry: TtEntry) -> TableView {
        if self.entries.contains_key(key) && entry.depth < self.entries[key].depth {
            self
        } else {
            let base = if self.entries.len() >= self.capacity {
                Map::empty()
            } else {
                self.entries
            };
            TableView { entries: base.insert(key, entry), ..self }
        }
    }

    /// Likewise per game: an entry replaces an older one of its own position
    /// unless that has the same history and more priority; otherwise it takes
    /// a free place, or that of the least valuable of a few candidates unless
    /// it is worth less than all of them.
    pub open spec fn stored_per_game(self, key: u128, entry: TtEntry) -> TableView {
        if self.entries.contains_key(key) {
            let old_entry = self.entries[key];
            if old_entry.history != entry.history || self.priority(entry) >= self.priority(
                old_entry,
            ) {
                TableView { entries: self.entries.insert(key, entry), ..self }
            } else {
                self
            }
        } else if self.keys.len() < self.capacity {
            TableView {
                entries: self.entries.insert(key, entry),
                keys: self.keys.push(key),
                ..self
            }
        } else {
            let (victim, cursor) = self.scanned(self.cursor, self.cursor, self.sample_size());
            if self.priority(entry) < self.priority(self.entries[self.keys[victim]]) {
                TableView { cursor, ..self }
            } else {
                TableView {
                    entries: self.entries.remove(self.keys[victim]).insert(key, entry),
                    keys: self.keys.update(victim, key),
                    cursor,
                    ..self
                }
            }
        }
    }

    /// The table after storing `entry` for a position.
    pub open spec fn stored(self, key: TtKey, entry: TtEntry) -> TableView {
        let current = TtEntry { generation: self.generation, ..entry };
        if self.policy == TtReuse::PerSearch {
            self.stored_per_search(packed(key), current)
        } else {
            self.stored_per_game(packed(key), current)
        }
    }
}

/// The share of one position in a history fingerprint.
pub open spec fn history_share(hash: u64) -> u64 {
    zobrist::splitmix_output(hash.wrapping_add(SPLITMIX_STEP))
}

/// The wrapped sum of the shares of the last `n` positions of a path.
pub open spec fn tail_sum(path: Seq<u64>, n: nat) -> u64
    decreases n,
{
    if n == 0 {
        0
    } else {
        tail_sum(path, (n - 1) as nat).wrapping_add(history_share(path[path.len() - n]))
    }
}

/// How many positions of a path a halfmove clock makes repeatable.
pub open spec fn repeatable(path: Seq<u64>, half: u32) -> nat {
    if path.len() <= half {
        path.len()
    } else {
        (half + 1) as nat
    }
}

/// A bounded map from positions to what a search found out about them.
pub struct TranspositionTable {
    policy: TtReuse,
    entries: HashMap<u128, TtEntry>,
    generation: u64,
    keys: Vec<u128>,
    eviction_cursor: usize,
    capacity: usize,
}

impl View for TranspositionTable {
    type V = TableView;

    closed spec fn view(&self) -> TableView {
        TableView {
            policy: self.policy,
            entries: self.entries@,
            generation: self.generation,
            keys: self.keys@,
            cursor: self.eviction_cursor as int,
            capacity: self.capacity as nat,
        }
    }
}

impl Default for TranspositionTable {
    /// An empty table that starts afresh with every search. Whoever keeps a
    /// table across searches selects its own policy when it creates one.
    fn default() -> (table: TranspositionTable)
        ensures
            table@ == TableView::fresh(TtReuse::PerSearch, MAX_TT_ENTRIES as nat),
            table@.wf(),
    {
        TranspositionTable::new(TtReuse::PerSearch, MAX_TT_ENTRIES)
    }
}

impl TranspositionTable {
    /// An empty table with the given policy and capacity.
    pub fn new(policy: TtReuse, capacity: usize) -> (table: TranspositionTable)
        requires
            capacity > 0,
        ensures
            table@ == TableView::fresh(policy, capacity as nat),
            table@.wf(),
    {
        let table = TranspositionTable {
            policy,
            entries: HashMap::new(),
            generation: 0,
            keys: Vec::new(),
            eviction_cursor: 0,
            capacity,
        };
        proof {
            assert(table@.entries =~= Map::empty());
            assert(table@.keys =~= Seq::empty());
            assert(table@.entries.dom() =~= table@.keys.to_set());
        }
        table
    }

    /// The table's policy.
    pub fn policy(&self) -> (policy: TtReuse)
        ensures
            policy == self@.policy,
    {
        self.policy
    }

    /// How many entries there are.
    pub fn len(&self) -> (count: usize)
        ensures
            count == self@.entries.len(),
    {
        self.entries.len()
    }

    /// How many keys the per-game policy keeps track of.
    pub fn tracked_keys(&self) -> (count: usize)
        ensures
            count == self@.keys.len(),
    {
        self.keys.len()
    }

    /// Forgets everything but the policy and the capacity.
    pub fn clear(&mut self)
        requires
            old(self)@.wf(),
        ensures
            final(self)@ == TableView::fresh(old(self)@.policy, old(self)@.capacity),
            final(self)@.wf(),
    {
        self.entries.clear();
        self.generation = 0;
        self.keys.clear();
        self.eviction_cursor = 0;
        proof {
            assert(self@.entries =~= Map::empty());
            assert(self@.keys =~= Seq::empty());
            assert(self@.entries.dom() =~= self@.keys.to_set());
        }
    }

    /// Starts a new search: a new generation of entries, and an empty table
    /// if the policy says so.
    pub fn begin_search(&mut self)
        requires
            old(self)@.wf(),
        ensures
            final(self)@ == old(self)@.begun(),
            final(self)@.wf(),
    {
        if self.policy == TtReuse::PerSearch || self.generation == u64::MAX {
            self.clear();
        }
        self.generation += 1;
    }

    /// Looks up a position, marking its entry as used by the current search.
    pub fn probe(&mut self, key: &TtKey) -> (entry: Option<TtEntry>)
        requires
            old(self)@.wf(),
        ensures
            entry == old(self)@.found(*key),
            final(self)@ == old(self)@.probed(*key),
            final(self)@.wf(),
    {
        let number: u128 = pack(*key);
        let found: Option<TtEntry> = match self.entries.get(&number) {
            Some(entry) => Some(*entry),
            None => None,
        };
        match found {
            Some(entry) => {
                let mut used = entry;
                used.generation = self.generation;
                self.entries.insert(number, used);
                proof {
                    assert(self@.entries.dom() =~= old(self)@.entries.dom());
                }
                Some(used)
            },
            None => None,
        }
    }

    /// Positions with identical boards and repetition counts can still have
    /// different *other* repeatable positions in their histories. Persistent
    /// scores require the same reversible history; move ordering does not.
    /// A commutative fingerprint preserves transpositions with the same counts.
    pub fn history_key(&self, position: &Position, path: &[u64]) -> (fingerprint: u64)
        ensures
            fingerprint == (if self@.policy == TtReuse::PerSearch {
                0
            } else {
                tail_sum(path@, repeatable(path@, position@.half))
            }),
    {
        if self.policy == TtReuse::PerSearch {
            return 0;
        }
        let clock: u64 = position.halfmove_clock() as u64;
        let mut sum: u64 = 0;
        let mut taken: usize = 0;
        while taken < path.len() && taken as u64 <= clock
            invariant
                taken <= path.len(),
                taken <= clock + 1,
                clock == position@.half,
                sum == tail_sum(path@, taken as nat),
            decreases path.len() - taken,
        {
            let hash: u64 = path[path.len() - 1 - taken];
            sum = sum.wrapping_add(zobrist::splitmix_output_of(hash.wrapping_add(SPLITMIX_STEP)));
            taken += 1;
        }
        sum
    }

    fn priority(&self, entry: &TtEntry) -> (priority: i64)
        ensures
            priority == self@.priority(*entry),
    {
        // One search of age costs eight plies of replacement priority.
        let age: u64 = self.generation.saturating_sub(entry.generation);
        let capped: u64 = if age > u32::MAX as u64 {
            u32::MAX as u64
        } else {
            age
        };
        entry.depth as i64 - capped as i64 * 8
    }

    /// The priority of the entry of the `index`-th tracked key.
    fn tracked_priority(&self, index: usize) -> (priority: i64)
        requires
            self@.wf(),
            self@.policy == TtReuse::PerGame,
            index < self@.keys.len(),
        ensures
            priority == self@.priority(self@.entries[self@.keys[index as int]]),
    {
        let key: u128 = self.keys[index];
        assert(self@.keys.to_set().contains(key));
        match self.entries.get(&key) {
            Some(entry) => self.priority(entry),
            None => 0,
        }
    }

    /// Remembers `entry` for a position, as far as the policy has room for it.
    pub fn store(&mut self, key: TtKey, entry: TtEntry)
        requires
            old(self)@.wf(),
        ensures
            final(self)@ == old(self)@.stored(key, entry),
            final(self)@.wf(),
    {
        let number: u128 = pack(key);
        let mut current = entry;
        current.generation = self.generation;
        if self.policy == TtReuse::PerSearch {
            self.store_per_search(number, current);
        } else {
            self.store_per_game(number, current);
        }
    }

    fn store_per_search(&mut self, number: u128, entry: TtEntry)
        requires
            old(self)@.wf(),
            old(self)@.policy == TtReuse::PerSearch,
        ensures
            final(self)@ == old(self)@.stored_per_search(number, entry),
            final(self)@.wf(),
    {
        let keep_old: bool = match self.entries.get(&number) {
            Some(existing) => entry.depth < existing.depth,
            None => false,
        };
        if !keep_old {
            if self.entries.len() >= self.capacity {
                self.entries.clear();
            }
            self.entries.insert(number, entry);
        }
    }

    fn store_per_game(&mut self, number: u128, entry: TtEntry)
        requires
            old(self)@.wf(),
            old(self)@.policy == TtReuse::PerGame,
        ensures
            final(self)@ == old(self)@.stored_per_game(number, entry),
            final(self)@.wf(),
    {
        let existing: Option<TtEntry> = match self.entries.get(&number) {
            Some(existing) => Some(*existing),
            None => None,
        };
        if let Some(existing) = existing {
            if existing.history != entry.history || self.priority(&entry) >= self.priority(
                &existing,
            ) {
                self.entries.insert(number, entry);
                proof {
                    assert(self@.entries.dom() =~= old(self)@.entries.dom());
                }
            }
            return;
        }
        proof {
            assert(!self@.keys.to_set().contains(number));
            assert(!self@.keys.contains(number));
            self@.keys.unique_seq_to_set();
        }
        if self.keys.len() < self.capacity {
            self.keys.push(number);
            self.entries.insert(number, entry);
            proof {
                assert(self@.keys.to_set() =~= old(self)@.keys.to_set().insert(number)) by {
                    assert(self@.keys =~= old(self)@.keys.push(number));
                    assert(self@.keys.last() == number);
                    assert forall|k: u128| old(self)@.keys.contains(k) implies self@.keys.contains(
                        k,
                    ) by {
                        let i = choose|i: int|
                            0 <= i < old(self)@.keys.len() && old(self)@.keys[i] == k;
                        assert(self@.keys[i] == k);
                    }
                }
                assert(self@.entries.dom() =~= self@.keys.to_set());
            }
            return;
        }
        let victim: usize = self.choose_victim();
        if self.priority(&entry) < self.tracked_priority(victim) {
            return;
        }
        let ghost before = self@;
        let evicted: u128 = self.keys[victim];
        self.entries.remove(&evicted);
        self.keys.set(victim, number);
        self.entries.insert(number, entry);
        proof {
            lemma_replaced_key(before.keys, victim as int, number);
            assert(self@.keys =~= before.keys.update(victim as int, number));
            assert(self@.entries.dom() =~= self@.keys.to_set());
        }
    }

    /// Picks the least valuable of a few rotating candidates for eviction, and
    /// moves the cursor past them.
    fn choose_victim(&mut self) -> (victim: usize)
        requires
            old(self)@.wf(),
            old(self)@.policy == TtReuse::PerGame,
            old(self)@.keys.len() > 0,
        ensures
            final(self)@.wf(),
            victim < old(self)@.keys.len(),
            ({
                let (v, cursor) = old(self)@.scanned(
                    old(self)@.cursor,
                    old(self)@.cursor,
                    old(self)@.sample_size(),
                );
                victim == v && final(self)@ == (TableView { cursor, ..old(self)@ })
            }),
    {
        let ghost start = self@;
        let sample: usize = if self.keys.len() < 8 {
            self.keys.len()
        } else {
            8
        };
        let mut victim: usize = self.eviction_cursor;
        let mut seen: usize = 0;
        while seen < sample
            invariant
                seen <= sample,
                sample == start.sample_size(),
                start.wf(),
                start.policy == TtReuse::PerGame,
                start.keys.len() > 0,
                self@ == (TableView { cursor: self@.cursor, ..start }),
                0 <= self@.cursor < start.keys.len(),
                victim < start.keys.len(),
                start.scanned(start.cursor, start.cursor, start.sample_size()) == start.scanned(
                    victim as int,
                    self@.cursor,
                    (sample - seen) as nat,
                ),
            decreases sample - seen,
        {
            let candidate: usize = self.eviction_cursor;
            let candidate_priority: i64 = self.tracked_priority(candidate);
            let victim_priority: i64 = self.tracked_priority(victim);
            if candidate_priority < victim_priority {
                victim = candidate;
            }
            let next: usize = if candidate + 1 == self.keys.len() {
                0
            } else {
                candidate + 1
            };
            proof {
                assert((candidate + 1) % (start.keys.len() as int) == next) by {
                    if candidate + 1 < start.keys.len() {
                        vstd::arithmetic::div_mod::lemma_small_mod(
                            (candidate + 1) as nat,
                            start.keys.len(),
                        );
                    } else {
                        vstd::arithmetic::div_mod::lemma_mod_self_0(start.keys.len() as int);
                    }
                }
            }
            self.eviction_cursor = next;
            seen += 1;
        }
        victim
    }
}

/// Replacing one of several different keys by a new one replaces it in their set.
proof fn lemma_replaced_key(keys: Seq<u128>, i: int, key: u128)
    requires
        keys.no_duplicates(),
        0 <= i < keys.len(),
        !keys.contains(key),
    ensures
        keys.update(i, key).no_duplicates(),
        keys.update(i, key).to_set() == keys.to_set().remove(keys[i]).insert(key),
{
    let after = keys.update(i, key);
    assert forall|a: int, b: int| 0 <= a < after.len() && 0 <= b < after.len() && a != b implies after[a]
        != after[b] by {
        if a == i {
            assert(keys.contains(keys[b]));
        } else if b == i {
            assert(keys.contains(keys[a]));
        }
    }
    assert forall|k: u128|
        after.to_set().contains(k) <==> keys.to_set().remove(keys[i]).insert(key).contains(k) by {
        if after.contains(k) {
            let a = choose|a: int| 0 <= a < after.len() && after[a] == k;
            if a != i {
                assert(keys[a] == k);
                assert(keys.contains(k));
            }
        }
        if k == key {
            assert(after[i] == k);
        } else if keys.contains(k) && k != keys[i] {
            let a = choose|a: int| 0 <= a < keys.len() && keys[a] == k;
            assert(after[a] == k);
        }
    }
    assert(after.to_set() =~= keys.to_set().remove(keys[i]).insert(key));
}

/// Adding one position's share to a fingerprint.
pub open spec fn add_share(hash: u64, sum: u64) -> u64 {
    sum.wrapping_add(history_share(hash))
}

proof fn lemma_tail_sum_is_fold(path: Seq<u64>, n: nat)
    requires
        n <= path.len(),
    ensures
        tail_sum(path, n) == path.skip(path.len() - n).fold_right(
            |hash: u64, sum: u64| add_share(hash, sum),
            0,
        ),
    decreases n,
{
    let f = |hash: u64, sum: u64| add_share(hash, sum);
    let window = path.skip(path.len() - n);
    if n > 0 {
        lemma_tail_sum_is_fold(path, (n - 1) as nat);
        window.lemma_fold_right_alt(f, 0u64);
        let rest = window.subrange(1, window.len() as int);
        rest.lemma_fold_right_alt(f, 0u64);
        assert(rest =~= path.skip(path.len() - (n - 1)));
    } else {
        assert(window =~= Seq::<u64>::empty());
    }
}

/// A history fingerprint does not depend on the order of the positions, only
/// on which repeatable positions there are and how often each occurred.
pub proof fn history_fingerprint_is_commutative(a: Seq<u64>, b: Seq<u64>, n: nat)
    requires
        n <= a.len(),
        n <= b.len(),
        a.skip(a.len() - n).to_multiset() == b.skip(b.len() - n).to_multiset(),
    ensures
        tail_sum(a, n) == tail_sum(b, n),
{
    let f = |hash: u64, sum: u64| add_share(hash, sum);
    lemma_tail_sum_is_fold(a, n);
    lemma_tail_sum_is_fold(b, n);
    assert(vstd::seq_lib::commutative_foldr(f)) by {
        assert forall|x: u64, y: u64, v: u64| #[trigger] f(x, f(y, v)) == f(y, f(x, v)) by {}
    }
    vstd::seq_lib::lemma_fold_right_permutation(
        a.skip(a.len() - n),
        b.skip(b.len() - n),
        f,
        0u64,
    );
}

/// Looking up a position right after storing an entry for it, with room for
/// it and nothing better in its place, gives back what was stored.
pub proof fn probe_finds_what_was_stored(table: TableView, key: TtKey, entry: TtEntry)
    requires
        table.wf(),
        !table.entries.contains_key(packed(key)),
        table.entries.len() < table.capacity,
    ensures
        table.stored(key, entry).found(key) == Some(
            TtEntry { generation: table.generation, ..entry },
        ),
{
    if table.policy == TtReuse::PerGame {
        table.keys.unique_seq_to_set();
    }
}

/// Storing an entry for a position that already has one leaves the entries of
/// all other positions alone, per game always and per search unless the table
/// is full.
pub proof fn updating_evicts_nothing_else(table: TableView, key: TtKey, entry: TtEntry, other: TtKey)
    requires
        table.wf(),
        table.entries.contains_key(packed(key)),
        other != key,
        table.policy == TtReuse::PerSearch ==> table.entries.len() < table.capacity,
    ensures
        table.stored(key, entry).found(other) == table.found(other),
{
    if packed(key) == packed(other) {
        packed_is_injective(key, other);
    }
}

/// A table never holds more entries than its capacity.
pub proof fn capacity_is_respected(table: TableView, key: TtKey, entry: TtEntry)
    requires
        table.wf(),
        table.capacity > 0,
        table.entries.len() <= table.capacity,
    ensures
        table.stored(key, entry).entries.len() <= table.capacity,
{
    let k = packed(key);
    if table.policy == TtReuse::PerGame {
        table.keys.unique_seq_to_set();
        if table.entries.contains_key(k) {
            assert(table.entries.insert(k, entry).dom() =~= table.entries.dom());
        } else if table.keys.len() == table.capacity {
            let (victim, cursor) = table.scanned(table.cursor, table.cursor, table.sample_size());
            lemma_scanned_in_range(table, table.cursor, table.cursor, table.sample_size());
            assert(table.keys.contains(table.keys[victim]));
            assert(table.entries.dom().contains(table.keys[victim]));
        }
    } else if table.entries.contains_key(k) {
        assert(table.entries.insert(k, entry).dom() =~= table.entries.dom());
    }
}

proof fn lemma_scanned_in_range(table: TableView, victim: int, cursor: int, n: nat)
    requires
        table.keys.len() > 0,
        0 <= victim < table.keys.len(),
        0 <= cursor < table.keys.len(),
    ensures
        0 <= table.scanned(victim, cursor, n).0 < table.keys.len(),
        0 <= table.scanned(victim, cursor, n).1 < table.keys.len(),
    decreases n,
{
    if n > 0 {
        let better = if table.priority(table.entries[table.keys[cursor]]) < table.priority(
            table.entries[table.keys[victim]],
        ) {
            cursor
        } else {
            victim
        };
        vstd::arithmetic::div_mod::lemma_mod_bound(cursor + 1, table.keys.len() as int);
        lemma_scanned_in_range(
            table,
            better,
            (cursor + 1) % (table.keys.len() as int),
            (n - 1) as nat,
        );
    }
}

} // verus!
