//! What a search asks while it runs: whether a deadline has expired, how much
//! time has passed, and whether another depth would fit.

use super::deadline::{Deadline, Stopwatch, StopSignal};
use super::iterative::{self, MAX_ITERATIVE_DEPTH};
use super::time_manager;
use super::SearchResultView;
use crate::time::Duration;
use vstd::prelude::*;

verus! {

/// What is known when it is decided whether another depth is started: what the
/// last depth found, whether the soft limit is reached, the time spent so far,
/// what the last depth and the one before it took, and the hard limit.
#[derive(Debug, Clone, Copy)]
pub struct Plan {
    pub depth: u32,
    pub found_mate: bool,
    pub search_saturated: bool,
    pub soft_limit_reached: bool,
    pub elapsed_ms: u64,
    pub last_depth_ms: u64,
    pub previous_depth_ms: Option<u64>,
    pub hard_ms: u64,
}

impl Plan {
    /// Whether another depth is started: the next depth's cost is predicted,
    /// and it is not started at all if it plausibly won't fit.
    pub open spec fn continues(self) -> bool {
        &&& self.depth < MAX_ITERATIVE_DEPTH
        &&& !self.found_mate
        &&& !self.search_saturated
        &&& !self.soft_limit_reached
        &&& time_manager::affordable(
            self.elapsed_ms as nat,
            time_manager::at_most_u64(
                time_manager::projected_cost(self.last_depth_ms as nat, self.previous_depth_ms),
            ),
            self.hard_ms as nat,
        )
    }

    /// Whether the plan is for what comes after these results.
    pub open spec fn follows(self, results: Seq<SearchResultView>) -> bool {
        &&& results.len() >= 2
        &&& self.depth == results.len()
        &&& self.found_mate == iterative::finds_mate(results.last())
        &&& self.search_saturated == iterative::saturated(
            results[results.len() - 2],
            results.last(),
        )
    }

    /// Whether the plan knows the time that each completed depth took.
    pub open spec fn knows(self, timings: Seq<u64>) -> bool {
        &&& timings.len() >= 2
        &&& timings.len() == self.depth
        &&& self.last_depth_ms == timings.last()
        &&& self.previous_depth_ms == Some(timings[timings.len() - 2])
    }
}

/// One question and its answer.
pub enum Note {
    /// A deadline was asked, after so many nodes, whether it had expired.
    Look { deadline: Deadline, nodes: u64, expired: bool },
    /// A watch was started.
    Start { watch: Stopwatch },
    /// A depth was completed, and a watch showed so many milliseconds.
    Took { watch: Stopwatch, ms: u64 },
    /// So many milliseconds were spent by then, as a watch showed.
    Spent { watch: Stopwatch, ms: u64 },
    /// It was decided whether another depth is started.
    Plan { plan: Plan },
    /// A watch was read once the search was over.
    Reading { watch: Stopwatch, elapsed: Duration },
}

impl Note {
    /// Whether the answer lets the search go on.
    pub open spec fn goes_on(self) -> bool {
        match self {
            Note::Look { expired, .. } => !expired,
            Note::Plan { plan } => plan.continues(),
            _ => true,
        }
    }

    /// Whether this is a look at a deadline with the given time limit and stop
    /// signal.
    pub open spec fn asks(self, budget_ns: nat, stop: Option<StopSignal>) -> bool {
        self matches Note::Look { deadline, .. } && deadline.is_for(budget_ns, stop)
    }
}

/// A record of what was asked and answered. It is there for proofs only;
/// nothing but its own methods adds to it.
pub struct Looks {
    notes: Ghost<Seq<Note>>,
}

impl Looks {
    /// The questions and answers so far, in order.
    pub closed spec fn notes(&self) -> Seq<Note> {
        self.notes@
    }

    /// Whether every answer on record is one that was given.
    pub closed spec fn kept(&self) -> bool {
        forall|k: int|
            0 <= k < self.notes@.len() ==> (#[trigger] self.notes@[k] matches Note::Look {
                deadline,
                nodes,
                expired,
            } ==> deadline.may_answer(nodes, expired))
    }

    /// An empty record.
    pub fn new() -> (looks: Looks)
        ensures
            looks.kept(),
            looks.notes() == Seq::<Note>::empty(),
    {
        Looks { notes: Ghost(Seq::empty()) }
    }

    /// Asks a deadline whether it has expired -- see `Deadline::is_expired`.
    pub fn look(&mut self, deadline: &Deadline, nodes: u64) -> (expired: bool)
        requires
            old(self).kept(),
        ensures
            final(self).kept(),
            deadline.may_answer(nodes, expired),
            final(self).notes() == old(self).notes().push(
                Note::Look { deadline: *deadline, nodes, expired },
            ),
    {
        let expired = deadline.is_expired(nodes);
        proof {
            self.notes@ = self.notes@.push(Note::Look { deadline: *deadline, nodes, expired });
        }
        expired
    }

    /// Starts a watch -- see `Stopwatch::start`.
    pub fn start(&mut self) -> (watch: Stopwatch)
        requires
            old(self).kept(),
        ensures
            final(self).kept(),
            final(self).notes() == old(self).notes().push(Note::Start { watch }),
    {
        let watch = Stopwatch::start();
        proof {
            self.notes@ = self.notes@.push(Note::Start { watch });
        }
        watch
    }

    /// How many milliseconds a watch shows when a depth is complete.
    pub fn took(&mut self, watch: &Stopwatch) -> (ms: u64)
        requires
            old(self).kept(),
        ensures
            final(self).kept(),
            final(self).notes() == old(self).notes().push(Note::Took { watch: *watch, ms }),
    {
        let ms: u64 = watch.elapsed().as_millis_u64();
        proof {
            self.notes@ = self.notes@.push(Note::Took { watch: *watch, ms });
        }
        ms
    }

    /// How many milliseconds a watch shows when it is decided what comes next.
    pub fn spent(&mut self, watch: &Stopwatch) -> (ms: u64)
        requires
            old(self).kept(),
        ensures
            final(self).kept(),
            final(self).notes() == old(self).notes().push(Note::Spent { watch: *watch, ms }),
    {
        let ms: u64 = watch.elapsed().as_millis_u64();
        proof {
            self.notes@ = self.notes@.push(Note::Spent { watch: *watch, ms });
        }
        ms
    }

    /// How much time a watch shows once the search is over.
    pub fn read(&mut self, watch: &Stopwatch) -> (elapsed: Duration)
        requires
            old(self).kept(),
        ensures
            final(self).kept(),
            final(self).notes() == old(self).notes().push(Note::Reading { watch: *watch, elapsed }),
    {
        let elapsed = watch.elapsed();
        proof {
            self.notes@ = self.notes@.push(Note::Reading { watch: *watch, elapsed });
        }
        elapsed
    }

    /// Decides whether another depth is started under a budget.
    pub fn decide(&mut self, plan: Plan) -> (continues: bool)
        requires
            old(self).kept(),
        ensures
            final(self).kept(),
            continues == plan.continues(),
            final(self).notes() == old(self).notes().push(Note::Plan { plan }),
    {
        proof {
            self.notes@ = self.notes@.push(Note::Plan { plan });
        }
        iterative::continues_under_budget(
            plan.depth,
            plan.found_mate,
            plan.search_saturated,
            plan.soft_limit_reached,
            plan.elapsed_ms,
            plan.last_depth_ms,
            plan.previous_depth_ms,
            plan.hard_ms,
        )
    }
}

/// What was noted after `before`.
pub open spec fn since(before: Seq<Note>, after: Seq<Note>) -> Seq<Note> {
    after.skip(before.len() as int)
}

/// After nothing, everything was noted.
pub proof fn lemma_since_nothing(notes: Seq<Note>)
    ensures
        since(Seq::empty(), notes) == notes,
{
    assert(since(Seq::empty(), notes) =~= notes);
}

/// Whether nothing noted before was changed.
pub open spec fn extends(before: Seq<Note>, after: Seq<Note>) -> bool {
    before.is_prefix_of(after)
}

/// After everything, nothing was noted.
pub proof fn lemma_since_now(notes: Seq<Note>)
    ensures
        extends(notes, notes),
        since(notes, notes).len() == 0,
{
}

/// Whether every answer lets the search go on.
pub open spec fn all_go_on(notes: Seq<Note>) -> bool {
    forall|k: int| 0 <= k < notes.len() ==> (#[trigger] notes[k]).goes_on()
}

/// Whether the last answer, and only that, ends the search.
pub open spec fn stopped(notes: Seq<Note>) -> bool {
    notes.len() > 0 && !notes.last().goes_on() && all_go_on(notes.drop_last())
}

/// Whether every note is a look at a deadline with the given time limit and
/// stop signal.
pub open spec fn all_ask(notes: Seq<Note>, budget_ns: nat, stop: Option<StopSignal>) -> bool {
    forall|k: int| 0 <= k < notes.len() ==> (#[trigger] notes[k]).asks(budget_ns, stop)
}

/// What a search from one node count to another notes: it looks at the
/// deadline at every node that it visits, and goes on until one of the answers
/// is that the deadline has expired, or until it has finished.
#[verifier::opaque]
pub open spec fn watched(
    before: Seq<Note>,
    after: Seq<Note>,
    deadline: Deadline,
    from: u64,
    to: u64,
    finished: bool,
) -> bool {
    let visits = after.len() - before.len();
    &&& extends(before, after)
    &&& forall|k: int|
        before.len() <= k < after.len() ==> #[trigger] after[k] == (Note::Look {
            deadline,
            nodes: ((from + (k - before.len())) % 0x1_0000_0000_0000_0000) as u64,
            expired: !finished && k == after.len() - 1,
        })
    &&& if finished {
        to == (from + visits) % 0x1_0000_0000_0000_0000
    } else {
        visits > 0
    }
}

/// Nothing has been visited yet.
pub proof fn lemma_watched_nothing(notes: Seq<Note>, deadline: Deadline, nodes: u64)
    ensures
        watched(notes, notes, deadline, nodes, nodes, true),
{
    reveal(watched);
}

/// One node is visited, or would have been.
pub proof fn lemma_watched_one(before: Seq<Note>, deadline: Deadline, nodes: u64, expired: bool)
    ensures
        watched(
            before,
            before.push(Note::Look { deadline, nodes, expired }),
            deadline,
            nodes,
            if expired {
                nodes
            } else {
                nodes.wrapping_add(1)
            },
            !expired,
        ),
{
    reveal(watched);
}

/// A finished search followed by another one.
pub proof fn lemma_watched_on(
    a: Seq<Note>,
    b: Seq<Note>,
    c: Seq<Note>,
    deadline: Deadline,
    from: u64,
    via: u64,
    to: u64,
    finished: bool,
)
    requires
        watched(a, b, deadline, from, via, true),
        watched(b, c, deadline, via, to, finished),
    ensures
        watched(a, c, deadline, from, to, finished),
{
    reveal(watched);
    assert forall|k: int| a.len() <= k < c.len() implies #[trigger] c[k] == (Note::Look {
        deadline,
        nodes: ((from + (k - a.len())) % 0x1_0000_0000_0000_0000) as u64,
        expired: !finished && k == c.len() - 1,
    }) by {
        if k < b.len() {
            assert(c[k] == b[k]);
        }
    }
    assert forall|k: int| 0 <= k < a.len() implies a[k] == c[k] by {
        assert(b[k] == a[k]);
        assert(c[k] == b[k]);
    }
    assert(a =~= c.subrange(0, a.len() as int));
}

/// Where a search that was cut off would have got does not matter.
pub proof fn lemma_watched_anywhere(
    before: Seq<Note>,
    after: Seq<Note>,
    deadline: Deadline,
    from: u64,
    to: u64,
    elsewhere: u64,
)
    requires
        watched(before, after, deadline, from, to, false),
    ensures
        watched(before, after, deadline, from, elsewhere, false),
{
    reveal(watched);
}

/// What a watched search from zero on adds to a record that lets go on.
pub proof fn lemma_searched(
    start: Seq<Note>,
    before: Seq<Note>,
    after: Seq<Note>,
    deadline: Deadline,
    to: u64,
    finished: bool,
)
    requires
        extends(start, before),
        all_go_on(since(start, before)),
        watched(before, after, deadline, 0, to, finished),
    ensures
        extends(start, after),
        all_go_on(since(start, after)) == finished,
        stopped(since(start, after)) == !finished,
        finished ==> since(start, after).len() >= since(start, before).len() + to,
        since(start, after).len() >= since(start, before).len(),
        forall|k: int|
            since(start, before).len() <= k < since(start, after).len() ==> (
            #[trigger] since(start, after)[k] matches Note::Look { deadline: asked, .. } && asked
                == deadline),
        forall|k: int|
            0 <= k < since(start, before).len() ==> #[trigger] since(start, after)[k] == since(
                start,
                before,
            )[k],
{
    reveal(watched);
    let earlier = since(start, before);
    let all = since(start, after);
    assert forall|k: int| 0 <= k < start.len() implies start[k] == after[k] by {
        assert(before[k] == start[k]);
        assert(after[k] == before[k]);
    }
    assert(start =~= after.subrange(0, start.len() as int));
    assert forall|k: int| 0 <= k < earlier.len() implies #[trigger] all[k] == earlier[k] by {
        assert(after[start.len() + k] == before[start.len() + k]);
    }
    assert forall|k: int| earlier.len() <= k < all.len() implies #[trigger] all[k] == (Note::Look {
        deadline,
        nodes: ((0 + (k - earlier.len())) % 0x1_0000_0000_0000_0000) as u64,
        expired: !finished && k == all.len() - 1,
    }) by {
        assert(all[k] == after[start.len() + k]);
    }
    if !finished {
        assert(!all.last().goes_on());
        assert forall|k: int| 0 <= k < all.len() - 1 implies (
        #[trigger] all.drop_last()[k]).goes_on() by {
            assert(all.drop_last()[k] == all[k]);
        }
        assert(!all[all.len() - 1].goes_on());
    } else {
        assert forall|k: int| 0 <= k < all.len() implies (#[trigger] all[k]).goes_on() by {}
        assert(all.len() > 0 ==> all[all.len() - 1].goes_on());
    }
}

/// What one more note adds to a record that lets go on.
pub proof fn lemma_noted(start: Seq<Note>, before: Seq<Note>, note: Note)
    requires
        extends(start, before),
    ensures
        extends(start, before.push(note)),
        since(start, before.push(note)) == since(start, before).push(note),
        all_go_on(since(start, before)) ==> all_go_on(since(start, before.push(note)))
            == note.goes_on(),
        all_go_on(since(start, before)) ==> stopped(since(start, before.push(note)))
            == !note.goes_on(),
{
    let earlier = since(start, before);
    let all = since(start, before.push(note));
    assert(start =~= before.push(note).subrange(0, start.len() as int));
    assert(all =~= earlier.push(note));
    assert(all.drop_last() =~= earlier);
    assert(all[earlier.len() as int] == note);
}

/// What a watched search adds to a record of looks at deadlines with the given
/// time limit and stop signal.
pub proof fn lemma_searched_asking(
    start: Seq<Note>,
    before: Seq<Note>,
    after: Seq<Note>,
    deadline: Deadline,
    to: u64,
    finished: bool,
    budget_ns: nat,
    stop: Option<StopSignal>,
)
    requires
        extends(start, before),
        all_go_on(since(start, before)),
        all_ask(since(start, before), budget_ns, stop),
        deadline.is_for(budget_ns, stop),
        watched(before, after, deadline, 0, to, finished),
    ensures
        extends(start, after),
        all_go_on(since(start, after)) == finished,
        stopped(since(start, after)) == !finished,
        finished ==> since(start, after).len() >= since(start, before).len() + to,
        since(start, after).len() >= since(start, before).len(),
        all_ask(since(start, after), budget_ns, stop),
{
    lemma_searched(start, before, after, deadline, to, finished);
}

/// What a look adds to a record of looks at deadlines with the given time
/// limit and stop signal.
pub proof fn lemma_looked(
    start: Seq<Note>,
    before: Seq<Note>,
    deadline: Deadline,
    nodes: u64,
    expired: bool,
    budget_ns: nat,
    stop: Option<StopSignal>,
)
    requires
        extends(start, before),
        all_go_on(since(start, before)),
        all_ask(since(start, before), budget_ns, stop),
        deadline.is_for(budget_ns, stop),
    ensures
        ({
            let after = before.push(Note::Look { deadline, nodes, expired });
            &&& extends(start, after)
            &&& all_go_on(since(start, after)) == !expired
            &&& stopped(since(start, after)) == expired
            &&& since(start, after).len() == since(start, before).len() + 1
            &&& all_ask(since(start, after), budget_ns, stop)
        }),
{
    lemma_noted(start, before, Note::Look { deadline, nodes, expired });
}

/// What a watched search adds to a record of looks and plans under the given
/// limits.
pub proof fn lemma_searched_under_limits(
    start: Seq<Note>,
    before: Seq<Note>,
    after: Seq<Note>,
    deadline: Deadline,
    to: u64,
    finished: bool,
    soft_ns: nat,
    hard_ns: nat,
    stop: StopSignal,
)
    requires
        extends(start, before),
        all_go_on(since(start, before)),
        all_under_limits(since(start, before), soft_ns, hard_ns, stop),
        deadline.is_for(hard_ns, Some(stop)),
        watched(before, after, deadline, 0, to, finished),
    ensures
        extends(start, after),
        all_go_on(since(start, after)) == finished,
        !finished ==> cut_off(since(start, after), hard_ns, stop),
        finished ==> since(start, after).len() >= since(start, before).len() + to,
        since(start, after).len() >= since(start, before).len(),
        all_under_limits(since(start, after), soft_ns, hard_ns, stop),
        timings(since(start, after)) == timings(since(start, before)),
        last_start(since(start, after)) == last_start(since(start, before)),
        since(start, before).len() > 0 ==> since(start, after)[0] == since(start, before)[0],
{
    lemma_searched(start, before, after, deadline, to, finished);
    lemma_looks_time_nothing(since(start, before), since(start, after));
    let earlier = since(start, before);
    let all = since(start, after);
    if !finished {
        assert(all[all.len() - 1] == all.last());
    }
    assert forall|k: int| 0 <= k < all.len() implies #[trigger] under_limits(
        all,
        k,
        soft_ns,
        hard_ns,
        stop,
    ) by {
        if k < earlier.len() {
            lemma_under_limits(earlier, all, k, soft_ns, hard_ns, stop);
        }
    }
}

/// What comes after a note does not matter to it.
proof fn lemma_under_limits(
    earlier: Seq<Note>,
    all: Seq<Note>,
    k: int,
    soft_ns: nat,
    hard_ns: nat,
    stop: StopSignal,
)
    requires
        0 <= k < earlier.len() <= all.len(),
        all_under_limits(earlier, soft_ns, hard_ns, stop),
        forall|j: int| 0 <= j < earlier.len() ==> #[trigger] all[j] == earlier[j],
    ensures
        under_limits(all, k, soft_ns, hard_ns, stop),
{
    assert(under_limits(earlier, k, soft_ns, hard_ns, stop));
    assert(all.take(k) =~= earlier.take(k));
    assert(all[0] == earlier[0]);
    if k > 0 {
        assert(all[k - 1] == earlier[k - 1]);
    }
    if k > 1 {
        assert(all[k - 2] == earlier[k - 2]);
    }
}

/// What one more note adds to a record of notes under the given limits.
pub proof fn lemma_noted_under_limits(
    start: Seq<Note>,
    before: Seq<Note>,
    note: Note,
    soft_ns: nat,
    hard_ns: nat,
    stop: StopSignal,
)
    requires
        extends(start, before),
        all_under_limits(since(start, before), soft_ns, hard_ns, stop),
        under_limits(
            since(start, before).push(note),
            since(start, before).len() as int,
            soft_ns,
            hard_ns,
            stop,
        ),
    ensures
        extends(start, before.push(note)),
        since(start, before.push(note)) == since(start, before).push(note),
        since(start, before).push(note).take(since(start, before).len() as int) == since(
            start,
            before,
        ),
        all_go_on(since(start, before)) ==> all_go_on(since(start, before.push(note)))
            == note.goes_on(),
        all_under_limits(since(start, before.push(note)), soft_ns, hard_ns, stop),
        timings(since(start, before.push(note))) == (match note {
            Note::Took { ms, .. } => timings(since(start, before)).push(ms),
            _ => timings(since(start, before)),
        }),
        last_start(since(start, before.push(note))) == (match note {
            Note::Start { watch } => Some(watch),
            _ => last_start(since(start, before)),
        }),
{
    lemma_noted(start, before, note);
    let earlier = since(start, before);
    let all = earlier.push(note);
    assert(all.drop_last() =~= earlier);
    assert(all.take(earlier.len() as int) =~= earlier);
    assert forall|k: int| 0 <= k < all.len() implies #[trigger] under_limits(
        all,
        k,
        soft_ns,
        hard_ns,
        stop,
    ) by {
        if k < earlier.len() {
            lemma_under_limits(earlier, all, k, soft_ns, hard_ns, stop);
        }
    }
}

/// Looks neither time a depth nor start a watch.
proof fn lemma_looks_time_nothing(earlier: Seq<Note>, all: Seq<Note>)
    requires
        earlier.len() <= all.len(),
        forall|k: int| 0 <= k < earlier.len() ==> #[trigger] all[k] == earlier[k],
        forall|k: int| earlier.len() <= k < all.len() ==> #[trigger] all[k] is Look,
    ensures
        timings(all) == timings(earlier),
        last_start(all) == last_start(earlier),
    decreases all.len(),
{
    if all.len() == earlier.len() {
        assert(all =~= earlier);
    } else {
        assert(all[all.len() - 1] is Look);
        lemma_looks_time_nothing(earlier, all.drop_last());
    }
}

/// What is added to a record after a completed depth: the time it took, a look
/// at the soft deadline, the time spent so far, and a plan that goes by these.
pub proof fn lemma_planned(
    start: Seq<Note>,
    before: Seq<Note>,
    took: Note,
    deadline: Deadline,
    spent: Note,
    plan: Plan,
    soft_ns: nat,
    hard_ns: nat,
    stop: StopSignal,
    results: Seq<SearchResultView>,
)
    requires
        extends(start, before),
        all_go_on(since(start, before)),
        all_under_limits(since(start, before), soft_ns, hard_ns, stop),
        deadline.is_for(soft_ns, Some(stop)),
        since(start, before).len() > 0,
        took matches Note::Took { watch, ms } && last_start(since(start, before)) == Some(watch)
            && plan.last_depth_ms == ms,
        spent matches Note::Spent { watch, ms } && since(start, before)[0] == (Note::Start { watch })
            && plan.elapsed_ms == ms,
        timings(since(start, before)).len() + 1 == plan.depth,
        plan.previous_depth_ms == Some(timings(since(start, before)).last()),
        plan.hard_ms == (hard_ns / 1_000_000) % 0x1_0000_0000_0000_0000,
        plan.follows(results),
    ensures
        ({
            let after = before.push(took).push(
                Note::Look { deadline, nodes: 0, expired: plan.soft_limit_reached },
            ).push(spent).push(Note::Plan { plan });
            &&& extends(start, after)
            &&& plan.continues() ==> all_go_on(since(start, after))
            &&& !plan.continues() ==> planned_to_end(since(start, after), results)
            &&& since(start, after).len() == since(start, before).len() + 4
            &&& all_under_limits(since(start, after), soft_ns, hard_ns, stop)
            &&& timings(since(start, after)) == timings(since(start, before)).push(
                plan.last_depth_ms,
            )
            &&& since(start, after)[0] == since(start, before)[0]
            &&& since(start, after).last() is Plan
        }),
{
    let look = Note::Look { deadline, nodes: 0, expired: plan.soft_limit_reached };
    let timed = before.push(took);
    let looked = timed.push(look);
    let clocked = looked.push(spent);
    let earlier = since(start, before);
    assert(earlier.push(took).take(earlier.len() as int) =~= earlier);
    lemma_noted_under_limits(start, before, took, soft_ns, hard_ns, stop);
    lemma_noted_under_limits(start, timed, look, soft_ns, hard_ns, stop);
    lemma_noted_under_limits(start, looked, spent, soft_ns, hard_ns, stop);
    let plans = since(start, clocked).push(Note::Plan { plan });
    assert(plans.take(since(start, clocked).len() as int) =~= since(start, clocked));
    lemma_noted_under_limits(start, clocked, Note::Plan { plan }, soft_ns, hard_ns, stop);
    assert(plans =~= earlier.push(took).push(look).push(spent).push(Note::Plan { plan }));
    assert(plans.take(plans.len() - 3) =~= earlier.push(took));
    if plan.continues() {
        assert(look.goes_on());
    }
}

/// At least how many looks it takes to find these results: one at every node
/// visited, but for the root.
pub open spec fn looks_owed(results: Seq<SearchResultView>) -> int
    decreases results.len(),
{
    if results.len() == 0 {
        0
    } else {
        looks_owed(results.drop_last()) + results.last().nodes - 1
    }
}

/// One more result takes one more look for each of its nodes but the root.
pub proof fn lemma_looks_owed(results: Seq<SearchResultView>, next: SearchResultView)
    ensures
        looks_owed(results.push(next)) == looks_owed(results) + next.nodes - 1,
        results.len() > 0 ==> looks_owed(results.push(next).skip(1)) == looks_owed(
            results.skip(1),
        ) + next.nodes - 1,
        results.len() == 0 ==> looks_owed(results.push(next).skip(1)) == 0,
{
    assert(results.push(next).drop_last() =~= results);
    if results.len() > 0 {
        assert(results.push(next).skip(1) =~= results.skip(1).push(next));
        assert(results.skip(1).push(next).drop_last() =~= results.skip(1));
    }
}

/// Whether deepening ends of its own accord after these results: a mate has
/// been found, or the last depth changed nothing.
pub open spec fn settled(results: Seq<SearchResultView>) -> bool {
    &&& results.len() > 0
    &&& iterative::finds_mate(results.last()) || (results.len() >= 2 && iterative::saturated(
        results[results.len() - 2],
        results.last(),
    ))
}

/// How deepening in a time limit comes to end with these results: of its own
/// accord, at the largest depth, or because the deadline was asked and had
/// expired, and then at once. Depth 1 is not under the deadline.
pub open spec fn ends_in_time(
    notes: Seq<Note>,
    budget_ns: nat,
    results: Seq<SearchResultView>,
) -> bool {
    &&& results.len() > 0
    &&& all_ask(notes, budget_ns, None)
    &&& stopped(notes) || (all_go_on(notes) && (settled(results) || results.len()
        == MAX_ITERATIVE_DEPTH))
    &&& notes.len() >= looks_owed(results.skip(1))
}

/// How deepening in a time limit and with a stop signal comes to end with
/// these results, if any: with a mate, at the largest depth there is a number
/// for, or because the deadline was asked and had expired, and then at once.
pub open spec fn ends_unless_stopped(
    notes: Seq<Note>,
    budget_ns: nat,
    stop: StopSignal,
    results: Seq<SearchResultView>,
) -> bool {
    &&& all_ask(notes, budget_ns, Some(stop))
    &&& stopped(notes) || (all_go_on(notes) && results.len() > 0 && (iterative::finds_mate(
        results.last(),
    ) || results.len() == u32::MAX))
    &&& notes.len() >= looks_owed(results)
}

/// The watch that was started last, if any was.
pub open spec fn last_start(notes: Seq<Note>) -> Option<Stopwatch>
    decreases notes.len(),
{
    if notes.len() == 0 {
        None
    } else {
        match notes.last() {
            Note::Start { watch } => Some(watch),
            _ => last_start(notes.drop_last()),
        }
    }
}

/// How many milliseconds each completed depth took, in order.
pub open spec fn timings(notes: Seq<Note>) -> Seq<u64>
    decreases notes.len(),
{
    if notes.len() == 0 {
        Seq::empty()
    } else {
        match notes.last() {
            Note::Took { ms, .. } => timings(notes.drop_last()).push(ms),
            _ => timings(notes.drop_last()),
        }
    }
}

/// Whether the `k`-th note belongs to a search under the given limits:
/// - a look at one of the two deadlines;
/// - the start of a watch for the whole search, of one for depth 1, or of one
///   for another depth, before anything is done for that depth;
/// - the time that a depth took, on the watch for it;
/// - the time spent so far, on the watch for the whole search;
/// - a plan that knows the hard limit, the time spent and the time that each
///   depth took, and goes by what the soft deadline has just answered.
pub open spec fn under_limits(
    notes: Seq<Note>,
    k: int,
    soft_ns: nat,
    hard_ns: nat,
    stop: StopSignal,
) -> bool {
    match notes[k] {
        Note::Look { .. } => notes[k].asks(soft_ns, Some(stop)) || notes[k].asks(
            hard_ns,
            Some(stop),
        ),
        Note::Start { .. } => k <= 1 || notes[k - 1] is Took || notes[k - 1] is Plan,
        Note::Took { watch, .. } => last_start(notes.take(k)) == Some(watch),
        Note::Spent { watch, .. } => notes[0] == (Note::Start { watch }),
        Note::Plan { plan } => {
            &&& k >= 2
            &&& notes[k - 1] is Spent
            &&& notes[k - 1]->Spent_ms == plan.elapsed_ms
            &&& notes[k - 2].asks(soft_ns, Some(stop))
            &&& notes[k - 2]->expired == plan.soft_limit_reached
            &&& plan.hard_ms == (hard_ns / 1_000_000) % 0x1_0000_0000_0000_0000
            &&& plan.knows(timings(notes.take(k)))
        },
        Note::Reading { .. } => false,
    }
}

/// Whether all notes belong to a search under the given limits.
pub open spec fn all_under_limits(
    notes: Seq<Note>,
    soft_ns: nat,
    hard_ns: nat,
    stop: StopSignal,
) -> bool {
    forall|k: int|
        0 <= k < notes.len() ==> #[trigger] under_limits(notes, k, soft_ns, hard_ns, stop)
}

/// Whether the notes end with a look at the hard deadline that had expired.
pub open spec fn cut_off(notes: Seq<Note>, hard_ns: nat, stop: StopSignal) -> bool {
    &&& stopped(notes)
    &&& notes.last().asks(hard_ns, Some(stop))
}

/// Whether the notes end with a plan that follows the results and starts no
/// other depth, and nothing before what the plan goes by ended the search.
pub open spec fn planned_to_end(notes: Seq<Note>, results: Seq<SearchResultView>) -> bool {
    let n = notes.len() as int;
    &&& n >= 3
    &&& notes[n - 1] matches Note::Plan { plan } && !plan.continues() && plan.follows(results)
    &&& all_go_on(notes.take(n - 3))
}

/// What was noted before the watches were read at the end.
pub open spec fn before_readings(notes: Seq<Note>) -> Seq<Note>
    decreases notes.len(),
{
    if notes.len() > 0 && notes.last() is Reading {
        before_readings(notes.drop_last())
    } else {
        notes
    }
}

/// What the watches showed at the end: that for the whole search `total`, and,
/// if the last depth was cut off, the one for that depth `aborted`, which is
/// nothing otherwise.
pub open spec fn final_readings(
    notes: Seq<Note>,
    hard_ns: nat,
    stop: StopSignal,
    aborted: Duration,
    total: Duration,
) -> bool {
    let searched = before_readings(notes);
    let cut = cut_off(searched, hard_ns, stop);
    &&& searched.len() > 0
    &&& searched[0] is Start
    &&& notes.last() == (Note::Reading { watch: searched[0]->Start_watch, elapsed: total })
    &&& notes.len() == searched.len() + (if cut {
        2int
    } else {
        1int
    })
    &&& if cut {
        &&& last_start(searched) is Some
        &&& notes[notes.len() - 2] == (Note::Reading {
            watch: last_start(searched).unwrap(),
            elapsed: aborted,
        })
    } else {
        aborted.ns() == 0
    }
}

/// Reading the watches changes nothing of what was noted before.
pub proof fn lemma_read(start: Seq<Note>, before: Seq<Note>, watch: Stopwatch, elapsed: Duration)
    requires
        extends(start, before),
    ensures
        ({
            let after = before.push(Note::Reading { watch, elapsed });
            &&& extends(start, after)
            &&& since(start, after) == since(start, before).push(Note::Reading { watch, elapsed })
            &&& before_readings(since(start, after)) == before_readings(since(start, before))
        }),
{
    lemma_noted(start, before, Note::Reading { watch, elapsed });
    assert(since(start, before).push(Note::Reading { watch, elapsed }).drop_last() =~= since(
        start,
        before,
    ));
}

/// How deepening under a soft and a hard limit comes to end with these
/// results, if any: with a mate at depth 1, because the hard deadline was asked
/// and had expired, or because it was decided after the last depth that no
/// other one is started. Only then are the watches read.
pub open spec fn ends_under_budget(
    notes: Seq<Note>,
    soft_ns: nat,
    hard_ns: nat,
    stop: StopSignal,
    results: Seq<SearchResultView>,
) -> bool {
    let notes = before_readings(notes);
    &&& all_under_limits(notes, soft_ns, hard_ns, stop)
    &&& {
        ||| cut_off(notes, hard_ns, stop)
        ||| planned_to_end(notes, results)
        ||| results.len() == 1 && iterative::finds_mate(results[0]) && all_go_on(notes)
    }
    &&& notes.len() >= looks_owed(results)
}

/// Whether some record of what was asked and answered shows that deepening in
/// a time limit came to end with these results.
pub open spec fn ended_in_time(budget_ns: nat, results: Seq<SearchResultView>) -> bool {
    exists|looks: Looks| #[trigger]
        looks.kept() && ends_in_time(looks.notes(), budget_ns, results)
}

/// Likewise with a stop signal.
pub open spec fn ended_unless_stopped(
    budget_ns: nat,
    stop: StopSignal,
    results: Seq<SearchResultView>,
) -> bool {
    exists|looks: Looks| #[trigger]
        looks.kept() && ends_unless_stopped(looks.notes(), budget_ns, stop, results)
}

/// Every answer on record is one that the deadline could give: none has expired
/// between clock checks unless a stop signal can say so.
pub proof fn answers_on_record_were_possible(looks: Looks, k: int)
    requires
        looks.kept(),
        0 <= k < looks.notes().len(),
    ensures
        looks.notes()[k] matches Note::Look { deadline, nodes, expired } ==> deadline.may_answer(
            nodes,
            expired,
        ),
{
}

/// Deepening in a time limit goes on while time remains: where it ends neither
/// of its own accord nor at the largest depth, the deadline was asked last, and
/// had expired.
pub proof fn deepening_goes_on_while_time_remains(
    notes: Seq<Note>,
    budget_ns: nat,
    results: Seq<SearchResultView>,
)
    requires
        ends_in_time(notes, budget_ns, results),
        !settled(results),
        results.len() < MAX_ITERATIVE_DEPTH,
    ensures
        notes.len() > 0,
        notes.last().asks(budget_ns, None),
        !notes.last().goes_on(),
{
    assert(notes[notes.len() - 1].asks(budget_ns, None));
}

/// With a stop signal it goes on as well, and finds nothing only where the
/// deadline with that signal was asked last, and had expired.
pub proof fn deepening_goes_on_unless_stopped(
    notes: Seq<Note>,
    budget_ns: nat,
    stop: StopSignal,
    results: Seq<SearchResultView>,
)
    requires
        ends_unless_stopped(notes, budget_ns, stop, results),
        results.len() > 0 ==> !iterative::finds_mate(results.last()) && results.len() < u32::MAX,
    ensures
        notes.len() > 0,
        notes.last().asks(budget_ns, Some(stop)),
        !notes.last().goes_on(),
{
    assert(notes[notes.len() - 1].asks(budget_ns, Some(stop)));
}

/// Under a soft and a hard limit, nothing is found only where the hard deadline
/// was asked last, and had expired; and where something is found without a
/// mate, either that holds or the decision to end was made from what the last
/// depth found, the soft deadline's answer and the predicted cost.
pub proof fn deepening_goes_on_within_the_limits(
    notes: Seq<Note>,
    soft_ns: nat,
    hard_ns: nat,
    stop: StopSignal,
    results: Seq<SearchResultView>,
)
    requires
        ends_under_budget(notes, soft_ns, hard_ns, stop, results),
        results.len() > 0 ==> !iterative::finds_mate(results.last()),
    ensures
        ({
            let searched = before_readings(notes);
            &&& searched.len() > 0
            &&& !searched.last().goes_on()
            &&& results.len() < 2 ==> searched.last().asks(hard_ns, Some(stop))
            &&& searched.last().asks(hard_ns, Some(stop)) || (searched.last() matches Note::Plan {
                plan,
            } && plan.follows(results) && plan.knows(timings(searched.drop_last()))
                && plan.hard_ms == (hard_ns / 1_000_000) % 0x1_0000_0000_0000_0000)
        }),
{
    let searched = before_readings(notes);
    if planned_to_end(searched, results) {
        assert(under_limits(searched, searched.len() - 1, soft_ns, hard_ns, stop));
        assert(searched.take(searched.len() - 1) =~= searched.drop_last());
    }
}

} // verus!
