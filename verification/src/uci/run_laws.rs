//! What holds of a UCI session over any number of events.

use super::command::{GoCommand, PositionCommandView, UciCommandView};
use super::laws;
use super::output;
use super::session::{self, Action, EventView, HeldView, PhaseView, SearchEventView};
use crate::chess::position::PositionView;
use crate::engine::EngineView;
use crate::search::SearchResultView;
use vstd::prelude::*;

verus! {

/// What a session does that can be told from outside.
pub enum Mark {
    /// A line was carried out, and these lines were written.
    Replied(Seq<char>, Seq<Seq<char>>),
    /// A search was started.
    Started(GoCommand),
    /// A search reported a completed depth.
    Info(Seq<char>),
    /// A search in this position was answered.
    Best(PositionView, SearchResultView),
}

impl Mark {
    /// The lines that are written.
    pub open spec fn lines(self) -> Seq<Seq<char>> {
        match self {
            Mark::Replied(_, lines) => lines,
            Mark::Started(_) => seq![],
            Mark::Info(line) => seq![line],
            Mark::Best(_, result) => seq![output::bestmove_text(result.best_move)],
        }
    }
}

/// A session after some events. The engine is the one that a running search
/// has, which gives it back as it got it.
pub struct RunView {
    pub phase: PhaseView,
    pub engine: EngineView,
    /// The events that have to wait.
    pub waiting: Seq<EventView>,
    /// The `go` that is still to be answered.
    pub go: Option<GoCommand>,
    /// Whether the session has ended.
    pub over: bool,
    /// The lines that were carried out.
    pub carried: Seq<Seq<char>>,
    pub marks: Seq<Mark>,
    /// Everything that was written.
    pub written: Seq<Seq<char>>,
}

/// A session at its start.
pub open spec fn begun(engine: EngineView) -> RunView {
    RunView {
        phase: PhaseView::Idle,
        engine,
        waiting: seq![],
        go: None,
        over: false,
        carried: seq![],
        marks: seq![],
        written: seq![],
    }
}

/// The line that an event makes a session carry out: the event's own, or the
/// one that was held until the search had finished.
pub open spec fn carries(phase: PhaseView, event: EventView) -> Option<Seq<char>> {
    match (phase, event) {
        (PhaseView::Idle, EventView::Line(line)) => Some(line),
        (
            PhaseView::Finishing(HeldView::Line(line)),
            EventView::Search(SearchEventView::Done(_)),
        ) => Some(line),
        _ => None,
    }
}

/// What a session does on an event, one after another: it writes the report
/// of a search, carries out a line, and starts a search.
pub open spec fn marks_of(phase: PhaseView, engine: EngineView, event: EventView) -> Seq<Mark> {
    let first = match event {
        EventView::Search(SearchEventView::Info(line)) => seq![Mark::Info(line)],
        EventView::Search(SearchEventView::Done(result)) => seq![
            Mark::Best(engine.position, result),
        ],
        _ => seq![],
    };
    match carries(phase, event) {
        Some(line) => {
            let ready = if phase is Idle {
                session::echoed(engine, line)
            } else {
                engine
            };
            let done = session::executed(ready, UciCommandView::read(line));
            let replied = first.push(Mark::Replied(line, done.lines));
            match done.action {
                Action::Start(args) => replied.push(Mark::Started(args)),
                _ => replied,
            }
        },
        None => first,
    }
}

/// A session after one more event.
#[verifier::opaque]
pub open spec fn taken(run: RunView, event: EventView) -> RunView {
    let step = session::stepped(run.phase, run.engine, Some(event));
    RunView {
        phase: step.phase,
        engine: step.engine,
        waiting: if step.kept {
            run.waiting.push(event)
        } else {
            run.waiting
        },
        go: match step.action {
            Action::Start(args) => Some(args),
            _ => if event is Search && event->Search_0 is Done {
                None
            } else {
                run.go
            },
        },
        over: step.action == Action::Exit,
        carried: match carries(run.phase, event) {
            Some(line) => run.carried.push(line),
            None => run.carried,
        },
        marks: run.marks + marks_of(run.phase, run.engine, event),
        written: run.written + step.lines,
    }
}

/// A session after it has taken the events that had to wait, as far as it can.
pub open spec fn caught_up(run: RunView) -> RunView
    decreases run.waiting.len(),
{
    if run.over || run.phase is Finishing || run.waiting.len() == 0 {
        run
    } else {
        proof {
            reveal(taken);
        }
        caught_up(taken(RunView { waiting: run.waiting.skip(1), ..run }, run.waiting[0]))
    }
}

/// A session after the given events have come in.
pub open spec fn run_of(engine: EngineView, events: Seq<EventView>) -> RunView
    decreases events.len(),
{
    if events.len() == 0 {
        begun(engine)
    } else {
        let before = run_of(engine, events.drop_last());
        if before.over {
            before
        } else {
            caught_up(taken(before, events.last()))
        }
    }
}

/// Whether an event can come in: lines always can, and a search reports from
/// its start on until its answer, which is its last report. `info` lines are
/// none that say what move to play.
pub open spec fn can_come(run: RunView, event: EventView) -> bool {
    match event {
        EventView::Search(SearchEventView::Info(line)) => !(run.phase is Idle)
            && !laws::is_bestmove(line),
        EventView::Search(SearchEventView::Done(result)) => !(run.phase is Idle) && (
        run.go matches Some(args) && session::answers(run.engine, args, result)),
        _ => true,
    }
}

/// Whether the events can come in, in this order.
pub open spec fn can_all_come(engine: EngineView, events: Seq<EventView>) -> bool
    decreases events.len(),
{
    events.len() > 0 ==> can_all_come(engine, events.drop_last()) && (run_of(
        engine,
        events.drop_last(),
    ).over || can_come(run_of(engine, events.drop_last()), events.last()))
}

/// Where a session is between a `go` and its answer.
pub enum Turn {
    /// Every search has been answered.
    Answered,
    /// A search has been started and is still to be answered.
    Owed,
    /// Something came out of turn.
    Broken,
}

/// Where a session is after `marks`: a search is started when none is owed an
/// answer, and from then on nothing but its reports comes until its answer.
pub open spec fn turn_after(marks: Seq<Mark>) -> Turn
    decreases marks.len(),
{
    if marks.len() == 0 {
        Turn::Answered
    } else {
        match (turn_after(marks.drop_last()), marks.last()) {
            (Turn::Answered, Mark::Replied(_, _)) => Turn::Answered,
            (Turn::Answered, Mark::Started(_)) => Turn::Owed,
            (Turn::Owed, Mark::Info(_)) => Turn::Owed,
            (Turn::Owed, Mark::Best(_, _)) => Turn::Answered,
            _ => Turn::Broken,
        }
    }
}

/// Everything that `marks` write.
pub open spec fn lines_of(marks: Seq<Mark>) -> Seq<Seq<char>>
    decreases marks.len(),
{
    if marks.len() == 0 {
        seq![]
    } else {
        lines_of(marks.drop_last()) + marks.last().lines()
    }
}

/// How many searches were started.
pub open spec fn starts(marks: Seq<Mark>) -> nat
    decreases marks.len(),
{
    if marks.len() == 0 {
        0
    } else {
        starts(marks.drop_last()) + (if marks.last() is Started {
            1nat
        } else {
            0
        })
    }
}

/// How many of the lines are `go` commands.
pub open spec fn gos(lines: Seq<Seq<char>>) -> nat
    decreases lines.len(),
{
    if lines.len() == 0 {
        0
    } else {
        gos(lines.drop_last()) + (if UciCommandView::read(lines.last()) is Go {
            1nat
        } else {
            0
        })
    }
}

/// Whether none of the lines is a `quit` command.
pub open spec fn no_quit(lines: Seq<Seq<char>>) -> bool {
    forall|k: int|
        0 <= k < lines.len() ==> !(UciCommandView::read(#[trigger] lines[k]) is Quit)
}

/// The lines that say what move to play.
pub open spec fn bestmoves(lines: Seq<Seq<char>>) -> Seq<Seq<char>> {
    lines.filter(|line: Seq<char>| laws::is_bestmove(line))
}

/// The lines among the events, in order.
pub open spec fn input_lines(events: Seq<EventView>) -> Seq<Seq<char>>
    decreases events.len(),
{
    if events.len() == 0 {
        seq![]
    } else {
        match events.last() {
            EventView::Line(line) => input_lines(events.drop_last()).push(line),
            _ => input_lines(events.drop_last()),
        }
    }
}

/// The line that is held until the search has finished, if any.
pub open spec fn held_line(phase: PhaseView) -> Seq<Seq<char>> {
    match phase {
        PhaseView::Finishing(HeldView::Line(line)) => seq![line],
        _ => seq![],
    }
}

/// The engine after the `position` commands among some lines alone.
pub open spec fn placed(engine: EngineView, lines: Seq<Seq<char>>) -> EngineView
    decreases lines.len(),
{
    if lines.len() == 0 {
        engine
    } else {
        let before = placed(engine, lines.drop_last());
        match UciCommandView::read(lines.last()) {
            UciCommandView::Position(args) => session::after_position(before, args).0,
            _ => before,
        }
    }
}

/// Whether a mark's search was answered with a legal move, if there is one.
pub open spec fn answered_legally(mark: Mark) -> bool {
    mark matches Mark::Best(p, result) ==> crate::engine_laws::names_a_legal_move(p, result)
}

/// Whether a session has kept its promises so far.
#[verifier::opaque]
spec fn sound(run: RunView) -> bool {
    &&& turn_after(run.marks) == (if run.phase is Idle {
        Turn::Answered
    } else {
        Turn::Owed
    })
    &&& run.go is Some <==> !(run.phase is Idle)
    &&& run.over ==> run.phase is Idle
    &&& run.written == lines_of(run.marks)
    &&& bestmoves(run.written).len() + (if run.phase is Idle {
        0nat
    } else {
        1
    }) == starts(run.marks)
    &&& forall|k: int| 0 <= k < run.marks.len() ==> answered_legally(#[trigger] run.marks[k])
    &&& forall|k: int| 0 <= k < run.waiting.len() ==> !(#[trigger] run.waiting[k] is Search)
}

/// One more mark.
proof fn lemma_mark(marks: Seq<Mark>, mark: Mark)
    ensures
        lines_of(marks.push(mark)) == lines_of(marks) + mark.lines(),
        starts(marks.push(mark)) == starts(marks) + (if mark is Started {
            1nat
        } else {
            0
        }),
        bestmoves(lines_of(marks.push(mark))) == bestmoves(lines_of(marks)) + bestmoves(
            mark.lines(),
        ),
        turn_after(marks.push(mark)) == (match (turn_after(marks), mark) {
            (Turn::Answered, Mark::Replied(_, _)) => Turn::Answered,
            (Turn::Answered, Mark::Started(_)) => Turn::Owed,
            (Turn::Owed, Mark::Info(_)) => Turn::Owed,
            (Turn::Owed, Mark::Best(_, _)) => Turn::Answered,
            _ => Turn::Broken,
        }),
{
    assert(marks.push(mark).drop_last() =~= marks);
    Seq::filter_distributes_over_add(
        lines_of(marks),
        mark.lines(),
        |line: Seq<char>| laws::is_bestmove(line),
    );
}

proof fn lemma_no_bestmoves(lines: Seq<Seq<char>>)
    requires
        laws::no_bestmove(lines),
    ensures
        bestmoves(lines).len() == 0,
    decreases lines.len(),
{
    reveal(Seq::filter);
    if lines.len() > 0 {
        let rest = lines.drop_last();
        assert forall|i: int| 0 <= i < rest.len() implies !laws::is_bestmove(
            #[trigger] rest[i],
        ) by {
            assert(rest[i] == lines[i]);
        }
        lemma_no_bestmoves(rest);
    }
}

proof fn lemma_one_line(line: Seq<char>)
    ensures
        bestmoves(seq![line]).len() == (if laws::is_bestmove(line) {
            1nat
        } else {
            0
        }),
{
    reveal(Seq::filter);
    let one = seq![line];
    assert(one.drop_last() =~= Seq::<Seq<char>>::empty());
    assert(one.drop_last().filter(|line: Seq<char>| laws::is_bestmove(line)).len() == 0);
}

/// What a mark adds to the number of `bestmove` lines.
proof fn lemma_mark_bestmoves(mark: Mark)
    requires
        mark matches Mark::Info(line) ==> !laws::is_bestmove(line),
        mark matches Mark::Replied(_, lines) ==> laws::no_bestmove(lines),
    ensures
        bestmoves(mark.lines()).len() == (if mark is Best {
            1nat
        } else {
            0
        }),
{
    match mark {
        Mark::Replied(_, lines) => {
            lemma_no_bestmoves(lines);
        },
        Mark::Started(_) => {
            lemma_no_bestmoves(mark.lines());
        },
        Mark::Info(line) => {
            lemma_one_line(line);
        },
        Mark::Best(_, result) => {
            laws::lemma_bestmove_text(result.best_move);
            lemma_one_line(output::bestmove_text(result.best_move));
        },
    }
}

/// What a line that is carried out adds: its reply, and perhaps a search.
proof fn lemma_carried(marks: Seq<Mark>, engine: EngineView, line: Seq<char>)
    requires
        turn_after(marks) == Turn::Answered,
    ensures
        ({
            let done = session::executed(engine, UciCommandView::read(line));
            let replied = marks.push(Mark::Replied(line, done.lines));
            let all = match done.action {
                Action::Start(args) => replied.push(Mark::Started(args)),
                _ => replied,
            };
            &&& turn_after(all) == (if done.action is Start {
                Turn::Owed
            } else {
                Turn::Answered
            })
            &&& lines_of(all) == lines_of(marks) + done.lines
            &&& bestmoves(lines_of(all)).len() == bestmoves(lines_of(marks)).len()
            &&& starts(all) == starts(marks) + (if done.action is Start {
                1nat
            } else {
                0
            })
        }),
{
    let command = UciCommandView::read(line);
    let done = session::executed(engine, command);
    let reply = Mark::Replied(line, done.lines);
    let replied = marks.push(reply);
    laws::lemma_executed(engine, command);
    lemma_mark(marks, reply);
    lemma_mark_bestmoves(reply);
    if let Action::Start(args) = done.action {
        let start = Mark::Started(args);
        lemma_mark(replied, start);
        lemma_mark_bestmoves(start);
        assert(lines_of(replied) + start.lines() =~= lines_of(replied));
    }
}

/// Nothing is written, and the phase stays as it is or a search is stopped.
proof fn lemma_taken_quietly(run: RunView, event: EventView)
    requires
        sound(run),
        !run.over,
        event is Line && !(run.phase is Idle) || event is InputEnded,
    ensures
        sound(taken(run, event)),
{
    reveal(taken);
    reveal(sound);
    let next = taken(run, event);
    assert(marks_of(run.phase, run.engine, event) =~= seq![]);
    assert(next.marks =~= run.marks);
    assert(next.written =~= run.written);
}

/// A line is carried out.
proof fn lemma_taken_line(run: RunView, line: Seq<char>)
    requires
        sound(run),
        !run.over,
        run.phase is Idle,
    ensures
        sound(taken(run, EventView::Line(line))),
{
    reveal(taken);
    reveal(sound);
    let next = taken(run, EventView::Line(line));
    let ready = session::echoed(run.engine, line);
    let done = session::executed(ready, UciCommandView::read(line));
    let reply = Mark::Replied(line, done.lines);
    lemma_carried(run.marks, ready, line);
    match done.action {
        Action::Start(args) => {
            assert(next.marks =~= run.marks.push(reply).push(Mark::Started(args)));
        },
        _ => {
            assert(next.marks =~= run.marks.push(reply));
        },
    }
    assert(Seq::<Seq<char>>::empty() + done.lines =~= done.lines);
}

/// A search reports a completed depth.
proof fn lemma_taken_info(run: RunView, line: Seq<char>)
    requires
        sound(run),
        !run.over,
        !(run.phase is Idle),
        !laws::is_bestmove(line),
    ensures
        sound(taken(run, EventView::Search(SearchEventView::Info(line)))),
{
    reveal(taken);
    reveal(sound);
    let next = taken(run, EventView::Search(SearchEventView::Info(line)));
    let mark = Mark::Info(line);
    lemma_mark(run.marks, mark);
    lemma_mark_bestmoves(mark);
    assert(next.marks =~= run.marks.push(mark));
}

/// A search is answered, and what was held until then is done.
proof fn lemma_taken_done(run: RunView, result: SearchResultView)
    requires
        sound(run),
        !run.over,
        can_come(run, EventView::Search(SearchEventView::Done(result))),
    ensures
        sound(taken(run, EventView::Search(SearchEventView::Done(result)))),
{
    reveal(taken);
    reveal(sound);
    let next = taken(run, EventView::Search(SearchEventView::Done(result)));
    let mark = Mark::Best(run.engine.position, result);
    let best = run.marks.push(mark);
    lemma_mark(run.marks, mark);
    lemma_mark_bestmoves(mark);
    assert(answered_legally(mark)) by {
        laws::every_answer_is_a_legal_move(run.engine, run.go->0, result);
    }
    if let PhaseView::Finishing(HeldView::Line(line)) = run.phase {
        let done = session::executed(run.engine, UciCommandView::read(line));
        let reply = Mark::Replied(line, done.lines);
        lemma_carried(best, run.engine, line);
        match done.action {
            Action::Start(args) => {
                assert(next.marks =~= best.push(reply).push(Mark::Started(args)));
            },
            _ => {
                assert(next.marks =~= best.push(reply));
            },
        }
        assert(next.written =~= lines_of(best) + done.lines);
    } else {
        assert(next.marks =~= best);
    }
}

/// Only a session that waits for the end of a search puts events aside.
proof fn lemma_nothing_put_aside(run: RunView, event: EventView)
    requires
        !(run.phase is Finishing),
    ensures
        taken(run, event).waiting == run.waiting,
{
    reveal(taken);
}

/// Every event leaves the promises kept.
proof fn lemma_taken(run: RunView, event: EventView)
    requires
        sound(run),
        !run.over,
        can_come(run, event),
    ensures
        sound(taken(run, event)),
{
    match event {
        EventView::Line(line) => {
            if run.phase is Idle {
                lemma_taken_line(run, line);
            } else {
                lemma_taken_quietly(run, event);
            }
        },
        EventView::InputEnded => {
            lemma_taken_quietly(run, event);
        },
        EventView::Search(SearchEventView::Info(line)) => {
            lemma_taken_info(run, line);
        },
        EventView::Search(SearchEventView::Done(result)) => {
            lemma_taken_done(run, result);
        },
    }
}

proof fn lemma_caught_up(run: RunView)
    requires
        sound(run),
    ensures
        sound(caught_up(run)),
    decreases run.waiting.len(),
{
    reveal(sound);
    if !(run.over || run.phase is Finishing || run.waiting.len() == 0) {
        let event = run.waiting[0];
        let rest = RunView { waiting: run.waiting.skip(1), ..run };
        assert(!(event is Search));
        lemma_taken(rest, event);
        lemma_nothing_put_aside(rest, event);
        lemma_caught_up(taken(rest, event));
    }
}

proof fn lemma_run(engine: EngineView, events: Seq<EventView>)
    requires
        can_all_come(engine, events),
    ensures
        sound(run_of(engine, events)),
    decreases events.len(),
{
    if events.len() == 0 {
        reveal(sound);
        lemma_no_bestmoves(seq![]);
    } else {
        let before = run_of(engine, events.drop_last());
        lemma_run(engine, events.drop_last());
        if !before.over {
            lemma_taken(before, events.last());
            lemma_caught_up(taken(before, events.last()));
        }
    }
}

/// Whatever lines and reports come in, every `go` is answered by one
/// `bestmove`, and by no more: such lines and searches take turns, nothing but
/// the search's own reports is written between a `go` and its `bestmove`, so
/// the `bestmove` comes before the reply to any line after the `go`, and every
/// move named is legal where it was asked for. When a session has ended no
/// answer is owed.
pub proof fn every_go_gets_one_bestmove(engine: EngineView, events: Seq<EventView>)
    requires
        can_all_come(engine, events),
    ensures
        ({
            let run = run_of(engine, events);
            &&& run.written == lines_of(run.marks)
            &&& turn_after(run.marks) == (if run.phase is Idle {
                Turn::Answered
            } else {
                Turn::Owed
            })
            &&& starts(run.marks) == bestmoves(run.written).len() + (if run.phase is Idle {
                0nat
            } else {
                1
            })
            &&& forall|k: int|
                0 <= k < run.marks.len() ==> answered_legally(#[trigger] run.marks[k])
            &&& run.over ==> run.phase is Idle
        }),
{
    reveal(sound);
    lemma_run(engine, events);
}

proof fn lemma_first_line(events: Seq<EventView>)
    requires
        events.len() > 0,
    ensures
        input_lines(events) == (match events[0] {
            EventView::Line(line) => seq![line] + input_lines(events.skip(1)),
            _ => input_lines(events.skip(1)),
        }),
    decreases events.len(),
{
    if events.len() == 1 {
        assert(events.drop_last() =~= seq![]);
        assert(events.skip(1) =~= seq![]);
        assert(input_lines(events.drop_last()) =~= seq![]);
        assert(input_lines(events.skip(1)) =~= seq![]);
    } else {
        lemma_first_line(events.drop_last());
        assert(events.drop_last().skip(1) =~= events.skip(1).drop_last());
        assert(events.skip(1).last() == events.last());
        match (events[0], events.last()) {
            (EventView::Line(first), EventView::Line(last)) => {
                assert((seq![first] + input_lines(events.skip(1).drop_last())).push(last) =~= seq![
                    first,
                ] + input_lines(events.skip(1).drop_last()).push(last));
            },
            _ => {},
        }
    }
}

/// The lines that were carried out, that are held, and that are waiting.
pub open spec fn lines_so_far(run: RunView) -> Seq<Seq<char>> {
    run.carried + held_line(run.phase) + input_lines(run.waiting)
}

/// What one event adds to the lines, wherever it goes.
proof fn lemma_line_taken(run: RunView, event: EventView)
    requires
        run.phase is Idle ==> !(event is Search),
        !(run.phase is Finishing) ==> !(event is Search) || run.waiting.len() == 0,
    ensures
        !(run.phase is Finishing) ==> taken(run, event).waiting == run.waiting,
        !(run.phase is Finishing) ==> taken(run, event).carried + held_line(
            taken(run, event).phase,
        ) == run.carried + input_lines(seq![event]),
        run.phase is Finishing ==> lines_so_far(taken(run, event)) == lines_so_far(run)
            + input_lines(seq![event]),
{
    reveal(taken);
    let one = seq![event];
    let next = taken(run, event);
    assert(one.drop_last() =~= seq![]);
    assert(input_lines(one.drop_last()) =~= seq![]);
    if run.phase is Finishing {
        assert(next.waiting.len() > run.waiting.len() ==> next.waiting.drop_last()
            =~= run.waiting);
        assert(next.carried + held_line(next.phase) =~= run.carried + held_line(run.phase));
        assert(lines_so_far(next) =~= lines_so_far(run) + input_lines(one));
    } else {
        assert(next.carried + held_line(next.phase) =~= run.carried + input_lines(one));
    }
}

/// Catching up changes nothing about the lines but where they are.
proof fn lemma_lines_caught_up(run: RunView)
    requires
        forall|k: int| 0 <= k < run.waiting.len() ==> !(#[trigger] run.waiting[k] is Search),
    ensures
        lines_so_far(caught_up(run)) == lines_so_far(run),
        ({
            let end = caught_up(run);
            end.over || end.phase is Finishing || end.waiting.len() == 0
        }),
    decreases run.waiting.len(),
{
    if !(run.over || run.phase is Finishing || run.waiting.len() == 0) {
        let event = run.waiting[0];
        let rest = RunView { waiting: run.waiting.skip(1), ..run };
        let next = taken(rest, event);
        assert(!(event is Search));
        lemma_line_taken(rest, event);
        lemma_first_line(run.waiting);
        let one = seq![event];
        assert(one.drop_last() =~= seq![]);
        assert(input_lines(one.drop_last()) =~= seq![]);
        assert(input_lines(run.waiting) =~= input_lines(one) + input_lines(run.waiting.skip(1)));
        assert(lines_so_far(next) =~= lines_so_far(run));
        lemma_lines_caught_up(next);
    }
}

proof fn lemma_added_line(events: Seq<EventView>)
    requires
        events.len() > 0,
    ensures
        input_lines(events) == input_lines(events.drop_last()) + input_lines(seq![events.last()]),
{
    let one = seq![events.last()];
    assert(one.drop_last() =~= seq![]);
    assert(input_lines(one.drop_last()) =~= seq![]);
    assert(input_lines(events) =~= input_lines(events.drop_last()) + input_lines(one));
}

/// Nothing is lost or taken out of order: until a session ends, the lines that
/// it carried out, then the one that it holds until a search has finished, and
/// then those that wait are the lines that came in. The lines carried out are
/// always the first that came in.
pub proof fn lines_are_carried_out_in_order(engine: EngineView, events: Seq<EventView>)
    requires
        can_all_come(engine, events),
    ensures
        ({
            let run = run_of(engine, events);
            &&& !run.over ==> lines_so_far(run) == input_lines(events)
            &&& run.carried.is_prefix_of(input_lines(events))
            &&& run.over || run.phase is Finishing || run.waiting.len() == 0
        }),
{
    lemma_lines(engine, events);
    let run = run_of(engine, events);
    assert(run.carried.is_prefix_of(lines_so_far(run)));
}

/// What one event adds to the lines once the session has caught up.
proof fn lemma_lines_step(before: RunView, event: EventView)
    requires
        sound(before),
        !before.over,
        can_come(before, event),
        before.phase is Finishing || before.waiting.len() == 0,
    ensures
        ({
            let end = caught_up(taken(before, event));
            &&& lines_so_far(end) == lines_so_far(before) + input_lines(seq![event])
            &&& end.over || end.phase is Finishing || end.waiting.len() == 0
        }),
{
    let next = taken(before, event);
    let one = seq![event];
    lemma_line_taken(before, event);
    assert(lines_so_far(next) == lines_so_far(before) + input_lines(one)) by {
        if !(before.phase is Finishing) {
            assert(input_lines(before.waiting) =~= seq![]);
            assert(lines_so_far(before) =~= before.carried);
            assert(lines_so_far(next) =~= before.carried + input_lines(one));
        }
    }
    assert forall|k: int| 0 <= k < next.waiting.len() implies !(
    #[trigger] next.waiting[k] is Search) by {
        lemma_taken(before, event);
        reveal(sound);
    }
    lemma_lines_caught_up(next);
}

proof fn lemma_lines(engine: EngineView, events: Seq<EventView>)
    requires
        can_all_come(engine, events),
    ensures
        ({
            let run = run_of(engine, events);
            &&& !run.over ==> lines_so_far(run) == input_lines(events)
            &&& lines_so_far(run).is_prefix_of(input_lines(events))
            &&& run.over || run.phase is Finishing || run.waiting.len() == 0
        }),
    decreases events.len(),
{
    if events.len() == 0 {
        assert(lines_so_far(begun(engine)) =~= input_lines(events));
    } else {
        let before = run_of(engine, events.drop_last());
        lemma_lines(engine, events.drop_last());
        lemma_added_line(events);
        if !before.over {
            assert(sound(before)) by {
                lemma_run(engine, events.drop_last());
            }
            lemma_lines_step(before, events.last());
        }
    }
}

/// Only `go` starts a search, and only `quit` ends a session.
proof fn lemma_executed_action(engine: EngineView, command: UciCommandView)
    ensures
        session::executed(engine, command).action is Start <==> command is Go,
        session::executed(engine, command).action == Action::Exit <==> command is Quit,
{
    reveal(session::executed);
}

/// Whether every `go` carried out started a search, and a `quit` ended the
/// session.
spec fn tidy(run: RunView) -> bool {
    &&& starts(run.marks) == gos(run.carried)
    &&& !run.over ==> no_quit(run.carried)
    &&& run.carried.len() > 0 ==> no_quit(run.carried.drop_last())
}

proof fn lemma_starts_added(a: Seq<Mark>, b: Seq<Mark>)
    ensures
        starts(a + b) == starts(a) + starts(b),
    decreases b.len(),
{
    if b.len() == 0 {
        assert(a + b =~= a);
    } else {
        assert((a + b).drop_last() =~= a + b.drop_last());
        lemma_starts_added(a, b.drop_last());
    }
}

/// What an event adds to the number of searches started.
proof fn lemma_starts_of(phase: PhaseView, engine: EngineView, event: EventView)
    ensures
        starts(marks_of(phase, engine, event)) == (match carries(phase, event) {
            Some(line) => if UciCommandView::read(line) is Go {
                1nat
            } else {
                0
            },
            None => 0,
        }),
{
    let first = match event {
        EventView::Search(SearchEventView::Info(line)) => seq![Mark::Info(line)],
        EventView::Search(SearchEventView::Done(result)) => seq![
            Mark::Best(engine.position, result),
        ],
        _ => seq![],
    };
    assert(first.len() > 0 ==> first.drop_last() =~= seq![]);
    assert(starts(seq![]) == 0);
    assert(starts(first) == 0);
    if let Some(line) = carries(phase, event) {
        let ready = if phase is Idle {
            session::echoed(engine, line)
        } else {
            engine
        };
        let done = session::executed(ready, UciCommandView::read(line));
        let reply = Mark::Replied(line, done.lines);
        lemma_executed_action(ready, UciCommandView::read(line));
        lemma_mark(first, reply);
        if let Action::Start(args) = done.action {
            lemma_mark(first.push(reply), Mark::Started(args));
        }
    }
}

proof fn lemma_tidy_taken(run: RunView, event: EventView)
    requires
        tidy(run),
        !run.over,
    ensures
        tidy(taken(run, event)),
{
    reveal(taken);
    lemma_starts_of(run.phase, run.engine, event);
    lemma_starts_added(run.marks, marks_of(run.phase, run.engine, event));
    if let Some(line) = carries(run.phase, event) {
        let ready = if run.phase is Idle {
            session::echoed(run.engine, line)
        } else {
            run.engine
        };
        lemma_executed_action(ready, UciCommandView::read(line));
        assert(run.carried.push(line).drop_last() =~= run.carried);
    }
}

proof fn lemma_tidy_caught_up(run: RunView)
    requires
        tidy(run),
    ensures
        tidy(caught_up(run)),
    decreases run.waiting.len(),
{
    if !(run.over || run.phase is Finishing || run.waiting.len() == 0) {
        let rest = RunView { waiting: run.waiting.skip(1), ..run };
        lemma_tidy_taken(rest, run.waiting[0]);
        lemma_nothing_put_aside(rest, run.waiting[0]);
        lemma_tidy_caught_up(taken(rest, run.waiting[0]));
    }
}

/// Every `go` that is carried out starts one search, and nothing else starts
/// one; a `quit` ends the session, and nothing is carried out after it.
pub proof fn every_go_starts_one_search(engine: EngineView, events: Seq<EventView>)
    ensures
        ({
            let run = run_of(engine, events);
            &&& starts(run.marks) == gos(run.carried)
            &&& !run.over ==> no_quit(run.carried)
            &&& run.carried.len() > 0 ==> no_quit(run.carried.drop_last())
        }),
    decreases events.len(),
{
    if events.len() > 0 {
        let before = run_of(engine, events.drop_last());
        every_go_starts_one_search(engine, events.drop_last());
        if !before.over {
            lemma_tidy_taken(before, events.last());
            lemma_tidy_caught_up(taken(before, events.last()));
        }
    }
}

/// Whether a session is still to end because the input did.
spec fn is_to_end(run: RunView) -> bool {
    run.phase == PhaseView::Finishing(HeldView::End) || run.waiting.contains(EventView::InputEnded)
}

proof fn lemma_end_taken(run: RunView, event: EventView)
    requires
        is_to_end(run) || event is InputEnded,
    ensures
        taken(run, event).over || is_to_end(taken(run, event)),
{
    reveal(taken);
    let next = taken(run, event);
    if run.waiting.contains(EventView::InputEnded) {
        let k = choose|k: int|
            0 <= k < run.waiting.len() && run.waiting[k] == EventView::InputEnded;
        assert(next.waiting[k] == EventView::InputEnded);
    }
    if run.phase is Finishing && event is InputEnded {
        assert(next.waiting.last() == event);
    }
}

proof fn lemma_end_caught_up(run: RunView)
    requires
        run.over || is_to_end(run),
    ensures
        caught_up(run).over || is_to_end(caught_up(run)),
    decreases run.waiting.len(),
{
    if !(run.over || run.phase is Finishing || run.waiting.len() == 0) {
        let rest = RunView { waiting: run.waiting.skip(1), ..run };
        let k = choose|k: int|
            0 <= k < run.waiting.len() && run.waiting[k] == EventView::InputEnded;
        if k > 0 {
            assert(rest.waiting[k - 1] == EventView::InputEnded);
        }
        lemma_end_taken(rest, run.waiting[0]);
        lemma_nothing_put_aside(rest, run.waiting[0]);
        lemma_end_caught_up(taken(rest, run.waiting[0]));
    }
}

proof fn lemma_end(engine: EngineView, events: Seq<EventView>)
    requires
        events.contains(EventView::InputEnded),
    ensures
        run_of(engine, events).over || is_to_end(run_of(engine, events)),
    decreases events.len(),
{
    let earlier = events.drop_last();
    let before = run_of(engine, earlier);
    let k = choose|k: int| 0 <= k < events.len() && events[k] == EventView::InputEnded;
    if k < earlier.len() {
        assert(earlier[k] == EventView::InputEnded);
        lemma_end(engine, earlier);
    }
    if !before.over {
        lemma_end_taken(before, events.last());
        lemma_end_caught_up(taken(before, events.last()));
    }
}

/// A session ends at a `quit` or at the end of the input: as soon as no search
/// is running, a session that has not ended has got neither.
pub proof fn a_session_ends_when_told(engine: EngineView, events: Seq<EventView>)
    requires
        can_all_come(engine, events),
        run_of(engine, events).phase is Idle,
        !run_of(engine, events).over,
    ensures
        no_quit(input_lines(events)),
        !events.contains(EventView::InputEnded),
{
    let run = run_of(engine, events);
    lines_are_carried_out_in_order(engine, events);
    every_go_starts_one_search(engine, events);
    assert(lines_so_far(run) =~= run.carried);
    if events.contains(EventView::InputEnded) {
        lemma_end(engine, events);
    }
}

/// Whether two engines are at the same point of the same game.
spec fn same_game(a: EngineView, b: EngineView) -> bool {
    a.position == b.position && a.history == b.history
}

/// Only a `position` command changes where an engine is.
proof fn lemma_executed_place(a: EngineView, b: EngineView, command: UciCommandView)
    requires
        same_game(a, b),
    ensures
        same_game(
            session::executed(a, command).engine,
            match command {
                UciCommandView::Position(args) => session::after_position(b, args).0,
                _ => b,
            },
        ),
{
    reveal(session::executed);
    match command {
        UciCommandView::Position(args) => {
            let valid = match args {
                PositionCommandView::StartPos { .. } => true,
                PositionCommandView::Fen { fen, .. } => PositionView::parse(fen) is Ok,
            };
            if valid {
                laws::position_commands_start_over(a, b, args);
            }
        },
        _ => {},
    }
}

proof fn lemma_place_taken(engine: EngineView, run: RunView, event: EventView)
    requires
        same_game(run.engine, placed(engine, run.carried)),
    ensures
        same_game(taken(run, event).engine, placed(engine, taken(run, event).carried)),
{
    reveal(taken);
    if let Some(line) = carries(run.phase, event) {
        let ready = if run.phase is Idle {
            session::echoed(run.engine, line)
        } else {
            run.engine
        };
        assert(run.carried.push(line).drop_last() =~= run.carried);
        lemma_executed_place(ready, placed(engine, run.carried), UciCommandView::read(line));
    }
}

proof fn lemma_place_caught_up(engine: EngineView, run: RunView)
    requires
        same_game(run.engine, placed(engine, run.carried)),
    ensures
        same_game(caught_up(run).engine, placed(engine, caught_up(run).carried)),
    decreases run.waiting.len(),
{
    if !(run.over || run.phase is Finishing || run.waiting.len() == 0) {
        let rest = RunView { waiting: run.waiting.skip(1), ..run };
        lemma_place_taken(engine, rest, run.waiting[0]);
        lemma_nothing_put_aside(rest, run.waiting[0]);
        lemma_place_caught_up(engine, taken(rest, run.waiting[0]));
    }
}

/// The position and the game's history are what the `position` commands among
/// the lines carried out say, whatever else came in.
pub proof fn only_position_commands_move_the_pieces(engine: EngineView, events: Seq<EventView>)
    ensures
        ({
            let run = run_of(engine, events);
            &&& run.engine.position == placed(engine, run.carried).position
            &&& run.engine.history == placed(engine, run.carried).history
        }),
    decreases events.len(),
{
    if events.len() > 0 {
        let before = run_of(engine, events.drop_last());
        only_position_commands_move_the_pieces(engine, events.drop_last());
        if !before.over {
            lemma_place_taken(engine, before, events.last());
            lemma_place_caught_up(engine, taken(before, events.last()));
        }
    }
}

/// A `stop` that comes in while no search is running writes nothing, unless
/// debug mode is on, and changes nothing but that diagnostics are cleared.
pub proof fn an_idle_stop_writes_nothing(engine: EngineView, line: Seq<char>)
    requires
        !engine.debug,
        UciCommandView::read(line) is Stop,
    ensures
        ({
            let step = session::stepped(PhaseView::Idle, engine, Some(EventView::Line(line)));
            &&& step.lines.len() == 0
            &&& step.phase is Idle
            &&& step.action == Action::Wait
            &&& step.engine == engine.drained()
        }),
{
    reveal(session::executed);
}

} // verus!
