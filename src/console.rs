//! Decisions of the live console: what each upload notice and each event of a
//! remote session changes, persists and draws. Reading events, writing the log
//! file and driving the terminal are left to the caller.
use vstd::prelude::*;
use crate::render::{
    finished, finished_plan, lemma_remote_repaint_rows, plan_rows, plan_view, remote_footer, repaint,
    repaint_plan, rows, single_row, tick_mark, Op, TermOp,
};
use crate::sanitize::{has_escape, lemma_sanitized_plain, sanitize, sanitized};
use crate::scroll::{pushed, ScrollBuffer, REMOTE_TERM_SIZE};

verus! {

/// One event of a remote session.
pub enum Event {
    /// A complete line from the remote standard output or standard error.
    Line(String),
    /// The cancellation key.
    Escape,
    /// Any other key press.
    OtherKey,
}

/// What the caller does after a notice or an event.
pub struct Reaction {
    /// A line to append to the log file, then flush.
    pub persist: Option<String>,
    /// Terminal operations to execute, in order.
    pub plan: Vec<TermOp>,
    /// The remote session has ended.
    pub stop: bool,
}

/// A reaction over plain values.
pub struct Outcome {
    pub persist: Option<Seq<char>>,
    pub plan: Seq<Op>,
    pub stop: bool,
}

impl View for Reaction {
    type V = Outcome;

    open spec fn view(&self) -> Outcome {
        Outcome {
            persist: match self.persist {
                Some(s) => Some(s@),
                None => None,
            },
            plan: plan_view(self.plan@),
            stop: self.stop,
        }
    }
}

/// State of the console: the lines on display and whether a remote session runs.
pub struct ConsoleState {
    pub lines: Seq<String>,
    pub running: bool,
}

/// The outcome that changes nothing outside.
pub open spec fn quiet() -> Outcome {
    Outcome { persist: None, plan: Seq::empty(), stop: false }
}

/// One event of a remote session: a line is persisted without styling,
/// pushed and drawn; the cancellation key draws the final row, ends the
/// session and empties the display; anything else, or any event once the
/// session has ended, changes nothing.
pub open spec fn step(s: ConsoleState, e: Event) -> (ConsoleState, Outcome) {
    if !s.running {
        (s, quiet())
    } else {
        match e {
            Event::Line(l) => {
                let lines = pushed(s.lines, l);
                (
                    ConsoleState { lines, running: true },
                    Outcome {
                        persist: Some(sanitized(l@)),
                        plan: repaint(s.lines.len(), lines, true),
                        stop: false,
                    },
                )
            },
            Event::Escape => (
                ConsoleState { lines: Seq::empty(), running: false },
                Outcome { persist: None, plan: finished(), stop: true },
            ),
            Event::OtherKey => (s, quiet()),
        }
    }
}

/// The state after handling every event of `es` in order.
pub open spec fn state_after(s: ConsoleState, es: Seq<Event>) -> ConsoleState
    decreases es.len(),
{
    if es.len() == 0 {
        s
    } else {
        state_after(step(s, es[0]).0, es.skip(1))
    }
}

/// The lines persisted while handling every event of `es` in order.
pub open spec fn persisted(s: ConsoleState, es: Seq<Event>) -> Seq<Seq<char>>
    decreases es.len(),
{
    if es.len() == 0 {
        Seq::empty()
    } else {
        let (t, o) = step(s, es[0]);
        match o.persist {
            Some(p) => seq![p] + persisted(t, es.skip(1)),
            None => persisted(t, es.skip(1)),
        }
    }
}

/// The terminal operations issued while handling every event of `es` in order.
pub open spec fn drawn(s: ConsoleState, es: Seq<Event>) -> Seq<Op>
    decreases es.len(),
{
    if es.len() == 0 {
        Seq::empty()
    } else {
        let (t, o) = step(s, es[0]);
        o.plan + drawn(t, es.skip(1))
    }
}

/// The lines of `es` that come before the first cancellation key, without styling.
pub open spec fn lines_before_escape(es: Seq<Event>) -> Seq<Seq<char>>
    decreases es.len(),
{
    if es.len() == 0 {
        Seq::empty()
    } else {
        match es[0] {
            Event::Line(l) => seq![sanitized(l@)] + lines_before_escape(es.skip(1)),
            Event::Escape => Seq::empty(),
            Event::OtherKey => lines_before_escape(es.skip(1)),
        }
    }
}

/// The record of one completed upload in the log file.
pub open spec fn upload_record(name: Seq<char>) -> Seq<char> {
    tick_mark() + " '"@ + name + "'"@
}

/// The console: the scrolling tail and whether a remote session runs.
pub struct Console {
    buffer: ScrollBuffer,
    running: bool,
}

impl View for Console {
    type V = ConsoleState;

    closed spec fn view(&self) -> ConsoleState {
        ConsoleState { lines: self.buffer@, running: self.running }
    }
}

impl Console {
    /// The display never holds more than `REMOTE_TERM_SIZE` lines.
    pub open spec fn wf(&self) -> bool {
        self@.lines.len() <= REMOTE_TERM_SIZE
    }

    /// An idle console with nothing on display.
    pub fn new() -> (r: Console)
        ensures
            r.wf(),
            r@.lines == Seq::<String>::empty(),
            !r@.running,
    {
        Console { buffer: ScrollBuffer::new(), running: false }
    }

    /// The lines on display, oldest first.
    pub fn lines(&self) -> (r: Vec<String>)
        ensures
            r@ == self@.lines,
    {
        self.buffer.lines()
    }

    /// A remote session runs.
    pub fn is_running(&self) -> (r: bool)
        ensures
            r == self@.running,
    {
        self.running
    }

    /// Records one completed upload: it is pushed onto the display and
    /// redrawn with a tick mark, and its record is persisted without styling.
    pub fn notify_upload(&mut self, file_name: String) -> (r: Reaction)
        requires
            old(self).wf(),
        ensures
            final(self).wf(),
            final(self)@.lines == pushed(old(self)@.lines, file_name),
            final(self)@.running == old(self)@.running,
            r@ == (Outcome {
                persist: Some(sanitized(upload_record(file_name@))),
                plan: repaint(old(self)@.lines.len(), final(self)@.lines, false),
                stop: false,
            }),
    {
        let raw = String::from_str("\u{2714}").concat(" '").concat(file_name.as_str()).concat("'");
        let record = sanitize(raw.as_str());
        let prev = self.buffer.push(file_name);
        let lines = self.buffer.lines();
        let plan = repaint_plan(prev, &lines, false);
        Reaction { persist: Some(record), plan, stop: false }
    }

    /// Ends the uploads display: nothing is on display any more.
    pub fn stop_display(&mut self)
        ensures
            final(self).wf(),
            final(self)@.lines == Seq::<String>::empty(),
            final(self)@.running == old(self)@.running,
    {
        self.buffer.clear();
    }

    /// Starts a remote session on an empty display.
    pub fn start_remote(&mut self)
        ensures
            final(self).wf(),
            final(self)@ == (ConsoleState { lines: Seq::empty(), running: true }),
    {
        self.buffer.clear();
        self.running = true;
    }

    /// Handles one event of a remote session, as `step` says.
    pub fn handle(&mut self, event: Event) -> (r: Reaction)
        requires
            old(self).wf(),
        ensures
            final(self).wf(),
            (final(self)@, r@) == step(old(self)@, event),
    {
        let ghost before = self@;
        if !self.running {
            let r = Reaction { persist: None, plan: Vec::new(), stop: false };
            assert(r@.plan =~= Seq::<Op>::empty());
            return r;
        }
        match event {
            Event::Line(line) => {
                let persist = sanitize(line.as_str());
                let prev = self.buffer.push(line);
                let lines = self.buffer.lines();
                let plan = repaint_plan(prev, &lines, true);
                let r = Reaction { persist: Some(persist), plan, stop: false };
                proof {
                    assert(r@ == step(before, event).1);
                }
                r
            },
            Event::Escape => {
                self.buffer.clear();
                self.running = false;
                let r = Reaction { persist: None, plan: finished_plan(), stop: true };
                assert(self@ == step(before, event).0);
                r
            },
            Event::OtherKey => {
                let r = Reaction { persist: None, plan: Vec::new(), stop: false };
                assert(r@.plan =~= Seq::<Op>::empty());
                r
            },
        }
    }
}

/// During a remote session the lines persisted are, in arrival order, the
/// lines that arrive before the cancellation key, each without styling: none
/// of them holds a styling sequence.
pub proof fn lemma_persisted_in_order(s: ConsoleState, es: Seq<Event>)
    requires
        s.running,
    ensures
        persisted(s, es) == lines_before_escape(es),
        forall|i: int| 0 <= i < persisted(s, es).len() ==> !has_escape(#[trigger] persisted(s, es)[i]),
    decreases es.len(),
{
    if es.len() > 0 {
        let t = step(s, es[0]).0;
        match es[0] {
            Event::Line(l) => {
                lemma_persisted_in_order(t, es.skip(1));
                lemma_sanitized_plain(l@);
                let p = persisted(s, es);
                assert forall|i: int| 0 <= i < p.len() implies !has_escape(#[trigger] p[i]) by {
                    if i > 0 {
                        assert(p[i] == persisted(t, es.skip(1))[i - 1]);
                    }
                }
            },
            Event::Escape => {
                lemma_quiet_after_stop(t, es.skip(1));
            },
            Event::OtherKey => {
                lemma_persisted_in_order(t, es.skip(1));
            },
        }
    }
}

/// Once a session has ended, later events persist nothing, draw nothing and
/// leave the state as it is.
pub proof fn lemma_quiet_after_stop(s: ConsoleState, es: Seq<Event>)
    requires
        !s.running,
    ensures
        persisted(s, es) == Seq::<Seq<char>>::empty(),
        drawn(s, es) == Seq::<Op>::empty(),
        state_after(s, es) == s,
    decreases es.len(),
{
    if es.len() > 0 {
        lemma_quiet_after_stop(s, es.skip(1));
        assert(quiet().plan + drawn(s, es.skip(1)) =~= Seq::<Op>::empty());
    }
}

/// Once the cancellation key is handled, what follows it in `es` draws and
/// persists nothing: all that is drawn is drawn by the events up to it.
pub proof fn lemma_nothing_after_escape(s: ConsoleState, es: Seq<Event>, k: int)
    requires
        0 <= k < es.len(),
        es[k] is Escape,
    ensures
        drawn(s, es) == drawn(s, es.take(k + 1)),
        persisted(s, es) == persisted(s, es.take(k + 1)),
    decreases es.len(),
{
    let t = step(s, es[0]).0;
    if k == 0 {
        if s.running {
            lemma_quiet_after_stop(t, es.skip(1));
            lemma_quiet_after_stop(t, es.take(1).skip(1));
        } else {
            lemma_quiet_after_stop(s, es.skip(1));
            lemma_quiet_after_stop(s, es.take(1).skip(1));
        }
        assert(drawn(t, es.skip(1)) =~= drawn(t, es.take(1).skip(1)));
    } else {
        lemma_nothing_after_escape(t, es.skip(1), k - 1);
        assert(es.take(k + 1).skip(1) =~= es.skip(1).take(k));
        assert(es.take(k + 1)[0] == es[0]);
    }
}

/// In a remote session each repaint moves up over exactly the rows that the
/// repaint before it finished (the lines then on display and the status row),
/// when every line drawn fits on one row.
pub proof fn lemma_repaint_erases_previous(s: ConsoleState, a: String, b: String)
    requires
        s.running,
        s.lines.len() <= REMOTE_TERM_SIZE,
        forall|i: int| 0 <= i < s.lines.len() ==> single_row(#[trigger] s.lines[i]@),
        single_row(a@),
    ensures
        step(step(s, Event::Line(a)).0, Event::Line(b)).1.plan[0] == Op::MoveUp(
            plan_rows(step(s, Event::Line(a)).1.plan),
        ),
{
    let t = step(s, Event::Line(a)).0;
    assert forall|i: int| 0 <= i < t.lines.len() implies single_row(#[trigger] t.lines[i]@) by {
        if s.lines.len() >= REMOTE_TERM_SIZE {
            if i < t.lines.len() - 1 {
                assert(t.lines[i] == s.lines[i + 1]);
            }
        } else {
            if i < t.lines.len() - 1 {
                assert(t.lines[i] == s.lines[i]);
            }
        }
    }
    lemma_remote_repaint_rows(s.lines.len(), t.lines);
    let later = pushed(t.lines, b);
    let head = seq![Op::MoveUp(t.lines.len() + 1)];
    let rest = rows(later, true) + remote_footer();
    assert(repaint(t.lines.len(), later, true) =~= head + rest);
}

} // verus!
