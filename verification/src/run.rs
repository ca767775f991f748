//! One run of `dotnet test`, as a machine that is told what the process did and says what to do
//! next.
//!
//! A run reads both pipes of the process until one of three things happens: the output ends,
//! the end of the run is announced, or the process has exited. The second is the usual one:
//! build workers hold the pipe open long after the summary has been printed, and the process
//! waits for them. Then the output is read for a little while longer, for what came with the
//! summary.

use vstd::prelude::*;

use crate::event::{events_view, EventView, HostEvent};
use crate::parser::{failure_result, DotnetTestParser, ParserView};
use crate::stream::{
    append_results, flush_partial, flushed, process_lines, result_events, some_line_ends_run,
    stderr_ends_run, streamed,
};
use crate::unicode::decoded;

verus! {

/// How long to wait for data while the tests run, in milliseconds.
pub const WAIT_MS: u32 = 200;

/// How long to wait for data after the end, in milliseconds.
pub const DRAIN_WAIT_MS: u32 = 100;

/// How often to wait for data after the end.
pub const DRAIN_ROUNDS: u8 = 5;

/// Where a run stands.
#[derive(Clone, Copy, Debug, PartialEq, Eq, Structural)]
pub enum Phase {
    Spawning,
    Waiting,
    ReadingStderr,
    ReadingStdout,
    CheckingStatus,
    /// Waiting after the end, for the given time.
    DrainWaiting(u8),
    /// Reading after the end, for the given time.
    DrainReading(u8),
    /// The run is over.
    Done,
    /// A counter was at its limit when it had to be raised. The run goes no further.
    Overflowed,
}

/// What the run needs next.
#[derive(Clone, Copy, Debug, PartialEq, Eq, Structural)]
pub enum Action {
    /// Start the process.
    Spawn,
    /// Wait for data, at most so many milliseconds.
    Wait(u32),
    /// Read the error output.
    ReadStderr,
    /// Read the output.
    ReadStdout,
    /// Ask whether the process still runs.
    CheckStatus,
    /// Nothing: the run is over.
    Stop,
    /// Nothing: a counter has overflowed.
    Fail,
}

/// What the process did.
#[derive(Debug)]
pub enum Reply {
    Spawned,
    SpawnFailed,
    Waited,
    /// These bytes were read.
    Data(Vec<u8>),
    /// The pipe is closed.
    Eof,
    /// Nothing could be read.
    NoData,
    Running,
    Exited,
}

/// The contents of a `Reply`.
#[verifier::ext_equal]
pub enum ReplyView {
    Spawned,
    SpawnFailed,
    Waited,
    Data(Seq<u8>),
    Eof,
    NoData,
    Running,
    Exited,
}

impl View for Reply {
    type V = ReplyView;

    open spec fn view(&self) -> ReplyView {
        match *self {
            Reply::Spawned => ReplyView::Spawned,
            Reply::SpawnFailed => ReplyView::SpawnFailed,
            Reply::Waited => ReplyView::Waited,
            Reply::Data(data) => ReplyView::Data(data@),
            Reply::Eof => ReplyView::Eof,
            Reply::NoData => ReplyView::NoData,
            Reply::Running => ReplyView::Running,
            Reply::Exited => ReplyView::Exited,
        }
    }
}

/// A run.
#[derive(Debug)]
pub struct TestRun {
    pub phase: Phase,
    /// Output that waits for the rest of its line.
    pub stdout_buf: Vec<u8>,
    pub parser: DotnetTestParser,
}

/// The contents of a `TestRun`.
#[verifier::ext_equal]
pub struct RunView {
    pub phase: Phase,
    pub stdout_buf: Seq<u8>,
    pub parser: ParserView,
}

impl View for TestRun {
    type V = RunView;

    open spec fn view(&self) -> RunView {
        RunView { phase: self.phase, stdout_buf: self.stdout_buf@, parser: self.parser@ }
    }
}

impl RunView {
    /// A run that has not begun.
    pub open spec fn initial() -> RunView {
        RunView {
            phase: Phase::Spawning,
            stdout_buf: seq![],
            parser: ParserView::initial(),
        }
    }

    pub open spec fn at(self, phase: Phase) -> RunView {
        RunView { phase, ..self }
    }
}

/// What a run needs in each phase.
pub open spec fn action_of(phase: Phase) -> Action {
    match phase {
        Phase::Spawning => Action::Spawn,
        Phase::Waiting => Action::Wait(WAIT_MS),
        Phase::ReadingStderr => Action::ReadStderr,
        Phase::ReadingStdout => Action::ReadStdout,
        Phase::CheckingStatus => Action::CheckStatus,
        Phase::DrainWaiting(_) => Action::Wait(DRAIN_WAIT_MS),
        Phase::DrainReading(_) => Action::ReadStdout,
        Phase::Done => Action::Stop,
        Phase::Overflowed => Action::Fail,
    }
}

/// What output does to a run: its complete lines are processed.
pub open spec fn after_output(run: RunView, data: Seq<u8>) -> (RunView, Seq<EventView>) {
    let s = streamed(run.parser, run.stdout_buf + data);
    (
        RunView {
            phase: if s.overflowed {
                Phase::Overflowed
            } else {
                run.phase
            },
            stdout_buf: s.rest,
            parser: s.parser,
        },
        s.events,
    )
}

/// What error output does to a run: it may announce the end.
pub open spec fn after_error_output(run: RunView, data: Seq<u8>) -> RunView {
    if some_line_ends_run(decoded(data)) {
        RunView { parser: run.parser.completed(), ..run }
    } else {
        run
    }
}

/// The last events of a run: the last line, the last failure, and the end.
pub open spec fn finished(run: RunView) -> (RunView, Seq<EventView>) {
    let s = flushed(run.parser, run.stdout_buf);
    if s.overflowed {
        (
            RunView { phase: Phase::Overflowed, stdout_buf: s.rest, parser: s.parser },
            s.events,
        )
    } else {
        let last = match s.parser.current_failure {
            Some(failure) => seq![failure_result(failure)],
            None => seq![],
        };
        let end = EventView::Completed {
            passed: s.parser.passed,
            failed: s.parser.failed,
            skipped: s.parser.skipped,
        };
        (
            RunView { phase: Phase::Done, stdout_buf: s.rest, parser: s.parser.pending(None) },
            s.events + result_events(last) + seq![end],
        )
    }
}

/// The round after the given one, or the end.
pub open spec fn next_round(run: RunView, round: u8) -> (RunView, Seq<EventView>) {
    if round + 1 < DRAIN_ROUNDS {
        (run.at(Phase::DrainWaiting((round + 1) as u8)), seq![])
    } else {
        finished(run)
    }
}

/// A run after it has been told what the process did, and the events for the host. What does
/// not answer what the run asked for changes nothing.
pub open spec fn stepped(run: RunView, reply: ReplyView) -> (RunView, Seq<EventView>) {
    match (run.phase, reply) {
        (Phase::Spawning, ReplyView::Spawned) => (run.at(Phase::Waiting), seq![]),
        (Phase::Spawning, ReplyView::SpawnFailed) => (
            run.at(Phase::Done),
            seq![EventView::SpawnFailed],
        ),
        (Phase::Waiting, ReplyView::Waited) => (run.at(Phase::ReadingStderr), seq![]),
        (Phase::ReadingStderr, ReplyView::Data(data)) => (after_error_output(run, data), seq![]),
        (Phase::ReadingStderr, ReplyView::Eof) => (run.at(Phase::ReadingStdout), seq![]),
        (Phase::ReadingStderr, ReplyView::NoData) => (run.at(Phase::ReadingStdout), seq![]),
        (Phase::ReadingStdout, ReplyView::Data(data)) => after_output(run, data),
        (Phase::ReadingStdout, ReplyView::Eof) => (run.at(Phase::DrainWaiting(0)), seq![]),
        (Phase::ReadingStdout, ReplyView::NoData) => if run.parser.run_complete {
            (run.at(Phase::DrainWaiting(0)), seq![])
        } else {
            (run.at(Phase::CheckingStatus), seq![])
        },
        (Phase::CheckingStatus, ReplyView::Running) => (run.at(Phase::Waiting), seq![]),
        (Phase::CheckingStatus, ReplyView::Exited) => (run.at(Phase::DrainWaiting(0)), seq![]),
        (Phase::DrainWaiting(round), ReplyView::Waited) => (
            run.at(Phase::DrainReading(round)),
            seq![],
        ),
        (Phase::DrainReading(_), ReplyView::Data(data)) => after_output(run, data),
        (Phase::DrainReading(round), ReplyView::Eof) => next_round(run, round),
        (Phase::DrainReading(round), ReplyView::NoData) => next_round(run, round),
        _ => (run, seq![]),
    }
}

/// A run that has been told all of this, one after the other, and the events in their order.
pub open spec fn ran(run: RunView, replies: Seq<ReplyView>) -> (RunView, Seq<EventView>)
    decreases replies.len(),
{
    if replies.len() == 0 {
        (run, seq![])
    } else {
        let (before, events) = ran(run, replies.drop_last());
        let (after, more) = stepped(before, replies.last());
        (after, events + more)
    }
}

impl TestRun {
    /// A run that has not begun, and the event that announces it.
    pub fn start(project_path: &str) -> (r: (TestRun, HostEvent))
        ensures
            r.0@ == RunView::initial(),
            r.1@ == EventView::Started(project_path@),
    {
        let run = TestRun {
            phase: Phase::Spawning,
            stdout_buf: Vec::new(),
            parser: DotnetTestParser::new(),
        };
        assert(run@ =~= RunView::initial());
        (run, HostEvent::Started(project_path.to_string()))
    }

    /// What the run needs next.
    pub fn action(&self) -> (action: Action)
        ensures
            action == action_of(self@.phase),
    {
        match self.phase {
            Phase::Spawning => Action::Spawn,
            Phase::Waiting => Action::Wait(WAIT_MS),
            Phase::ReadingStderr => Action::ReadStderr,
            Phase::ReadingStdout => Action::ReadStdout,
            Phase::CheckingStatus => Action::CheckStatus,
            Phase::DrainWaiting(_) => Action::Wait(DRAIN_WAIT_MS),
            Phase::DrainReading(_) => Action::ReadStdout,
            Phase::Done => Action::Stop,
            Phase::Overflowed => Action::Fail,
        }
    }

    fn take_output(&mut self, data: Vec<u8>) -> (events: Vec<HostEvent>)
        ensures
            (final(self)@, events_view(events@)) == after_output(old(self)@, data@),
    {
        let mut data = data;
        self.stdout_buf.append(&mut data);
        let batch = process_lines(&mut self.stdout_buf, &mut self.parser);
        if batch.overflowed {
            self.phase = Phase::Overflowed;
        }
        batch.events
    }

    fn finish(&mut self) -> (events: Vec<HostEvent>)
        ensures
            (final(self)@, events_view(events@)) == finished(old(self)@),
    {
        let batch = flush_partial(&mut self.stdout_buf, &mut self.parser);
        let mut events = batch.events;
        if batch.overflowed {
            self.phase = Phase::Overflowed;
            return events;
        }
        append_results(&mut events, self.parser.flush_pending());
        let ghost before = events_view(events@);
        let end = HostEvent::Completed {
            passed: self.parser.passed,
            failed: self.parser.failed,
            skipped: self.parser.skipped,
        };
        events.push(end);
        assert(events_view(events@) =~= before + seq![end@]);
        self.phase = Phase::Done;
        events
    }

    fn end_round(&mut self, round: u8) -> (events: Vec<HostEvent>)
        ensures
            (final(self)@, events_view(events@)) == next_round(old(self)@, round),
    {
        if round < DRAIN_ROUNDS - 1 {
            self.phase = Phase::DrainWaiting(round + 1);
            no_events()
        } else {
            self.finish()
        }
    }

    /// Tells the run what the process did; returns the events for the host.
    pub fn step(&mut self, reply: Reply) -> (events: Vec<HostEvent>)
        ensures
            (final(self)@, events_view(events@)) == stepped(old(self)@, reply@),
    {
        match (self.phase, reply) {
            (Phase::Spawning, Reply::Spawned) => {
                self.phase = Phase::Waiting;
            },
            (Phase::Spawning, Reply::SpawnFailed) => {
                self.phase = Phase::Done;
                let mut events: Vec<HostEvent> = Vec::new();
                events.push(HostEvent::SpawnFailed);
                assert(events_view(events@) =~= seq![EventView::SpawnFailed]);
                return events;
            },
            (Phase::Waiting, Reply::Waited) => {
                self.phase = Phase::ReadingStderr;
            },
            (Phase::ReadingStderr, Reply::Data(data)) => {
                if stderr_ends_run(data.as_slice()) {
                    self.parser.run_complete = true;
                }
            },
            (Phase::ReadingStderr, Reply::Eof) | (Phase::ReadingStderr, Reply::NoData) => {
                self.phase = Phase::ReadingStdout;
            },
            (Phase::ReadingStdout, Reply::Data(data)) => {
                return self.take_output(data);
            },
            (Phase::ReadingStdout, Reply::Eof) => {
                self.phase = Phase::DrainWaiting(0);
            },
            (Phase::ReadingStdout, Reply::NoData) => {
                self.phase = if self.parser.run_complete {
                    Phase::DrainWaiting(0)
                } else {
                    Phase::CheckingStatus
                };
            },
            (Phase::CheckingStatus, Reply::Running) => {
                self.phase = Phase::Waiting;
            },
            (Phase::CheckingStatus, Reply::Exited) => {
                self.phase = Phase::DrainWaiting(0);
            },
            (Phase::DrainWaiting(round), Reply::Waited) => {
                self.phase = Phase::DrainReading(round);
            },
            (Phase::DrainReading(_), Reply::Data(data)) => {
                return self.take_output(data);
            },
            (Phase::DrainReading(round), Reply::Eof) | (
                Phase::DrainReading(round),
                Reply::NoData,
            ) => {
                return self.end_round(round);
            },
            _ => {},
        }
        no_events()
    }
}

fn no_events() -> (events: Vec<HostEvent>)
    ensures
        events_view(events@) == Seq::<EventView>::empty(),
{
    let events: Vec<HostEvent> = Vec::new();
    assert(events_view(events@) =~= Seq::<EventView>::empty());
    events
}

} // verus!
