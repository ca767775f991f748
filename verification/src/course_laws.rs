//! How a run takes its course: what each line of output adds to the events, when the end of the
//! run is noticed, and how the run ends.

use vstd::prelude::*;

use crate::event::EventView;
use crate::laws::{
    concatenated, data_replies, law_any_pieces, law_flush_is_a_line, law_line_ends_do_not_matter,
    law_line_feed_decoded, law_no_byte_lost, law_run_reads_pieces,
};
use crate::line_laws::closing_report;
use crate::parser::{fed_raw, raw_has_room, ParserView, ResultView};
use crate::run::{action_of, ran, stepped, Action, Phase, ReplyView, RunView};
use crate::stream::{
    flushed, lemma_line_len_is, lemma_line_len_none, line_len, log_of,
    result_events, some_line_ends_run, streamed, Streamed,
};
use crate::text::{find, lemma_find_has, trimmed, CharClass};
use crate::text_laws::{law_found_first, law_strip_back};
use crate::unicode::{decoded, lowered};

verus! {

// ---------------------------------------------------------------------------
// Lines of output
// ---------------------------------------------------------------------------

/// A line is logged as it is, without its line end, unless there is nothing else to it.
pub proof fn law_log_of_a_line(text: Seq<char>, ends: Seq<char>)
    requires
        text.len() > 0 ==> text.last() != '\n' && text.last() != '\r',
        forall|i: int| 0 <= i < ends.len() ==> (#[trigger] ends[i] == '\n' || ends[i] == '\r'),
    ensures
        text.len() > 0 ==> log_of(text + ends) == seq![EventView::Log(text)],
        text.len() == 0 ==> log_of(text + ends) == Seq::<EventView>::empty(),
{
    assert forall|i: int| 0 <= i < ends.len() implies CharClass::LineEnd.has(#[trigger] ends[i]) by {}
    law_strip_back(text, ends, CharClass::LineEnd);
}

/// The first line of the output is logged and fed to the parser, and its results follow its log;
/// then come the events of the rest. A line for which a counter has no room is logged, and that is
/// the end of it.
pub proof fn law_first_line(p: ParserView, line: Seq<u8>, rest: Seq<u8>)
    requires
        forall|i: int| 0 <= i < line.len() ==> #[trigger] line[i] != 10,
    ensures
        ({
            let whole = streamed(p, line + seq![10u8] + rest);
            let text = decoded(line);
            let (next, results) = fed_raw(p, text);
            let others = streamed(next, rest);
            if raw_has_room(p, text) {
                &&& whole.parser == others.parser
                &&& whole.rest == others.rest
                &&& whole.overflowed == others.overflowed
                &&& whole.events == log_of(text) + results.map_values(
                    |r: ResultView| EventView::Result(r),
                ) + others.events
            } else {
                &&& whole.parser == p
                &&& whole.rest == rest
                &&& whole.overflowed
                &&& whole.events == log_of(text)
            }
        }),
{
    let n = line.len() as int + 1;
    let bytes = line + seq![10u8] + rest;
    let text = decoded(line);
    assert forall|i: int| 0 <= i < n - 1 implies #[trigger] bytes[i] != 10 by {
        assert(bytes[i] == line[i]);
    }
    lemma_line_len_is(bytes, n);
    assert(bytes.take(n) =~= line + seq![10u8]);
    assert(bytes.skip(n) =~= rest);
    law_line_feed_decoded(line);
    law_line_ends_do_not_matter(p, text, seq!['\n']);
    assert(result_events(fed_raw(p, text).1) =~= fed_raw(p, text).1.map_values(
        |r: ResultView| EventView::Result(r),
    ));
}

/// Output without a line feed waits, and does nothing.
pub proof fn law_no_line_yet(p: ParserView, bytes: Seq<u8>)
    requires
        forall|i: int| 0 <= i < bytes.len() ==> #[trigger] bytes[i] != 10,
    ensures
        streamed(p, bytes).parser == p,
        streamed(p, bytes).rest == bytes,
        streamed(p, bytes).events == Seq::<EventView>::empty(),
        !streamed(p, bytes).overflowed,
{
    lemma_line_len_none(bytes);
}

// ---------------------------------------------------------------------------
// The announcement of the end
// ---------------------------------------------------------------------------

/// Whether a line of the text goes from one place to another: from its beginning or behind a line
/// feed, up to a line feed or its end.
pub open spec fn is_line(text: Seq<char>, from: int, to: int) -> bool {
    &&& 0 <= from <= to <= text.len()
    &&& from == 0 || text[from - 1] == '\n'
    &&& to == text.len() || text[to] == '\n'
    &&& forall|k: int| from <= k < to ==> #[trigger] text[k] != '\n'
}

/// Whether what stands between two places says that the run is over.
pub open spec fn says_over(text: Seq<char>, from: int, to: int) -> bool {
    let lower = lowered(trimmed(text.subrange(from, to)));
    "test run successful"@.is_prefix_of(lower) || "test run failed"@.is_prefix_of(lower)
}

/// Error output announces the end exactly where some line of it does: in lower case and without
/// the white space around it, the line begins with `test run successful` or `test run failed`.
pub proof fn law_some_line_announces(text: Seq<char>)
    ensures
        some_line_ends_run(text) <==> (exists|from: int, to: int| #[trigger]
            is_line(text, from, to) && says_over(text, from, to)),
    decreases text.len(),
{
    let feed = "\n"@;
    reveal_strlit("\n");
    lemma_find_has(text, feed);
    match find(text, feed) {
        Some(n) => {
            let rest = text.skip(n + 1);
            law_found_first(text, feed, n);
            lemma_feed_at(text, n);
            assert(is_line(text, 0, n)) by {
                assert forall|k: int| 0 <= k < n implies #[trigger] text[k] != '\n' by {
                    lemma_no_feed_at(text, k);
                }
            }
            assert(text.subrange(0, n) =~= text.take(n));
            law_some_line_announces(rest);
            if some_line_ends_run(rest) {
                let (from, to) = choose|from: int, to: int| #[trigger]
                    is_line(rest, from, to) && says_over(rest, from, to);
                lemma_line_shifted(text, n, from, to);
            }
            if exists|from: int, to: int| #[trigger]
                is_line(text, from, to) && says_over(text, from, to) {
                let (from, to) = choose|from: int, to: int| #[trigger]
                    is_line(text, from, to) && says_over(text, from, to);
                if from == 0 {
                    assert(to == n) by {
                        if to < n {
                            assert(text[to] != '\n') by {
                                lemma_no_feed_at(text, to);
                            }
                        }
                        if to > n {
                            assert(text[n] != '\n');
                        }
                    }
                } else {
                    assert(from - 1 >= n) by {
                        if from - 1 < n {
                            lemma_no_feed_at(text, from - 1);
                        }
                    }
                    lemma_line_shifted(text, n, from - n - 1, to - n - 1);
                }
            }
        },
        None => {
            law_found_first(text, feed, 0);
            let end = text.len() as int;
            assert forall|k: int| 0 <= k < end implies #[trigger] text[k] != '\n' by {
                lemma_no_feed_at(text, k);
            }
            assert(is_line(text, 0, end));
            assert(text.subrange(0, end) =~= text);
        },
    }
}

/// Where the line feed is not found, there is none.
proof fn lemma_no_feed_at(text: Seq<char>, k: int)
    requires
        0 <= k < text.len(),
        !"\n"@.is_prefix_of(text.skip(k)),
    ensures
        text[k] != '\n',
{
    reveal_strlit("\n");
    if text[k] == '\n' {
        assert("\n"@ =~= text.skip(k).subrange(0, 1));
    }
}

proof fn lemma_feed_at(text: Seq<char>, n: int)
    requires
        0 <= n <= text.len(),
        "\n"@.is_prefix_of(text.skip(n)),
    ensures
        n < text.len(),
        text[n] == '\n',
{
    reveal_strlit("\n");
    assert("\n"@[0] == text.skip(n).subrange(0, 1)[0]);
}

/// A line behind the first line feed is the same line in the text and in what follows that feed.
proof fn lemma_line_shifted(text: Seq<char>, n: int, from: int, to: int)
    requires
        0 <= n < text.len(),
        text[n] == '\n',
    ensures
        0 <= from ==> is_line(text.skip(n + 1), from, to) == is_line(text, from + n + 1, to + n + 1),
        0 <= from <= to <= text.len() - n - 1 ==> says_over(text.skip(n + 1), from, to) == says_over(
            text,
            from + n + 1,
            to + n + 1,
        ),
{
    let rest = text.skip(n + 1);
    if 0 <= from <= to <= rest.len() {
        assert(rest.subrange(from, to) =~= text.subrange(from + n + 1, to + n + 1));
        if is_line(rest, from, to) {
            assert forall|k: int| from + n + 1 <= k < to + n + 1 implies #[trigger] text[k]
                != '\n' by {
                assert(rest[k - n - 1] == text[k]);
            }
        }
        if is_line(text, from + n + 1, to + n + 1) {
            assert forall|k: int| from <= k < to implies #[trigger] rest[k] != '\n' by {
                assert(rest[k] == text[k + n + 1]);
            }
        }
    }
}

/// A line that says that the run is over is heard wherever it stands in the error output, whatever
/// comes before and after it.
pub proof fn law_announcement_is_heard(before: Seq<char>, line: Seq<char>, after: Seq<char>)
    requires
        before.len() > 0 ==> before.last() == '\n',
        !line.contains('\n'),
        "test run successful"@.is_prefix_of(lowered(trimmed(line))) || "test run failed"@
            .is_prefix_of(lowered(trimmed(line))),
    ensures
        some_line_ends_run(before + line + seq!['\n'] + after),
        some_line_ends_run(before + line),
{
    let from = before.len() as int;
    let to = from + line.len();
    let long = before + line + seq!['\n'] + after;
    let short = before + line;
    assert forall|k: int| from <= k < to implies #[trigger] long[k] != '\n' by {
        assert(long[k] == line[k - from]);
        assert(line.contains(line[k - from]));
    }
    assert forall|k: int| from <= k < to implies #[trigger] short[k] != '\n' by {
        assert(short[k] == line[k - from]);
        assert(line.contains(line[k - from]));
    }
    if from > 0 {
        assert(long[from - 1] == before.last());
        assert(short[from - 1] == before.last());
    }
    assert(long[to] == '\n');
    assert(long.subrange(from, to) =~= line);
    assert(short.subrange(from, to) =~= line);
    assert(is_line(long, from, to));
    assert(is_line(short, from, to));
    law_some_line_announces(long);
    law_some_line_announces(short);
}

// ---------------------------------------------------------------------------
// Steps
// ---------------------------------------------------------------------------

/// What a run asks for in each phase. It waits longer while the tests run than after their end.
pub proof fn law_what_a_run_asks_for(round: u8)
    ensures
        action_of(Phase::Spawning) == Action::Spawn,
        action_of(Phase::Waiting) == Action::Wait(200),
        action_of(Phase::ReadingStderr) == Action::ReadStderr,
        action_of(Phase::ReadingStdout) == Action::ReadStdout,
        action_of(Phase::CheckingStatus) == Action::CheckStatus,
        action_of(Phase::DrainWaiting(round)) == Action::Wait(100),
        action_of(Phase::DrainReading(round)) == Action::ReadStdout,
        action_of(Phase::Done) == Action::Stop,
        action_of(Phase::Overflowed) == Action::Fail,
{
}

/// Whether a reply can be one to the action.
pub open spec fn answers(reply: ReplyView, action: Action) -> bool {
    match action {
        Action::Spawn => reply is Spawned || reply is SpawnFailed,
        Action::Wait(_) => reply is Waited,
        Action::ReadStderr => reply is Data || reply is Eof || reply is NoData,
        Action::ReadStdout => reply is Data || reply is Eof || reply is NoData,
        Action::CheckStatus => reply is Running || reply is Exited,
        Action::Stop => false,
        Action::Fail => false,
    }
}

/// What does not answer what the run asked for changes nothing and sends nothing.
pub proof fn law_only_answers_count(run: RunView, reply: ReplyView)
    requires
        !answers(reply, action_of(run.phase)),
    ensures
        stepped(run, reply) == (run, Seq::<EventView>::empty()),
{
}

/// A process that has started is waited for. One that has not is reported, and the run is over.
pub proof fn law_start_of_a_run(run: RunView)
    requires
        run.phase == Phase::Spawning,
    ensures
        stepped(run, ReplyView::Spawned) == (
            RunView { phase: Phase::Waiting, ..run },
            Seq::<EventView>::empty(),
        ),
        stepped(run, ReplyView::SpawnFailed) == (
            RunView { phase: Phase::Done, ..run },
            seq![EventView::SpawnFailed],
        ),
{
}

/// While the process runs, the run goes on waiting for it; once it has exited, what is left of the
/// output is read.
pub proof fn law_status_of_the_process(run: RunView)
    requires
        run.phase == Phase::CheckingStatus,
    ensures
        stepped(run, ReplyView::Running) == (
            RunView { phase: Phase::Waiting, ..run },
            Seq::<EventView>::empty(),
        ),
        stepped(run, ReplyView::Exited) == (
            RunView { phase: Phase::DrainWaiting(0), ..run },
            Seq::<EventView>::empty(),
        ),
{
}

/// To be told of two lists of replies one after the other is to be told of both.
proof fn lemma_ran_both(run: RunView, a: Seq<ReplyView>, b: Seq<ReplyView>)
    ensures
        ({
            let (middle, events) = ran(run, a);
            let (after, more) = ran(middle, b);
            ran(run, a + b) == (after, events + more)
        }),
    decreases b.len(),
{
    let (middle, events) = ran(run, a);
    if b.len() == 0 {
        assert(a + b =~= a);
        assert(events + ran(middle, b).1 =~= events);
    } else {
        lemma_ran_both(run, a, b.drop_last());
        assert((a + b).drop_last() =~= a + b.drop_last());
        let (before, more) = ran(middle, b.drop_last());
        let last = stepped(before, b.last()).1;
        assert((events + more) + last =~= events + (more + last));
    }
}

proof fn lemma_ran_one(run: RunView, reply: ReplyView)
    ensures
        ran(run, seq![reply]) == stepped(run, reply),
{
    let one = seq![reply];
    assert(one.drop_last() =~= Seq::<ReplyView>::empty());
    assert(ran(run, one.drop_last()) == (run, Seq::<EventView>::empty()));
    assert(Seq::<EventView>::empty() + stepped(run, reply).1 =~= stepped(run, reply).1);
}

/// Error output sends nothing. It only completes the run, where a line of some piece of it
/// announces the end.
pub proof fn law_error_output(run: RunView, pieces: Seq<Seq<u8>>)
    requires
        run.phase == Phase::ReadingStderr,
    ensures
        ({
            let (after, events) = ran(run, data_replies(pieces));
            &&& events == Seq::<EventView>::empty()
            &&& after.phase == run.phase
            &&& after.stdout_buf == run.stdout_buf
            &&& after.parser == (ParserView { run_complete: after.parser.run_complete, ..run.parser })
            &&& after.parser.run_complete <==> (run.parser.run_complete || exists|i: int|
                0 <= i < pieces.len() && some_line_ends_run(decoded(#[trigger] pieces[i])))
        }),
    decreases pieces.len(),
{
    let replies = data_replies(pieces);
    if pieces.len() > 0 {
        let shorter = pieces.drop_last();
        law_error_output(run, shorter);
        assert(replies.drop_last() =~= data_replies(shorter));
        assert(replies.last() == ReplyView::Data(pieces.last()));
        let before = ran(run, data_replies(shorter)).0;
        assert(Seq::<EventView>::empty() + Seq::<EventView>::empty() =~= Seq::<EventView>::empty());
        if exists|i: int| 0 <= i < shorter.len() && some_line_ends_run(
            decoded(#[trigger] shorter[i]),
        ) {
            let i = choose|i: int|
                0 <= i < shorter.len() && some_line_ends_run(decoded(#[trigger] shorter[i]));
            assert(pieces[i] == shorter[i]);
        }
        if some_line_ends_run(decoded(pieces.last())) {
            assert(some_line_ends_run(decoded(pieces[pieces.len() - 1])));
        }
        if exists|i: int| 0 <= i < pieces.len() && some_line_ends_run(decoded(#[trigger] pieces[i])) {
            let i = choose|i: int|
                0 <= i < pieces.len() && some_line_ends_run(decoded(#[trigger] pieces[i]));
            if i < shorter.len() {
                assert(shorter[i] == pieces[i]);
            }
        }
    }
}

/// What a run is told in one turn of its reading loop: that it has waited, then all of the error
/// output that there is, then all of the output.
pub open spec fn turn(
    errors: Seq<Seq<u8>>,
    errors_end: ReplyView,
    output: Seq<Seq<u8>>,
    output_end: ReplyView,
) -> Seq<ReplyView> {
    seq![ReplyView::Waited] + data_replies(errors) + seq![errors_end] + data_replies(output)
        + seq![output_end]
}

/// One turn of the reading loop: the events are those of the output alone. The run leaves the loop
/// if the output has ended or the end of the run has been announced, on either pipe; else it asks
/// for the process.
#[verifier::rlimit(40)]
pub proof fn law_turn_of_the_loop(
    run: RunView,
    errors: Seq<Seq<u8>>,
    errors_end: ReplyView,
    output: Seq<Seq<u8>>,
    output_end: ReplyView,
)
    requires
        run.phase == Phase::Waiting,
        line_len(run.stdout_buf) is None,
        errors_end is Eof || errors_end is NoData,
        output_end is Eof || output_end is NoData,
    ensures
        ({
            let (after, events) = ran(run, turn(errors, errors_end, output, output_end));
            let heard = run.parser.run_complete || exists|i: int|
                0 <= i < errors.len() && some_line_ends_run(decoded(#[trigger] errors[i]));
            let s = streamed(
                ParserView { run_complete: heard, ..run.parser },
                run.stdout_buf + concatenated(output),
            );
            &&& events == s.events
            &&& s.overflowed ==> after.phase == Phase::Overflowed
            &&& !s.overflowed ==> {
                &&& after.parser == s.parser
                &&& after.stdout_buf == s.rest
                &&& after.phase == (if output_end is Eof || s.parser.run_complete {
                    Phase::DrainWaiting(0)
                } else {
                    Phase::CheckingStatus
                })
            }
        }),
{
    let a = seq![ReplyView::Waited];
    let b = data_replies(errors);
    let c = seq![errors_end];
    let d = data_replies(output);
    let e = seq![output_end];
    let none = Seq::<EventView>::empty();
    assert(none + none =~= none);
    lemma_ran_one(run, ReplyView::Waited);
    let run1 = ran(run, a).0;
    lemma_ran_both(run, a, b);
    law_error_output(run1, errors);
    let run2 = ran(run1, b).0;
    lemma_ran_both(run, a + b, c);
    lemma_ran_one(run2, errors_end);
    let run3 = ran(run2, c).0;
    lemma_ran_both(run, a + b + c, d);
    law_run_reads_pieces(run3, output);
    law_any_pieces(run3.parser, run3.stdout_buf, output);
    let (run4, events) = ran(run3, d);
    assert(none + events =~= events);
    lemma_ran_both(run, a + b + c + d, e);
    lemma_ran_one(run4, output_end);
    assert(events + none =~= events);
    let heard = run.parser.run_complete || exists|i: int|
        0 <= i < errors.len() && some_line_ends_run(decoded(#[trigger] errors[i]));
    assert(run3.parser == (ParserView { run_complete: heard, ..run.parser }));
}

/// What a run is told in one round after the end of the loop: that it has waited, then all of the
/// output that there is.
pub open spec fn drain_round(output: Seq<Seq<u8>>, end: ReplyView) -> Seq<ReplyView> {
    seq![ReplyView::Waited] + data_replies(output) + seq![end]
}

/// What is left of the output, taken as a line.
pub open spec fn taken_as_a_line(p: ParserView, bytes: Seq<u8>) -> Streamed {
    if bytes.len() > 0 {
        streamed(p, bytes + seq![10u8])
    } else {
        Streamed { parser: p, rest: bytes, events: seq![], overflowed: false }
    }
}

/// Five times the output is read after the end of the loop. When the fifth time brings no more,
/// what is left of it is taken as a line, then the failure that is still pending is reported, and
/// last come the counters. Before that, the run waits and reads again.
#[verifier::rlimit(40)]
pub proof fn law_end_of_a_run(run: RunView, round: u8, end: ReplyView)
    requires
        run.phase == Phase::DrainReading(round),
        line_len(run.stdout_buf) is None,
        end is Eof || end is NoData,
    ensures
        round < 4 ==> stepped(run, end) == (
            RunView { phase: Phase::DrainWaiting((round + 1) as u8), ..run },
            Seq::<EventView>::empty(),
        ),
        round >= 4 ==> ({
            let (after, events) = stepped(run, end);
            let last = taken_as_a_line(run.parser, run.stdout_buf);
            if last.overflowed {
                &&& events == last.events
                &&& after.phase == Phase::Overflowed
            } else {
                &&& events == last.events + closing_report(last.parser).map_values(
                    |r: ResultView| EventView::Result(r),
                ) + seq![
                    EventView::Completed {
                        passed: last.parser.passed,
                        failed: last.parser.failed,
                        skipped: last.parser.skipped,
                    },
                ]
                &&& after.phase == Phase::Done
                &&& after.stdout_buf.len() == 0
                &&& after.parser == (ParserView { current_failure: None, ..last.parser })
            }
        }),
{
    if round >= 4 {
        law_flush_is_a_line(run.parser, run.stdout_buf);
        let last = flushed(run.parser, run.stdout_buf);
        assert(last.overflowed == taken_as_a_line(run.parser, run.stdout_buf).overflowed);
        assert(last == taken_as_a_line(run.parser, run.stdout_buf));
        let closing = closing_report(last.parser);
        assert(result_events(closing) =~= closing.map_values(
            |r: ResultView| EventView::Result(r),
        ));
    }
}

/// A round after the end of the loop sends the events of its output, before those of its end.
#[verifier::rlimit(40)]
pub proof fn law_round_after_the_loop(
    run: RunView,
    round: u8,
    output: Seq<Seq<u8>>,
    end: ReplyView,
)
    requires
        run.phase == Phase::DrainWaiting(round),
        line_len(run.stdout_buf) is None,
        !streamed(run.parser, run.stdout_buf + concatenated(output)).overflowed,
    ensures
        ({
            let s = streamed(run.parser, run.stdout_buf + concatenated(output));
            let read = RunView {
                phase: Phase::DrainReading(round),
                stdout_buf: s.rest,
                parser: s.parser,
            };
            let (after, more) = stepped(read, end);
            &&& line_len(s.rest) is None
            &&& ran(run, drain_round(output, end)) == (after, s.events + more)
        }),
{
    let a = seq![ReplyView::Waited];
    let b = data_replies(output);
    let c = seq![end];
    let none = Seq::<EventView>::empty();
    lemma_ran_one(run, ReplyView::Waited);
    let run1 = ran(run, a).0;
    assert(run1 == (RunView { phase: Phase::DrainReading(round), ..run }));
    lemma_ran_both(run, a, b);
    law_run_reads_pieces(run1, output);
    law_any_pieces(run1.parser, run1.stdout_buf, output);
    let (run2, events) = ran(run1, b);
    assert(none + events =~= events);
    lemma_ran_both(run, a + b, c);
    lemma_ran_one(run2, end);
    law_no_byte_lost(run.parser, run.stdout_buf + concatenated(output));
}

} // verus!
