//! What holds between the output of a process and the events of the run that reads it.

use vstd::prelude::*;

use crate::event::EventView;
use crate::laws::{
    all_line_ids, complete_lines, concatenated, cut_into_lines, fed_all, ids, is_log,
    law_every_line_logged, law_every_test_reported_once, law_no_byte_lost, lemma_filter_none,
    lemma_line_len_of_both, lemma_logs_of_line, logs, pending_ids, unfinished,
};
use crate::parser::{failure_result, fed_raw, ParserView, ResultView};
use crate::run::{ran, stepped, Phase, ReplyView, RunView, DRAIN_ROUNDS};
use crate::stream::{
    flushed, lemma_line_len_has, line_len, line_taken, log_of, result_events, streamed,
};
use crate::unicode::decoded;

verus! {

/// The results among the events.
pub open spec fn results_in(events: Seq<EventView>) -> Seq<ResultView>
    decreases events.len(),
{
    if events.len() == 0 {
        seq![]
    } else {
        match events.last() {
            EventView::Result(result) => results_in(events.drop_last()).push(result),
            _ => results_in(events.drop_last()),
        }
    }
}

/// The text of each line.
pub open spec fn decoded_lines(lines: Seq<Seq<u8>>) -> Seq<Seq<char>> {
    lines.map_values(|line: Seq<u8>| decoded(line))
}

proof fn lemma_results_in_both(a: Seq<EventView>, b: Seq<EventView>)
    ensures
        results_in(a + b) == results_in(a) + results_in(b),
    decreases b.len(),
{
    if b.len() == 0 {
        assert(a + b =~= a);
        assert(results_in(a) + results_in(b) =~= results_in(a));
    } else {
        lemma_results_in_both(a, b.drop_last());
        assert((a + b).drop_last() =~= a + b.drop_last());
        assert(results_in(a + b) =~= results_in(a) + results_in(b));
    }
}

proof fn lemma_results_in_results(results: Seq<ResultView>)
    ensures
        results_in(result_events(results)) == results,
    decreases results.len(),
{
    let events = result_events(results);
    if results.len() > 0 {
        lemma_results_in_results(results.drop_last());
        assert(events.drop_last() =~= result_events(results.drop_last()));
        assert(results.drop_last().push(results.last()) =~= results);
    } else {
        assert(results_in(events) =~= results);
    }
}

proof fn lemma_results_in_log(line: Seq<char>)
    ensures
        results_in(log_of(line)) == Seq::<ResultView>::empty(),
{
    reveal_with_fuel(results_in, 2);
    if log_of(line).len() > 0 {
        assert(log_of(line).drop_last() =~= Seq::<EventView>::empty());
    }
}

proof fn lemma_results_in_other(event: EventView)
    requires
        !(event is Result),
    ensures
        results_in(seq![event]) == Seq::<ResultView>::empty(),
{
    let one = seq![event];
    assert(one.drop_last() =~= Seq::<EventView>::empty());
    assert(results_in(one.drop_last()) =~= Seq::<ResultView>::empty());
}

proof fn lemma_fed_all_first(p: ParserView, first: Seq<char>, others: Seq<Seq<char>>)
    ensures
        ({
            let (next, results) = fed_raw(p, first);
            let (after, more) = fed_all(next, others);
            fed_all(p, seq![first] + others) == (after, results + more)
        }),
    decreases others.len(),
{
    let all = seq![first] + others;
    let (next, results) = fed_raw(p, first);
    if others.len() == 0 {
        assert(all.drop_last() =~= Seq::<Seq<char>>::empty());
        assert(all.last() == first);
        assert(fed_all(p, all.drop_last()) == (p, Seq::<ResultView>::empty()));
        assert(Seq::<ResultView>::empty() + results =~= results + fed_all(next, others).1);
    } else {
        lemma_fed_all_first(p, first, others.drop_last());
        assert(all.drop_last() =~= seq![first] + others.drop_last());
        assert(all.last() == others.last());
        let (before, more) = fed_all(next, others.drop_last());
        let (after, last) = fed_raw(before, others.last());
        assert((results + more) + last =~= results + (more + last));
    }
}

/// The bytes do what their lines do, fed to the parser one after the other.
pub proof fn law_lines_are_fed(p: ParserView, bytes: Seq<u8>)
    requires
        !streamed(p, bytes).overflowed,
    ensures
        fed_all(p, decoded_lines(complete_lines(bytes))) == (
            streamed(p, bytes).parser,
            results_in(streamed(p, bytes).events),
        ),
    decreases bytes.len(),
{
    lemma_line_len_has(bytes);
    match line_len(bytes) {
        Some(n) => {
            let line = decoded(bytes.take(n));
            let first = line_taken(p, line, bytes.skip(n));
            let others = decoded_lines(complete_lines(bytes.skip(n)));
            law_lines_are_fed(first.parser, bytes.skip(n));
            lemma_fed_all_first(p, line, others);
            assert(decoded_lines(complete_lines(bytes)) =~= seq![line] + others);
            lemma_line_results(p, line, bytes.skip(n));
            lemma_results_in_both(first.events, streamed(first.parser, bytes.skip(n)).events);
        },
        None => {
            assert(decoded_lines(complete_lines(bytes)) =~= seq![]);
            assert(results_in(streamed(p, bytes).events) =~= seq![]);
        },
    }
}

proof fn lemma_line_results(p: ParserView, line: Seq<char>, rest: Seq<u8>)
    requires
        !line_taken(p, line, rest).overflowed,
    ensures
        (line_taken(p, line, rest).parser, results_in(line_taken(p, line, rest).events)) == fed_raw(
            p,
            line,
        ),
{
    let results = fed_raw(p, line).1;
    lemma_results_in_both(log_of(line), result_events(results));
    lemma_results_in_log(line);
    lemma_results_in_results(results);
    assert(Seq::<ResultView>::empty() + results =~= results);
}

// ---------------------------------------------------------------------------
// Runs
// ---------------------------------------------------------------------------

/// Whether the run reads output.
pub open spec fn reads_output(phase: Phase) -> bool {
    phase is ReadingStdout || phase is DrainReading
}

/// The output that a run reads in a step.
pub open spec fn step_output(run: RunView, reply: ReplyView) -> Seq<u8> {
    match reply {
        ReplyView::Data(data) => if reads_output(run.phase) {
            data
        } else {
            seq![]
        },
        _ => seq![],
    }
}

/// Whether the run takes what is left of the output as its last line in this step.
pub open spec fn takes_tail(run: RunView, reply: ReplyView) -> bool {
    &&& run.phase matches Phase::DrainReading(round) && round + 1 >= DRAIN_ROUNDS
    &&& reply is Eof || reply is NoData
}

/// The lines that a run takes in a step.
pub open spec fn step_lines(run: RunView, reply: ReplyView) -> Seq<Seq<u8>> {
    if takes_tail(run, reply) {
        if run.stdout_buf.len() > 0 {
            seq![run.stdout_buf]
        } else {
            seq![]
        }
    } else {
        match reply {
            ReplyView::Data(data) => if reads_output(run.phase) {
                complete_lines(run.stdout_buf + data)
            } else {
                seq![]
            },
            _ => seq![],
        }
    }
}

/// The output that a run reads.
pub open spec fn run_output(run: RunView, replies: Seq<ReplyView>) -> Seq<u8>
    decreases replies.len(),
{
    if replies.len() == 0 {
        seq![]
    } else {
        let before = replies.drop_last();
        run_output(run, before) + step_output(ran(run, before).0, replies.last())
    }
}

/// The lines that a run takes.
pub open spec fn run_lines(run: RunView, replies: Seq<ReplyView>) -> Seq<Seq<u8>>
    decreases replies.len(),
{
    if replies.len() == 0 {
        seq![]
    } else {
        let before = replies.drop_last();
        run_lines(run, before) + step_lines(ran(run, before).0, replies.last())
    }
}

proof fn lemma_concatenated_both(a: Seq<Seq<u8>>, b: Seq<Seq<u8>>)
    ensures
        concatenated(a + b) == concatenated(a) + concatenated(b),
    decreases b.len(),
{
    if b.len() == 0 {
        assert(a + b =~= a);
        assert(concatenated(a) + concatenated(b) =~= concatenated(a));
    } else {
        lemma_concatenated_both(a, b.drop_last());
        assert((a + b).drop_last() =~= a + b.drop_last());
        assert(concatenated(a + b) =~= concatenated(a) + concatenated(b));
    }
}

/// The tests of some lines and those of the lines after them.
pub proof fn lemma_line_ids_both(a: Seq<Seq<char>>, b: Seq<Seq<char>>)
    ensures
        all_line_ids(a + b) == all_line_ids(a) + all_line_ids(b),
    decreases b.len(),
{
    if b.len() == 0 {
        assert(a + b =~= a);
        assert(all_line_ids(a) + all_line_ids(b) =~= all_line_ids(a));
    } else {
        lemma_line_ids_both(a, b.drop_last());
        assert((a + b).drop_last() =~= a + b.drop_last());
        assert(all_line_ids(a + b) =~= all_line_ids(a) + all_line_ids(b));
    }
}

proof fn lemma_fed_one(p: ParserView, line: Seq<char>)
    ensures
        fed_all(p, seq![line]) == fed_raw(p, line),
{
    let none = Seq::<Seq<char>>::empty();
    lemma_fed_all_first(p, line, none);
    assert(seq![line] + none =~= seq![line]);
    assert(fed_raw(p, line).1 + Seq::<ResultView>::empty() =~= fed_raw(p, line).1);
}

/// What a step reads, and what it reports.
#[verifier::rlimit(50)]
proof fn lemma_step_output(run: RunView, reply: ReplyView)
    requires
        stepped(run, reply).0.phase != Phase::Overflowed,
        run.phase != Phase::Overflowed,
    ensures
        concatenated(step_lines(run, reply)) + stepped(run, reply).0.stdout_buf == run.stdout_buf
            + step_output(run, reply),
        ids(results_in(stepped(run, reply).1)) + pending_ids(stepped(run, reply).0.parser)
            == pending_ids(run.parser) + all_line_ids(decoded_lines(step_lines(run, reply))),
{
    let (after, events) = stepped(run, reply);
    let lines = step_lines(run, reply);
    if takes_tail(run, reply) {
        let s = flushed(run.parser, run.stdout_buf);
        let line = decoded(run.stdout_buf);
        let last = match s.parser.current_failure {
            Some(failure) => seq![failure_result(failure)],
            None => seq![],
        };
        let end = seq![events.last()];
        assert(events =~= s.events + result_events(last) + end);
        lemma_results_in_both(s.events + result_events(last), end);
        lemma_results_in_both(s.events, result_events(last));
        lemma_results_in_results(last);
        lemma_results_in_other(events.last());
        let reported = results_in(s.events);
        assert(results_in(events) =~= reported + last);
        assert(ids(reported + last) =~= ids(reported) + ids(last));
        assert(ids(last) =~= pending_ids(s.parser));
        assert(ids(results_in(events)) + pending_ids(after.parser) =~= ids(reported)
            + pending_ids(s.parser));
        let texts = decoded_lines(lines);
        law_every_test_reported_once(run.parser, texts);
        if run.stdout_buf.len() > 0 {
            assert(texts =~= seq![line]);
            lemma_fed_one(run.parser, line);
            lemma_line_results(run.parser, line, seq![]);
            assert(lines.drop_last() =~= Seq::<Seq<u8>>::empty());
            assert(concatenated(lines.drop_last()) =~= Seq::<u8>::empty());
            assert(concatenated(lines) =~= run.stdout_buf);
        } else {
            assert(texts =~= Seq::<Seq<char>>::empty());
            assert(reported =~= Seq::<ResultView>::empty());
        }
        assert(concatenated(lines) + after.stdout_buf =~= run.stdout_buf + step_output(run, reply));
    } else if reply is Data && reads_output(run.phase) {
        let bytes = run.stdout_buf + reply->Data_0;
        law_no_byte_lost(run.parser, bytes);
        law_lines_are_fed(run.parser, bytes);
        law_every_test_reported_once(run.parser, decoded_lines(lines));
    } else {
        assert(lines =~= Seq::<Seq<u8>>::empty());
        assert(decoded_lines(lines) =~= Seq::<Seq<char>>::empty());
        assert(after.stdout_buf == run.stdout_buf);
        assert(after.parser.current_failure == run.parser.current_failure);
        if events.len() > 0 {
            assert(events =~= seq![EventView::SpawnFailed]);
            lemma_results_in_other(EventView::SpawnFailed);
        }
        assert(results_in(events) =~= Seq::<ResultView>::empty());
        assert(ids(results_in(events)) + pending_ids(after.parser) =~= pending_ids(run.parser)
            + all_line_ids(decoded_lines(lines)));
        assert(concatenated(lines) + after.stdout_buf =~= run.stdout_buf + step_output(run, reply));
    }
}

/// What a part and the next part add up to.
proof fn lemma_add_up<T>(
    start: Seq<T>,
    first: Seq<T>,
    first_left: Seq<T>,
    first_in: Seq<T>,
    second: Seq<T>,
    second_left: Seq<T>,
    second_in: Seq<T>,
)
    requires
        first + first_left == start + first_in,
        second + second_left == first_left + second_in,
    ensures
        (first + second) + second_left == start + (first_in + second_in),
{
    assert((first + second) + second_left =~= first + (second + second_left));
    assert(first + (first_left + second_in) =~= (first + first_left) + second_in);
    assert((start + first_in) + second_in =~= start + (first_in + second_in));
}

/// A run that has not overflowed had not before.
pub proof fn lemma_not_overflowed_before(run: RunView, reply: ReplyView)
    requires
        stepped(run, reply).0.phase != Phase::Overflowed,
    ensures
        run.phase != Phase::Overflowed,
{
}

/// No output gets lost: the lines that a run takes, and what waits for the rest of its line, are
/// the output that it reads.
pub proof fn law_output_becomes_lines(run: RunView, replies: Seq<ReplyView>)
    requires
        ran(run, replies).0.phase != Phase::Overflowed,
    ensures
        concatenated(run_lines(run, replies)) + ran(run, replies).0.stdout_buf == run.stdout_buf
            + run_output(run, replies),
    decreases replies.len(),
{
    if replies.len() == 0 {
        assert(concatenated(run_lines(run, replies)) + run.stdout_buf =~= run.stdout_buf
            + run_output(run, replies));
    } else {
        let shorter = replies.drop_last();
        let before = ran(run, shorter).0;
        let lines = step_lines(before, replies.last());
        let output = step_output(before, replies.last());
        lemma_not_overflowed_before(before, replies.last());
        law_output_becomes_lines(run, shorter);
        lemma_step_output(before, replies.last());
        lemma_concatenated_both(run_lines(run, shorter), lines);
        lemma_add_up(
            run.stdout_buf,
            concatenated(run_lines(run, shorter)),
            before.stdout_buf,
            run_output(run, shorter),
            concatenated(lines),
            ran(run, replies).0.stdout_buf,
            output,
        );
    }
}

/// Every test that the lines of a run are about is reported once, in the order of the lines; the
/// last one may still be pending.
pub proof fn law_run_reports_once(run: RunView, replies: Seq<ReplyView>)
    requires
        ran(run, replies).0.phase != Phase::Overflowed,
    ensures
        ids(results_in(ran(run, replies).1)) + pending_ids(ran(run, replies).0.parser)
            == pending_ids(run.parser) + all_line_ids(decoded_lines(run_lines(run, replies))),
    decreases replies.len(),
{
    if replies.len() == 0 {
        assert(decoded_lines(run_lines(run, replies)) =~= Seq::<Seq<char>>::empty());
        assert(ids(results_in(ran(run, replies).1)) + pending_ids(run.parser) =~= pending_ids(
            run.parser,
        ) + all_line_ids(decoded_lines(run_lines(run, replies))));
    } else {
        let shorter = replies.drop_last();
        let (before, events) = ran(run, shorter);
        let (after, more) = stepped(before, replies.last());
        let lines = run_lines(run, shorter);
        let last = step_lines(before, replies.last());
        lemma_not_overflowed_before(before, replies.last());
        law_run_reports_once(run, shorter);
        lemma_step_output(before, replies.last());
        lemma_results_in_both(events, more);
        assert(ids(results_in(events) + results_in(more)) =~= ids(results_in(events)) + ids(
            results_in(more),
        ));
        assert(decoded_lines(lines + last) =~= decoded_lines(lines) + decoded_lines(last));
        lemma_line_ids_both(decoded_lines(lines), decoded_lines(last));
        lemma_add_up(
            pending_ids(run.parser),
            ids(results_in(events)),
            pending_ids(before.parser),
            all_line_ids(decoded_lines(lines)),
            ids(results_in(more)),
            pending_ids(after.parser),
            all_line_ids(decoded_lines(last)),
        );
    }
}

proof fn lemma_logs_both(a: Seq<Seq<u8>>, b: Seq<Seq<u8>>)
    ensures
        logs(a + b) == logs(a) + logs(b),
    decreases a.len(),
{
    if a.len() == 0 {
        assert(a + b =~= b);
        assert(logs(a) + logs(b) =~= logs(b));
    } else {
        lemma_logs_both(a.skip(1), b);
        assert((a + b).skip(1) =~= a.skip(1) + b);
        assert(logs(a + b) =~= logs(a) + logs(b));
    }
}

/// What a step logs.
#[verifier::rlimit(50)]
proof fn lemma_step_logs(run: RunView, reply: ReplyView)
    requires
        stepped(run, reply).0.phase != Phase::Overflowed,
        run.phase != Phase::Overflowed,
    ensures
        stepped(run, reply).1.filter(|e: EventView| is_log(e)) == logs(step_lines(run, reply)),
{
    let keep = |e: EventView| is_log(e);
    let (after, events) = stepped(run, reply);
    let lines = step_lines(run, reply);
    if takes_tail(run, reply) {
        let s = flushed(run.parser, run.stdout_buf);
        let line = decoded(run.stdout_buf);
        let last = match s.parser.current_failure {
            Some(failure) => seq![failure_result(failure)],
            None => seq![],
        };
        let others = result_events(last) + seq![events.last()];
        assert(events =~= s.events + others);
        assert forall|i: int| 0 <= i < others.len() implies !keep(#[trigger] others[i]) by {
            if i < last.len() {
                assert(others[i] == result_events(last)[i]);
            }
        }
        lemma_filter_none(others, keep);
        Seq::filter_distributes_over_add(s.events, others, keep);
        assert(s.events.filter(keep) + Seq::<EventView>::empty() =~= s.events.filter(keep));
        if run.stdout_buf.len() > 0 {
            lemma_logs_of_line(line, fed_raw(run.parser, line).1);
            assert(lines.skip(1) =~= Seq::<Seq<u8>>::empty());
            assert(logs(lines.skip(1)) =~= Seq::<EventView>::empty());
            assert(logs(lines) =~= log_of(line));
        } else {
            lemma_filter_none(s.events, keep);
        }
    } else if reply is Data && reads_output(run.phase) {
        law_every_line_logged(run.parser, run.stdout_buf + reply->Data_0);
    } else {
        assert forall|i: int| 0 <= i < events.len() implies !keep(#[trigger] events[i]) by {}
        lemma_filter_none(events, keep);
    }
}

/// Every line that a run takes and that is not empty is logged once, in the order of the lines.
pub proof fn law_run_logs_every_line(run: RunView, replies: Seq<ReplyView>)
    requires
        ran(run, replies).0.phase != Phase::Overflowed,
    ensures
        ran(run, replies).1.filter(|e: EventView| is_log(e)) == logs(run_lines(run, replies)),
    decreases replies.len(),
{
    let keep = |e: EventView| is_log(e);
    if replies.len() == 0 {
        lemma_filter_none(ran(run, replies).1, keep);
    } else {
        let shorter = replies.drop_last();
        let (before, events) = ran(run, shorter);
        let more = stepped(before, replies.last()).1;
        lemma_not_overflowed_before(before, replies.last());
        law_run_logs_every_line(run, shorter);
        lemma_step_logs(before, replies.last());
        Seq::filter_distributes_over_add(events, more, keep);
        lemma_logs_both(run_lines(run, shorter), step_lines(before, replies.last()));
    }
}

/// The lines of some bytes and more are the complete lines of the first, and then those of what
/// follows them together with the rest.
proof fn lemma_lines_of_both(a: Seq<u8>, b: Seq<u8>)
    ensures
        complete_lines(a + b) == complete_lines(a) + complete_lines(unfinished(a) + b),
        unfinished(a + b) == unfinished(unfinished(a) + b),
    decreases a.len(),
{
    lemma_line_len_has(a);
    match line_len(a) {
        Some(n) => {
            lemma_line_len_of_both(a, b);
            lemma_lines_of_both(a.skip(n), b);
            let first = seq![a.take(n)];
            let others = complete_lines(a.skip(n));
            let more = complete_lines(unfinished(a) + b);
            assert(first + (others + more) =~= (first + others) + more);
        },
        None => {
            assert(complete_lines(a) + complete_lines(a + b) =~= complete_lines(a + b));
        },
    }
}

/// What a step does to the lines that have been taken and to the bytes that wait.
#[verifier::rlimit(50)]
proof fn lemma_step_cuts(run: RunView, reply: ReplyView, output: Seq<u8>)
    requires
        run.phase != Phase::Done,
        run.phase != Phase::Overflowed,
        stepped(run, reply).0.phase != Phase::Overflowed,
        run.phase is Spawning ==> output.len() == 0,
        run.stdout_buf == unfinished(output),
    ensures
        ({
            let after = stepped(run, reply).0;
            let longer = output + step_output(run, reply);
            let lines = complete_lines(output) + step_lines(run, reply);
            &&& after.phase is Spawning ==> longer.len() == 0
            &&& after.phase is Done ==> lines == cut_into_lines(longer)
            &&& !(after.phase is Done) ==> lines == complete_lines(longer) && after.stdout_buf
                == unfinished(longer)
        }),
{
    let lines = step_lines(run, reply);
    let more = step_output(run, reply);
    if takes_tail(run, reply) {
        assert(output + more =~= output);
        if run.stdout_buf.len() > 0 {
            assert(complete_lines(output) + lines =~= cut_into_lines(output));
        } else {
            assert(complete_lines(output) + lines =~= complete_lines(output));
        }
    } else if reply is Data && reads_output(run.phase) {
        lemma_lines_of_both(output, more);
        law_no_byte_lost(run.parser, run.stdout_buf + more);
    } else {
        assert(output + more =~= output);
        assert(complete_lines(output) + lines =~= complete_lines(output));
    }
}

/// A run takes its output line by line: the lines are the complete ones of all the output so far,
/// in their order, while what follows them waits. When the run is over, what was left has been
/// taken as the last line. How the output was cut into pieces does not show.
pub proof fn law_lines_are_the_output(replies: Seq<ReplyView>)
    requires
        ran(RunView::initial(), replies).0.phase != Phase::Overflowed,
    ensures
        ({
            let run = ran(RunView::initial(), replies).0;
            let output = run_output(RunView::initial(), replies);
            let lines = run_lines(RunView::initial(), replies);
            &&& run.phase is Spawning ==> output.len() == 0
            &&& run.phase is Done ==> lines == cut_into_lines(output)
            &&& !(run.phase is Done) ==> lines == complete_lines(output) && run.stdout_buf
                == unfinished(output)
        }),
    decreases replies.len(),
{
    let start = RunView::initial();
    if replies.len() > 0 {
        let shorter = replies.drop_last();
        let before = ran(start, shorter).0;
        let output = run_output(start, shorter);
        lemma_not_overflowed_before(before, replies.last());
        law_lines_are_the_output(shorter);
        if before.phase is Done {
            assert(run_output(start, replies) =~= output);
            assert(run_lines(start, replies) =~= run_lines(start, shorter));
        } else {
            lemma_step_cuts(before, replies.last(), output);
        }
    } else {
        assert(run_lines(start, replies) =~= complete_lines(run_output(start, replies)));
    }
}

#[verifier::rlimit(50)]
proof fn lemma_done_has_nothing_left(replies: Seq<ReplyView>)
    ensures
        ({
            let run = ran(RunView::initial(), replies).0;
            &&& run.phase is Spawning ==> run == RunView::initial()
            &&& run.phase is Done ==> run.parser.current_failure is None && run.stdout_buf.len()
                == 0
        }),
    decreases replies.len(),
{
    if replies.len() > 0 {
        lemma_done_has_nothing_left(replies.drop_last());
    }
}

/// When a run is over, all of the output that it read has been taken line by line, cut behind each
/// line feed, and every test that a line is about has been reported once, in the order of the
/// lines.
pub proof fn law_over_means_all_reported(replies: Seq<ReplyView>)
    requires
        ran(RunView::initial(), replies).0.phase is Done,
    ensures
        run_lines(RunView::initial(), replies) == cut_into_lines(
            run_output(RunView::initial(), replies),
        ),
        concatenated(run_lines(RunView::initial(), replies)) == run_output(
            RunView::initial(),
            replies,
        ),
        ids(results_in(ran(RunView::initial(), replies).1)) == all_line_ids(
            decoded_lines(run_lines(RunView::initial(), replies)),
        ),
{
    let start = RunView::initial();
    let (run, events) = ran(start, replies);
    law_lines_are_the_output(replies);
    law_output_becomes_lines(start, replies);
    law_run_reports_once(start, replies);
    lemma_done_has_nothing_left(replies);
    assert(concatenated(run_lines(start, replies)) + run.stdout_buf =~= concatenated(
        run_lines(start, replies),
    ));
    assert(start.stdout_buf + run_output(start, replies) =~= run_output(start, replies));
    assert(ids(results_in(events)) + pending_ids(run.parser) =~= ids(results_in(events)));
    assert(pending_ids(start.parser) + all_line_ids(decoded_lines(run_lines(start, replies)))
        =~= all_line_ids(decoded_lines(run_lines(start, replies))));
}

} // verus!
