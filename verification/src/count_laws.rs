//! The counters agree with what is reported.

use vstd::prelude::*;

use crate::event::EventView;
use crate::laws::{
    all_line_ids, complete_lines, fed_all, ids, law_every_test_reported_once, line_ids, pending_ids,
    TestId,
};
use crate::output_laws::{
    decoded_lines, law_over_means_all_reported, lemma_line_ids_both, lemma_not_overflowed_before,
    reads_output, results_in, run_lines, step_lines, takes_tail,
};
use crate::parser::{
    fed_raw, gives_counts, headed, line_text, raw_has_room, Outcome, ParserView,
};
use crate::run::{ran, stepped, Phase, ReplyView, RunView};
use crate::stream::{lemma_line_len_has, line_len, line_taken, streamed};
use crate::unicode::{decoded, lowered};

verus! {

/// Whether a line gives counts of its own, which may replace those that were counted.
pub open spec fn sets_counts(raw: Seq<char>) -> bool {
    let line = line_text(raw);
    let lower = lowered(line);
    &&& headed(line, lower) is None
    &&& {
        ||| gives_counts(lower)
        ||| "passed:"@.is_prefix_of(lower)
        ||| "failed:"@.is_prefix_of(lower)
        ||| "skipped:"@.is_prefix_of(lower)
    }
}

/// How many of the tests ended so.
pub open spec fn number(tests: Seq<TestId>, outcome: Outcome) -> nat
    decreases tests.len(),
{
    if tests.len() == 0 {
        0
    } else {
        number(tests.drop_last(), outcome) + (if tests.last().outcome == outcome {
            1nat
        } else {
            0
        })
    }
}

proof fn lemma_number_both(a: Seq<TestId>, b: Seq<TestId>, outcome: Outcome)
    ensures
        number(a + b, outcome) == number(a, outcome) + number(b, outcome),
    decreases b.len(),
{
    if b.len() == 0 {
        assert(a + b =~= a);
    } else {
        lemma_number_both(a, b.drop_last(), outcome);
        assert((a + b).drop_last() =~= a + b.drop_last());
    }
}

proof fn lemma_number_of_one(test: TestId, outcome: Outcome)
    ensures
        number(seq![test], outcome) == (if test.outcome == outcome {
            1nat
        } else {
            0
        }),
{
    assert(seq![test].drop_last() =~= Seq::<TestId>::empty());
    assert(number(seq![test].drop_last(), outcome) == 0);
}

/// A line that gives no counts raises the counter of the test that it is about, and no other.
proof fn lemma_line_counts(p: ParserView, raw: Seq<char>, outcome: Outcome)
    requires
        raw_has_room(p, raw),
        !sets_counts(raw),
    ensures
        fed_raw(p, raw).0.count(outcome) == p.count(outcome) + number(
            line_ids(line_text(raw), lowered(line_text(raw))),
            outcome,
        ),
{
    let tests = line_ids(line_text(raw), lowered(line_text(raw)));
    if tests.len() > 0 {
        lemma_number_of_one(tests[0], outcome);
        assert(tests =~= seq![tests[0]]);
    }
}

/// Whether the parser has room for each of the lines when its turn comes.
pub open spec fn has_room_for_all(p: ParserView, lines: Seq<Seq<char>>) -> bool
    decreases lines.len(),
{
    lines.len() > 0 ==> has_room_for_all(p, lines.drop_last()) && raw_has_room(
        fed_all(p, lines.drop_last()).0,
        lines.last(),
    )
}

proof fn lemma_lines_count(p: ParserView, lines: Seq<Seq<char>>, outcome: Outcome)
    requires
        has_room_for_all(p, lines),
        forall|i: int| 0 <= i < lines.len() ==> !sets_counts(#[trigger] lines[i]),
    ensures
        fed_all(p, lines).0.count(outcome) == p.count(outcome) + number(
            all_line_ids(lines),
            outcome,
        ),
    decreases lines.len(),
{
    if lines.len() > 0 {
        let shorter = lines.drop_last();
        let last = line_text(lines.last());
        assert forall|i: int| 0 <= i < shorter.len() implies !sets_counts(#[trigger] shorter[i]) by {
            assert(shorter[i] == lines[i]);
        }
        lemma_lines_count(p, shorter, outcome);
        assert(!sets_counts(lines[lines.len() - 1]));
        lemma_line_counts(fed_all(p, shorter).0, lines.last(), outcome);
        lemma_number_both(all_line_ids(shorter), line_ids(last, lowered(last)), outcome);
    }
}

/// Over lines that give no counts of their own, each counter grows by the reports of its outcome;
/// a failure counts when its line comes, though it is reported later.
pub proof fn law_counters_are_the_reports(p: ParserView, lines: Seq<Seq<char>>, outcome: Outcome)
    requires
        has_room_for_all(p, lines),
        forall|i: int| 0 <= i < lines.len() ==> !sets_counts(#[trigger] lines[i]),
    ensures
        ({
            let (after, results) = fed_all(p, lines);
            after.count(outcome) + number(pending_ids(p), outcome) == p.count(outcome) + number(
                ids(results),
                outcome,
            ) + number(pending_ids(after), outcome)
        }),
{
    let (after, results) = fed_all(p, lines);
    lemma_lines_count(p, lines, outcome);
    law_every_test_reported_once(p, lines);
    lemma_number_both(pending_ids(p), all_line_ids(lines), outcome);
    lemma_number_both(ids(results), pending_ids(after), outcome);
}

/// From the first line on, the parser has counted as many passed and skipped tests as it has
/// reported, and as many failed ones as it has reported and has still to report.
pub proof fn law_counted_from_the_start(lines: Seq<Seq<char>>)
    requires
        has_room_for_all(ParserView::initial(), lines),
        forall|i: int| 0 <= i < lines.len() ==> !sets_counts(#[trigger] lines[i]),
    ensures
        ({
            let (after, results) = fed_all(ParserView::initial(), lines);
            &&& after.passed == number(ids(results), Outcome::Passed)
            &&& after.skipped == number(ids(results), Outcome::Skipped)
            &&& after.failed == number(ids(results), Outcome::Failed) + (
            if after.current_failure is Some {
                1nat
            } else {
                0
            })
        }),
{
    let start = ParserView::initial();
    let after = fed_all(start, lines).0;
    law_counters_are_the_reports(start, lines, Outcome::Passed);
    law_counters_are_the_reports(start, lines, Outcome::Failed);
    law_counters_are_the_reports(start, lines, Outcome::Skipped);
    if after.current_failure is Some {
        let test = pending_ids(after)[0];
        lemma_number_of_one(test, Outcome::Passed);
        lemma_number_of_one(test, Outcome::Failed);
        lemma_number_of_one(test, Outcome::Skipped);
        assert(pending_ids(after) =~= seq![test]);
    }
}

// ---------------------------------------------------------------------------
// Runs
// ---------------------------------------------------------------------------

/// Whether none of the lines gives counts of its own.
pub open spec fn none_sets_counts(lines: Seq<Seq<u8>>) -> bool {
    forall|i: int| 0 <= i < lines.len() ==> !sets_counts(decoded(#[trigger] lines[i]))
}

proof fn lemma_bytes_count(p: ParserView, bytes: Seq<u8>, outcome: Outcome)
    requires
        !streamed(p, bytes).overflowed,
        none_sets_counts(complete_lines(bytes)),
    ensures
        streamed(p, bytes).parser.count(outcome) == p.count(outcome) + number(
            all_line_ids(decoded_lines(complete_lines(bytes))),
            outcome,
        ),
    decreases bytes.len(),
{
    lemma_line_len_has(bytes);
    let lines = complete_lines(bytes);
    match line_len(bytes) {
        Some(n) => {
            let line = decoded(bytes.take(n));
            let text = line_text(line);
            let first = line_taken(p, line, bytes.skip(n));
            let others = complete_lines(bytes.skip(n));
            assert(lines[0] == bytes.take(n));
            assert(!sets_counts(decoded(lines[0])));
            assert forall|i: int| 0 <= i < others.len() implies !sets_counts(
                decoded(#[trigger] others[i]),
            ) by {
                assert(lines[i + 1] == others[i]);
            }
            lemma_bytes_count(first.parser, bytes.skip(n), outcome);
            lemma_line_counts(p, line, outcome);
            assert(decoded_lines(lines) =~= seq![line] + decoded_lines(others));
            lemma_line_ids_both(seq![line], decoded_lines(others));
            lemma_ids_of_one(line);
            lemma_number_both(
                line_ids(text, lowered(text)),
                all_line_ids(decoded_lines(others)),
                outcome,
            );
        },
        None => {
            assert(decoded_lines(lines) =~= Seq::<Seq<char>>::empty());
        },
    }
}

proof fn lemma_ids_of_one(line: Seq<char>)
    ensures
        all_line_ids(seq![line]) == line_ids(line_text(line), lowered(line_text(line))),
{
    let one = seq![line];
    assert(one.drop_last() =~= Seq::<Seq<char>>::empty());
    assert(all_line_ids(one.drop_last()) =~= Seq::<TestId>::empty());
    assert(all_line_ids(one) =~= line_ids(line_text(line), lowered(line_text(line))));
}

proof fn lemma_step_counts(run: RunView, reply: ReplyView, outcome: Outcome)
    requires
        stepped(run, reply).0.phase != Phase::Overflowed,
        run.phase != Phase::Overflowed,
        none_sets_counts(step_lines(run, reply)),
    ensures
        stepped(run, reply).0.parser.count(outcome) == run.parser.count(outcome) + number(
            all_line_ids(decoded_lines(step_lines(run, reply))),
            outcome,
        ),
{
    let lines = step_lines(run, reply);
    if takes_tail(run, reply) {
        if run.stdout_buf.len() > 0 {
            let line = decoded(run.stdout_buf);
            assert(lines[0] == run.stdout_buf);
            assert(!sets_counts(decoded(lines[0])));
            lemma_line_counts(run.parser, line, outcome);
            assert(decoded_lines(lines) =~= seq![line]);
            lemma_ids_of_one(line);
        } else {
            assert(decoded_lines(lines) =~= Seq::<Seq<char>>::empty());
        }
    } else if reply is Data && reads_output(run.phase) {
        lemma_bytes_count(run.parser, run.stdout_buf + reply->Data_0, outcome);
    } else {
        assert(decoded_lines(lines) =~= Seq::<Seq<char>>::empty());
    }
}

proof fn lemma_run_counts(run: RunView, replies: Seq<ReplyView>, outcome: Outcome)
    requires
        ran(run, replies).0.phase != Phase::Overflowed,
        none_sets_counts(run_lines(run, replies)),
    ensures
        ran(run, replies).0.parser.count(outcome) == run.parser.count(outcome) + number(
            all_line_ids(decoded_lines(run_lines(run, replies))),
            outcome,
        ),
    decreases replies.len(),
{
    if replies.len() == 0 {
        assert(decoded_lines(run_lines(run, replies)) =~= Seq::<Seq<char>>::empty());
    } else {
        let shorter = replies.drop_last();
        let before = ran(run, shorter).0;
        let all = run_lines(run, replies);
        let lines = run_lines(run, shorter);
        let last = step_lines(before, replies.last());
        assert forall|i: int| 0 <= i < lines.len() implies !sets_counts(
            decoded(#[trigger] lines[i]),
        ) by {
            assert(all[i] == lines[i]);
        }
        assert forall|i: int| 0 <= i < last.len() implies !sets_counts(
            decoded(#[trigger] last[i]),
        ) by {
            assert(all[lines.len() + i] == last[i]);
        }
        lemma_not_overflowed_before(before, replies.last());
        lemma_run_counts(run, shorter, outcome);
        lemma_step_counts(before, replies.last(), outcome);
        assert(decoded_lines(all) =~= decoded_lines(lines) + decoded_lines(last));
        lemma_line_ids_both(decoded_lines(lines), decoded_lines(last));
        lemma_number_both(
            all_line_ids(decoded_lines(lines)),
            all_line_ids(decoded_lines(last)),
            outcome,
        );
    }
}

/// The event that ends a run gives the counters of its parser, unless the run could not begin.
proof fn lemma_last_event(run: RunView, replies: Seq<ReplyView>)
    requires
        run.phase != Phase::Done,
        ran(run, replies).0.phase == Phase::Done,
    ensures
        ({
            let (after, events) = ran(run, replies);
            &&& events.len() > 0
            &&& events.last() == EventView::SpawnFailed || events.last() == (EventView::Completed {
                passed: after.parser.passed,
                failed: after.parser.failed,
                skipped: after.parser.skipped,
            })
        }),
    decreases replies.len(),
{
    let (before, events) = ran(run, replies.drop_last());
    let (after, more) = stepped(before, replies.last());
    if before.phase == Phase::Done {
        lemma_last_event(run, replies.drop_last());
        assert(events + more =~= events);
    } else {
        assert((events + more).last() == more.last());
    }
}

/// A run that could begin, and none of whose lines gives counts of its own, ends with as many
/// tests of each outcome as it has reported.
pub proof fn law_completed_counts_are_the_reports(replies: Seq<ReplyView>)
    requires
        ran(RunView::initial(), replies).0.phase == Phase::Done,
        none_sets_counts(run_lines(RunView::initial(), replies)),
    ensures
        ({
            let events = ran(RunView::initial(), replies).1;
            let tests = ids(results_in(events));
            &&& events.len() > 0
            &&& match events.last() {
                EventView::Completed { passed, failed, skipped } => {
                    &&& passed == number(tests, Outcome::Passed)
                    &&& failed == number(tests, Outcome::Failed)
                    &&& skipped == number(tests, Outcome::Skipped)
                },
                last => last == EventView::SpawnFailed,
            }
        }),
{
    let start = RunView::initial();
    lemma_last_event(start, replies);
    law_over_means_all_reported(replies);
    lemma_run_counts(start, replies, Outcome::Passed);
    lemma_run_counts(start, replies, Outcome::Failed);
    lemma_run_counts(start, replies, Outcome::Skipped);
}

} // verus!
