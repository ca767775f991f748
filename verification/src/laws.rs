//! What holds of the parser and of a run as a whole.

use vstd::prelude::*;
use vstd::utf8::{decode_utf8, encode_utf8, valid_utf8};

use crate::event::EventView;
use crate::identifier::{identifier_of, DurationView};
use crate::parser::{
    count_after, fed, fed_raw, gives_counts, headed, is_summary, is_trace, line_text,
    opens_message, raw_has_room, result_in, FailureView, Outcome, ParserView, ResultView,
    MAX_MESSAGE_LINES,
};
use crate::run::{ran, stepped, Phase, ReplyView, RunView, DRAIN_ROUNDS};
use crate::stream::{
    flushed, lemma_line_len_has, lemma_line_len_is, line_len, line_taken, log_of, result_events,
    streamed, Streamed,
};
use crate::text::{lemma_trailing_has, lemma_trailing_is, trailing, without_trailing, CharClass};
use crate::unicode::{decoded, lowered};
use crate::wording::lemma_encode_both;

verus! {

// ---------------------------------------------------------------------------
// Lines
// ---------------------------------------------------------------------------

/// A line reports none, one or two tests. It reports two where a failure is pending and the line
/// itself reports a test that passed or was skipped.
pub proof fn law_at_most_two_results(p: ParserView, line: Seq<char>, lower: Seq<char>)
    ensures
        fed(p, line, lower).1.len() <= 2,
        fed(p, line, lower).1.len() == 2 <==> (p.current_failure is Some && (result_in(line, lower)
            matches Some((outcome, _)) && outcome != Outcome::Failed)),
{
}

/// Which test a report is about.
#[verifier::ext_equal]
pub struct TestId {
    pub outcome: Outcome,
    pub test_class: Seq<char>,
    pub test_name: Seq<char>,
    pub duration: Option<DurationView>,
}

/// The tests that the reports are about.
pub open spec fn ids(results: Seq<ResultView>) -> Seq<TestId> {
    results.map_values(
        |r: ResultView|
            TestId {
                outcome: r.outcome,
                test_class: r.test_class,
                test_name: r.test_name,
                duration: r.duration,
            },
    )
}

/// The test that is still to be reported.
pub open spec fn pending_ids(p: ParserView) -> Seq<TestId> {
    match p.current_failure {
        Some(failure) => seq![
            TestId {
                outcome: Outcome::Failed,
                test_class: failure.test_class,
                test_name: failure.test_name,
                duration: failure.duration,
            },
        ],
        None => seq![],
    }
}

/// The test that a line is about.
pub open spec fn line_ids(line: Seq<char>, lower: Seq<char>) -> Seq<TestId> {
    match result_in(line, lower) {
        Some((outcome, test)) => {
            let id = identifier_of(test);
            seq![
                TestId {
                    outcome,
                    test_class: id.test_class,
                    test_name: id.test_name,
                    duration: id.duration,
                },
            ]
        },
        None => seq![],
    }
}

/// The tests that lines are about.
pub open spec fn all_line_ids(lines: Seq<Seq<char>>) -> Seq<TestId>
    decreases lines.len(),
{
    if lines.len() == 0 {
        seq![]
    } else {
        let last = line_text(lines.last());
        all_line_ids(lines.drop_last()) + line_ids(last, lowered(last))
    }
}

/// The parser after some lines, and all that they report.
pub open spec fn fed_all(p: ParserView, lines: Seq<Seq<char>>) -> (ParserView, Seq<ResultView>)
    decreases lines.len(),
{
    if lines.len() == 0 {
        (p, seq![])
    } else {
        let (before, results) = fed_all(p, lines.drop_last());
        let (after, more) = fed_raw(before, lines.last());
        (after, results + more)
    }
}

/// With a line, what has been reported and what is pending grows by the test that the line is
/// about, and by nothing else.
pub proof fn law_line_reported_once(p: ParserView, line: Seq<char>, lower: Seq<char>)
    ensures
        ids(fed(p, line, lower).1) + pending_ids(fed(p, line, lower).0) == pending_ids(p)
            + line_ids(line, lower),
{
    assert(ids(fed(p, line, lower).1) + pending_ids(fed(p, line, lower).0) =~= pending_ids(p)
        + line_ids(line, lower));
}

/// Every test that a line is about is reported once, in the order of the lines; the last one may
/// still be pending.
pub proof fn law_every_test_reported_once(p: ParserView, lines: Seq<Seq<char>>)
    ensures
        ids(fed_all(p, lines).1) + pending_ids(fed_all(p, lines).0) == pending_ids(p)
            + all_line_ids(lines),
    decreases lines.len(),
{
    if lines.len() == 0 {
        assert(ids(fed_all(p, lines).1) + pending_ids(fed_all(p, lines).0) =~= pending_ids(p)
            + all_line_ids(lines));
    } else {
        let shorter = lines.drop_last();
        let last = line_text(lines.last());
        let (before, results) = fed_all(p, shorter);
        let (after, more) = fed_raw(before, lines.last());
        law_every_test_reported_once(p, shorter);
        law_line_reported_once(before, last, lowered(last));
        assert(ids(results + more) =~= ids(results) + ids(more));
        assert(ids(results) + ids(more) + pending_ids(after) =~= ids(results) + (ids(more)
            + pending_ids(after)));
        assert(ids(results) + (pending_ids(before) + line_ids(last, lowered(last))) =~= (ids(
            results,
        ) + pending_ids(before)) + line_ids(last, lowered(last)));
        assert(pending_ids(p) + all_line_ids(shorter) + line_ids(last, lowered(last))
            =~= pending_ids(p) + all_line_ids(lines));
    }
}

/// A result line raises the counter of its outcome by one and no other.
pub proof fn law_result_counted(p: ParserView, line: Seq<char>, lower: Seq<char>)
    requires
        result_in(line, lower) is Some,
        p.count((result_in(line, lower)->0).0) < u32::MAX,
    ensures
        forall|o: Outcome| #[trigger]
            fed(p, line, lower).0.count(o) == p.count(o) + (if o == (result_in(line, lower)->0).0 {
                1int
            } else {
                0
            }),
        fed(p, line, lower).0.run_complete == p.run_complete,
{
}

/// Before the run is complete, a line that is neither a result line nor one of the summary
/// leaves the counters as they are.
pub proof fn law_other_lines_do_not_count(p: ParserView, line: Seq<char>, lower: Seq<char>)
    requires
        result_in(line, lower) is None,
        !is_summary(lower),
        !p.run_complete,
    ensures
        forall|o: Outcome| #[trigger] fed(p, line, lower).0.count(o) == p.count(o),
        !fed(p, line, lower).0.run_complete,
{
    reveal_strlit("test run ");
    reveal_strlit("test run successful");
    reveal_strlit("test run failed");
    assert(crate::parser::ends_run(lower) ==> is_summary(lower)) by {
        let short = "test run "@;
        if "test run successful"@.is_prefix_of(lower) {
            let long = "test run successful"@;
            assert forall|i: int| 0 <= i < short.len() implies short[i] == lower[i] by {
                assert(long[i] == lower.subrange(0, long.len() as int)[i]);
            }
            assert(short =~= lower.subrange(0, short.len() as int));
        }
        if "test run failed"@.is_prefix_of(lower) {
            let long = "test run failed"@;
            assert forall|i: int| 0 <= i < short.len() implies short[i] == lower[i] by {
                assert(long[i] == lower.subrange(0, long.len() as int)[i]);
            }
            assert(short =~= lower.subrange(0, short.len() as int));
        }
    }
}

/// The counts of a summary line replace those that were counted before, and the run is complete.
pub proof fn law_summary_overrides(p: ParserView, line: Seq<char>, lower: Seq<char>)
    requires
        headed(line, lower) is None,
        gives_counts(lower),
        count_after(lower, "passed:"@) is Some,
        count_after(lower, "failed:"@) is Some,
        count_after(lower, "skipped:"@) is Some,
    ensures
        fed(p, line, lower).0 == (ParserView {
            passed: count_after(lower, "passed:"@)->0,
            failed: count_after(lower, "failed:"@)->0,
            skipped: count_after(lower, "skipped:"@)->0,
            run_complete: true,
            current_failure: None,
        }),
{
}

/// No more lines of a message are ever kept than the limit, and a complete run stays complete.
pub proof fn law_line_keeps(p: ParserView, line: Seq<char>, lower: Seq<char>)
    ensures
        p.wf() ==> fed(p, line, lower).0.wf(),
        p.run_complete ==> fed(p, line, lower).0.run_complete,
{
}

/// Whether a line neither closes a pending failure nor opens its message.
pub open spec fn is_inner_line(raw: Seq<char>) -> bool {
    let line = line_text(raw);
    let lower = lowered(line);
    &&& line.len() > 0
    &&& headed(line, lower) is None
    &&& !is_summary(lower)
    &&& !opens_message(line, lower)
}

/// Whether a line is one of a message, once the message has been opened.
pub open spec fn is_message_line(raw: Seq<char>) -> bool {
    is_inner_line(raw) && !is_trace(line_text(raw))
}

/// The first lines of a message, as they are kept.
pub open spec fn kept(lines: Seq<Seq<char>>) -> Seq<Seq<char>> {
    let texts = lines.map_values(|raw: Seq<char>| line_text(raw));
    if texts.len() <= MAX_MESSAGE_LINES {
        texts
    } else {
        texts.take(MAX_MESSAGE_LINES as int)
    }
}

/// Once the message of a failure has been opened, its first lines are kept, up to the limit, and
/// nothing is reported until a line closes it.
pub proof fn law_message_is_first_lines(p: ParserView, failure: FailureView, lines: Seq<Seq<char>>)
    requires
        p.current_failure == Some(failure),
        failure.in_error_block,
        failure.message.len() == 0,
        forall|i: int| 0 <= i < lines.len() ==> is_message_line(#[trigger] lines[i]),
    ensures
        fed_all(p, lines) == (
            p.pending(Some(FailureView { message: kept(lines), ..failure })),
            Seq::<ResultView>::empty(),
        ),
    decreases lines.len(),
{
    if lines.len() == 0 {
        assert(kept(lines) =~= failure.message);
    } else {
        let shorter = lines.drop_last();
        assert forall|i: int| 0 <= i < shorter.len() implies is_message_line(
            #[trigger] shorter[i],
        ) by {
            assert(shorter[i] == lines[i]);
        }
        law_message_is_first_lines(p, failure, shorter);
        assert(is_message_line(lines[lines.len() - 1]));
        if shorter.len() < MAX_MESSAGE_LINES {
            assert(kept(lines) =~= kept(shorter).push(line_text(lines.last())));
        } else {
            assert(kept(lines) =~= kept(shorter));
        }
        let before = p.pending(Some(FailureView { message: kept(shorter), ..failure }));
        assert(fed_raw(before, lines.last()).1 =~= Seq::<ResultView>::empty());
        assert(Seq::<ResultView>::empty() + Seq::<ResultView>::empty()
            =~= Seq::<ResultView>::empty());
    }
}

/// A line of a stack trace or of captured output ends the message of a failure: neither it nor
/// what follows it is kept, until a line closes the failure or opens a message again.
pub proof fn law_trace_ends_message(
    p: ParserView,
    failure: FailureView,
    trace: Seq<char>,
    lines: Seq<Seq<char>>,
)
    requires
        p.current_failure == Some(failure),
        is_inner_line(trace),
        is_trace(line_text(trace)),
        forall|i: int| 0 <= i < lines.len() ==> is_inner_line(#[trigger] lines[i]),
    ensures
        fed_all(p, seq![trace] + lines).0.current_failure == Some(
            FailureView { in_error_block: false, ..failure },
        ),
        fed_all(p, seq![trace] + lines).1 == Seq::<ResultView>::empty(),
    decreases lines.len(),
{
    let all = seq![trace] + lines;
    let none = Seq::<ResultView>::empty();
    assert(none + none =~= none);
    if lines.len() == 0 {
        assert(all.drop_last() =~= Seq::<Seq<char>>::empty());
        assert(fed_all(p, all.drop_last()) == (p, none));
        assert(all.last() == trace);
    } else {
        let shorter = lines.drop_last();
        assert forall|i: int| 0 <= i < shorter.len() implies is_inner_line(
            #[trigger] shorter[i],
        ) by {
            assert(shorter[i] == lines[i]);
        }
        law_trace_ends_message(p, failure, trace, shorter);
        assert(all.drop_last() =~= seq![trace] + shorter);
        assert(is_inner_line(lines[lines.len() - 1]));
        assert(all.last() == lines.last());
    }
}

/// Line ends at the end of a line make no difference, neither to what is made of the line nor to
/// its log.
pub proof fn law_line_ends_do_not_matter(p: ParserView, line: Seq<char>, ends: Seq<char>)
    requires
        forall|i: int| 0 <= i < ends.len() ==> CharClass::LineEnd.has(#[trigger] ends[i]),
    ensures
        fed_raw(p, line + ends) == fed_raw(p, line),
        raw_has_room(p, line + ends) == raw_has_room(p, line),
        log_of(line + ends) == log_of(line),
{
    let all = line + ends;
    let n = trailing(line, CharClass::LineEnd) as int;
    lemma_trailing_has(line, CharClass::LineEnd);
    assert forall|i: int| all.len() - (n + ends.len()) <= i < all.len() implies
        CharClass::LineEnd.has(#[trigger] all[i]) by {
        if i < line.len() {
            assert(all[i] == line[i]);
        } else {
            assert(all[i] == ends[i - line.len()]);
        }
    }
    if n < line.len() {
        assert(all[all.len() - (n + ends.len()) - 1] == line[line.len() - n - 1]);
    }
    lemma_trailing_is(all, CharClass::LineEnd, n + ends.len());
    assert(without_trailing(all, CharClass::LineEnd) =~= without_trailing(
        line,
        CharClass::LineEnd,
    ));
}

// ---------------------------------------------------------------------------
// Bytes
// ---------------------------------------------------------------------------

/// The complete lines among the bytes, each with its line feed.
pub open spec fn complete_lines(bytes: Seq<u8>) -> Seq<Seq<u8>>
    decreases bytes.len(),
{
    proof {
        lemma_line_len_has(bytes);
    }
    match line_len(bytes) {
        Some(n) => seq![bytes.take(n)] + complete_lines(bytes.skip(n)),
        None => seq![],
    }
}

/// What follows the complete lines among the bytes.
pub open spec fn unfinished(bytes: Seq<u8>) -> Seq<u8>
    decreases bytes.len(),
{
    proof {
        lemma_line_len_has(bytes);
    }
    match line_len(bytes) {
        Some(n) => unfinished(bytes.skip(n)),
        None => bytes,
    }
}

/// The bytes cut behind each line feed: the complete lines, and what follows them unless it is
/// nothing.
pub open spec fn cut_into_lines(bytes: Seq<u8>) -> Seq<Seq<u8>> {
    if unfinished(bytes).len() > 0 {
        complete_lines(bytes).push(unfinished(bytes))
    } else {
        complete_lines(bytes)
    }
}

/// Pieces of output, one after the other.
pub open spec fn concatenated(pieces: Seq<Seq<u8>>) -> Seq<u8>
    decreases pieces.len(),
{
    if pieces.len() == 0 {
        seq![]
    } else {
        concatenated(pieces.drop_last()) + pieces.last()
    }
}

proof fn lemma_concatenated_first(first: Seq<u8>, others: Seq<Seq<u8>>)
    ensures
        concatenated(seq![first] + others) == first + concatenated(others),
    decreases others.len(),
{
    let all = seq![first] + others;
    if others.len() == 0 {
        assert(all.drop_last() =~= Seq::<Seq<u8>>::empty());
        assert(all.last() == first);
        assert(concatenated(all.drop_last()) =~= Seq::<u8>::empty());
        assert(concatenated(all) =~= first + concatenated(others));
    } else {
        lemma_concatenated_first(first, others.drop_last());
        assert(all.drop_last() =~= seq![first] + others.drop_last());
        assert(concatenated(all) =~= first + concatenated(others));
    }
}

/// The log of each line.
pub open spec fn logs(lines: Seq<Seq<u8>>) -> Seq<EventView>
    decreases lines.len(),
{
    if lines.len() == 0 {
        seq![]
    } else {
        log_of(decoded(lines[0])) + logs(lines.skip(1))
    }
}

/// Which events are the log of a line.
pub open spec fn is_log(event: EventView) -> bool {
    event is Log
}

/// No byte gets lost: those that wait for the rest of their line follow the complete lines, and
/// no line among them is complete.
pub proof fn law_no_byte_lost(p: ParserView, bytes: Seq<u8>)
    requires
        !streamed(p, bytes).overflowed,
    ensures
        concatenated(complete_lines(bytes)) + streamed(p, bytes).rest == bytes,
        streamed(p, bytes).rest == unfinished(bytes),
        line_len(streamed(p, bytes).rest) is None,
    decreases bytes.len(),
{
    lemma_line_len_has(bytes);
    match line_len(bytes) {
        Some(n) => {
            let first = line_taken(p, decoded(bytes.take(n)), bytes.skip(n));
            let others = complete_lines(bytes.skip(n));
            law_no_byte_lost(first.parser, bytes.skip(n));
            lemma_concatenated_first(bytes.take(n), others);
            assert(concatenated(complete_lines(bytes)) + streamed(p, bytes).rest =~= bytes.take(n)
                + (concatenated(others) + streamed(p, bytes).rest));
            assert(bytes.take(n) + bytes.skip(n) =~= bytes);
        },
        None => {
            assert(concatenated(complete_lines(bytes)) + bytes =~= bytes);
        },
    }
}

/// Where two pieces are one after the other, the first line is that of the first piece if it has
/// a complete one.
pub proof fn lemma_line_len_of_both(a: Seq<u8>, b: Seq<u8>)
    requires
        line_len(a) is Some,
    ensures
        line_len(a + b) == line_len(a),
        0 < line_len(a)->0 <= a.len(),
        (a + b).take(line_len(a)->0) == a.take(line_len(a)->0),
        (a + b).skip(line_len(a)->0) == a.skip(line_len(a)->0) + b,
{
    lemma_line_len_has(a);
    let n = line_len(a)->0;
    assert forall|i: int| 0 <= i < n - 1 implies #[trigger] (a + b)[i] != 10 by {
        assert((a + b)[i] == a[i]);
    }
    lemma_line_len_is(a + b, n);
    assert((a + b).take(n) =~= a.take(n));
    assert((a + b).skip(n) =~= a.skip(n) + b);
}

/// It does not matter where the output is cut into pieces: to process a piece and then what it
/// left over with the next piece is to process both at once. Where a counter overflows in the
/// first piece, the second changes nothing.
pub proof fn law_pieces_do_not_matter(p: ParserView, a: Seq<u8>, b: Seq<u8>)
    ensures
        ({
            let first = streamed(p, a);
            let second = streamed(first.parser, first.rest + b);
            &&& !first.overflowed ==> streamed(p, a + b) == (Streamed {
                events: first.events + second.events,
                ..second
            })
            &&& first.overflowed ==> streamed(p, a + b) == (Streamed {
                rest: first.rest + b,
                ..first
            })
        }),
    decreases a.len(),
{
    let first = streamed(p, a);
    let second = streamed(first.parser, first.rest + b);
    lemma_line_len_has(a);
    match line_len(a) {
        Some(n) => {
            lemma_line_len_of_both(a, b);
            let taken = line_taken(p, decoded(a.take(n)), a.skip(n));
            law_pieces_do_not_matter(taken.parser, a.skip(n), b);
            let others = streamed(taken.parser, a.skip(n));
            if !taken.overflowed && !others.overflowed {
                assert(taken.events + (others.events + second.events) =~= (taken.events
                    + others.events) + second.events);
            }
        },
        None => {
            assert(first.events + second.events =~= second.events);
        },
    }
}

/// Without new bytes there is nothing to process: nothing is sent and nothing changes.
pub proof fn law_nothing_new(p: ParserView, bytes: Seq<u8>)
    requires
        !streamed(p, bytes).overflowed,
    ensures
        ({
            let s = streamed(p, bytes);
            streamed(s.parser, s.rest) == (Streamed { events: seq![], ..s })
        }),
{
    law_no_byte_lost(p, bytes);
}

/// A line feed behind bytes is one behind their text, whether the bytes are UTF-8 or not.
pub proof fn law_line_feed_decoded(bytes: Seq<u8>)
    ensures
        decoded(bytes + seq![10u8]) == decoded(bytes) + seq!['\n'],
{
    let whole = bytes + seq![10u8];
    let feed = seq!['\n'];
    assert(whole.drop_last() =~= bytes);
    if valid_utf8(bytes) {
        let line = decode_utf8(bytes);
        assert(whole == encode_utf8(line + feed)) by {
            lemma_encode_both(line, feed);
            vstd::utf8::decode_utf8_encode_utf8(bytes);
            vstd::utf8::is_ascii_chars_encode_utf8(feed);
            assert(feed[0] as u8 == 10u8);
            assert(encode_utf8(feed) =~= seq![10u8]);
        }
        vstd::utf8::encode_utf8_valid_utf8(line + feed);
        vstd::utf8::encode_utf8_decode_utf8(line + feed);
    } else if valid_utf8(whole) {
        let n = bytes.len() as int;
        vstd::utf8::is_char_boundary_iff_not_is_continuation_byte(whole, n);
        vstd::utf8::valid_utf8_split(whole, n);
        assert(whole.subrange(0, n) =~= bytes);
    }
}

/// What is left over of the output is taken at the end as if a line feed followed it. To take it
/// once more does nothing.
pub proof fn law_flush_is_a_line(p: ParserView, bytes: Seq<u8>)
    requires
        line_len(bytes) is None,
    ensures
        bytes.len() > 0 ==> flushed(p, bytes) == streamed(p, bytes + seq![10u8]),
        bytes.len() == 0 ==> flushed(p, bytes) == streamed(p, bytes),
        ({
            let s = flushed(p, bytes);
            flushed(s.parser, s.rest) == (Streamed { events: seq![], overflowed: false, ..s })
        }),
{
    let whole = bytes + seq![10u8];
    law_line_feed_decoded(bytes);
    lemma_line_len_has(bytes);
    assert forall|i: int| 0 <= i < bytes.len() implies #[trigger] whole[i] != 10 by {
        assert(whole[i] == bytes[i]);
    }
    lemma_line_len_is(whole, whole.len() as int);
    assert(whole.take(whole.len() as int) =~= whole);
    let nothing = whole.skip(whole.len() as int);
    assert(nothing =~= Seq::<u8>::empty());
    law_line_ends_do_not_matter(p, decoded(bytes), seq!['\n']);
    let first = line_taken(p, decoded(whole), nothing);
    assert(streamed(first.parser, nothing) == (Streamed {
        parser: first.parser,
        rest: nothing,
        events: seq![],
        overflowed: false,
    }));
    assert(first.events + Seq::<EventView>::empty() =~= first.events);
}

/// What becomes of output that comes in pieces, while some bytes wait for the rest of their line.
pub open spec fn streamed_in_pieces(p: ParserView, rest: Seq<u8>, pieces: Seq<Seq<u8>>) -> Streamed
    decreases pieces.len(),
{
    if pieces.len() == 0 {
        Streamed { parser: p, rest, events: seq![], overflowed: false }
    } else {
        let before = streamed_in_pieces(p, rest, pieces.drop_last());
        if before.overflowed {
            before
        } else {
            let last = streamed(before.parser, before.rest + pieces.last());
            Streamed { events: before.events + last.events, ..last }
        }
    }
}

/// However the output is cut into pieces, its events are those of the whole output. So are the
/// parser and the bytes that are left over, unless a counter overflows.
pub proof fn law_any_pieces(p: ParserView, rest: Seq<u8>, pieces: Seq<Seq<u8>>)
    requires
        line_len(rest) is None,
    ensures
        ({
            let cut = streamed_in_pieces(p, rest, pieces);
            let whole = streamed(p, rest + concatenated(pieces));
            &&& cut.events == whole.events
            &&& cut.overflowed == whole.overflowed
            &&& !cut.overflowed ==> cut == whole
        }),
    decreases pieces.len(),
{
    if pieces.len() == 0 {
        assert(rest + concatenated(pieces) =~= rest);
    } else {
        let shorter = pieces.drop_last();
        law_any_pieces(p, rest, shorter);
        law_pieces_do_not_matter(p, rest + concatenated(shorter), pieces.last());
        assert(rest + concatenated(pieces) =~= (rest + concatenated(shorter)) + pieces.last());
    }
}

/// Logs and results of a line, told apart.
pub proof fn lemma_logs_of_line(line: Seq<char>, results: Seq<ResultView>)
    ensures
        (log_of(line) + result_events(results)).filter(|e: EventView| is_log(e)) == log_of(line),
{
    let keep = |e: EventView| is_log(e);
    lemma_filter_none(result_events(results), keep);
    Seq::filter_distributes_over_add(log_of(line), result_events(results), keep);
    reveal_with_fuel(Seq::filter, 2);
    if log_of(line).len() > 0 {
        assert(log_of(line).drop_last() =~= Seq::<EventView>::empty());
    }
    assert(log_of(line).filter(keep) =~= log_of(line));
    assert(log_of(line) + Seq::<EventView>::empty() =~= log_of(line));
}

/// Nothing is left where nothing is to be kept.
pub proof fn lemma_filter_none(events: Seq<EventView>, keep: spec_fn(EventView) -> bool)
    requires
        forall|i: int| 0 <= i < events.len() ==> !keep(#[trigger] events[i]),
    ensures
        events.filter(keep) == Seq::<EventView>::empty(),
    decreases events.len(),
{
    reveal(Seq::filter);
    if events.len() > 0 {
        assert forall|i: int| 0 <= i < events.len() - 1 implies !keep(
            #[trigger] events.drop_last()[i],
        ) by {
            assert(events.drop_last()[i] == events[i]);
        }
        assert(!keep(events[events.len() - 1]));
        lemma_filter_none(events.drop_last(), keep);
    }
}

/// Every complete line that is not empty is logged once, in the order of the lines, whatever the
/// parser makes of it.
pub proof fn law_every_line_logged(p: ParserView, bytes: Seq<u8>)
    requires
        !streamed(p, bytes).overflowed,
    ensures
        streamed(p, bytes).events.filter(|e: EventView| is_log(e)) == logs(complete_lines(bytes)),
    decreases bytes.len(),
{
    let keep = |e: EventView| is_log(e);
    lemma_line_len_has(bytes);
    match line_len(bytes) {
        Some(n) => {
            let line = decoded(bytes.take(n));
            let first = line_taken(p, line, bytes.skip(n));
            let lines = complete_lines(bytes);
            law_every_line_logged(first.parser, bytes.skip(n));
            lemma_logs_of_line(line, fed_raw(p, line).1);
            Seq::filter_distributes_over_add(
                first.events,
                streamed(first.parser, bytes.skip(n)).events,
                keep,
            );
            assert(lines.skip(1) =~= complete_lines(bytes.skip(n)));
            assert(lines[0] == bytes.take(n));
        },
        None => {
            reveal(Seq::filter);
        },
    }
}

/// Lines add nothing but logs and results, keep the limit on messages, and leave a complete run
/// complete.
pub proof fn law_bytes_keep(p: ParserView, bytes: Seq<u8>)
    ensures
        p.wf() ==> streamed(p, bytes).parser.wf(),
        p.run_complete ==> streamed(p, bytes).parser.run_complete,
        forall|i: int|
            0 <= i < streamed(p, bytes).events.len() ==> (#[trigger] streamed(p, bytes).events[i]
                is Log || streamed(p, bytes).events[i] is Result),
    decreases bytes.len(),
{
    lemma_line_len_has(bytes);
    if let Some(n) = line_len(bytes) {
        let line = decoded(bytes.take(n));
        let first = line_taken(p, line, bytes.skip(n));
        law_line_keeps(p, line_text(line), lowered(line_text(line)));
        law_bytes_keep(first.parser, bytes.skip(n));
    }
}

// ---------------------------------------------------------------------------
// Runs
// ---------------------------------------------------------------------------

/// The events that end a run.
pub open spec fn is_end(event: EventView) -> bool {
    event is Completed || event is SpawnFailed
}

/// What a step adds: logs and results, and the end if it ends the run.
proof fn lemma_step_events(run: RunView, reply: ReplyView)
    ensures
        ({
            let (after, events) = stepped(run, reply);
            &&& forall|i: int|
                0 <= i < events.len() - 1 ==> ((#[trigger] events[i]) is Log || events[i] is Result)
            &&& events.len() > 0 && !(is_end(events.last())) ==> events.last() is Log
                || events.last() is Result
            &&& events.len() > 0 && is_end(events.last()) ==> after.phase == Phase::Done
            &&& after.phase == Phase::Done && run.phase != Phase::Done ==> events.len() > 0
                && is_end(events.last())
            &&& run.phase == Phase::Done ==> after == run && events.len() == 0
            &&& forall|i: int| 0 <= i < events.len() ==> !((#[trigger] events[i]) is Started)
        }),
{
    match reply {
        ReplyView::Data(data) => {
            law_bytes_keep(run.parser, run.stdout_buf + data);
        },
        _ => {},
    }
    let s = flushed(run.parser, run.stdout_buf);
    assert forall|i: int| 0 <= i < s.events.len() implies (#[trigger] s.events[i]) is Log
        || s.events[i] is Result by {}
}

/// Whether events begin with the one that announces a run, which does not come again, and none
/// follows one that ends a run.
pub open spec fn begin_and_end(path: Seq<char>, events: Seq<EventView>) -> bool {
    &&& events.len() > 0
    &&& events[0] == EventView::Started(path)
    &&& forall|i: int| 0 < i < events.len() ==> !((#[trigger] events[i]) is Started)
    &&& forall|i: int| 0 <= i < events.len() - 1 ==> !is_end(#[trigger] events[i])
}

/// What is added to such events while none of them ends the run.
proof fn lemma_events_added(path: Seq<char>, before: Seq<EventView>, added: Seq<EventView>)
    requires
        begin_and_end(path, before),
        added.len() > 0 ==> !is_end(before.last()),
        forall|i: int| 0 <= i < added.len() ==> !((#[trigger] added[i]) is Started),
        forall|i: int| 0 <= i < added.len() - 1 ==> !is_end(#[trigger] added[i]),
    ensures
        begin_and_end(path, before + added),
{
    let events = before + added;
    assert forall|i: int| 0 < i < events.len() implies !((#[trigger] events[i]) is Started) by {
        if i >= before.len() {
            assert(events[i] == added[i - before.len()]);
        }
    }
    assert forall|i: int| 0 <= i < events.len() - 1 implies !is_end(#[trigger] events[i]) by {
        if i >= before.len() {
            assert(events[i] == added[i - before.len()]);
        } else if i == before.len() - 1 {
            assert(events[i] == before.last());
        }
    }
}

/// The events of a run begin with the one that announces it, which does not come again. None
/// follows the one that ends it, and that one has come when, and only when, the run is over.
pub proof fn law_events_begin_and_end(path: Seq<char>, replies: Seq<ReplyView>)
    ensures
        ({
            let (run, more) = ran(RunView::initial(), replies);
            let events = seq![EventView::Started(path)] + more;
            &&& begin_and_end(path, events)
            &&& is_end(events.last()) <==> run.phase == Phase::Done
        }),
    decreases replies.len(),
{
    let start = seq![EventView::Started(path)];
    let (run, more) = ran(RunView::initial(), replies);
    let events = start + more;
    if replies.len() > 0 {
        let (before, more_before) = ran(RunView::initial(), replies.drop_last());
        let added = stepped(before, replies.last()).1;
        law_events_begin_and_end(path, replies.drop_last());
        lemma_step_events(before, replies.last());
        assert(events =~= (start + more_before) + added);
        lemma_events_added(path, start + more_before, added);
        if added.len() > 0 {
            assert(events.last() == added.last());
        } else {
            assert(events =~= start + more_before);
        }
    }
}

/// Pieces of output, as a run is told of them.
pub open spec fn data_replies(pieces: Seq<Seq<u8>>) -> Seq<ReplyView> {
    pieces.map_values(|data: Seq<u8>| ReplyView::Data(data))
}

/// A run that reads output sends the events of the output, which do not depend on how it was cut
/// into pieces.
pub proof fn law_run_reads_pieces(run: RunView, pieces: Seq<Seq<u8>>)
    requires
        run.phase is ReadingStdout || run.phase is DrainReading,
    ensures
        ({
            let s = streamed_in_pieces(run.parser, run.stdout_buf, pieces);
            let (after, events) = ran(run, data_replies(pieces));
            &&& events == s.events
            &&& after == (RunView {
                phase: if s.overflowed {
                    Phase::Overflowed
                } else {
                    run.phase
                },
                stdout_buf: s.rest,
                parser: s.parser,
            })
        }),
        line_len(run.stdout_buf) is None ==> ran(run, data_replies(pieces)).1 == streamed(
            run.parser,
            run.stdout_buf + concatenated(pieces),
        ).events,
    decreases pieces.len(),
{
    if line_len(run.stdout_buf) is None {
        law_any_pieces(run.parser, run.stdout_buf, pieces);
    }
    let replies = data_replies(pieces);
    if pieces.len() > 0 {
        law_run_reads_pieces(run, pieces.drop_last());
        assert(replies.drop_last() =~= data_replies(pieces.drop_last()));
        assert(replies.last() == ReplyView::Data(pieces.last()));
        let before = streamed_in_pieces(run.parser, run.stdout_buf, pieces.drop_last());
        if before.overflowed {
            assert(before.events + Seq::<EventView>::empty() =~= before.events);
        }
    }
}

/// What every state that a run can reach has in common: no more lines of a message are kept than
/// the limit, and no complete line waits to be processed, unless a counter has overflowed.
pub open spec fn run_wf(run: RunView) -> bool {
    &&& run.parser.wf()
    &&& run.phase != Phase::Overflowed ==> line_len(run.stdout_buf) is None
}

/// A run begins well-formed and stays so, whatever happens; once its end has been announced, it
/// stays announced.
pub proof fn law_run_keeps(run: RunView, replies: Seq<ReplyView>)
    ensures
        run_wf(RunView::initial()),
        run_wf(run) ==> run_wf(ran(run, replies).0),
        run.parser.run_complete ==> ran(run, replies).0.parser.run_complete,
    decreases replies.len(),
{
    if replies.len() > 0 {
        law_run_keeps(run, replies.drop_last());
        let before = ran(run, replies.drop_last()).0;
        match replies.last() {
            ReplyView::Data(data) => {
                let bytes = before.stdout_buf + data;
                law_bytes_keep(before.parser, bytes);
                if !streamed(before.parser, bytes).overflowed {
                    law_no_byte_lost(before.parser, bytes);
                }
            },
            _ => {},
        }
        let line = line_text(decoded(before.stdout_buf));
        law_line_keeps(before.parser, line, lowered(line));
    }
}

/// How many rounds of reading are left after the end of the output.
pub open spec fn rounds_left(phase: Phase) -> Option<int> {
    match phase {
        Phase::DrainWaiting(round) => Some(DRAIN_ROUNDS - round),
        Phase::DrainReading(round) => Some(DRAIN_ROUNDS - round),
        Phase::Done => Some(0int),
        Phase::Overflowed => Some(0int),
        _ => None,
    }
}

/// Once a run has left the reading of the pipes it does not come back to it: the rounds that are
/// left become fewer with every read that brings no data, until the run is over.
pub proof fn law_drain_moves_on(run: RunView, reply: ReplyView)
    requires
        rounds_left(run.phase) is Some,
        rounds_left(run.phase)->0 >= 0,
    ensures
        rounds_left(stepped(run, reply).0.phase) is Some,
        0 <= rounds_left(stepped(run, reply).0.phase)->0 <= rounds_left(run.phase)->0,
        run.phase is DrainReading && rounds_left(run.phase)->0 > 0 && (reply is Eof
            || reply is NoData) ==> rounds_left(stepped(run, reply).0.phase)->0 < rounds_left(
            run.phase,
        )->0,
{
}

} // verus!
