//! What each kind of line does to the parser, in the words that the line is made of.
//!
//! A line is taken without the white space around it, and compared in lower case where its case
//! does not matter. The laws go through all kinds of lines: result lines, prose that begins like
//! one, the lines of a failure, the summary, and the rest.

use vstd::prelude::*;
use vstd::utf8::is_ascii_chars;

use crate::identifier::{identifier_of, is_identifier};
use crate::parser::{
    count_after, ends_run, fed_raw, headed, is_summary, line_text, parsed, raw_has_room, result_in,
    FailureView, Outcome, ParserView, ResultView,
};
use crate::text::{
    decimal, digits_to_count, is_white_space, joined, occurs, text_to_count, trimmed, CharClass,
};
use crate::text_laws::{
    all_white, law_counts_read, law_found_first, law_strip_front, law_trim,
};
use crate::unicode::{ascii_lowered, lowered};
use crate::wording::{is_gap, law_heading_read, lemma_lowered_begins, lemma_word_is_ascii};

verus! {

/// What is reported of the failure that a line closes, if one is pending: the test, and as its
/// message the lines that were kept, with a space between each two.
pub open spec fn closing_report(p: ParserView) -> Seq<ResultView> {
    match p.current_failure {
        Some(failure) => seq![
            ResultView {
                outcome: Outcome::Failed,
                test_class: failure.test_class,
                test_name: failure.test_name,
                duration: failure.duration,
                message: Some(trimmed(joined(failure.message))),
            },
        ],
        None => seq![],
    }
}

/// Whether a line in lower case does not begin as a result line does.
pub open spec fn no_outcome(lower: Seq<char>) -> bool {
    &&& !"passed "@.is_prefix_of(lower)
    &&& !"failed "@.is_prefix_of(lower)
    &&& !"skipped "@.is_prefix_of(lower)
}

/// Whether a line in lower case has both labels of a summary in it.
pub open spec fn has_both_labels(lower: Seq<char>) -> bool {
    occurs(lower, "passed:"@) && occurs(lower, "failed:"@)
}

/// Whether a line in lower case is not of the summary.
pub open spec fn no_summary(lower: Seq<char>) -> bool {
    !"test run "@.is_prefix_of(lower) && !has_both_labels(lower)
}

/// Whether a line opens no message and is of no trace.
pub open spec fn no_marker(text: Seq<char>, lower: Seq<char>) -> bool {
    &&& text != "Error Message:"@ && text != "Standard Output Messages:"@ && lower != "[fail]"@
    &&& !"Stack Trace:"@.is_prefix_of(text) && !"at "@.is_prefix_of(text)
    &&& !"[STACK]"@.is_prefix_of(text) && !"[OUTPUT]"@.is_prefix_of(text)
}

/// A longer beginning has the shorter one in it.
proof fn lemma_shorter_prefix(short: Seq<char>, long: Seq<char>, s: Seq<char>)
    requires
        short.is_prefix_of(long),
        long.is_prefix_of(s),
    ensures
        short.is_prefix_of(s),
{
    assert(short =~= s.subrange(0, short.len() as int)) by {
        assert forall|i: int| 0 <= i < short.len() implies short[i] == s[i] by {
            assert(short[i] == long.subrange(0, short.len() as int)[i]);
            assert(long[i] == s.subrange(0, long.len() as int)[i]);
        }
    }
}

proof fn lemma_no_heading(text: Seq<char>, lower: Seq<char>)
    requires
        no_outcome(lower),
    ensures
        headed(text, lower) is None,
{
    reveal_strlit("passed ");
    reveal_strlit("failed ");
    reveal_strlit("skipped ");
    reveal_strlit("passed  ");
    reveal_strlit("failed  ");
    reveal_strlit("skipped  ");
    assert("passed "@ =~= "passed  "@.subrange(0, 7));
    assert("failed "@ =~= "failed  "@.subrange(0, 7));
    assert("skipped "@ =~= "skipped  "@.subrange(0, 8));
    if "passed  "@.is_prefix_of(lower) {
        lemma_shorter_prefix("passed "@, "passed  "@, lower);
    }
    if "failed  "@.is_prefix_of(lower) {
        lemma_shorter_prefix("failed "@, "failed  "@, lower);
    }
    if "skipped  "@.is_prefix_of(lower) {
        lemma_shorter_prefix("skipped "@, "skipped  "@, lower);
    }
}

/// Where two texts differ in a place, a text cannot begin with both.
proof fn lemma_not_both(a: Seq<char>, b: Seq<char>, s: Seq<char>, i: int)
    requires
        0 <= i < a.len(),
        i < b.len(),
        a[i] != b[i],
        a.is_prefix_of(s),
    ensures
        !b.is_prefix_of(s),
{
    assert(a[i] == s.subrange(0, a.len() as int)[i]);
    if b.is_prefix_of(s) {
        assert(b[i] == s.subrange(0, b.len() as int)[i]);
    }
}

proof fn lemma_end_is_summary(lower: Seq<char>)
    requires
        "test run successful"@.is_prefix_of(lower) || "test run failed"@.is_prefix_of(lower),
    ensures
        "test run "@.is_prefix_of(lower),
{
    reveal_strlit("test run ");
    reveal_strlit("test run successful");
    reveal_strlit("test run failed");
    assert("test run "@ =~= "test run successful"@.subrange(0, 9));
    assert("test run "@ =~= "test run failed"@.subrange(0, 9));
    if "test run successful"@.is_prefix_of(lower) {
        lemma_shorter_prefix("test run "@, "test run successful"@, lower);
    } else {
        lemma_shorter_prefix("test run "@, "test run failed"@, lower);
    }
}

// ---------------------------------------------------------------------------
// Kinds of lines
// ---------------------------------------------------------------------------

/// A line in lower case is of the summary exactly where it begins with `test run `, or has both
/// `passed:` and `failed:` somewhere in it.
pub proof fn law_summary_told(lower: Seq<char>)
    ensures
        is_summary(lower) <==> ("test run "@.is_prefix_of(lower) || ((exists|i: int|
            0 <= i <= lower.len() && "passed:"@.is_prefix_of(#[trigger] lower.skip(i))) && (exists|
            i: int,
        |
            0 <= i <= lower.len() && "failed:"@.is_prefix_of(#[trigger] lower.skip(i))))),
{
    law_found_first(lower, "passed:"@, 0);
    law_found_first(lower, "failed:"@, 0);
}

/// A line in lower case announces the end exactly where it begins with `test run successful` or
/// with `test run failed`.
pub proof fn law_end_told(lower: Seq<char>, rest: Seq<char>)
    ensures
        ends_run("test run successful"@ + rest),
        ends_run("test run failed"@ + rest),
        ends_run(lower) ==> lower.take("test run successful"@.len() as int)
            == "test run successful"@ || lower.take("test run failed"@.len() as int)
            == "test run failed"@,
{
    let long = "test run successful"@;
    let short = "test run failed"@;
    assert(long =~= (long + rest).subrange(0, long.len() as int));
    assert(short =~= (short + rest).subrange(0, short.len() as int));
    if long.is_prefix_of(lower) {
        assert(lower.take(long.len() as int) =~= long);
    }
    if short.is_prefix_of(lower) {
        assert(lower.take(short.len() as int) =~= short);
    }
}

/// A line that does not begin with the word of an outcome and a space is no result line.
pub proof fn law_no_outcome_no_result(text: Seq<char>, lower: Seq<char>)
    requires
        no_outcome(lower),
    ensures
        headed(text, lower) is None,
        result_in(text, lower) is None,
{
    lemma_no_heading(text, lower);
}

// ---------------------------------------------------------------------------
// Parsing and feeding
// ---------------------------------------------------------------------------

/// While no failure is pending, to feed a line is to parse it.
pub proof fn law_feeding_is_parsing(p: ParserView, raw: Seq<char>)
    requires
        p.current_failure is None,
    ensures
        ({
            let (next, result) = parsed(p, line_text(raw), lowered(line_text(raw)));
            let (fed_next, results) = fed_raw(p, raw);
            &&& fed_next == next
            &&& result is None ==> results == Seq::<ResultView>::empty()
            &&& result matches Some(r) ==> results == seq![r]
        }),
{
    let results = fed_raw(p, raw).1;
    assert(p.pending(None) == p);
}

/// A failure that does not take the line makes no difference to how it is parsed, and stays
/// pending.
pub proof fn law_parsing_passes_failure_by(
    p: ParserView,
    failure: FailureView,
    text: Seq<char>,
    lower: Seq<char>,
)
    requires
        p.current_failure == Some(failure),
        no_outcome(lower),
        no_marker(text, lower),
        !failure.in_error_block || text.len() == 0,
    ensures
        ({
            let (alone, nothing) = parsed(ParserView { current_failure: None, ..p }, text, lower);
            let (next, result) = parsed(p, text, lower);
            &&& nothing is None
            &&& result is None
            &&& next == (ParserView { current_failure: Some(failure), ..alone })
        }),
{
    lemma_no_heading(text, lower);
}

/// A failure takes the lines of its message also where it is not asked whether they close it.
pub proof fn law_parsing_hands_lines_to_failure(
    p: ParserView,
    failure: FailureView,
    text: Seq<char>,
    lower: Seq<char>,
)
    requires
        p.current_failure == Some(failure),
        no_outcome(lower),
    ensures
        parsed(p, text, lower).1 is None,
        failure.in_error_block && text.len() > 0 && no_marker(text, lower) && failure.message.len()
            < 3 ==> parsed(p, text, lower).0 == (ParserView {
            current_failure: Some(
                FailureView { message: failure.message + seq![text], ..failure },
            ),
            ..p
        }),
        failure.in_error_block && text.len() > 0 && no_marker(text, lower) && failure.message.len()
            >= 3 ==> parsed(p, text, lower).0 == p,
        text == "Error Message:"@ || text == "Standard Output Messages:"@ || lower == "[fail]"@
            ==> parsed(p, text, lower).0 == (ParserView {
            current_failure: Some(FailureView { in_error_block: true, ..failure }),
            ..p
        }),
        text != "Error Message:"@ && text != "Standard Output Messages:"@ && lower != "[fail]"@ && (
        "Stack Trace:"@.is_prefix_of(text) || "at "@.is_prefix_of(text) || "[STACK]"@.is_prefix_of(
            text,
        ) || "[OUTPUT]"@.is_prefix_of(text)) ==> parsed(p, text, lower).0 == (ParserView {
            current_failure: Some(FailureView { in_error_block: false, ..failure }),
            ..p
        }),
{
    lemma_no_heading(text, lower);
    assert(failure.message.push(text) =~= failure.message + seq![text]);
}

// ---------------------------------------------------------------------------
// Result lines
// ---------------------------------------------------------------------------

/// The word of an outcome in any case, a space or more, and a test: the counter of that outcome
/// grows by one, if it can, and the others stay. The failure before is closed. A test that passed
/// or was skipped is reported at once, behind that failure; one that failed is pending, with no
/// message yet.
pub proof fn law_result_line(
    p: ParserView,
    raw: Seq<char>,
    outcome: Outcome,
    word: Seq<char>,
    gap: Seq<char>,
    test: Seq<char>,
)
    requires
        line_text(raw) == word + gap + test,
        ({
            ||| outcome == Outcome::Passed && ascii_lowered(word) == "passed"@
            ||| outcome == Outcome::Failed && ascii_lowered(word) == "failed"@
            ||| outcome == Outcome::Skipped && ascii_lowered(word) == "skipped"@
        }),
        is_gap(gap),
        test.len() > 0,
        !is_white_space(test[0]),
        is_identifier(test),
    ensures
        outcome == Outcome::Passed ==> raw_has_room(p, raw) == (p.passed < u32::MAX),
        outcome == Outcome::Failed ==> raw_has_room(p, raw) == (p.failed < u32::MAX),
        outcome == Outcome::Skipped ==> raw_has_room(p, raw) == (p.skipped < u32::MAX),
        raw_has_room(p, raw) ==> ({
            let (next, results) = fed_raw(p, raw);
            let id = identifier_of(test);
            &&& next.run_complete == p.run_complete
            &&& next.passed == p.passed + (if outcome == Outcome::Passed {
                1int
            } else {
                0
            })
            &&& next.failed == p.failed + (if outcome == Outcome::Failed {
                1int
            } else {
                0
            })
            &&& next.skipped == p.skipped + (if outcome == Outcome::Skipped {
                1int
            } else {
                0
            })
            &&& if outcome == Outcome::Failed {
                &&& results == closing_report(p)
                &&& next.current_failure == Some(
                    FailureView {
                        test_class: id.test_class,
                        test_name: id.test_name,
                        duration: id.duration,
                        message: seq![],
                        in_error_block: false,
                    },
                )
            } else {
                &&& next.current_failure is None
                &&& results == closing_report(p).push(
                    ResultView {
                        outcome,
                        test_class: id.test_class,
                        test_name: id.test_name,
                        duration: id.duration,
                        message: None,
                    },
                )
            }
        }),
{
    law_heading_read(outcome, word, gap, test);
    if raw_has_room(p, raw) {
        let results = fed_raw(p, raw).1;
        if outcome == Outcome::Failed {
            assert(results =~= closing_report(p));
        } else {
            assert(results =~= closing_report(p).push(results.last()));
        }
    }
}

/// The word of an outcome and prose that names no test: nothing is counted and nothing changes,
/// except that a line with both labels of a summary closes the failure before it.
pub proof fn law_prose_after_outcome(
    p: ParserView,
    raw: Seq<char>,
    word: Seq<char>,
    gap: Seq<char>,
    prose: Seq<char>,
)
    requires
        line_text(raw) == word + gap + prose,
        ascii_lowered(word) == "passed"@ || ascii_lowered(word) == "failed"@ || ascii_lowered(word)
            == "skipped"@,
        is_gap(gap),
        prose.len() > 0,
        !is_white_space(prose[0]),
        !is_identifier(prose),
    ensures
        raw_has_room(p, raw),
        !has_both_labels(lowered(line_text(raw))) ==> fed_raw(p, raw) == (
            p,
            Seq::<ResultView>::empty(),
        ),
        has_both_labels(lowered(line_text(raw))) ==> fed_raw(p, raw) == (
            ParserView { current_failure: None, ..p },
            closing_report(p),
        ),
{
    let outcome = if ascii_lowered(word) == "passed"@ {
        Outcome::Passed
    } else if ascii_lowered(word) == "failed"@ {
        Outcome::Failed
    } else {
        Outcome::Skipped
    };
    law_heading_read(outcome, word, gap, prose);
    reveal_strlit("passed");
    reveal_strlit("failed");
    reveal_strlit("skipped");
    reveal_strlit("test run ");
    lemma_word_is_ascii(outcome, word);
    lemma_lowered_begins(word, gap + prose);
    assert(word + (gap + prose) =~= line_text(raw));
    lemma_not_both(ascii_lowered(word), "test run "@, lowered(line_text(raw)), 0);
    assert(fed_raw(p, raw).1 =~= (if has_both_labels(lowered(line_text(raw))) {
        closing_report(p)
    } else {
        Seq::<ResultView>::empty()
    }));
}

/// A line that does not begin as a result line does adds to no counter, so there is always room
/// for it.
pub proof fn law_room_for_other_lines(p: ParserView, raw: Seq<char>)
    requires
        no_outcome(lowered(line_text(raw))),
    ensures
        raw_has_room(p, raw),
{
    lemma_no_heading(line_text(raw), lowered(line_text(raw)));
}

/// While no counter is full, there is room for every line.
pub proof fn law_room_below_the_limit(p: ParserView, raw: Seq<char>)
    requires
        p.passed < u32::MAX,
        p.failed < u32::MAX,
        p.skipped < u32::MAX,
    ensures
        raw_has_room(p, raw),
{
}

// ---------------------------------------------------------------------------
// The lines of a failure
// ---------------------------------------------------------------------------

/// While a failure is pending, `Error Message:`, `Standard Output Messages:`, or `[FAIL]` in any
/// case opens its message: what comes now belongs to it. What has been kept stays, and nothing is
/// reported.
pub proof fn law_message_opened(p: ParserView, failure: FailureView, raw: Seq<char>)
    requires
        p.current_failure == Some(failure),
        line_text(raw) == "Error Message:"@ || line_text(raw) == "Standard Output Messages:"@
            || ascii_lowered(line_text(raw)) == "[fail]"@,
    ensures
        fed_raw(p, raw) == (
            ParserView {
                current_failure: Some(
                    FailureView {
                        test_class: failure.test_class,
                        test_name: failure.test_name,
                        duration: failure.duration,
                        message: failure.message,
                        in_error_block: true,
                    },
                ),
                ..p
            },
            Seq::<ResultView>::empty(),
        ),
        raw_has_room(p, raw),
{
    let text = line_text(raw);
    let lower = lowered(text);
    reveal_strlit("Error Message:");
    reveal_strlit("Standard Output Messages:");
    reveal_strlit("[fail]");
    reveal_strlit("passed ");
    reveal_strlit("failed ");
    reveal_strlit("skipped ");
    reveal_strlit("test run ");
    reveal_strlit("passed:");
    reveal_strlit("failed:");
    assert(text.len() == ascii_lowered(text).len());
    assert(is_ascii_chars(text)) by {
        if ascii_lowered(text) == "[fail]"@ {
            assert forall|i: int| 0 <= i < text.len() implies '\0' <= #[trigger] text[i]
                <= '\u{7f}' by {
                assert(ascii_lowered(text)[i] == "[fail]"@[i]);
            }
        }
    }
    assert(lower == ascii_lowered(text));
    let first = if text == "Error Message:"@ {
        'e'
    } else if text == "Standard Output Messages:"@ {
        's'
    } else {
        '['
    };
    assert(lower.len() > 0 && lower[0] == first && (first == 's' ==> lower[1] == 't'));
    lemma_first_differs(lower, "passed "@);
    lemma_first_differs(lower, "failed "@);
    lemma_first_differs(lower, "skipped "@);
    lemma_first_differs(lower, "test run "@);
    lemma_no_heading(text, lower);
    assert(!has_both_labels(lower)) by {
        if text == "Error Message:"@ || text == "Standard Output Messages:"@ {
            assert forall|i: int| 0 <= i < lower.len() implies #[trigger] lower[i] != 'f' by {
                assert(lower[i] == ascii_lowered(text)[i]);
            }
            lemma_cannot_occur(lower, "failed:"@);
        } else {
            lemma_cannot_occur(lower, "passed:"@);
        }
    }
    assert(fed_raw(p, raw).1 =~= Seq::<ResultView>::empty());
}

proof fn lemma_first_differs(lower: Seq<char>, prefix: Seq<char>)
    ensures
        prefix.len() > 0 && lower.len() > 0 && prefix[0] != lower[0] ==> !prefix.is_prefix_of(
            lower,
        ),
        prefix.len() > 1 && lower.len() > 1 && prefix[1] != lower[1] ==> !prefix.is_prefix_of(
            lower,
        ),
        prefix.len() > 0 && lower.len() == 0 ==> !prefix.is_prefix_of(lower),
{
    if prefix.is_prefix_of(lower) {
        if prefix.len() > 0 && lower.len() > 0 {
            assert(prefix[0] == lower.subrange(0, prefix.len() as int)[0]);
        }
        if prefix.len() > 1 && lower.len() > 1 {
            assert(prefix[1] == lower.subrange(0, prefix.len() as int)[1]);
        }
    }
}

/// A text whose first character does not come in another does not occur there.
proof fn lemma_cannot_occur(s: Seq<char>, pattern: Seq<char>)
    requires
        pattern.len() > 0,
        forall|i: int| 0 <= i < s.len() ==> #[trigger] s[i] != pattern[0],
    ensures
        !occurs(s, pattern),
{
    law_found_first(s, pattern, 0);
    assert forall|i: int| 0 <= i <= s.len() implies !pattern.is_prefix_of(#[trigger] s.skip(i)) by {
        if pattern.is_prefix_of(s.skip(i)) {
            assert(pattern[0] == s.skip(i).subrange(0, pattern.len() as int)[0]);
            assert(s[i] == pattern[0]);
        }
    }
}

/// While a failure is pending, a line that begins with `Stack Trace:`, `at `, `[STACK]` or
/// `[OUTPUT]` ends its message: what comes now does not belong to it. What has been kept stays,
/// and nothing is reported.
pub proof fn law_message_ended(p: ParserView, failure: FailureView, raw: Seq<char>)
    requires
        p.current_failure == Some(failure),
        "Stack Trace:"@.is_prefix_of(line_text(raw)) || "at "@.is_prefix_of(line_text(raw))
            || "[STACK]"@.is_prefix_of(line_text(raw)) || "[OUTPUT]"@.is_prefix_of(line_text(raw)),
        !has_both_labels(lowered(line_text(raw))),
    ensures
        fed_raw(p, raw) == (
            ParserView {
                current_failure: Some(
                    FailureView {
                        test_class: failure.test_class,
                        test_name: failure.test_name,
                        duration: failure.duration,
                        message: failure.message,
                        in_error_block: false,
                    },
                ),
                ..p
            },
            Seq::<ResultView>::empty(),
        ),
{
    let text = line_text(raw);
    let lower = lowered(text);
    reveal_strlit("Error Message:");
    reveal_strlit("Standard Output Messages:");
    reveal_strlit("Stack Trace:");
    reveal_strlit("at ");
    reveal_strlit("[STACK]");
    reveal_strlit("[OUTPUT]");
    lemma_first_differs(text, "Stack Trace:"@);
    lemma_first_differs(text, "at "@);
    lemma_first_differs(text, "[STACK]"@);
    lemma_first_differs(text, "[OUTPUT]"@);
    if text == "Standard Output Messages:"@ && "Stack Trace:"@.is_prefix_of(text) {
        assert("Stack Trace:"@[3] == text.subrange(0, 12)[3]);
    }
    let marker = if "Stack Trace:"@.is_prefix_of(text) {
        "Stack Trace:"@
    } else if "at "@.is_prefix_of(text) {
        "at "@
    } else if "[STACK]"@.is_prefix_of(text) {
        "[STACK]"@
    } else {
        "[OUTPUT]"@
    };
    let small = ascii_lowered(marker);
    assert(marker + text.skip(marker.len() as int) =~= text);
    lemma_lowered_begins(marker, text.skip(marker.len() as int));
    assert(lower[0] == small[0] && lower[1] == small[1]) by {
        assert(lower.subrange(0, small.len() as int)[0] == small[0]);
        assert(lower.subrange(0, small.len() as int)[1] == small[1]);
    }
    reveal_strlit("passed ");
    reveal_strlit("failed ");
    reveal_strlit("skipped ");
    reveal_strlit("test run ");
    reveal_strlit("[fail]");
    assert(small[0] == 's' && small[1] == 't' || small[0] == 'a' || small[0] == '[' && (small[1]
        == 's' || small[1] == 'o'));
    lemma_first_differs(lower, "passed "@);
    lemma_first_differs(lower, "failed "@);
    lemma_first_differs(lower, "skipped "@);
    lemma_first_differs(lower, "test run "@);
    assert("[fail]"@[0] == '[' && "[fail]"@[1] == 'f');
    lemma_no_heading(text, lower);
    assert(fed_raw(p, raw).1 =~= Seq::<ResultView>::empty());
}

/// While the message of a failure is open, a line of no other kind is kept as it is, behind those
/// before it, unless three have been kept. Nothing is reported and nothing else changes.
pub proof fn law_message_collected(p: ParserView, failure: FailureView, raw: Seq<char>)
    requires
        p.current_failure == Some(failure),
        failure.in_error_block,
        line_text(raw).len() > 0,
        no_outcome(lowered(line_text(raw))),
        no_summary(lowered(line_text(raw))),
        no_marker(line_text(raw), lowered(line_text(raw))),
    ensures
        fed_raw(p, raw) == (
            ParserView {
                current_failure: Some(
                    FailureView {
                        test_class: failure.test_class,
                        test_name: failure.test_name,
                        duration: failure.duration,
                        message: if failure.message.len() < 3 {
                            failure.message + seq![line_text(raw)]
                        } else {
                            failure.message
                        },
                        in_error_block: true,
                    },
                ),
                ..p
            },
            Seq::<ResultView>::empty(),
        ),
{
    lemma_no_heading(line_text(raw), lowered(line_text(raw)));
    assert(failure.message.push(line_text(raw)) =~= failure.message + seq![line_text(raw)]);
    assert(fed_raw(p, raw).1 =~= Seq::<ResultView>::empty());
}

/// A blank line closes the failure before it, and does nothing else.
pub proof fn law_blank_line(p: ParserView, raw: Seq<char>)
    requires
        line_text(raw).len() == 0,
    ensures
        fed_raw(p, raw) == (ParserView { current_failure: None, ..p }, closing_report(p)),
{
    let text = line_text(raw);
    let lower = lowered(text);
    assert(lower.len() == 0);
    lemma_all_literals_differ(lower);
    lemma_no_heading(text, lower);
    assert(forall|i: int| 0 <= i < lower.len() ==> lower[i] != 'p');
    reveal_strlit("passed:");
    lemma_cannot_occur(lower, "passed:"@);
    assert(fed_raw(p, raw).1 =~= closing_report(p));
}

/// An empty line begins with none of the words.
proof fn lemma_all_literals_differ(lower: Seq<char>)
    requires
        lower.len() == 0,
    ensures
        no_outcome(lower),
        !"test run "@.is_prefix_of(lower),
        !"test run successful"@.is_prefix_of(lower),
        !"test run failed"@.is_prefix_of(lower),
        !"passed:"@.is_prefix_of(lower),
        !"failed:"@.is_prefix_of(lower),
        !"skipped:"@.is_prefix_of(lower),
{
    reveal_strlit("passed ");
    reveal_strlit("failed ");
    reveal_strlit("skipped ");
    reveal_strlit("test run ");
    reveal_strlit("test run successful");
    reveal_strlit("test run failed");
    reveal_strlit("passed:");
    reveal_strlit("failed:");
    reveal_strlit("skipped:");
}

// ---------------------------------------------------------------------------
// The summary
// ---------------------------------------------------------------------------

/// A line with both labels of a summary in it closes the failure before it and completes the run.
/// Its three counts replace those that were counted; where one of them is missing, all stay.
pub proof fn law_summary_line(p: ParserView, raw: Seq<char>)
    requires
        no_outcome(lowered(line_text(raw))),
        has_both_labels(lowered(line_text(raw))),
    ensures
        ({
            let lower = lowered(line_text(raw));
            let passed = count_after(lower, "passed:"@);
            let failed = count_after(lower, "failed:"@);
            let skipped = count_after(lower, "skipped:"@);
            let (next, results) = fed_raw(p, raw);
            &&& results == closing_report(p)
            &&& next.run_complete
            &&& next.current_failure is None
            &&& if passed is Some && failed is Some && skipped is Some {
                &&& Some(next.passed) == passed
                &&& Some(next.failed) == failed
                &&& Some(next.skipped) == skipped
            } else {
                &&& next.passed == p.passed
                &&& next.failed == p.failed
                &&& next.skipped == p.skipped
            }
        }),
{
    lemma_no_heading(line_text(raw), lowered(line_text(raw)));
    assert(fed_raw(p, raw).1 =~= closing_report(p));
}

/// The count of a label is the number that follows its first occurrence, white space aside. There
/// is none where the label does not occur, where no digit follows it, or where the number is too
/// large.
pub proof fn law_count_behind_label(
    before: Seq<char>,
    label: Seq<char>,
    gap: Seq<char>,
    digits: Seq<char>,
    after: Seq<char>,
)
    requires
        forall|i: int|
            0 <= i < before.len() ==> !label.is_prefix_of(
                #[trigger] (before + label + (gap + digits + after)).skip(i),
            ),
        all_white(gap),
        forall|i: int| 0 <= i < digits.len() ==> '0' <= #[trigger] digits[i] && digits[i] <= '9',
        after.len() > 0 ==> !('0' <= after[0] && after[0] <= '9'),
        digits.len() == 0 && after.len() > 0 ==> !is_white_space(after[0]),
    ensures
        ({
            let line = before + label + (gap + digits + after);
            if digits.len() > 0 && decimal(digits) <= u32::MAX {
                count_after(line, label) == Some(decimal(digits) as u32)
            } else {
                count_after(line, label) is None
            }
        }),
{
    let rest = gap + digits + after;
    let line = before + label + rest;
    let n = before.len() as int;
    assert(line.skip(n) =~= label + rest);
    assert(label =~= (label + rest).subrange(0, label.len() as int));
    law_found_first(line, label, n);
    assert(line.skip(n + label.len()) =~= rest);
    let tail = digits + after;
    if digits.len() > 0 {
        assert(tail[0] == digits[0]);
        assert(!is_white_space(digits[0]));
    } else if after.len() > 0 {
        assert(tail[0] == after[0]);
    }
    law_strip_front(gap, tail, CharClass::WhiteSpace);
    assert(gap + tail =~= rest);
    assert forall|i: int| 0 <= i < digits.len() implies CharClass::Digit.has(
        #[trigger] digits[i],
    ) by {}
    law_strip_front(digits, after, CharClass::Digit);
    assert(tail.take(digits.len() as int) =~= digits);
    if digits.len() > 0 && decimal(digits) <= u32::MAX {
        law_counts_read(digits, decimal(digits) as u32);
    } else if digits_to_count(digits) is Some {
        law_counts_read(digits, digits_to_count(digits)->0);
    }
}

/// No count is read of a label that does not occur.
pub proof fn law_no_label_no_count(line: Seq<char>, label: Seq<char>)
    requires
        forall|i: int| 0 <= i <= line.len() ==> !label.is_prefix_of(#[trigger] line.skip(i)),
    ensures
        count_after(line, label) is None,
{
    law_found_first(line, label, 0);
}

/// A line that begins with `test run successful` or `test run failed`, in any case, closes the
/// failure before it and completes the run. The counters stay, unless it gives counts itself.
pub proof fn law_end_of_run(p: ParserView, raw: Seq<char>)
    requires
        "test run successful"@.is_prefix_of(lowered(line_text(raw))) || "test run failed"@
            .is_prefix_of(lowered(line_text(raw))),
        !has_both_labels(lowered(line_text(raw))),
    ensures
        fed_raw(p, raw) == (
            ParserView { run_complete: true, current_failure: None, ..p },
            closing_report(p),
        ),
{
    let lower = lowered(line_text(raw));
    lemma_end_is_summary(lower);
    lemma_test_run_is_no_other(lower);
    lemma_no_heading(line_text(raw), lower);
    assert(fed_raw(p, raw).1 =~= closing_report(p));
}

proof fn lemma_test_run_is_no_other(lower: Seq<char>)
    requires
        "test run "@.is_prefix_of(lower),
    ensures
        no_outcome(lower),
        !"passed:"@.is_prefix_of(lower),
        !"failed:"@.is_prefix_of(lower),
        !"skipped:"@.is_prefix_of(lower),
{
    reveal_strlit("passed ");
    reveal_strlit("failed ");
    reveal_strlit("skipped ");
    reveal_strlit("test run ");
    reveal_strlit("passed:");
    reveal_strlit("failed:");
    reveal_strlit("skipped:");
    lemma_not_both("test run "@, "passed "@, lower, 0);
    lemma_not_both("test run "@, "failed "@, lower, 0);
    lemma_not_both("test run "@, "skipped "@, lower, 0);
    lemma_not_both("test run "@, "passed:"@, lower, 0);
    lemma_not_both("test run "@, "failed:"@, lower, 0);
    lemma_not_both("test run "@, "skipped:"@, lower, 0);
}

/// Any other line that begins with `test run `, such as `Test Run Aborted.`, closes the failure
/// before it and does nothing else.
pub proof fn law_other_test_run_line(p: ParserView, raw: Seq<char>)
    requires
        "test run "@.is_prefix_of(lowered(line_text(raw))),
        !"test run successful"@.is_prefix_of(lowered(line_text(raw))),
        !"test run failed"@.is_prefix_of(lowered(line_text(raw))),
        !has_both_labels(lowered(line_text(raw))),
    ensures
        fed_raw(p, raw) == (ParserView { current_failure: None, ..p }, closing_report(p)),
{
    let lower = lowered(line_text(raw));
    lemma_test_run_is_no_other(lower);
    lemma_no_heading(line_text(raw), lower);
    assert(fed_raw(p, raw).1 =~= closing_report(p));
}

/// Whether no failure takes the line for itself: none is pending, or its message is not open and
/// the line is no marker.
pub open spec fn taken_by_no_failure(p: ParserView, raw: Seq<char>) -> bool {
    p.current_failure matches Some(failure) ==> !failure.in_error_block && no_marker(
        line_text(raw),
        lowered(line_text(raw)),
    )
}

/// Once the run is complete, a label and a number replace the count of that label, whatever it was
/// before. Where no number follows, nothing changes. Nothing is reported.
pub proof fn law_count_on_its_own(
    p: ParserView,
    raw: Seq<char>,
    outcome: Outcome,
    label: Seq<char>,
    gap: Seq<char>,
    number: Seq<char>,
    back: Seq<char>,
)
    requires
        p.run_complete,
        taken_by_no_failure(p, raw),
        ({
            ||| outcome == Outcome::Passed && label == "passed:"@
            ||| outcome == Outcome::Failed && label == "failed:"@
            ||| outcome == Outcome::Skipped && label == "skipped:"@
        }),
        lowered(line_text(raw)) == label + (gap + number + back),
        all_white(gap),
        all_white(back),
        number.len() > 0 ==> !is_white_space(number[0]) && !is_white_space(number.last()),
        line_text(raw).len() > 0,
        !has_both_labels(lowered(line_text(raw))),
    ensures
        ({
            let (next, results) = fed_raw(p, raw);
            let read = text_to_count(number);
            &&& results == Seq::<ResultView>::empty()
            &&& next.run_complete
            &&& next.current_failure == p.current_failure
            &&& next.passed == (if outcome == Outcome::Passed && read is Some {
                read->0
            } else {
                p.passed
            })
            &&& next.failed == (if outcome == Outcome::Failed && read is Some {
                read->0
            } else {
                p.failed
            })
            &&& next.skipped == (if outcome == Outcome::Skipped && read is Some {
                read->0
            } else {
                p.skipped
            })
        }),
{
    let lower = lowered(line_text(raw));
    let rest = gap + number + back;
    assert(label =~= lower.subrange(0, label.len() as int));
    assert(lower.skip(label.len() as int) =~= rest);
    law_trim(gap, number, back);
    lemma_label_is_no_other(label, lower);
    lemma_no_heading(line_text(raw), lower);
    assert(fed_raw(p, raw).1 =~= Seq::<ResultView>::empty());
}

proof fn lemma_label_is_no_other(label: Seq<char>, lower: Seq<char>)
    requires
        label == "passed:"@ || label == "failed:"@ || label == "skipped:"@,
        label.is_prefix_of(lower),
    ensures
        no_outcome(lower),
        !"test run "@.is_prefix_of(lower),
        !"test run successful"@.is_prefix_of(lower),
        !"test run failed"@.is_prefix_of(lower),
        "passed:"@.is_prefix_of(lower) <==> label == "passed:"@,
        "failed:"@.is_prefix_of(lower) <==> label == "failed:"@,
        "skipped:"@.is_prefix_of(lower) <==> label == "skipped:"@,
        "passed:"@ != "failed:"@,
        "failed:"@ != "skipped:"@,
        "skipped:"@ != "passed:"@,
{
    reveal_strlit("passed ");
    reveal_strlit("failed ");
    reveal_strlit("skipped ");
    reveal_strlit("test run ");
    reveal_strlit("test run successful");
    reveal_strlit("test run failed");
    reveal_strlit("passed:");
    reveal_strlit("failed:");
    reveal_strlit("skipped:");
    assert("passed:"@[0] == 'p' && "failed:"@[0] == 'f' && "skipped:"@[0] == 's');
    lemma_not_both(label, "test run "@, lower, 0);
    lemma_not_both(label, "test run successful"@, lower, 0);
    lemma_not_both(label, "test run failed"@, lower, 0);
    if label == "passed:"@ {
        lemma_not_both(label, "passed "@, lower, 6);
    } else {
        lemma_not_both(label, "passed "@, lower, 0);
        lemma_not_both(label, "passed:"@, lower, 0);
    }
    if label == "failed:"@ {
        lemma_not_both(label, "failed "@, lower, 6);
    } else {
        lemma_not_both(label, "failed "@, lower, 0);
        lemma_not_both(label, "failed:"@, lower, 0);
    }
    if label == "skipped:"@ {
        lemma_not_both(label, "skipped "@, lower, 7);
    } else {
        lemma_not_both(label, "skipped "@, lower, 0);
        lemma_not_both(label, "skipped:"@, lower, 0);
    }
}

/// Once the run is complete and no failure is pending, a line that is a label in any case, white
/// space, and the digits of a number of 32 bits leaves the counter of that label at that number,
/// and everything else as it was.
pub proof fn law_count_replaces(
    p: ParserView,
    raw: Seq<char>,
    outcome: Outcome,
    label: Seq<char>,
    gap: Seq<char>,
    digits: Seq<char>,
)
    requires
        p.run_complete,
        p.current_failure is None,
        line_text(raw) == label + gap + digits,
        ({
            ||| outcome == Outcome::Passed && ascii_lowered(label) == "passed:"@
            ||| outcome == Outcome::Failed && ascii_lowered(label) == "failed:"@
            ||| outcome == Outcome::Skipped && ascii_lowered(label) == "skipped:"@
        }),
        is_ascii_chars(gap),
        all_white(gap),
        digits.len() > 0,
        forall|i: int| 0 <= i < digits.len() ==> '0' <= #[trigger] digits[i] && digits[i] <= '9',
        decimal(digits) <= u32::MAX,
    ensures
        fed_raw(p, raw).1 == Seq::<ResultView>::empty(),
        outcome == Outcome::Passed ==> fed_raw(p, raw).0 == (ParserView {
            passed: decimal(digits) as u32,
            ..p
        }),
        outcome == Outcome::Failed ==> fed_raw(p, raw).0 == (ParserView {
            failed: decimal(digits) as u32,
            ..p
        }),
        outcome == Outcome::Skipped ==> fed_raw(p, raw).0 == (ParserView {
            skipped: decimal(digits) as u32,
            ..p
        }),
{
    let text = line_text(raw);
    let lower = lowered(text);
    let small = ascii_lowered(label);
    let none = Seq::<char>::empty();
    reveal_strlit("passed:");
    reveal_strlit("failed:");
    reveal_strlit("skipped:");
    assert(label.len() == small.len());
    assert forall|i: int| 0 <= i < text.len() implies '\0' <= #[trigger] text[i] <= '\u{7f}' by {
        if i < label.len() {
            assert(text[i] == label[i]);
            assert(small[i] <= '\u{7f}');
        } else if i < label.len() + gap.len() {
            assert(text[i] == gap[i - label.len()]);
        } else {
            assert(text[i] == digits[i - label.len() - gap.len()]);
        }
    }
    let rest = gap + digits + none;
    assert forall|i: int| 0 <= i < text.len() implies #[trigger] lower[i] == (small + rest)[i] by {
        if i < label.len() {
            assert(text[i] == label[i]);
        } else if i < label.len() + gap.len() {
            assert(text[i] == gap[i - label.len()]);
            assert(rest[i - label.len()] == gap[i - label.len()]);
        } else {
            assert(text[i] == digits[i - label.len() - gap.len()]);
            assert(rest[i - label.len()] == digits[i - label.len() - gap.len()]);
        }
    }
    assert(lower =~= small + rest);
    assert(!has_both_labels(lower)) by {
        let other = if outcome == Outcome::Passed {
            "failed:"@
        } else {
            "passed:"@
        };
        assert forall|i: int| 0 <= i < lower.len() implies #[trigger] lower[i] != other[0]
            || outcome == Outcome::Skipped by {
            if i < label.len() {
                assert(lower[i] == small[i]);
            } else if i < label.len() + gap.len() {
                assert(lower[i] == gap[i - label.len()]);
            } else {
                assert(lower[i] == digits[i - label.len() - gap.len()]);
            }
        }
        if outcome == Outcome::Skipped {
            assert forall|i: int| 0 <= i < lower.len() implies #[trigger] lower[i] != 'f' by {
                if i < label.len() {
                    assert(lower[i] == small[i]);
                } else if i < label.len() + gap.len() {
                    assert(lower[i] == gap[i - label.len()]);
                } else {
                    assert(lower[i] == digits[i - label.len() - gap.len()]);
                }
            }
            lemma_cannot_occur(lower, "failed:"@);
        } else {
            lemma_cannot_occur(lower, other);
        }
    }
    assert(!is_white_space(digits[0]) && !is_white_space(digits[digits.len() - 1]));
    law_count_on_its_own(p, raw, outcome, small, gap, digits, none);
    law_counts_read(digits, decimal(digits) as u32);
    assert(digits[0] != '+');
}

/// A line of no kind changes nothing and reports nothing.
pub proof fn law_any_other_line(p: ParserView, raw: Seq<char>)
    requires
        line_text(raw).len() > 0,
        no_outcome(lowered(line_text(raw))),
        no_summary(lowered(line_text(raw))),
        taken_by_no_failure(p, raw),
        p.run_complete ==> !"passed:"@.is_prefix_of(lowered(line_text(raw))) && !"failed:"@
            .is_prefix_of(lowered(line_text(raw))) && !"skipped:"@.is_prefix_of(
            lowered(line_text(raw)),
        ),
    ensures
        fed_raw(p, raw) == (p, Seq::<ResultView>::empty()),
{
    let lower = lowered(line_text(raw));
    lemma_no_heading(line_text(raw), lower);
    if "test run successful"@.is_prefix_of(lower) || "test run failed"@.is_prefix_of(lower) {
        lemma_end_is_summary(lower);
    }
    assert(fed_raw(p, raw).1 =~= Seq::<ResultView>::empty());
}

} // verus!
