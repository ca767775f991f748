//! The parser of what `dotnet test` prints.
//!
//! Result lines, in the wording of the several test frameworks:
//!
//! ```text
//!   Passed  MyNamespace.FooTests.SomeMethod [12 ms]
//!   Failed  MyNamespace.FooTests.OtherMethod [5 ms]
//!     Error Message:
//!       System.Exception : boom
//!   Skipped MyNamespace.FooTests.SkipMethod
//! ```
//!
//! Summary lines:
//!
//! ```text
//! Test Run Failed.
//! Failed!  - Failed:     2, Passed:     8, Skipped:    1, Total:    11, Duration: 245 ms
//!      Passed: 8
//! ```

use vstd::prelude::*;
use vstd::utf8::{encode_utf8, is_char_boundary};

use crate::identifier::{
    duration_view, identifier_of, is_identifier, looks_like_test_identifier, split_test_identifier,
    DurationView, TestDuration,
};
use crate::text::{
    begins_with, cut_bytes, digits_to_count, find, find_text, has_text, join, joined, leading,
    occurs, parse_count, parse_decimal, same_text, strip_leading, strip_trailing, text_after,
    text_to_count, texts, trim, trimmed, without_leading, without_trailing, CharClass,
};
use crate::unicode::{lowered, to_lowercase};

verus! {

/// How a test ended.
#[derive(Clone, Copy, Debug, PartialEq, Eq, Structural)]
pub enum Outcome {
    Passed,
    Failed,
    Skipped,
}

impl Outcome {
    /// The word for the outcome in events.
    pub open spec fn word(self) -> Seq<char> {
        match self {
            Outcome::Passed => "passed"@,
            Outcome::Failed => "failed"@,
            Outcome::Skipped => "skipped"@,
        }
    }

    /// What a result line of this outcome begins with, in lower case: the word and one space.
    pub open spec fn heading(self) -> Seq<char> {
        match self {
            Outcome::Passed => "passed "@,
            Outcome::Failed => "failed "@,
            Outcome::Skipped => "skipped "@,
        }
    }

    /// The same with two spaces.
    pub open spec fn wide_heading(self) -> Seq<char> {
        match self {
            Outcome::Passed => "passed  "@,
            Outcome::Failed => "failed  "@,
            Outcome::Skipped => "skipped  "@,
        }
    }

    /// The word for the outcome in events.
    pub fn as_str(self) -> (r: &'static str)
        ensures
            r@ == self.word(),
    {
        match self {
            Outcome::Passed => "passed",
            Outcome::Failed => "failed",
            Outcome::Skipped => "skipped",
        }
    }
}

/// A test that has run, or was skipped.
#[derive(Debug)]
pub struct TestResult {
    pub outcome: Outcome,
    pub test_class: String,
    pub test_name: String,
    /// Missing where the line gave none.
    pub duration: Option<TestDuration>,
    /// What the test printed when it failed; only a failed test has it.
    pub message: Option<String>,
}

/// The contents of a `TestResult`.
#[verifier::ext_equal]
pub struct ResultView {
    pub outcome: Outcome,
    pub test_class: Seq<char>,
    pub test_name: Seq<char>,
    pub duration: Option<DurationView>,
    pub message: Option<Seq<char>>,
}

/// The contents of a text that may be missing.
pub open spec fn text_view(text: Option<String>) -> Option<Seq<char>> {
    match text {
        Some(s) => Some(s@),
        None => None,
    }
}

impl View for TestResult {
    type V = ResultView;

    open spec fn view(&self) -> ResultView {
        ResultView {
            outcome: self.outcome,
            test_class: self.test_class@,
            test_name: self.test_name@,
            duration: duration_view(self.duration),
            message: text_view(self.message),
        }
    }
}

/// The contents of a list of results.
pub open spec fn results_view(results: Seq<TestResult>) -> Seq<ResultView> {
    results.map_values(|r: TestResult| r@)
}

/// A failed test whose message may still be printed.
#[derive(Debug)]
pub struct PendingFailure {
    pub test_class: String,
    pub test_name: String,
    pub duration: Option<TestDuration>,
    /// The first lines of the message.
    pub message: Vec<String>,
    /// Whether the lines that come now belong to the message.
    pub in_error_block: bool,
}

/// The contents of a `PendingFailure`.
#[verifier::ext_equal]
pub struct FailureView {
    pub test_class: Seq<char>,
    pub test_name: Seq<char>,
    pub duration: Option<DurationView>,
    pub message: Seq<Seq<char>>,
    pub in_error_block: bool,
}

impl View for PendingFailure {
    type V = FailureView;

    open spec fn view(&self) -> FailureView {
        FailureView {
            test_class: self.test_class@,
            test_name: self.test_name@,
            duration: duration_view(self.duration),
            message: texts(self.message@),
            in_error_block: self.in_error_block,
        }
    }
}

/// How many lines of a failure message are kept.
pub const MAX_MESSAGE_LINES: usize = 3;

/// The state of the parser between two lines.
#[derive(Debug)]
pub struct DotnetTestParser {
    pub passed: u32,
    pub failed: u32,
    pub skipped: u32,
    /// Set when the end of the run has been announced: no more result lines will follow.
    pub run_complete: bool,
    /// The failed test that has not been reported yet.
    pub current_failure: Option<PendingFailure>,
}

/// The contents of a `DotnetTestParser`.
#[verifier::ext_equal]
pub struct ParserView {
    pub passed: u32,
    pub failed: u32,
    pub skipped: u32,
    pub run_complete: bool,
    pub current_failure: Option<FailureView>,
}

impl View for DotnetTestParser {
    type V = ParserView;

    open spec fn view(&self) -> ParserView {
        ParserView {
            passed: self.passed,
            failed: self.failed,
            skipped: self.skipped,
            run_complete: self.run_complete,
            current_failure: match self.current_failure {
                Some(failure) => Some(failure@),
                None => None,
            },
        }
    }
}

impl ParserView {
    /// No more lines of a message are kept than `MAX_MESSAGE_LINES`.
    pub open spec fn wf(self) -> bool {
        self.current_failure matches Some(failure) ==> failure.message.len() <= MAX_MESSAGE_LINES
    }

    /// The parser before the first line.
    pub open spec fn initial() -> ParserView {
        ParserView {
            passed: 0,
            failed: 0,
            skipped: 0,
            run_complete: false,
            current_failure: None,
        }
    }

    /// How many tests have ended so.
    pub open spec fn count(self, outcome: Outcome) -> u32 {
        match outcome {
            Outcome::Passed => self.passed,
            Outcome::Failed => self.failed,
            Outcome::Skipped => self.skipped,
        }
    }

    /// One more test has ended so.
    pub open spec fn counted(self, outcome: Outcome) -> ParserView {
        match outcome {
            Outcome::Passed => ParserView { passed: (self.passed + 1) as u32, ..self },
            Outcome::Failed => ParserView { failed: (self.failed + 1) as u32, ..self },
            Outcome::Skipped => ParserView { skipped: (self.skipped + 1) as u32, ..self },
        }
    }

    /// The three counts replaced by those of a summary.
    pub open spec fn with_counts(self, passed: u32, failed: u32, skipped: u32) -> ParserView {
        ParserView { passed, failed, skipped, ..self }
    }

    pub open spec fn completed(self) -> ParserView {
        ParserView { run_complete: true, ..self }
    }

    pub open spec fn pending(self, failure: Option<FailureView>) -> ParserView {
        ParserView { current_failure: failure, ..self }
    }
}

// ---------------------------------------------------------------------------
// The grammar: what a line says, given the line and the line in lower case.
// ---------------------------------------------------------------------------

/// What follows `prefix` in `line`, where `lower`, the line in lower case, begins with it. The
/// prefix is cut off the line as it was printed by its length in bytes, and must end there
/// where a character ends.
pub open spec fn after_prefix(line: Seq<char>, lower: Seq<char>, prefix: Seq<char>) -> Option<
    Seq<char>,
> {
    let n = encode_utf8(prefix).len() as int;
    if prefix.is_prefix_of(lower) && is_char_boundary(encode_utf8(line), n) {
        Some(without_leading(text_after(line, n), CharClass::WhiteSpace))
    } else {
        None
    }
}

/// What follows the heading of a result line of the given outcome.
pub open spec fn after_heading(line: Seq<char>, lower: Seq<char>, outcome: Outcome) -> Option<
    Seq<char>,
> {
    match after_prefix(line, lower, outcome.wide_heading()) {
        Some(rest) => Some(rest),
        None => after_prefix(line, lower, outcome.heading()),
    }
}

/// The outcome whose heading the line has, and what follows the heading.
pub open spec fn headed(line: Seq<char>, lower: Seq<char>) -> Option<(Outcome, Seq<char>)> {
    match after_heading(line, lower, Outcome::Passed) {
        Some(rest) => Some((Outcome::Passed, rest)),
        None => match after_heading(line, lower, Outcome::Failed) {
            Some(rest) => Some((Outcome::Failed, rest)),
            None => match after_heading(line, lower, Outcome::Skipped) {
                Some(rest) => Some((Outcome::Skipped, rest)),
                None => None,
            },
        },
    }
}

/// The outcome and the test of a result line; nothing where the line is none.
pub open spec fn result_in(line: Seq<char>, lower: Seq<char>) -> Option<(Outcome, Seq<char>)> {
    match headed(line, lower) {
        Some((outcome, rest)) => if is_identifier(rest) {
            Some((outcome, rest))
        } else {
            None
        },
        None => None,
    }
}

/// Whether the line gives the counts of the whole run.
pub open spec fn gives_counts(lower: Seq<char>) -> bool {
    occurs(lower, "failed:"@) && occurs(lower, "passed:"@)
}

/// Whether the line belongs to the summary of the run.
pub open spec fn is_summary(lower: Seq<char>) -> bool {
    "test run "@.is_prefix_of(lower) || gives_counts(lower)
}

/// Whether the line announces the end of the run.
pub open spec fn ends_run(lower: Seq<char>) -> bool {
    "test run successful"@.is_prefix_of(lower) || "test run failed"@.is_prefix_of(lower)
}

/// The number behind the first occurrence of a label.
pub open spec fn count_after(line: Seq<char>, label: Seq<char>) -> Option<u32> {
    match find(line, label) {
        Some(n) => {
            let rest = without_leading(line.skip(n + label.len()), CharClass::WhiteSpace);
            digits_to_count(rest.take(leading(rest, CharClass::Digit) as int))
        },
        None => None,
    }
}

/// Whether the line opens the message of a failure.
pub open spec fn opens_message(line: Seq<char>, lower: Seq<char>) -> bool {
    line == "Error Message:"@ || line == "Standard Output Messages:"@ || lower == "[fail]"@
}

/// Whether the line belongs to a stack trace or to captured output. Such a line ends the message
/// of a failure.
pub open spec fn is_trace(line: Seq<char>) -> bool {
    ||| "Stack Trace:"@.is_prefix_of(line)
    ||| "at "@.is_prefix_of(line)
    ||| "[STACK]"@.is_prefix_of(line)
    ||| "[OUTPUT]"@.is_prefix_of(line)
}

/// What a line that is no result line does to a pending failure; nothing where the line does
/// not belong to it.
pub open spec fn failure_after(failure: FailureView, line: Seq<char>, lower: Seq<char>) -> Option<
    FailureView,
> {
    if opens_message(line, lower) {
        Some(FailureView { in_error_block: true, ..failure })
    } else if is_trace(line) {
        Some(FailureView { in_error_block: false, ..failure })
    } else if failure.in_error_block && line.len() > 0 {
        if failure.message.len() < MAX_MESSAGE_LINES {
            Some(FailureView { message: failure.message.push(line), ..failure })
        } else {
            Some(failure)
        }
    } else {
        None
    }
}

/// What a line of the summary does to the parser.
pub open spec fn summed_up(p: ParserView, lower: Seq<char>) -> ParserView {
    if gives_counts(lower) {
        match (
            count_after(lower, "passed:"@),
            count_after(lower, "failed:"@),
            count_after(lower, "skipped:"@),
        ) {
            (Some(passed), Some(failed), Some(skipped)) => p.with_counts(
                passed,
                failed,
                skipped,
            ).completed(),
            _ => p.completed(),
        }
    } else if ends_run(lower) {
        p.completed()
    } else if !p.run_complete {
        p
    } else {
        counted_apart(p, lower)
    }
}

/// The number in a line that consists of a label and a number.
pub open spec fn labelled(lower: Seq<char>, label: Seq<char>) -> Option<u32> {
    text_to_count(trimmed(lower.skip(label.len() as int)))
}

/// What a line with one of the counts does to the parser once the run is complete.
pub open spec fn counted_apart(p: ParserView, lower: Seq<char>) -> ParserView {
    if "passed:"@.is_prefix_of(lower) {
        match labelled(lower, "passed:"@) {
            Some(passed) => ParserView { passed, ..p },
            None => p,
        }
    } else if "failed:"@.is_prefix_of(lower) {
        match labelled(lower, "failed:"@) {
            Some(failed) => ParserView { failed, ..p },
            None => p,
        }
    } else if "skipped:"@.is_prefix_of(lower) {
        match labelled(lower, "skipped:"@) {
            Some(skipped) => ParserView { skipped, ..p },
            None => p,
        }
    } else {
        p
    }
}

/// What is reported at once of a test that passed or was skipped.
pub open spec fn plain_result(outcome: Outcome, test: Seq<char>) -> ResultView {
    let id = identifier_of(test);
    ResultView {
        outcome,
        test_class: id.test_class,
        test_name: id.test_name,
        duration: id.duration,
        message: None,
    }
}

/// What is kept of a test that failed until its message is complete.
pub open spec fn new_failure(test: Seq<char>) -> FailureView {
    let id = identifier_of(test);
    FailureView {
        test_class: id.test_class,
        test_name: id.test_name,
        duration: id.duration,
        message: seq![],
        in_error_block: false,
    }
}

/// What is reported of a failure.
pub open spec fn failure_result(failure: FailureView) -> ResultView {
    ResultView {
        outcome: Outcome::Failed,
        test_class: failure.test_class,
        test_name: failure.test_name,
        duration: failure.duration,
        message: Some(trimmed(joined(failure.message))),
    }
}

/// Whether the counter that the line adds to, if any, has not reached its limit.
pub open spec fn has_room(p: ParserView, line: Seq<char>, lower: Seq<char>) -> bool {
    result_in(line, lower) matches Some((outcome, _)) ==> p.count(outcome) < u32::MAX
}

/// The parser after a line, and what the line reports.
pub open spec fn parsed(p: ParserView, line: Seq<char>, lower: Seq<char>) -> (
    ParserView,
    Option<ResultView>,
) {
    match headed(line, lower) {
        Some((outcome, rest)) => if !is_identifier(rest) {
            (p, None)
        } else if outcome == Outcome::Failed {
            (p.counted(outcome).pending(Some(new_failure(rest))), None)
        } else {
            (p.counted(outcome), Some(plain_result(outcome, rest)))
        },
        None => match p.current_failure {
            Some(failure) => match failure_after(failure, line, lower) {
                Some(next) => (p.pending(Some(next)), None),
                None => (summed_up(p, lower), None),
            },
            None => (summed_up(p, lower), None),
        },
    }
}

/// Whether the line ends the message of the failure before it.
pub open spec fn ends_message(line: Seq<char>, lower: Seq<char>) -> bool {
    result_in(line, lower) is Some || is_summary(lower) || line.len() == 0
}

/// None or one, as a sequence.
pub open spec fn at_most_one(result: Option<ResultView>) -> Seq<ResultView> {
    match result {
        Some(r) => seq![r],
        None => seq![],
    }
}

/// The parser after a line, and what is reported: the failure that the line closes, then what
/// the line itself reports.
pub open spec fn fed(p: ParserView, line: Seq<char>, lower: Seq<char>) -> (
    ParserView,
    Seq<ResultView>,
) {
    if ends_message(line, lower) && p.current_failure is Some {
        let (next, result) = parsed(p.pending(None), line, lower);
        (next, seq![failure_result(p.current_failure->0)] + at_most_one(result))
    } else {
        let (next, result) = parsed(p, line, lower);
        (next, at_most_one(result))
    }
}

/// A line as the grammar sees it: without its line end, and without white space around it.
pub open spec fn line_text(raw: Seq<char>) -> Seq<char> {
    trimmed(without_trailing(raw, CharClass::LineEnd))
}

/// `fed` of a line as it was printed.
pub open spec fn fed_raw(p: ParserView, raw: Seq<char>) -> (ParserView, Seq<ResultView>) {
    fed(p, line_text(raw), lowered(line_text(raw)))
}

/// `has_room` of a line as it was printed.
pub open spec fn raw_has_room(p: ParserView, raw: Seq<char>) -> bool {
    has_room(p, line_text(raw), lowered(line_text(raw)))
}

// ---------------------------------------------------------------------------
// The functions on lines.
// ---------------------------------------------------------------------------

fn strip_prefix_lowered<'a>(line: &'a str, lower: &str, prefix: &str) -> (r: Option<&'a str>)
    ensures
        match r {
            Some(rest) => after_prefix(line@, lower@, prefix@) == Some(rest@),
            None => after_prefix(line@, lower@, prefix@) is None,
        },
{
    if begins_with(lower, prefix) {
        proof {
            vstd::utf8::encode_utf8_valid_utf8(line@);
        }
        let n: usize = prefix.as_bytes().len();
        match cut_bytes(line, n) {
            Some(rest) => Some(strip_leading(rest, CharClass::WhiteSpace)),
            None => None,
        }
    } else {
        None
    }
}

fn strip_heading<'a>(line: &'a str, lower: &str, outcome: Outcome) -> (r: Option<&'a str>)
    ensures
        match r {
            Some(rest) => after_heading(line@, lower@, outcome) == Some(rest@),
            None => after_heading(line@, lower@, outcome) is None,
        },
{
    let (wide, narrow) = match outcome {
        Outcome::Passed => ("passed  ", "passed "),
        Outcome::Failed => ("failed  ", "failed "),
        Outcome::Skipped => ("skipped  ", "skipped "),
    };
    match strip_prefix_lowered(line, lower, wide) {
        Some(rest) => Some(rest),
        None => strip_prefix_lowered(line, lower, narrow),
    }
}

/// Finds the outcome whose heading the line has, and what follows the heading.
fn find_heading<'a>(line: &'a str, lower: &str) -> (r: Option<(Outcome, &'a str)>)
    ensures
        match r {
            Some((outcome, rest)) => headed(line@, lower@) == Some((outcome, rest@)),
            None => headed(line@, lower@) is None,
        },
{
    if let Some(rest) = strip_heading(line, lower, Outcome::Passed) {
        return Some((Outcome::Passed, rest));
    }
    if let Some(rest) = strip_heading(line, lower, Outcome::Failed) {
        return Some((Outcome::Failed, rest));
    }
    if let Some(rest) = strip_heading(line, lower, Outcome::Skipped) {
        return Some((Outcome::Skipped, rest));
    }
    None
}

/// Finds the outcome and the test of a result line, given the line and the line in lower case.
pub fn find_result<'a>(line: &'a str, lower: &str) -> (r: Option<(Outcome, &'a str)>)
    ensures
        match r {
            Some((outcome, rest)) => result_in(line@, lower@) == Some((outcome, rest@)),
            None => result_in(line@, lower@) is None,
        },
{
    match find_heading(line, lower) {
        Some((outcome, rest)) => if looks_like_test_identifier(rest) {
            Some((outcome, rest))
        } else {
            None
        },
        None => None,
    }
}

/// Tells whether the line reports a test.
pub fn is_result_line(line: &str) -> (r: bool)
    ensures
        r == (result_in(trimmed(line@), lowered(trimmed(line@))) is Some),
{
    let t = trim(line);
    let lower = to_lowercase(t);
    find_result(t, lower.as_str()).is_some()
}

fn has_both_counts(lower: &str) -> (r: bool)
    ensures
        r == gives_counts(lower@),
{
    has_text(lower, "failed:") && has_text(lower, "passed:")
}

/// Tells whether a line in lower case belongs to the summary of the run.
pub fn is_summary_lowered(lower: &str) -> (r: bool)
    ensures
        r == is_summary(lower@),
{
    begins_with(lower, "test run ") || has_both_counts(lower)
}

/// Tells whether the line belongs to the summary of the run.
pub fn is_summary_line(line: &str) -> (r: bool)
    ensures
        r == is_summary(lowered(trimmed(line@))),
{
    let lower = to_lowercase(trim(line));
    is_summary_lowered(lower.as_str())
}

/// Tells whether a line in lower case announces the end of the run.
pub fn announces_end(lower: &str) -> (r: bool)
    ensures
        r == ends_run(lower@),
{
    begins_with(lower, "test run successful") || begins_with(lower, "test run failed")
}

/// Reads the number behind the first occurrence of `label`.
pub fn extract_count(line: &str, label: &str) -> (r: Option<u32>)
    ensures
        r == count_after(line@, label@),
{
    match find_text(line, label) {
        Some(n) => {
            let chars = crate::text::chars_of(line);
            let width: usize = crate::text::chars_of(label).len();
            proof {
                crate::text::lemma_find_has(line@, label@);
            }
            let rest = strip_leading(line.substring_char(n + width, chars.len()), CharClass::WhiteSpace);
            let after = strip_leading(rest, CharClass::Digit);
            let rest_len: usize = crate::text::chars_of(rest).len();
            proof {
                crate::text::lemma_leading_has(rest@, CharClass::Digit);
            }
            let digits: usize = rest_len - crate::text::chars_of(after).len();
            parse_decimal(rest.substring_char(0, digits))
        },
        None => None,
    }
}

/// Turns a pending failure into what is reported of it.
fn report_failure(failure: PendingFailure) -> (r: TestResult)
    ensures
        r@ == failure_result(failure@),
{
    let message = join(&failure.message);
    TestResult {
        outcome: Outcome::Failed,
        test_class: failure.test_class,
        test_name: failure.test_name,
        duration: failure.duration,
        message: Some(trim(message.as_str()).to_string()),
    }
}

/// Shows a line that is no result line to a pending failure; tells whether it belongs to it.
fn extend_failure(failure: &mut PendingFailure, line: &str, lower: &str) -> (r: bool)
    ensures
        match failure_after(old(failure)@, line@, lower@) {
            Some(next) => r && final(failure)@ == next,
            None => !r && final(failure)@ == old(failure)@,
        },
{
    if same_text(line, "Error Message:") || same_text(line, "Standard Output Messages:")
        || same_text(lower, "[fail]") {
        failure.in_error_block = true;
        return true;
    }
    if begins_with(line, "Stack Trace:") || begins_with(line, "at ") || begins_with(
        line,
        "[STACK]",
    ) || begins_with(line, "[OUTPUT]") {
        failure.in_error_block = false;
        return true;
    }
    if failure.in_error_block && !line.is_empty() {
        if failure.message.len() < MAX_MESSAGE_LINES {
            failure.message.push(line.to_string());
            assert(texts(failure.message@) =~= texts(old(failure).message@).push(line@));
        }
        return true;
    }
    false
}

/// Reads the number in a line that consists of a label and a number.
fn read_labelled(lower: &str, label: &str) -> (r: Option<u32>)
    requires
        label@.is_prefix_of(lower@),
    ensures
        r == labelled(lower@, label@),
{
    let len: usize = crate::text::chars_of(lower).len();
    let width: usize = crate::text::chars_of(label).len();
    parse_count(trim(lower.substring_char(width, len)))
}

impl DotnetTestParser {
    /// The parser before the first line.
    pub fn new() -> (parser: Self)
        ensures
            parser@ == ParserView::initial(),
            parser@.wf(),
    {
        DotnetTestParser {
            passed: 0,
            failed: 0,
            skipped: 0,
            run_complete: false,
            current_failure: None,
        }
    }

    /// Reports the failure that is still pending, if any. To be called after the last line.
    pub fn flush_pending(&mut self) -> (results: Vec<TestResult>)
        ensures
            final(self)@ == old(self)@.pending(None),
            results_view(results@) == (match old(self)@.current_failure {
                Some(failure) => seq![failure_result(failure)],
                None => seq![],
            }),
    {
        let mut results: Vec<TestResult> = Vec::new();
        if let Some(failure) = self.current_failure.take() {
            results.push(report_failure(failure));
        }
        assert(results_view(results@) =~= (match old(self)@.current_failure {
            Some(failure) => seq![failure_result(failure)],
            None => seq![],
        }));
        results
    }

    /// Takes over what a line of the summary says, given the line in lower case.
    fn sum_up(&mut self, lower: &str)
        ensures
            final(self)@ == summed_up(old(self)@, lower@),
    {
        if has_both_counts(lower) {
            let passed = extract_count(lower, "passed:");
            let failed = extract_count(lower, "failed:");
            let skipped = extract_count(lower, "skipped:");
            if let (Some(p), Some(f), Some(s)) = (passed, failed, skipped) {
                self.passed = p;
                self.failed = f;
                self.skipped = s;
            }
            self.run_complete = true;
            return ;
        }
        if announces_end(lower) {
            self.run_complete = true;
            return ;
        }
        if self.run_complete {
            if begins_with(lower, "passed:") {
                if let Some(n) = read_labelled(lower, "passed:") {
                    self.passed = n;
                }
            } else if begins_with(lower, "failed:") {
                if let Some(n) = read_labelled(lower, "failed:") {
                    self.failed = n;
                }
            } else if begins_with(lower, "skipped:") {
                if let Some(n) = read_labelled(lower, "skipped:") {
                    self.skipped = n;
                }
            }
        }
    }

    /// Counts the test of a result line and reports it, unless it failed: then it is pending
    /// until its message is complete.
    fn take_result(&mut self, outcome: Outcome, test: &str) -> (r: Option<TestResult>)
        requires
            old(self)@.count(outcome) < u32::MAX,
        ensures
            outcome == Outcome::Failed ==> r is None && final(self)@ == old(self)@.counted(
                outcome,
            ).pending(Some(new_failure(test@))),
            outcome != Outcome::Failed ==> final(self)@ == old(self)@.counted(outcome) && (
            r matches Some(result) && result@ == plain_result(outcome, test@)),
    {
        let (test_class, test_name, duration) = split_test_identifier(test);
        match outcome {
            Outcome::Passed => {
                self.passed = self.passed + 1;
            },
            Outcome::Failed => {
                self.failed = self.failed + 1;
                let failure = PendingFailure {
                    test_class,
                    test_name,
                    duration,
                    message: Vec::new(),
                    in_error_block: false,
                };
                assert(failure@ =~= new_failure(test@));
                self.current_failure = Some(failure);
                return None;
            },
            Outcome::Skipped => {
                self.skipped = self.skipped + 1;
            },
        }
        Some(TestResult { outcome, test_class, test_name, duration, message: None })
    }

    /// Parses a line, given the line without white space around it and the same in lower case.
    pub fn parse_lowered(&mut self, line: &str, lower: &str) -> (r: Option<TestResult>)
        requires
            has_room(old(self)@, line@, lower@),
        ensures
            (final(self)@, (match r {
                Some(result) => Some(result@),
                None => None,
            })) == parsed(old(self)@, line@, lower@),
    {
        if let Some((outcome, rest)) = find_heading(line, lower) {
            if !looks_like_test_identifier(rest) {
                return None;
            }
            return self.take_result(outcome, rest);
        }
        if let Some(mut failure) = self.current_failure.take() {
            let belongs = extend_failure(&mut failure, line, lower);
            self.current_failure = Some(failure);
            if belongs {
                return None;
            }
        }
        self.sum_up(lower);
        None
    }

    /// Parses a line.
    pub fn parse_line(&mut self, line: &str) -> (r: Option<TestResult>)
        requires
            has_room(old(self)@, trimmed(line@), lowered(trimmed(line@))),
        ensures
            (final(self)@, (match r {
                Some(result) => Some(result@),
                None => None,
            })) == parsed(old(self)@, trimmed(line@), lowered(trimmed(line@))),
    {
        let t = trim(line);
        let lower = to_lowercase(t);
        self.parse_lowered(t, lower.as_str())
    }

    /// Feeds one line, with or without its line end, and returns what is to be reported now:
    /// none, one or two results. There are two where the line closes a pending failure and
    /// reports a test itself.
    pub fn feed_line(&mut self, raw: &str) -> (results: Vec<TestResult>)
        requires
            raw_has_room(old(self)@, raw@),
        ensures
            (final(self)@, results_view(results@)) == fed_raw(old(self)@, raw@),
    {
        let line = strip_trailing(raw, CharClass::LineEnd);
        let closes = is_result_line(line) || is_summary_line(line) || trim(line).is_empty();
        let mut results: Vec<TestResult> = Vec::new();
        if closes {
            if let Some(failure) = self.current_failure.take() {
                results.push(report_failure(failure));
            }
        }
        if let Some(result) = self.parse_line(line) {
            results.push(result);
        }
        assert(results_view(results@) =~= fed_raw(old(self)@, raw@).1);
        results
    }

    /// Tells whether the counter that the line adds to, if any, has not reached its limit.
    pub fn can_feed(&self, raw: &str) -> (r: bool)
        ensures
            r == raw_has_room(self@, raw@),
    {
        let t = trim(strip_trailing(raw, CharClass::LineEnd));
        let lower = to_lowercase(t);
        match find_result(t, lower.as_str()) {
            Some((Outcome::Passed, _)) => self.passed < u32::MAX,
            Some((Outcome::Failed, _)) => self.failed < u32::MAX,
            Some((Outcome::Skipped, _)) => self.skipped < u32::MAX,
            None => true,
        }
    }

    /// Feeds one line as `feed_line` does, unless a counter would exceed its limit: then
    /// nothing changes and nothing is returned.
    pub fn checked_feed_line(&mut self, raw: &str) -> (r: Option<Vec<TestResult>>)
        ensures
            match r {
                Some(results) => raw_has_room(old(self)@, raw@) && (
                    final(self)@,
                    results_view(results@),
                ) == fed_raw(old(self)@, raw@),
                None => !raw_has_room(old(self)@, raw@) && final(self)@ == old(self)@,
            },
    {
        if self.can_feed(raw) {
            Some(self.feed_line(raw))
        } else {
            None
        }
    }
}

} // verus!
