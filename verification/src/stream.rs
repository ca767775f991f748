//! From the bytes that a process writes to lines, and from lines to events.

use vstd::prelude::*;

use crate::event::{events_view, EventView, HostEvent};
use crate::parser::{
    announces_end, ends_run, fed_raw, raw_has_room, results_view, DotnetTestParser, ParserView,
    ResultView, TestResult,
};
use crate::text::{chars_of, find, find_text, strip_trailing, trim, trimmed, without_trailing, CharClass};
use crate::unicode::{decode_lossy, decoded, lowered, to_lowercase};

verus! {

/// The length of the first line with its line feed; nothing where no line is complete.
pub open spec fn line_len(bytes: Seq<u8>) -> Option<int>
    decreases bytes.len(),
{
    if bytes.len() == 0 {
        None
    } else if bytes[0] == 10 {
        Some(1int)
    } else {
        match line_len(bytes.skip(1)) {
            Some(n) => Some(n + 1),
            None => None,
        }
    }
}

/// `line_len` is where the first line feed stands, and one more.
pub proof fn lemma_line_len_is(bytes: Seq<u8>, n: int)
    requires
        0 < n <= bytes.len(),
        bytes[n - 1] == 10,
        forall|i: int| 0 <= i < n - 1 ==> #[trigger] bytes[i] != 10,
    ensures
        line_len(bytes) == Some(n),
    decreases n,
{
    if n > 1 {
        assert(bytes[0] != 10);
        lemma_line_len_is(bytes.skip(1), n - 1);
    }
}

/// Without a line feed no line is complete.
pub proof fn lemma_line_len_none(bytes: Seq<u8>)
    requires
        forall|i: int| 0 <= i < bytes.len() ==> #[trigger] bytes[i] != 10,
    ensures
        line_len(bytes) is None,
    decreases bytes.len(),
{
    if bytes.len() > 0 {
        assert(bytes[0] != 10);
        lemma_line_len_none(bytes.skip(1));
    }
}

/// What `line_len` says of the bytes.
pub proof fn lemma_line_len_has(bytes: Seq<u8>)
    ensures
        match line_len(bytes) {
            Some(n) => 0 < n <= bytes.len() && bytes[n - 1] == 10 && forall|i: int|
                0 <= i < n - 1 ==> #[trigger] bytes[i] != 10,
            None => forall|i: int| 0 <= i < bytes.len() ==> #[trigger] bytes[i] != 10,
        },
    decreases bytes.len(),
{
    if bytes.len() > 0 && bytes[0] != 10 {
        let rest = bytes.skip(1);
        lemma_line_len_has(rest);
        let limit = match line_len(rest) {
            Some(n) => n,
            None => bytes.len() as int,
        };
        assert forall|i: int| 0 <= i < limit && i < bytes.len() implies #[trigger] bytes[i]
            != 10 by {
            if i > 0 {
                assert(rest[i - 1] == bytes[i]);
            }
        }
    }
}

/// The log of a line: the line without its line end, unless nothing is left.
pub open spec fn log_of(line: Seq<char>) -> Seq<EventView> {
    let text = without_trailing(line, CharClass::LineEnd);
    if text.len() == 0 {
        seq![]
    } else {
        seq![EventView::Log(text)]
    }
}

/// The events for results.
pub open spec fn result_events(results: Seq<ResultView>) -> Seq<EventView> {
    results.map_values(|r: ResultView| EventView::Result(r))
}

/// What becomes of bytes that have come in.
#[verifier::ext_equal]
pub struct Streamed {
    pub parser: ParserView,
    /// The bytes that wait for the rest of their line.
    pub rest: Seq<u8>,
    pub events: Seq<EventView>,
    /// Whether a counter of the parser was at its limit when it had to be raised.
    pub overflowed: bool,
}

/// What a line does: it is logged and fed to the parser.
pub open spec fn line_taken(p: ParserView, line: Seq<char>, rest: Seq<u8>) -> Streamed {
    if raw_has_room(p, line) {
        let (next, results) = fed_raw(p, line);
        Streamed {
            parser: next,
            rest,
            events: log_of(line) + result_events(results),
            overflowed: false,
        }
    } else {
        Streamed { parser: p, rest, events: log_of(line), overflowed: true }
    }
}

/// What the complete lines among the bytes do, one after the other. A counter at its limit
/// ends it.
pub open spec fn streamed(p: ParserView, bytes: Seq<u8>) -> Streamed
    decreases bytes.len(),
{
    proof {
        lemma_line_len_has(bytes);
    }
    match line_len(bytes) {
        Some(n) => {
            let first = line_taken(p, decoded(bytes.take(n)), bytes.skip(n));
            if first.overflowed {
                first
            } else {
                let others = streamed(first.parser, bytes.skip(n));
                Streamed { events: first.events + others.events, ..others }
            }
        },
        None => Streamed { parser: p, rest: bytes, events: seq![], overflowed: false },
    }
}

/// What bytes that are not ended by a line feed do when no more will come: they are a line.
pub open spec fn flushed(p: ParserView, bytes: Seq<u8>) -> Streamed {
    if bytes.len() == 0 {
        Streamed { parser: p, rest: bytes, events: seq![], overflowed: false }
    } else {
        line_taken(p, decoded(bytes), seq![])
    }
}

/// Whether a line of the text announces the end of the run.
pub open spec fn some_line_ends_run(text: Seq<char>) -> bool
    decreases text.len(),
{
    proof {
        crate::text::lemma_find_has(text, "\n"@);
        reveal_strlit("\n");
    }
    match find(text, "\n"@) {
        Some(n) => ends_run(lowered(trimmed(text.take(n)))) || some_line_ends_run(text.skip(n + 1)),
        None => ends_run(lowered(trimmed(text))),
    }
}

/// The events of some lines.
#[derive(Debug)]
pub struct LineBatch {
    pub events: Vec<HostEvent>,
    /// Set where a counter of the parser was at its limit when it had to be raised.
    pub overflowed: bool,
}

/// The log of a line: the line without its line end, unless nothing is left.
pub fn log_line(line: &str) -> (r: Option<HostEvent>)
    ensures
        log_of(line@) == (match r {
            Some(event) => seq![event@],
            None => seq![],
        }),
{
    let text = strip_trailing(line, CharClass::LineEnd);
    if text.is_empty() {
        None
    } else {
        Some(HostEvent::Log(text.to_string()))
    }
}

/// Adds results to a list of events.
pub(crate) fn append_results(events: &mut Vec<HostEvent>, results: Vec<TestResult>)
    ensures
        events_view(final(events)@) == events_view(old(events)@) + result_events(
            results_view(results@),
        ),
{
    let ghost before = events_view(events@);
    let ghost all = result_events(results_view(results@));
    assert(all.take(0) =~= Seq::<EventView>::empty());
    assert(events_view(events@) =~= before + all.take(0));
    for result in it: results
        invariant
            it.seq() == results@,
            all == result_events(results_view(results@)),
            events_view(events@) == before + all.take(it.index()),
    {
        let ghost soon = events_view(events@).push(EventView::Result(result@));
        assert(all[it.index()] == EventView::Result(result@));
        events.push(HostEvent::Result(result));
        assert(events_view(events@) =~= soon);
        assert(all.take(it.index() + 1) =~= all.take(it.index()).push(all[it.index()]));
    }
    assert(all.take(all.len() as int) =~= all);
}

/// Logs a line and feeds it to the parser.
pub fn take_line(parser: &mut DotnetTestParser, line: &str) -> (batch: LineBatch)
    ensures
        ({
            let taken = line_taken(old(parser)@, line@, seq![]);
            &&& final(parser)@ == taken.parser
            &&& events_view(batch.events@) == taken.events
            &&& batch.overflowed == taken.overflowed
        }),
{
    let mut events: Vec<HostEvent> = Vec::new();
    if let Some(event) = log_line(line) {
        events.push(event);
    }
    assert(events_view(events@) =~= log_of(line@));
    match parser.checked_feed_line(line) {
        Some(results) => {
            append_results(&mut events, results);
            LineBatch { events, overflowed: false }
        },
        None => LineBatch { events, overflowed: true },
    }
}

fn first_line_len(bytes: &Vec<u8>) -> (r: Option<usize>)
    ensures
        match r {
            Some(n) => 0 < n <= bytes@.len() && line_len(bytes@) == Some(n as int),
            None => line_len(bytes@) is None,
        },
{
    let mut i: usize = 0;
    while i < bytes.len()
        invariant
            i <= bytes@.len(),
            forall|j: int| 0 <= j < i ==> #[trigger] bytes@[j] != 10,
        decreases bytes@.len() - i,
    {
        if bytes[i] == 10 {
            proof {
                lemma_line_len_is(bytes@, i + 1);
            }
            return Some(i + 1);
        }
        i += 1;
    }
    proof {
        lemma_line_len_none(bytes@);
    }
    None
}

/// Takes the complete lines out of `buf`, logs each and feeds it to the parser. A line that is
/// not complete stays in `buf`.
#[verifier::spinoff_prover]
#[verifier::rlimit(60)]
pub fn process_lines(buf: &mut Vec<u8>, parser: &mut DotnetTestParser) -> (batch: LineBatch)
    ensures
        streamed(old(parser)@, old(buf)@) == (Streamed {
            parser: final(parser)@,
            rest: final(buf)@,
            events: events_view(batch.events@),
            overflowed: batch.overflowed,
        }),
{
    let mut events: Vec<HostEvent> = Vec::new();
    let ghost whole = streamed(parser@, buf@);
    assert(events_view(events@) =~= Seq::<EventView>::empty());
    assert(whole.events =~= events_view(events@) + whole.events);
    loop
        invariant
            whole == (Streamed {
                events: events_view(events@) + streamed(parser@, buf@).events,
                ..streamed(parser@, buf@)
            }),
            whole == streamed(old(parser)@, old(buf)@),
        decreases buf@.len(),
    {
        let n: usize = match first_line_len(buf) {
            Some(n) => n,
            None => {
                assert(events_view(events@) =~= whole.events);
                return LineBatch { events, overflowed: false };
            },
        };
        let ghost bytes = buf@;
        let ghost before = events_view(events@);
        let mut line_bytes = buf.split_off(n);
        std::mem::swap(buf, &mut line_bytes);
        assert(line_bytes@ =~= bytes.take(n as int));
        assert(buf@ =~= bytes.skip(n as int));
        let line = decode_lossy(line_bytes.as_slice());
        let mut batch = take_line(parser, line.as_str());
        let ghost added = events_view(batch.events@);
        events.append(&mut batch.events);
        assert(events_view(events@) =~= before + added);
        if batch.overflowed {
            return LineBatch { events, overflowed: true };
        }
        assert(before + (added + streamed(parser@, buf@).events) =~= events_view(events@)
            + streamed(parser@, buf@).events);
    }
}

/// Treats what is left in `buf` as a line, once no more bytes will come.
pub fn flush_partial(buf: &mut Vec<u8>, parser: &mut DotnetTestParser) -> (batch: LineBatch)
    ensures
        flushed(old(parser)@, old(buf)@) == (Streamed {
            parser: final(parser)@,
            rest: final(buf)@,
            events: events_view(batch.events@),
            overflowed: batch.overflowed,
        }),
{
    if buf.is_empty() {
        let events: Vec<HostEvent> = Vec::new();
        assert(events_view(events@) =~= Seq::<EventView>::empty());
        return LineBatch { events, overflowed: false };
    }
    let line = decode_lossy(buf.as_slice());
    buf.clear();
    assert(buf@ =~= seq![]);
    take_line(parser, line.as_str())
}

/// Tells whether a line of the text announces the end of the run.
pub fn text_ends_run(text: &str) -> (r: bool)
    ensures
        r == some_line_ends_run(text@),
{
    let mut rest = text;
    loop
        invariant
            some_line_ends_run(text@) == some_line_ends_run(rest@),
        decreases rest@.len(),
    {
        let n: usize = match find_text(rest, "\n") {
            Some(n) => n,
            None => {
                let lower = to_lowercase(trim(rest));
                return announces_end(lower.as_str());
            },
        };
        proof {
            crate::text::lemma_find_has(rest@, "\n"@);
            reveal_strlit("\n");
        }
        let len: usize = chars_of(rest).len();
        let lower = to_lowercase(trim(rest.substring_char(0, n)));
        if announces_end(lower.as_str()) {
            return true;
        }
        rest = rest.substring_char(n + 1, len);
    }
}

/// Tells whether a piece of error output announces the end of the run.
pub fn stderr_ends_run(data: &[u8]) -> (r: bool)
    ensures
        r == some_line_ends_run(decoded(data@)),
{
    let text = decode_lossy(data);
    text_ends_run(text.as_str())
}

} // verus!
