//! The part of a result line after the outcome: which test it was and how long it took.

use vstd::prelude::*;

use crate::text::{
    chars_of, find_last, leading, rfind, same_text, strip_leading, strip_trailing, trailing, trim,
    trimmed, without_leading, without_trailing, CharClass,
};

verus! {

/// The unit of a duration.
#[derive(Clone, Copy, Debug, PartialEq, Eq, Structural)]
pub enum DurationUnit {
    Milliseconds,
    Seconds,
    Minutes,
}

/// A duration as it was printed: the number is kept as text.
#[derive(Debug)]
pub struct TestDuration {
    pub value: String,
    pub unit: DurationUnit,
}

/// The contents of a `TestDuration`.
#[verifier::ext_equal]
pub struct DurationView {
    pub value: Seq<char>,
    pub unit: DurationUnit,
}

impl View for TestDuration {
    type V = DurationView;

    open spec fn view(&self) -> DurationView {
        DurationView { value: self.value@, unit: self.unit }
    }
}

/// The contents of a duration that may be missing.
pub open spec fn duration_view(duration: Option<TestDuration>) -> Option<DurationView> {
    match duration {
        Some(d) => Some(d@),
        None => None,
    }
}

/// The first word of a text, or nothing where it has no word.
pub open spec fn first_word(s: Seq<char>) -> Seq<char> {
    let t = without_leading(s, CharClass::WhiteSpace);
    t.take(leading(t, CharClass::Word) as int)
}

/// What follows the first word of a text.
pub open spec fn after_first_word(s: Seq<char>) -> Seq<char> {
    let t = without_leading(s, CharClass::WhiteSpace);
    t.skip(leading(t, CharClass::Word) as int)
}

/// The unit that a word stands for; an unknown word counts as milliseconds.
pub open spec fn unit_of(word: Seq<char>) -> DurationUnit {
    if word == "s"@ {
        DurationUnit::Seconds
    } else if word == "m"@ {
        DurationUnit::Minutes
    } else {
        DurationUnit::Milliseconds
    }
}

/// The duration that a text such as `12 ms` stands for: its first two words are the number and
/// the unit. A text of fewer words has none.
pub open spec fn duration_of(s: Seq<char>) -> Option<DurationView> {
    let unit = first_word(after_first_word(s));
    if unit.len() == 0 {
        None
    } else {
        Some(DurationView { value: first_word(s), unit: unit_of(unit) })
    }
}

/// The last word of a text, or nothing where it has no word.
pub open spec fn last_word(s: Seq<char>) -> Seq<char> {
    let t = without_trailing(s, CharClass::WhiteSpace);
    t.skip(t.len() - trailing(t, CharClass::Word))
}

/// Whether a word is a unit of time.
pub open spec fn is_unit(word: Seq<char>) -> bool {
    word == "ms"@ || word == "s"@ || word == "m"@
}

/// Whether a text tells how long a test took, such as `12 ms`, `1.5 s`, `< 1 ms` or `1 m 3 s`: it
/// has two words or more, and the last is a unit.
pub open spec fn is_timing(s: Seq<char>) -> bool {
    duration_of(s) is Some && is_unit(last_word(s))
}

/// What stands between the opening bracket at the given place and the closing bracket that the
/// text ends with.
pub open spec fn bracketed(s: Seq<char>, at: int) -> Seq<char> {
    let t = without_trailing(s, CharClass::WhiteSpace);
    t.subrange(at + 1, t.len() - 1)
}

/// The place of the timing bracket that the text ends with, such as `[12 ms]`: its last opening
/// bracket, where the text ends with a closing one and there is a timing between the two.
pub open spec fn timing_at(s: Seq<char>) -> Option<int> {
    let t = without_trailing(s, CharClass::WhiteSpace);
    match rfind(s, '[') {
        Some(at) => if t.last() == ']' && is_timing(bracketed(s, at)) {
            Some(at)
        } else {
            None
        },
        None => None,
    }
}

/// Whether a text names a test rather than being prose: it has a dot in it, or ends with a timing
/// bracket.
pub open spec fn is_identifier(s: Seq<char>) -> bool {
    let t = trimmed(s);
    t.contains('.') || timing_at(t) is Some
}

/// What a result line says of its test.
#[verifier::ext_equal]
pub struct IdentifierView {
    pub test_class: Seq<char>,
    pub test_name: Seq<char>,
    pub duration: Option<DurationView>,
}

/// The text before its timing bracket; all of it where it has none.
pub open spec fn name_part(s: Seq<char>) -> Seq<char> {
    match timing_at(s) {
        Some(at) => trimmed(s.take(at)),
        None => trimmed(s),
    }
}

/// The duration in the timing bracket of the text.
pub open spec fn duration_part(s: Seq<char>) -> Option<DurationView> {
    match timing_at(s) {
        Some(at) => duration_of(bracketed(s, at)),
        None => None,
    }
}

/// How `Ns.Class.Method [12 ms]` falls into class, method and duration: at the timing bracket, and
/// before it at the last dot. Without a dot the class is `Unknown`.
pub open spec fn identifier_of(s: Seq<char>) -> IdentifierView {
    let name = name_part(s);
    match rfind(name, '.') {
        Some(dot) => IdentifierView {
            test_class: name.take(dot),
            test_name: name.skip(dot + 1),
            duration: duration_part(s),
        },
        None => IdentifierView {
            test_class: "Unknown"@,
            test_name: name,
            duration: duration_part(s),
        },
    }
}

/// Splits the first word off `s`.
fn split_word<'a>(s: &'a str) -> (r: (&'a str, &'a str))
    ensures
        r.0@ == first_word(s@),
        r.1@ == after_first_word(s@),
{
    let t = strip_leading(s, CharClass::WhiteSpace);
    let rest = strip_leading(t, CharClass::Word);
    let chars = chars_of(t);
    proof {
        crate::text::lemma_leading_has(t@, CharClass::Word);
    }
    let n: usize = chars.len() - chars_of(rest).len();
    (t.substring_char(0, n), rest)
}

/// Reads a duration such as `12 ms`, `1.5 s` or `2 m`.
pub fn parse_duration(s: &str) -> (r: Option<TestDuration>)
    ensures
        duration_view(r) == duration_of(s@),
{
    let (value, rest) = split_word(s);
    let (unit, _) = split_word(rest);
    if unit.is_empty() {
        return None;
    }
    let unit = if same_text(unit, "s") {
        DurationUnit::Seconds
    } else if same_text(unit, "m") {
        DurationUnit::Minutes
    } else {
        DurationUnit::Milliseconds
    };
    Some(TestDuration { value: value.to_string(), unit })
}

/// Tells whether the last word of `s` is a unit of time.
fn ends_with_unit(s: &str) -> (r: bool)
    ensures
        r == is_unit(last_word(s@)),
{
    let t = strip_trailing(s, CharClass::WhiteSpace);
    let before = strip_trailing(t, CharClass::Word);
    let len: usize = chars_of(t).len();
    let start: usize = chars_of(before).len();
    proof {
        crate::text::lemma_trailing_has(t@, CharClass::Word);
    }
    let word = t.substring_char(start, len);
    assert(word@ =~= last_word(s@));
    same_text(word, "ms") || same_text(word, "s") || same_text(word, "m")
}

/// Finds the timing bracket that `s` ends with: its place, counted in characters, and what is in
/// it.
fn find_timing<'a>(s: &'a str) -> (r: Option<(usize, &'a str)>)
    ensures
        match r {
            Some((at, inside)) => at <= s@.len() && timing_at(s@) == Some(at as int) && inside@
                == bracketed(s@, at as int),
            None => timing_at(s@) is None,
        },
{
    let chars = chars_of(s);
    let at: usize = match find_last(&chars, '[') {
        Some(at) => at,
        None => {
            return None;
        },
    };
    let t = strip_trailing(s, CharClass::WhiteSpace);
    let t_chars = chars_of(t);
    let len: usize = t_chars.len();
    proof {
        crate::text::lemma_rfind_has(s@, '[');
        crate::text::lemma_trailing_has(s@, CharClass::WhiteSpace);
        assert(s@[at as int] == '[');
        assert(at < len);
        assert(t@[at as int] == '[');
    }
    if t_chars[len - 1] != ']' {
        return None;
    }
    let inside = t.substring_char(at + 1, len - 1);
    if parse_duration(inside).is_some() && ends_with_unit(inside) {
        Some((at, inside))
    } else {
        None
    }
}

/// Tells whether `s` names a test rather than being prose such as
/// `to load prune package data`.
pub fn looks_like_test_identifier(s: &str) -> (r: bool)
    ensures
        r == is_identifier(s@),
{
    let t = trim(s);
    let chars = chars_of(t);
    proof {
        crate::text::lemma_rfind_has(chars@, '.');
    }
    find_last(&chars, '.').is_some() || find_timing(t).is_some()
}

/// Splits `Ns.Class.Method [12 ms]` into class, method and duration.
pub fn split_test_identifier(s: &str) -> (r: (String, String, Option<TestDuration>))
    ensures
        identifier_of(s@) == (IdentifierView {
            test_class: r.0@,
            test_name: r.1@,
            duration: duration_view(r.2),
        }),
{
    let (name, duration) = match find_timing(s) {
        Some((at, inside)) => (trim(s.substring_char(0, at)), parse_duration(inside)),
        None => (trim(s), None),
    };
    assert(name@ == name_part(s@));
    let name_chars = chars_of(name);
    match find_last(&name_chars, '.') {
        Some(dot) => (
            name.substring_char(0, dot).to_string(),
            name.substring_char(dot + 1, name_chars.len()).to_string(),
            duration,
        ),
        None => ("Unknown".to_string(), name.to_string(), duration),
    }
}

} // verus!
