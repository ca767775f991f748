//! What test runners print is read as they mean it.

use vstd::prelude::*;
use vstd::utf8::{
    encode_scalar, encode_utf8, is_ascii_chars, is_char_boundary, pop_first_scalar,
};

use crate::identifier::{
    after_first_word, bracketed, duration_of, duration_part, first_word, identifier_of,
    is_identifier, is_timing, is_unit, last_word, name_part, timing_at, unit_of, DurationView,
    IdentifierView,
};
use crate::parser::{
    after_heading, after_prefix, count_after, headed, new_failure, parsed, plain_result, result_in,
    Outcome, ParserView,
};
use crate::text::{
    digits_to_count, find, is_decimal, is_white_space, lemma_leading_has, lemma_leading_is,
    lemma_rfind_has, lemma_rfind_is, lemma_trailing_has, lemma_trailing_is, leading, rfind,
    text_after, trailing, trimmed, without_leading, without_trailing, CharClass,
};
use crate::unicode::{ascii_len, ascii_lower, ascii_lowered, lowered};

verus! {

// ---------------------------------------------------------------------------
// Cutting text by bytes
// ---------------------------------------------------------------------------

/// Two texts one after the other are encoded one after the other.
pub proof fn lemma_encode_both(a: Seq<char>, b: Seq<char>)
    ensures
        encode_utf8(a + b) == encode_utf8(a) + encode_utf8(b),
    decreases a.len(),
{
    if a.len() == 0 {
        assert(a + b =~= b);
        assert(encode_utf8(a) + encode_utf8(b) =~= encode_utf8(b));
    } else {
        lemma_encode_both(a.drop_first(), b);
        assert((a + b).drop_first() =~= a.drop_first() + b);
        assert(encode_utf8(a + b) =~= encode_utf8(a) + encode_utf8(b));
    }
}

proof fn lemma_boundary_between(a: Seq<char>, b: Seq<char>)
    ensures
        is_char_boundary(encode_utf8(a + b), encode_utf8(a).len() as int),
    decreases a.len(),
{
    let whole = encode_utf8(a + b);
    vstd::utf8::encode_utf8_valid_utf8(a + b);
    lemma_encode_both(a, b);
    if a.len() > 0 {
        vstd::utf8::encode_utf8_first_scalar(a + b);
        lemma_boundary_between(a.drop_first(), b);
        assert((a + b).drop_first() =~= a.drop_first() + b);
        assert(pop_first_scalar(whole) =~= encode_utf8((a + b).drop_first()));
        assert(encode_utf8(a).len() == encode_scalar(a[0] as u32).len() + encode_utf8(
            a.drop_first(),
        ).len());
    }
}

/// The characters of a text that follows another begin where they would begin without it.
proof fn lemma_boundary_behind(a: Seq<char>, b: Seq<char>, n: int)
    requires
        n >= 0,
    ensures
        is_char_boundary(encode_utf8(a + b), encode_utf8(a).len() + n) == is_char_boundary(
            encode_utf8(b),
            n,
        ),
    decreases a.len(),
{
    let whole = encode_utf8(a + b);
    vstd::utf8::encode_utf8_valid_utf8(a + b);
    vstd::utf8::encode_utf8_valid_utf8(b);
    lemma_encode_both(a, b);
    if a.len() == 0 {
        assert(a + b =~= b);
    } else {
        vstd::utf8::encode_utf8_first_scalar(a + b);
        lemma_boundary_behind(a.drop_first(), b, n);
        assert((a + b).drop_first() =~= a.drop_first() + b);
        assert(pop_first_scalar(whole) =~= encode_utf8((a + b).drop_first()));
        assert(encode_utf8(a).len() == encode_scalar(a[0] as u32).len() + encode_utf8(
            a.drop_first(),
        ).len());
    }
}

/// When the bytes of one text are cut off two texts one after the other, the other is left.
pub proof fn law_cut_leaves_the_rest(a: Seq<char>, b: Seq<char>)
    ensures
        is_char_boundary(encode_utf8(a + b), encode_utf8(a).len() as int),
        text_after(a + b, encode_utf8(a).len() as int) == b,
{
    lemma_boundary_between(a, b);
    lemma_encode_both(a, b);
    assert(encode_utf8(a + b).skip(encode_utf8(a).len() as int) =~= encode_utf8(b));
    vstd::utf8::encode_utf8_decode_utf8(b);
}

/// In ASCII text bytes are characters, so a prefix can always be cut off: a line has what begins
/// it in lower case, whatever the case in which it was printed.
pub proof fn law_ascii_prefix(line: Seq<char>, prefix: Seq<char>)
    requires
        is_ascii_chars(line),
        is_ascii_chars(prefix),
    ensures
        after_prefix(line, lowered(line), prefix) == (if prefix.is_prefix_of(lowered(line)) {
            Some(without_leading(line.skip(prefix.len() as int), CharClass::WhiteSpace))
        } else {
            None
        }),
{
    let n = prefix.len() as int;
    vstd::utf8::is_ascii_chars_encode_utf8(prefix);
    if prefix.is_prefix_of(lowered(line)) {
        let first = line.take(n);
        let rest = line.skip(n);
        assert(first + rest =~= line);
        vstd::utf8::is_ascii_chars_concat(line, first, rest);
        vstd::utf8::is_ascii_chars_encode_utf8(first);
        law_cut_leaves_the_rest(first, rest);
    }
}

// ---------------------------------------------------------------------------
// Result lines
// ---------------------------------------------------------------------------

/// Whether a text is one word without brackets.
pub open spec fn is_word(s: Seq<char>) -> bool {
    &&& s.len() > 0
    &&& forall|i: int|
        0 <= i < s.len() ==> !is_white_space(#[trigger] s[i]) && s[i] != '[' && s[i] != ']'
}

/// Whether two texts can stand before and after the dot between class and method.
pub open spec fn is_test_name(test_class: Seq<char>, test_name: Seq<char>) -> bool {
    &&& test_class.len() > 0 ==> !is_white_space(test_class[0])
    &&& forall|i: int| 0 <= i < test_name.len() ==> #[trigger] test_name[i] != '.'
    &&& test_name.len() > 0 ==> !is_white_space(test_name.last())
}

/// A test without its duration: `Ns.Class.Method`.
pub open spec fn full_name(test_class: Seq<char>, test_name: Seq<char>) -> Seq<char> {
    test_class + seq!['.'] + test_name
}

/// A test as printed in a result line, with its duration or without: `Ns.Class.Method [12 ms]`.
pub open spec fn printed_test(
    test_class: Seq<char>,
    test_name: Seq<char>,
    timing: Option<(Seq<char>, Seq<char>)>,
) -> Seq<char> {
    let name = full_name(test_class, test_name);
    match timing {
        Some((value, unit)) => name + (seq![' '] + (seq!['['] + (value + seq![' '] + unit)
            + seq![']'])),
        None => name,
    }
}

/// Whether a test can be printed so: its duration is a word and a unit, and where it has none, its
/// name does not end as if it had one.
pub open spec fn can_be_printed(
    test_class: Seq<char>,
    test_name: Seq<char>,
    timing: Option<(Seq<char>, Seq<char>)>,
) -> bool {
    &&& is_test_name(test_class, test_name)
    &&& match timing {
        Some((value, unit)) => is_word(value) && is_unit(unit),
        None => timing_at(full_name(test_class, test_name)) is None,
    }
}

/// What is to be read of such a test.
pub open spec fn meant_test(
    test_class: Seq<char>,
    test_name: Seq<char>,
    timing: Option<(Seq<char>, Seq<char>)>,
) -> IdentifierView {
    IdentifierView {
        test_class,
        test_name,
        duration: match timing {
            Some((value, unit)) => Some(DurationView { value, unit: unit_of(unit) }),
            None => None,
        },
    }
}

proof fn lemma_unit_is_word(unit: Seq<char>)
    requires
        is_unit(unit),
    ensures
        is_word(unit),
{
    reveal_strlit("ms");
    reveal_strlit("s");
    reveal_strlit("m");
}

proof fn lemma_timing_read(value: Seq<char>, unit: Seq<char>)
    requires
        is_word(value),
        is_unit(unit),
    ensures
        is_timing(value + seq![' '] + unit),
        duration_of(value + seq![' '] + unit) == Some(
            DurationView { value, unit: unit_of(unit) },
        ),
{
    lemma_unit_is_word(unit);
    let s = value + seq![' '] + unit;
    assert forall|i: int| 0 <= i < value.len() implies CharClass::Word.has(#[trigger] s[i]) by {
        assert(s[i] == value[i]);
    }
    assert(s[value.len() as int] == ' ');
    assert(!is_white_space(value[0]));
    lemma_leading_is(s, CharClass::WhiteSpace, 0);
    assert(s.skip(0) =~= s);
    lemma_leading_is(s, CharClass::Word, value.len() as int);
    assert(first_word(s) =~= value);
    let rest = seq![' '] + unit;
    assert(after_first_word(s) =~= rest);
    assert(!is_white_space(unit[0]));
    assert(rest[1] == unit[0]);
    lemma_leading_is(rest, CharClass::WhiteSpace, 1);
    assert(rest.skip(1) =~= unit);
    lemma_leading_is(unit, CharClass::Word, unit.len() as int);
    assert(first_word(rest) =~= unit);

    assert(s.last() == unit[unit.len() - 1]);
    lemma_trailing_is(s, CharClass::WhiteSpace, 0);
    assert(s.take(s.len() as int) =~= s);
    assert forall|i: int| s.len() - unit.len() <= i < s.len() implies CharClass::Word.has(
        #[trigger] s[i],
    ) by {
        assert(s[i] == unit[i - value.len() - 1]);
    }
    lemma_trailing_is(s, CharClass::Word, unit.len() as int);
    assert(last_word(s) =~= unit);
}

/// Text that neither begins nor ends with white space is its own trimmed form.
proof fn lemma_trim_nothing(s: Seq<char>)
    requires
        s.len() > 0,
        !is_white_space(s[0]),
        !is_white_space(s.last()),
    ensures
        without_trailing(s, CharClass::WhiteSpace) == s,
        trimmed(s) == s,
{
    lemma_leading_is(s, CharClass::WhiteSpace, 0);
    assert(s.skip(0) =~= s);
    lemma_trailing_is(s, CharClass::WhiteSpace, 0);
    assert(s.take(s.len() as int) =~= s);
}

/// One space at the end is trimmed off.
proof fn lemma_trim_space(s: Seq<char>)
    requires
        s.len() > 0,
        !is_white_space(s[0]),
        !is_white_space(s.last()),
    ensures
        trimmed(s + seq![' ']) == s,
{
    let t = s + seq![' '];
    assert(t[0] == s[0]);
    lemma_leading_is(t, CharClass::WhiteSpace, 0);
    assert(t.skip(0) =~= t);
    assert(t[t.len() - 2] == s.last());
    lemma_trailing_is(t, CharClass::WhiteSpace, 1);
    assert(t.take(t.len() - 1) =~= s);
}

/// The bracket with the duration is found where it was printed.
proof fn lemma_timing_found(name: Seq<char>, value: Seq<char>, unit: Seq<char>)
    requires
        is_word(value),
        is_unit(unit),
    ensures
        ({
            let inside = value + seq![' '] + unit;
            let s = name + (seq![' '] + (seq!['['] + inside + seq![']']));
            &&& timing_at(s) == Some(name.len() as int + 1)
            &&& bracketed(s, name.len() as int + 1) == inside
            &&& s.take(name.len() as int + 1) == name + seq![' ']
        }),
{
    let inside = value + seq![' '] + unit;
    let behind = seq!['['] + inside + seq![']'];
    let s = name + (seq![' '] + behind);
    let at = name.len() as int + 1;
    lemma_unit_is_word(unit);
    assert(s[at] == '[');
    assert forall|i: int| at < i < s.len() implies #[trigger] s[i] != '[' by {
        assert(s[i] == behind[i - at]);
        let j = i - at - 1;
        if j < value.len() {
            assert(behind[i - at] == value[j]);
        } else if j == value.len() {
            assert(behind[i - at] == ' ');
        } else if j < inside.len() {
            assert(behind[i - at] == unit[j - value.len() - 1]);
        }
    }
    lemma_rfind_is(s, '[', at);
    assert(s.last() == ']');
    lemma_trailing_is(s, CharClass::WhiteSpace, 0);
    assert(s.take(s.len() as int) =~= s);
    assert(bracketed(s, at) =~= inside);
    lemma_timing_read(value, unit);
    assert(s.take(at) =~= name + seq![' ']);
}

/// A test is read as it was printed: class, method, and duration.
pub proof fn law_test_read_back(
    test_class: Seq<char>,
    test_name: Seq<char>,
    timing: Option<(Seq<char>, Seq<char>)>,
)
    requires
        can_be_printed(test_class, test_name, timing),
    ensures
        is_identifier(printed_test(test_class, test_name, timing)),
        identifier_of(printed_test(test_class, test_name, timing)) == meant_test(
            test_class,
            test_name,
            timing,
        ),
{
    let s = printed_test(test_class, test_name, timing);
    let name = full_name(test_class, test_name);
    let dot = test_class.len() as int;

    if test_class.len() > 0 {
        assert(name[0] == test_class[0]);
    } else {
        assert(name[0] == '.');
    }
    if test_name.len() > 0 {
        assert(name.last() == test_name.last());
    } else {
        assert(name.last() == '.');
    }
    assert(s[0] == name[0]);
    assert(s[dot] == '.');
    match timing {
        Some((value, unit)) => {
            assert(s.last() == ']');
            lemma_trim_nothing(s);
            lemma_timing_found(name, value, unit);
            lemma_timing_read(value, unit);
            lemma_trim_space(name);
        },
        None => {
            lemma_trim_nothing(s);
        },
    }
    assert(s.contains('.'));
    assert(name_part(s) == name);

    assert(name[dot] == '.');
    assert forall|i: int| dot < i < name.len() implies #[trigger] name[i] != '.' by {
        assert(name[i] == test_name[i - dot - 1]);
    }
    lemma_rfind_is(name, '.', dot);
    assert(name.take(dot) =~= test_class);
    assert(name.skip(dot + 1) =~= test_name);
}

/// The name of a test is a part of the text as it was printed, with its letters as they are; the
/// dot between class and method is all that is left out of it.
pub proof fn law_letters_are_kept(s: Seq<char>)
    ensures
        exists|i: int, j: int| 0 <= i <= j <= s.len() && name_part(s) == #[trigger] s.subrange(i, j),
        ({
            let id = identifier_of(s);
            rfind(name_part(s), '.') is Some ==> full_name(id.test_class, id.test_name)
                == name_part(s)
        }),
        rfind(name_part(s), '.') is None ==> identifier_of(s).test_name == name_part(s),
{
    lemma_rfind_has(s, '[');
    let x = match timing_at(s) {
        Some(at) => s.take(at),
        None => s,
    };
    let i = leading(x, CharClass::WhiteSpace) as int;
    lemma_leading_has(x, CharClass::WhiteSpace);
    let t = x.skip(i);
    lemma_trailing_has(t, CharClass::WhiteSpace);
    let j = i + t.len() - trailing(t, CharClass::WhiteSpace);
    assert(trimmed(x) =~= s.subrange(i, j));
    let name = name_part(s);
    lemma_rfind_has(name, '.');
    if let Some(dot) = rfind(name, '.') {
        assert(name =~= name.take(dot) + seq!['.'] + name.skip(dot + 1));
    }
}

proof fn lemma_headings()
    ensures
        forall|o: Outcome| (#[trigger] o.word()).len() > 0,
        forall|o: Outcome| #[trigger] o.heading() == o.word() + seq![' '],
        forall|o: Outcome| #[trigger] o.wide_heading() == o.word() + seq![' ', ' '],
        forall|o: Outcome| is_ascii_chars(#[trigger] o.word()),
        forall|o: Outcome| is_ascii_chars(#[trigger] o.wide_heading()),
        forall|o: Outcome| is_ascii_chars(#[trigger] o.heading()),
        Outcome::Passed.word()[0] == 'p',
        Outcome::Failed.word()[0] == 'f',
        Outcome::Skipped.word()[0] == 's',
{
    reveal_strlit("passed");
    reveal_strlit("failed");
    reveal_strlit("skipped");
    reveal_strlit("passed ");
    reveal_strlit("failed ");
    reveal_strlit("skipped ");
    reveal_strlit("passed  ");
    reveal_strlit("failed  ");
    reveal_strlit("skipped  ");
    assert("passed "@ =~= "passed"@ + seq![' ']);
    assert("failed "@ =~= "failed"@ + seq![' ']);
    assert("skipped "@ =~= "skipped"@ + seq![' ']);
    assert("passed  "@ =~= "passed"@ + seq![' ', ' ']);
    assert("failed  "@ =~= "failed"@ + seq![' ', ' ']);
    assert("skipped  "@ =~= "skipped"@ + seq![' ', ' ']);
}

/// A line cannot have the headings of two outcomes.
proof fn lemma_other_heading(line: Seq<char>, lower: Seq<char>, one: Outcome, other: Outcome)
    requires
        one != other,
        one.heading().is_prefix_of(lower),
    ensures
        after_heading(line, lower, other) is None,
{
    lemma_headings();
    assert(lower[0] == lower.subrange(0, one.heading().len() as int)[0]);
    assert(one.heading()[0] == one.word()[0]);
    if other.heading().is_prefix_of(lower) {
        assert(lower[0] == lower.subrange(0, other.heading().len() as int)[0]);
        assert(other.heading()[0] == other.word()[0]);
    }
    if other.wide_heading().is_prefix_of(lower) {
        assert(lower[0] == lower.subrange(0, other.wide_heading().len() as int)[0]);
        assert(other.wide_heading()[0] == other.word()[0]);
    }
}

proof fn lemma_ascii_len(a: Seq<char>, b: Seq<char>)
    requires
        is_ascii_chars(a),
    ensures
        a.len() <= ascii_len(a + b) <= (a + b).len(),
    decreases a.len() + b.len(),
{
    let s = a + b;
    if s.len() > 0 {
        if a.len() > 0 {
            assert(s.skip(1) =~= a.skip(1) + b);
            assert(is_ascii_chars(a.skip(1))) by {
                assert(a =~= a.take(1) + a.skip(1));
                vstd::utf8::is_ascii_chars_concat(a, a.take(1), a.skip(1));
            }
            assert(s[0] == a[0]);
            lemma_ascii_len(a.skip(1), b);
        } else {
            assert(s.skip(1) =~= a + b.skip(1));
            lemma_ascii_len(a, b.skip(1));
        }
    }
}

/// The lower case of a text begins with that of the ASCII text that it begins with.
pub proof fn lemma_lowered_begins(a: Seq<char>, b: Seq<char>)
    requires
        is_ascii_chars(a),
    ensures
        ascii_lowered(a).is_prefix_of(lowered(a + b)),
{
    let s = a + b;
    lemma_ascii_len(a, b);
    assert(ascii_lowered(a) =~= lowered(s).subrange(0, a.len() as int));
}

/// A text with the word of an outcome as its lower case is ASCII.
pub proof fn lemma_word_is_ascii(outcome: Outcome, word: Seq<char>)
    requires
        ascii_lowered(word) == outcome.word(),
    ensures
        is_ascii_chars(word),
        !is_white_space(word[0]),
{
    lemma_headings();
    let lower = outcome.word();
    assert(is_ascii_chars(lower));
    assert(word.len() == ascii_lowered(word).len());
    assert forall|i: int| 0 <= i < word.len() implies '\0' <= #[trigger] word[i] <= '\u{7f}' by {
        assert(ascii_lowered(word)[i] == ascii_lower(word[i]));
        assert(lower[i] <= '\u{7f}');
    }
    assert(ascii_lowered(word)[0] == ascii_lower(word[0]));
}

/// Whether a text consists of spaces, one or more of them.
pub open spec fn are_spaces(s: Seq<char>) -> bool {
    s.len() > 0 && forall|i: int| 0 <= i < s.len() ==> #[trigger] s[i] == ' '
}

/// Whether a text can stand between the word of an outcome and the test: a space, and then any
/// white space.
pub open spec fn is_gap(s: Seq<char>) -> bool {
    &&& s.len() > 0
    &&& s[0] == ' '
    &&& forall|i: int| 0 <= i < s.len() ==> is_white_space(#[trigger] s[i])
}

/// A character is ASCII, or takes two bytes or more.
proof fn lemma_one_char(c: char)
    ensures
        c > '\u{7f}' ==> encode_scalar(c as u32).len() >= 2,
        c <= '\u{7f}' ==> is_ascii_chars(seq![c]),
{
}

/// A second byte is part of the first character where that is not ASCII.
proof fn lemma_no_boundary(s: Seq<char>)
    requires
        s.len() > 0,
        s[0] > '\u{7f}',
    ensures
        !is_char_boundary(encode_utf8(s), 1),
{
    vstd::utf8::encode_utf8_valid_utf8(s);
    vstd::utf8::encode_utf8_first_scalar(s);
    lemma_one_char(s[0]);
    reveal_with_fuel(is_char_boundary, 2);
}

/// What a line consists of after the word of its outcome and one space or more is what it is
/// about, however the letters of the word are written. It is a result line if that names a test.
pub proof fn law_heading_read(
    outcome: Outcome,
    word: Seq<char>,
    spaces: Seq<char>,
    test: Seq<char>,
)
    requires
        ascii_lowered(word) == outcome.word(),
        is_gap(spaces),
        test.len() > 0,
        !is_white_space(test[0]),
    ensures
        result_in(word + spaces + test, lowered(word + spaces + test)) == (if is_identifier(test) {
            Some((outcome, test))
        } else {
            None
        }),
        headed(word + spaces + test, lowered(word + spaces + test)) == Some((outcome, test)),
{
    let line = word + spaces + test;
    let lower = lowered(line);
    let start = word + seq![' '];
    let after = spaces.skip(1) + test;
    let n = start.len() as int;
    lemma_headings();
    lemma_word_is_ascii(outcome, word);
    vstd::utf8::is_ascii_chars_concat(start, word, seq![' ']);
    vstd::utf8::is_ascii_chars_encode_utf8(start);
    vstd::utf8::is_ascii_chars_encode_utf8(outcome.heading());
    vstd::utf8::is_ascii_chars_encode_utf8(outcome.wide_heading());
    assert(ascii_lowered(start) =~= outcome.heading());
    assert(line =~= start + after);
    lemma_lowered_begins(start, after);
    assert(outcome.heading().is_prefix_of(lower));
    if spaces.len() > 1 && spaces[1] == ' ' {
        let wide = word + seq![' ', ' '];
        let rest = spaces.skip(2) + test;
        vstd::utf8::is_ascii_chars_concat(wide, word, seq![' ', ' ']);
        vstd::utf8::is_ascii_chars_encode_utf8(wide);
        assert(ascii_lowered(wide) =~= outcome.wide_heading());
        assert(line =~= wide + rest);
        lemma_lowered_begins(wide, rest);
        law_cut_leaves_the_rest(wide, rest);
        lemma_spaces_off(spaces, 2, test);
        assert(after_prefix(line, lower, outcome.wide_heading()) == Some(test));
    } else {
        let c = after[0];
        if spaces.len() > 1 {
            assert(c == spaces[1]);
        } else {
            assert(c == test[0]);
        }
        if c > '\u{7f}' {
            lemma_boundary_behind(start, after, 1);
            lemma_no_boundary(after);
        } else if outcome.wide_heading().is_prefix_of(lower) {
            let longer = start + seq![c];
            lemma_one_char(c);
            vstd::utf8::is_ascii_chars_concat(longer, start, seq![c]);
            assert(line =~= longer + after.skip(1));
            lemma_lowered_begins(longer, after.skip(1));
            assert(ascii_lowered(longer)[n] == lower.subrange(0, n + 1)[n]);
            assert(outcome.wide_heading()[n] == lower.subrange(0, n + 1)[n]);
            assert(ascii_lower(c) == ' ');
        }
        assert(after_prefix(line, lower, outcome.wide_heading()) is None);
        law_cut_leaves_the_rest(start, after);
        lemma_spaces_off(spaces, 1, test);
        assert(after_prefix(line, lower, outcome.heading()) == Some(test));
    }
    assert(after_heading(line, lower, outcome) == Some(test));
    if outcome != Outcome::Passed {
        lemma_other_heading(line, lower, outcome, Outcome::Passed);
    }
    if outcome == Outcome::Skipped {
        lemma_other_heading(line, lower, outcome, Outcome::Failed);
    }
}

proof fn lemma_spaces_off(gap: Seq<char>, n: int, test: Seq<char>)
    requires
        0 <= n <= gap.len(),
        forall|i: int| 0 <= i < gap.len() ==> is_white_space(#[trigger] gap[i]),
        test.len() > 0,
        !is_white_space(test[0]),
    ensures
        without_leading(gap.skip(n) + test, CharClass::WhiteSpace) == test,
{
    let rest = gap.skip(n);
    let s = rest + test;
    assert forall|i: int| 0 <= i < rest.len() implies CharClass::WhiteSpace.has(
        #[trigger] s[i],
    ) by {
        assert(s[i] == gap[i + n]);
    }
    assert(s[rest.len() as int] == test[0]);
    lemma_leading_is(s, CharClass::WhiteSpace, rest.len() as int);
    assert(s.skip(rest.len() as int) =~= test);
}

/// What is trimmed off a result line is what is trimmed off the end of its test.
proof fn lemma_line_trimmed(start: Seq<char>, test: Seq<char>)
    requires
        start.len() > 0,
        !is_white_space(start[0]),
        test.len() > 0,
        !is_white_space(test[0]),
    ensures
        trimmed(start + test) == start + without_trailing(test, CharClass::WhiteSpace),
        trimmed(test) == without_trailing(test, CharClass::WhiteSpace),
        trimmed(without_trailing(test, CharClass::WhiteSpace)) == without_trailing(
            test,
            CharClass::WhiteSpace,
        ),
        without_trailing(test, CharClass::WhiteSpace).len() > 0,
        without_trailing(test, CharClass::WhiteSpace)[0] == test[0],
{
    let line = start + test;
    let n = trailing(test, CharClass::WhiteSpace) as int;
    lemma_trailing_has(test, CharClass::WhiteSpace);
    lemma_leading_is(test, CharClass::WhiteSpace, 0);
    assert(test.skip(0) =~= test);
    assert(line[0] == start[0]);
    lemma_leading_is(line, CharClass::WhiteSpace, 0);
    assert(line.skip(0) =~= line);
    assert(n < test.len()) by {
        if n == test.len() {
            assert(CharClass::WhiteSpace.has(test[0]));
        }
    }
    assert forall|i: int| line.len() - n <= i < line.len() implies CharClass::WhiteSpace.has(
        #[trigger] line[i],
    ) by {
        assert(line[i] == test[i - start.len()]);
    }
    assert(line[line.len() - n - 1] == test[test.len() - n - 1]);
    lemma_trailing_is(line, CharClass::WhiteSpace, n);
    let t = test.take(test.len() - n);
    assert(line.take(line.len() - n) =~= start + t);
    assert(t.last() == test[test.len() - n - 1]);
    lemma_trim_nothing(t);
}

/// A result line counts the same and reports the same in whatever letters its outcome is written
/// and with however many spaces behind it. The test is reported in the letters of the line.
pub proof fn law_casing_and_spaces_do_not_matter(
    p: ParserView,
    outcome: Outcome,
    word: Seq<char>,
    spaces: Seq<char>,
    test: Seq<char>,
)
    requires
        ascii_lowered(word) == outcome.word(),
        is_gap(spaces),
        test.len() > 0,
        !is_white_space(test[0]),
        is_identifier(test),
    ensures
        ({
            let line = trimmed(word + spaces + test);
            let plain = trimmed(outcome.word() + seq![' '] + test);
            let named = without_trailing(test, CharClass::WhiteSpace);
            let (next, result) = parsed(p, line, lowered(line));
            &&& result_in(line, lowered(line)) == Some((outcome, named))
            &&& (next, result) == parsed(p, plain, lowered(plain))
            &&& if outcome == Outcome::Failed {
                result is None && next == p.counted(outcome).pending(Some(new_failure(named)))
            } else {
                result == Some(plain_result(outcome, named)) && next == p.counted(outcome)
            }
        }),
{
    let named = without_trailing(test, CharClass::WhiteSpace);
    lemma_headings();
    lemma_word_is_ascii(outcome, word);
    assert((word + spaces)[0] == word[0]);
    lemma_line_trimmed(word + spaces, test);
    law_heading_read(outcome, word, spaces, named);

    let plain_word = outcome.word();
    assert(ascii_lowered(plain_word) =~= plain_word) by {
        reveal_strlit("passed");
        reveal_strlit("failed");
        reveal_strlit("skipped");
    }
    lemma_word_is_ascii(outcome, plain_word);
    assert((plain_word + seq![' '])[0] == plain_word[0]);
    lemma_line_trimmed(plain_word + seq![' '], test);
    law_heading_read(outcome, plain_word, seq![' '], named);
}

/// A result line is read as it was printed, whether its outcome is written `Passed`, `passed` or
/// otherwise, with any number of spaces behind it, and with a duration or without.
pub proof fn law_result_line_read_back(
    outcome: Outcome,
    word: Seq<char>,
    spaces: Seq<char>,
    test_class: Seq<char>,
    test_name: Seq<char>,
    timing: Option<(Seq<char>, Seq<char>)>,
)
    requires
        ascii_lowered(word) == outcome.word(),
        are_spaces(spaces),
        can_be_printed(test_class, test_name, timing),
    ensures
        ({
            let test = printed_test(test_class, test_name, timing);
            let line = word + spaces + test;
            &&& result_in(line, lowered(line)) == Some((outcome, test))
            &&& identifier_of(test) == meant_test(test_class, test_name, timing)
        }),
{
    let test = printed_test(test_class, test_name, timing);
    law_test_read_back(test_class, test_name, timing);
    if test_class.len() > 0 {
        assert(test[0] == test_class[0]);
    } else {
        assert(test[0] == '.');
    }
    law_heading_read(outcome, word, spaces, test);
}

// ---------------------------------------------------------------------------
// Summary lines
// ---------------------------------------------------------------------------

/// A count is read from behind its label, whatever stands before and after, and however it is
/// padded.
pub proof fn law_count_read_back(
    before: Seq<char>,
    label: Seq<char>,
    padding: Seq<char>,
    digits: Seq<char>,
    after: Seq<char>,
)
    requires
        find(before + label + (padding + digits + after), label) == Some(before.len() as int),
        forall|i: int| 0 <= i < padding.len() ==> is_white_space(#[trigger] padding[i]),
        is_decimal(digits),
        after.len() > 0 ==> !CharClass::Digit.has(after[0]),
    ensures
        count_after(before + label + (padding + digits + after), label) == digits_to_count(digits),
{
    let rest = padding + digits + after;
    let line = before + label + rest;
    let n = (before.len() + label.len()) as int;
    assert(line.skip(n) =~= rest);
    lemma_leading_has(digits, CharClass::Digit);
    assert forall|i: int| 0 <= i < padding.len() implies CharClass::WhiteSpace.has(
        #[trigger] rest[i],
    ) by {
        assert(rest[i] == padding[i]);
    }
    assert(rest[padding.len() as int] == digits[0]);
    lemma_leading_is(rest, CharClass::WhiteSpace, padding.len() as int);
    let tail = digits + after;
    assert(rest.skip(padding.len() as int) =~= tail);
    assert forall|i: int| 0 <= i < digits.len() implies CharClass::Digit.has(#[trigger] tail[i]) by {
        assert(tail[i] == digits[i]);
    }
    if after.len() > 0 {
        assert(tail[digits.len() as int] == after[0]);
    }
    lemma_leading_is(tail, CharClass::Digit, digits.len() as int);
    assert(tail.take(digits.len() as int) =~= digits);
}

} // verus!
