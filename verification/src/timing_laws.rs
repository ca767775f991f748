//! What is read of the test that a result line names, said of names and brackets put together
//! from parts.

use vstd::prelude::*;

use crate::identifier::{
    after_first_word, bracketed, duration_of, first_word, identifier_of, is_identifier, is_timing,
    last_word, name_part, timing_at, DurationUnit, DurationView, IdentifierView,
};
use crate::text::{is_white_space, lemma_rfind_is, lemma_rfind_none, trimmed, CharClass};
use crate::text_laws::{
    all_white, is_bare, law_found_last, law_strip_back, law_strip_front, law_trim, one_word,
};

verus! {

/// The first word is what it begins with, white space aside, up to the next white space.
proof fn lemma_first_word(front: Seq<char>, word: Seq<char>, rest: Seq<char>)
    requires
        all_white(front),
        one_word(word),
        rest.len() > 0 ==> is_white_space(rest[0]),
    ensures
        first_word(front + word + rest) == word,
        after_first_word(front + word + rest) == rest,
{
    assert((word + rest)[0] == word[0]);
    law_strip_front(front, word + rest, CharClass::WhiteSpace);
    assert(front + (word + rest) =~= front + word + rest);
    assert forall|i: int| 0 <= i < word.len() implies CharClass::Word.has(#[trigger] word[i]) by {}
    law_strip_front(word, rest, CharClass::Word);
    assert((word + rest).take(word.len() as int) =~= word);
}

/// White space has no words.
proof fn lemma_no_word(s: Seq<char>)
    requires
        all_white(s),
    ensures
        first_word(s) == Seq::<char>::empty(),
        after_first_word(s) == Seq::<char>::empty(),
{
    let none = Seq::<char>::empty();
    law_strip_front(s, none, CharClass::WhiteSpace);
    assert(s + none =~= s);
    law_strip_front(none, none, CharClass::Word);
    assert(none + none =~= none);
    assert(none.take(0) =~= none);
    assert(none.skip(0) =~= none);
}

/// The last word is what stands behind the last white space, white space at the end aside.
proof fn lemma_last_word(before: Seq<char>, word: Seq<char>, back: Seq<char>)
    requires
        before.len() > 0 ==> is_white_space(before.last()),
        one_word(word),
        all_white(back),
    ensures
        last_word(before + word + back) == word,
{
    assert((before + word).last() == word.last());
    law_strip_back(before + word, back, CharClass::WhiteSpace);
    assert forall|i: int| 0 <= i < word.len() implies CharClass::Word.has(#[trigger] word[i]) by {}
    law_strip_back(before, word, CharClass::Word);
    assert((before + word).skip(before.len() as int) =~= word);
}

/// The first two words of a timing are its value and its unit: `ms`, `s` or `m`. Any other word in
/// the place of the unit counts as milliseconds.
pub proof fn law_duration_is_two_words(
    front: Seq<char>,
    value: Seq<char>,
    gap: Seq<char>,
    unit: Seq<char>,
    more: Seq<char>,
)
    requires
        all_white(front),
        one_word(value),
        all_white(gap),
        gap.len() > 0,
        one_word(unit),
        more.len() > 0 ==> is_white_space(more[0]),
    ensures
        ({
            let read = duration_of(front + value + gap + unit + more);
            &&& unit == "ms"@ ==> read == Some(
                DurationView { value, unit: DurationUnit::Milliseconds },
            )
            &&& unit == "s"@ ==> read == Some(DurationView { value, unit: DurationUnit::Seconds })
            &&& unit == "m"@ ==> read == Some(DurationView { value, unit: DurationUnit::Minutes })
            &&& unit != "s"@ && unit != "m"@ ==> read == Some(
                DurationView { value, unit: DurationUnit::Milliseconds },
            )
        }),
{
    reveal_strlit("ms");
    reveal_strlit("s");
    reveal_strlit("m");
    assert("ms"@.len() == 2 && "s"@.len() == 1 && "m"@.len() == 1);
    assert("s"@[0] != "m"@[0]);
    let rest = gap + unit + more;
    assert(rest[0] == gap[0]);
    assert(front + value + gap + unit + more =~= front + value + rest);
    lemma_first_word(front, value, rest);
    lemma_first_word(gap, unit, more);
}

/// A text of fewer than two words has no duration.
pub proof fn law_one_word_is_no_duration(front: Seq<char>, word: Seq<char>, back: Seq<char>)
    requires
        all_white(front),
        all_white(back),
        word.len() == 0 || one_word(word),
    ensures
        duration_of(front + word + back) is None,
{
    let s = front + word + back;
    if word.len() > 0 {
        lemma_first_word(front, word, back);
        lemma_no_word(back);
    } else {
        assert forall|i: int| 0 <= i < s.len() implies is_white_space(#[trigger] s[i]) by {
            if i < front.len() {
                assert(s[i] == front[i]);
            } else {
                assert(s[i] == back[i - front.len()]);
            }
        }
        lemma_no_word(s);
        lemma_no_word(Seq::<char>::empty());
    }
}

/// Where a text has its last opening bracket at the given place and ends with a closing one, that
/// is the place of its timing bracket if there is a timing inside.
proof fn lemma_bracket(before: Seq<char>, inside: Seq<char>, back: Seq<char>)
    requires
        !inside.contains('['),
        all_white(back),
    ensures
        ({
            let s = before + seq!['['] + inside + seq![']'] + back;
            &&& bracketed(s, before.len() as int) == inside
            &&& s.take(before.len() as int) == before
            &&& is_timing(inside) ==> timing_at(s) == Some(before.len() as int)
            &&& !is_timing(inside) ==> timing_at(s) is None
        }),
{
    let t = before + seq!['['] + inside + seq![']'];
    let s = t + back;
    let at = before.len() as int;
    assert(t.last() == ']');
    law_strip_back(t, back, CharClass::WhiteSpace);
    assert(s[at] == '[');
    assert forall|i: int| at < i < s.len() implies #[trigger] s[i] != '[' by {
        if i < t.len() - 1 {
            assert(s[i] == inside[i - at - 1]);
            assert(inside.contains(inside[i - at - 1]));
        } else if i >= t.len() {
            assert(s[i] == back[i - t.len()]);
        }
    }
    lemma_rfind_is(s, '[', at);
    assert(t.subrange(at + 1, t.len() - 1) =~= inside);
    assert(s.take(at) =~= before);
}

/// A bracket at the end with two words or more in it, of which the last is `ms`, `s` or `m`, is
/// the timing of the test, and what stands before it is its name. Such a text names a test.
pub proof fn law_timing_bracket(
    before: Seq<char>,
    front: Seq<char>,
    value: Seq<char>,
    gap: Seq<char>,
    second: Seq<char>,
    more: Seq<char>,
    until_last: Seq<char>,
    last: Seq<char>,
    last_gap: Seq<char>,
    back: Seq<char>,
)
    requires
        all_white(front),
        one_word(value),
        all_white(gap),
        gap.len() > 0,
        one_word(second),
        more.len() > 0 ==> is_white_space(more[0]),
        until_last.len() > 0 ==> is_white_space(until_last.last()),
        last == "ms"@ || last == "s"@ || last == "m"@,
        all_white(last_gap),
        front + value + gap + second + more == until_last + last + last_gap,
        !(front + value + gap + second + more).contains('['),
        all_white(back),
    ensures
        ({
            let inside = front + value + gap + second + more;
            let s = before + seq!['['] + inside + seq![']'] + back;
            &&& timing_at(s) == Some(before.len() as int)
            &&& name_part(s) == trimmed(before)
            &&& identifier_of(s).duration == duration_of(inside)
            &&& duration_of(inside) is Some
            &&& (before.len() > 0 ==> !is_white_space(before[0])) ==> is_identifier(s)
        }),
{
    let inside = front + value + gap + second + more;
    let s = before + seq!['['] + inside + seq![']'] + back;
    reveal_strlit("ms");
    reveal_strlit("s");
    reveal_strlit("m");
    law_duration_is_two_words(front, value, gap, second, more);
    lemma_last_word(until_last, last, last_gap);
    lemma_bracket(before, inside, back);
    if before.len() > 0 ==> !is_white_space(before[0]) {
        let none = Seq::<char>::empty();
        let t = before + seq!['['] + inside + seq![']'];
        if before.len() > 0 {
            assert(t[0] == before[0]);
        } else {
            assert(t[0] == '[');
        }
        law_trim(none, t, back);
        assert(none + t + back =~= s);
        lemma_bracket(before, inside, none);
        assert(t + none =~= t);
    }
}

/// Where a text does not end with a closing bracket, or has no opening one, it has no timing: all
/// of it is the name.
pub proof fn law_no_bracket(front: Seq<char>, s: Seq<char>, back: Seq<char>)
    requires
        all_white(front),
        is_bare(s),
        all_white(back),
        s.len() == 0 || s.last() != ']' || !s.contains('['),
    ensures
        identifier_of(front + s + back).duration is None,
        name_part(front + s + back) == s,
        is_identifier(front + s + back) <==> s.contains('.'),
{
    let whole = front + s + back;
    let none = Seq::<char>::empty();
    law_trim(front, s, back);
    lemma_no_timing(front, s, back);
    lemma_no_timing(none, s, none);
    assert(none + s + none =~= s);
}

proof fn lemma_no_timing(front: Seq<char>, s: Seq<char>, back: Seq<char>)
    requires
        all_white(front),
        is_bare(s),
        all_white(back),
        s.len() == 0 || s.last() != ']' || !s.contains('['),
    ensures
        timing_at(front + s + back) is None,
{
    let whole = front + s + back;
    if s.len() > 0 && s.contains('[') {
        assert((front + s).last() == s.last());
        law_strip_back(front + s, back, CharClass::WhiteSpace);
    } else {
        assert forall|i: int| 0 <= i < whole.len() implies #[trigger] whole[i] != '[' by {
            if i < front.len() {
                assert(whole[i] == front[i]);
            } else if i < front.len() + s.len() {
                assert(whole[i] == s[i - front.len()]);
                assert(s.contains(s[i - front.len()]));
            } else {
                assert(whole[i] == back[i - front.len() - s.len()]);
            }
        }
        lemma_rfind_none(whole, '[');
    }
}

/// A bracket at the end with fewer than two words in it, or whose last word is not `ms`, `s` or
/// `m`, is no timing: it belongs to the name, and does not make prose a test.
pub proof fn law_other_bracket(
    front: Seq<char>,
    before: Seq<char>,
    until_last: Seq<char>,
    word: Seq<char>,
    last_gap: Seq<char>,
    back: Seq<char>,
)
    requires
        all_white(front),
        before.len() > 0 ==> !is_white_space(before[0]),
        !(until_last + word + last_gap).contains('['),
        all_white(last_gap),
        all_white(back),
        ({
            ||| all_white(until_last) && (word.len() == 0 || one_word(word))
            ||| (until_last.len() > 0 ==> is_white_space(until_last.last())) && one_word(word)
                && word != "ms"@ && word != "s"@ && word != "m"@
        }),
    ensures
        ({
            let name = before + seq!['['] + (until_last + word + last_gap) + seq![']'];
            &&& identifier_of(front + name + back).duration is None
            &&& name_part(front + name + back) == name
            &&& is_identifier(front + name + back) <==> name.contains('.')
        }),
{
    let inside = until_last + word + last_gap;
    let name = before + seq!['['] + inside + seq![']'];
    let none = Seq::<char>::empty();
    if all_white(until_last) && (word.len() == 0 || one_word(word)) {
        law_one_word_is_no_duration(until_last, word, last_gap);
    } else {
        lemma_last_word(until_last, word, last_gap);
    }
    lemma_bracket(front + before, inside, back);
    assert((front + before) + seq!['['] + inside + seq![']'] + back =~= front + name + back);
    lemma_bracket(before, inside, none);
    assert(name + none =~= name);
    if before.len() > 0 {
        assert(name[0] == before[0]);
    } else {
        assert(name[0] == '[');
    }
    law_trim(front, name, back);
}

/// White space around a text does not matter to whether it names a test.
pub proof fn law_white_space_names_nothing(front: Seq<char>, s: Seq<char>, back: Seq<char>)
    requires
        all_white(front),
        is_bare(s),
        all_white(back),
    ensures
        is_identifier(front + s + back) == is_identifier(s),
        s.contains('.') ==> is_identifier(s),
{
    let none = Seq::<char>::empty();
    law_trim(front, s, back);
    law_trim(none, s, none);
    assert(none + s + none =~= s);
}

/// A name is cut at its last dot into class and method.
pub proof fn law_cut_at_last_dot(s: Seq<char>, test_class: Seq<char>, test_name: Seq<char>)
    requires
        name_part(s) == test_class + seq!['.'] + test_name,
        !test_name.contains('.'),
    ensures
        identifier_of(s).test_class == test_class,
        identifier_of(s).test_name == test_name,
{
    let name = name_part(s);
    let dot = test_class.len() as int;
    assert(name[dot] == '.');
    assert forall|i: int| dot < i < name.len() implies #[trigger] name[i] != '.' by {
        assert(name[i] == test_name[i - dot - 1]);
        assert(test_name.contains(test_name[i - dot - 1]));
    }
    lemma_rfind_is(name, '.', dot);
    assert(name.take(dot) =~= test_class);
    assert(name.skip(dot + 1) =~= test_name);
}

/// A name without a dot is the method as a whole, of the class `Unknown`.
pub proof fn law_without_a_dot(s: Seq<char>)
    requires
        !name_part(s).contains('.'),
    ensures
        identifier_of(s).test_class == "Unknown"@,
        identifier_of(s).test_name == name_part(s),
{
    law_found_last(name_part(s), '.', 0);
}

/// A display name without a dot and a timing is a test of the class `Unknown` with that whole
/// name, however many words it has.
pub proof fn law_display_name_read_back(name: Seq<char>, value: Seq<char>, unit: Seq<char>)
    requires
        name.len() > 0,
        is_bare(name),
        !name.contains('.'),
        one_word(value),
        !value.contains('['),
        unit == "ms"@ || unit == "s"@ || unit == "m"@,
    ensures
        ({
            let test = name + seq![' '] + (seq!['['] + (value + seq![' '] + unit) + seq![']']);
            &&& is_identifier(test)
            &&& identifier_of(test) == (IdentifierView {
                test_class: "Unknown"@,
                test_name: name,
                duration: Some(
                    DurationView {
                        value,
                        unit: if unit == "s"@ {
                            DurationUnit::Seconds
                        } else if unit == "m"@ {
                            DurationUnit::Minutes
                        } else {
                            DurationUnit::Milliseconds
                        },
                    },
                ),
            })
        }),
{
    let none = Seq::<char>::empty();
    let gap = seq![' '];
    let inside = value + gap + unit;
    let before = name + gap;
    let test = name + gap + (seq!['['] + inside + seq![']']);
    reveal_strlit("ms");
    reveal_strlit("s");
    reveal_strlit("m");
    assert(none + value + gap + unit + none =~= inside);
    assert((value + gap) + unit + none =~= inside);
    assert((value + gap).last() == ' ');
    assert forall|i: int| 0 <= i < inside.len() implies #[trigger] inside[i] != '[' by {
        if i < value.len() {
            assert(inside[i] == value[i]);
            assert(value.contains(value[i]));
        }
    }
    law_timing_bracket(before, none, value, gap, unit, none, value + gap, unit, none, none);
    law_duration_is_two_words(none, value, gap, unit, none);
    assert(before + seq!['['] + inside + seq![']'] + none =~= test);
    law_trim(none, name, gap);
    assert(none + name + gap =~= before);
    assert(before[0] == name[0]);
    law_without_a_dot(test);
}

} // verus!
