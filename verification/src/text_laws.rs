//! What the operations on text are for, said of texts put together from parts.

use vstd::arithmetic::power::pow;
use vstd::prelude::*;

use crate::parser::line_text;
use crate::text::{
    decimal, digits_to_count, find, is_decimal, is_white_space, joined, leading, lemma_find_has,
    lemma_find_is, lemma_find_none, lemma_leading_has, lemma_leading_is, lemma_rfind_has,
    lemma_rfind_is, lemma_rfind_none, lemma_trailing_has, lemma_trailing_is, occurs, rfind,
    text_to_count, trailing, trimmed, without_leading, without_trailing, CharClass,
};

verus! {

/// Whether a text is white space throughout.
pub open spec fn all_white(s: Seq<char>) -> bool {
    forall|i: int| 0 <= i < s.len() ==> is_white_space(#[trigger] s[i])
}

/// Whether a text neither begins nor ends with white space.
pub open spec fn is_bare(s: Seq<char>) -> bool {
    s.len() > 0 ==> !is_white_space(s[0]) && !is_white_space(s.last())
}

/// Whether a text is one word.
pub open spec fn one_word(s: Seq<char>) -> bool {
    s.len() > 0 && forall|i: int| 0 <= i < s.len() ==> !is_white_space(#[trigger] s[i])
}

/// What a text begins with is taken off it, as far as it is of the class.
pub proof fn law_strip_front(front: Seq<char>, s: Seq<char>, class: CharClass)
    requires
        forall|i: int| 0 <= i < front.len() ==> class.has(#[trigger] front[i]),
        s.len() > 0 ==> !class.has(s[0]),
    ensures
        without_leading(front + s, class) == s,
        leading(front + s, class) == front.len(),
{
    let whole = front + s;
    assert forall|i: int| 0 <= i < front.len() implies class.has(#[trigger] whole[i]) by {
        assert(whole[i] == front[i]);
    }
    if s.len() > 0 {
        assert(whole[front.len() as int] == s[0]);
    }
    lemma_leading_is(whole, class, front.len() as int);
    assert(whole.skip(front.len() as int) =~= s);
}

/// What a text ends with is taken off it, as far as it is of the class.
pub proof fn law_strip_back(s: Seq<char>, back: Seq<char>, class: CharClass)
    requires
        forall|i: int| 0 <= i < back.len() ==> class.has(#[trigger] back[i]),
        s.len() > 0 ==> !class.has(s.last()),
    ensures
        without_trailing(s + back, class) == s,
        trailing(s + back, class) == back.len(),
{
    let whole = s + back;
    assert forall|i: int| whole.len() - back.len() <= i < whole.len() implies class.has(
        #[trigger] whole[i],
    ) by {
        assert(whole[i] == back[i - s.len()]);
    }
    if s.len() > 0 {
        assert(whole[whole.len() - back.len() - 1] == s.last());
    }
    lemma_trailing_is(whole, class, back.len() as int);
    assert(whole.take(s.len() as int) =~= s);
}

/// White space around a text is trimmed off, and nothing else.
pub proof fn law_trim(front: Seq<char>, s: Seq<char>, back: Seq<char>)
    requires
        all_white(front),
        all_white(back),
        is_bare(s),
    ensures
        trimmed(front + s + back) == s,
{
    let class = CharClass::WhiteSpace;
    if s.len() == 0 {
        let whole = front + s + back;
        let none = Seq::<char>::empty();
        assert forall|i: int| 0 <= i < whole.len() implies class.has(#[trigger] whole[i]) by {
            if i < front.len() {
                assert(whole[i] == front[i]);
            } else {
                assert(whole[i] == back[i - front.len()]);
            }
        }
        law_strip_front(whole, none, class);
        assert(whole + none =~= whole);
        law_strip_back(none, none, class);
        assert(none + none =~= none);
        assert(s =~= none);
    } else {
        assert((s + back)[0] == s[0]);
        law_strip_front(front, s + back, class);
        assert(front + (s + back) =~= front + s + back);
        law_strip_back(s, back, class);
    }
}

/// A line is read without the white space around it, its line end included, and nothing else is
/// taken off.
pub proof fn law_line_text(front: Seq<char>, s: Seq<char>, back: Seq<char>)
    requires
        all_white(front),
        all_white(back),
        is_bare(s),
    ensures
        line_text(front + s + back) == s,
{
    let whole = front + s + back;
    let n = trailing(whole, CharClass::LineEnd) as int;
    lemma_trailing_has(whole, CharClass::LineEnd);
    let cut = whole.take(whole.len() - n);
    if s.len() > 0 {
        let last = front.len() + s.len() - 1;
        assert(whole[last] == s.last());
        assert(n <= back.len()) by {
            if n > back.len() {
                assert(CharClass::LineEnd.has(whole[last]));
            }
        }
        let left = back.take(back.len() - n);
        assert forall|i: int| 0 <= i < left.len() implies is_white_space(#[trigger] left[i]) by {
            assert(left[i] == back[i]);
        }
        assert(cut =~= front + s + left);
        law_trim(front, s, left);
    } else {
        let none = Seq::<char>::empty();
        assert forall|i: int| 0 <= i < cut.len() implies is_white_space(#[trigger] cut[i]) by {
            if i < front.len() {
                assert(cut[i] == front[i]);
            } else {
                assert(cut[i] == back[i - front.len()]);
            }
        }
        law_trim(cut, none, none);
        assert(cut + none + none =~= cut);
        assert(s =~= none);
    }
}

/// A text is found where it stands first, and nowhere exactly where it stands nowhere.
pub proof fn law_found_first(s: Seq<char>, pattern: Seq<char>, n: int)
    ensures
        find(s, pattern) == Some(n) <==> (0 <= n <= s.len() && pattern.is_prefix_of(s.skip(n)) && (
        forall|i: int| 0 <= i < n ==> !pattern.is_prefix_of(#[trigger] s.skip(i)))),
        find(s, pattern) is None <==> (forall|i: int|
            0 <= i <= s.len() ==> !pattern.is_prefix_of(#[trigger] s.skip(i))),
        occurs(s, pattern) <==> (exists|i: int|
            0 <= i <= s.len() && pattern.is_prefix_of(#[trigger] s.skip(i))),
{
    lemma_find_has(s, pattern);
    if let Some(m) = find(s, pattern) {
        assert forall|i: int| 0 <= i < m implies !pattern.is_prefix_of(#[trigger] s.skip(i)) by {
            lemma_not_before(s, pattern, i);
        }
        assert(pattern.is_prefix_of(s.skip(m)));
    } else {
        assert forall|i: int| 0 <= i <= s.len() implies !pattern.is_prefix_of(
            #[trigger] s.skip(i),
        ) by {
            lemma_nowhere(s, pattern, i);
        }
    }
    if 0 <= n <= s.len() && pattern.is_prefix_of(s.skip(n)) && (forall|i: int|
        0 <= i < n ==> !pattern.is_prefix_of(#[trigger] s.skip(i))) {
        lemma_find_is(s, pattern, n);
    }
    if forall|i: int| 0 <= i <= s.len() ==> !pattern.is_prefix_of(#[trigger] s.skip(i)) {
        lemma_find_none(s, pattern);
    }
}

proof fn lemma_nowhere(s: Seq<char>, pattern: Seq<char>, i: int)
    requires
        find(s, pattern) is None,
        0 <= i <= s.len(),
    ensures
        !pattern.is_prefix_of(s.skip(i)),
    decreases s.len(),
{
    assert(s.skip(0) =~= s);
    if i > 0 {
        lemma_nowhere(s.skip(1), pattern, i - 1);
        assert(s.skip(1).skip(i - 1) =~= s.skip(i));
    }
}

proof fn lemma_not_before(s: Seq<char>, pattern: Seq<char>, i: int)
    requires
        find(s, pattern) is Some,
        0 <= i < find(s, pattern)->0,
    ensures
        !pattern.is_prefix_of(s.skip(i)),
    decreases s.len(),
{
    assert(s.skip(0) =~= s);
    lemma_find_has(s, pattern);
    if i > 0 {
        lemma_not_before(s.skip(1), pattern, i - 1);
        assert(s.skip(1).skip(i - 1) =~= s.skip(i));
    }
}

/// A character is found from behind where it stands last, and nowhere exactly where it stands
/// nowhere.
pub proof fn law_found_last(s: Seq<char>, c: char, n: int)
    ensures
        rfind(s, c) == Some(n) <==> (0 <= n < s.len() && s[n] == c && (forall|i: int|
            n < i < s.len() ==> #[trigger] s[i] != c)),
        rfind(s, c) is None <==> !s.contains(c),
{
    lemma_rfind_has(s, c);
    if 0 <= n < s.len() && s[n] == c && (forall|i: int| n < i < s.len() ==> #[trigger] s[i] != c) {
        lemma_rfind_is(s, c, n);
    }
    if !s.contains(c) {
        assert forall|i: int| 0 <= i < s.len() implies #[trigger] s[i] != c by {
            assert(s.contains(s[i]));
        }
        lemma_rfind_none(s, c);
    }
}

/// Texts are joined in their order, with one space between each two.
pub proof fn law_joined(a: Seq<Seq<char>>, b: Seq<Seq<char>>, one: Seq<char>)
    ensures
        joined(Seq::<Seq<char>>::empty()) == Seq::<char>::empty(),
        joined(seq![one]) == one,
        a.len() > 0 && b.len() > 0 ==> joined(a + b) == joined(a) + seq![' '] + joined(b),
    decreases b.len(),
{
    if a.len() > 0 && b.len() > 0 {
        assert((a + b).drop_last() =~= a + b.drop_last());
        assert((a + b).last() == b.last());
        if b.len() == 1 {
            assert(a + b.drop_last() =~= a);
        } else {
            law_joined(a, b.drop_last(), one);
            assert(joined(a + b) =~= joined(a) + seq![' '] + joined(b));
        }
    }
}

/// Digits are read by their places: a digit is its value, and digits before others count ten
/// times more for each of those.
pub proof fn law_decimal_places(a: Seq<char>, b: Seq<char>, digit: char)
    requires
        '0' <= digit && digit <= '9',
    ensures
        decimal(seq![digit]) == digit as nat - '0' as nat,
        decimal(a + b) == decimal(a) * pow(10, b.len()) + decimal(b),
    decreases b.len(),
{
    assert(seq![digit].drop_last() =~= Seq::<char>::empty());
    assert(decimal(seq![digit].drop_last()) == 0);
    vstd::arithmetic::power::lemma_pow0(10);
    if b.len() == 0 {
        assert(a + b =~= a);
        assert(decimal(a) * 1 == decimal(a));
    } else {
        let less = b.drop_last();
        law_decimal_places(a, less, digit);
        assert((a + b).drop_last() =~= a + less);
        assert((a + b).last() == b.last());
        reveal(pow);
        let d = decimal(a) as int;
        let e = pow(10, less.len());
        assert(pow(10, b.len()) == 10 * e);
        assert(10 * (d * e) == d * (10 * e)) by (nonlinear_arith);
    }
}

/// A count is read from one decimal digit or more that spell a number of 32 bits, and from
/// nothing else; a plus sign may stand before it where the whole text is the number.
pub proof fn law_counts_read(s: Seq<char>, n: u32)
    ensures
        digits_to_count(s) == Some(n) <==> (s.len() > 0 && (forall|i: int|
            0 <= i < s.len() ==> '0' <= #[trigger] s[i] && s[i] <= '9') && decimal(s) == n),
        text_to_count(seq!['+'] + s) == digits_to_count(s),
        s.len() > 0 && s[0] != '+' ==> text_to_count(s) == digits_to_count(s),
        s.len() == 0 ==> text_to_count(s) is None,
{
    lemma_leading_has(s, CharClass::Digit);
    if s.len() > 0 && (forall|i: int| 0 <= i < s.len() ==> '0' <= #[trigger] s[i] && s[i] <= '9') {
        assert forall|i: int| 0 <= i < s.len() implies CharClass::Digit.has(#[trigger] s[i]) by {}
        lemma_leading_is(s, CharClass::Digit, s.len() as int);
    }
    if is_decimal(s) {
        assert forall|i: int| 0 <= i < s.len() implies '0' <= #[trigger] s[i] && s[i] <= '9' by {
            assert(CharClass::Digit.has(s[i]));
        }
    }
    assert((seq!['+'] + s).skip(1) =~= s);
}

} // verus!
