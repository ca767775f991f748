//! Text as a sequence of characters: the operations that the line grammar is made of.

use vstd::prelude::*;
use vstd::utf8::{decode_utf8, encode_utf8, is_char_boundary};

verus! {

/// The characters with the Unicode property `White_Space`.
pub open spec fn is_white_space(c: char) -> bool {
    ||| '\u{9}' <= c && c <= '\u{d}'
    ||| c == ' '
    ||| c == '\u{85}'
    ||| c == '\u{a0}'
    ||| c == '\u{1680}'
    ||| '\u{2000}' <= c && c <= '\u{200a}'
    ||| c == '\u{2028}'
    ||| c == '\u{2029}'
    ||| c == '\u{202f}'
    ||| c == '\u{205f}'
    ||| c == '\u{3000}'
}

/// A set of characters that text is stripped of or measured by.
#[derive(Clone, Copy)]
pub enum CharClass {
    WhiteSpace,
    /// Everything that is not white space.
    Word,
    /// Line feed and carriage return.
    LineEnd,
    /// The ten ASCII digits.
    Digit,
}

impl CharClass {
    pub open spec fn has(self, c: char) -> bool {
        match self {
            CharClass::WhiteSpace => is_white_space(c),
            CharClass::Word => !is_white_space(c),
            CharClass::LineEnd => c == '\n' || c == '\r',
            CharClass::Digit => '0' <= c && c <= '9',
        }
    }

    pub fn contains(self, c: char) -> (r: bool)
        ensures
            r == self.has(c),
    {
        match self {
            CharClass::WhiteSpace => white_space(c),
            CharClass::Word => !white_space(c),
            CharClass::LineEnd => c == '\n' || c == '\r',
            CharClass::Digit => '0' <= c && c <= '9',
        }
    }
}

/// Tells whether `c` is white space.
pub fn white_space(c: char) -> (r: bool)
    ensures
        r == is_white_space(c),
{
    ('\u{9}' <= c && c <= '\u{d}') || c == ' ' || c == '\u{85}' || c == '\u{a0}' || c == '\u{1680}'
        || ('\u{2000}' <= c && c <= '\u{200a}') || c == '\u{2028}' || c == '\u{2029}' || c
        == '\u{202f}' || c == '\u{205f}' || c == '\u{3000}'
}

/// How many characters of `class` the text begins with.
pub open spec fn leading(s: Seq<char>, class: CharClass) -> nat
    decreases s.len(),
{
    if s.len() > 0 && class.has(s[0]) {
        1 + leading(s.skip(1), class)
    } else {
        0
    }
}

/// How many characters of `class` the text ends with.
pub open spec fn trailing(s: Seq<char>, class: CharClass) -> nat
    decreases s.len(),
{
    if s.len() > 0 && class.has(s.last()) {
        1 + trailing(s.drop_last(), class)
    } else {
        0
    }
}

/// The text without the characters of `class` that it begins with.
pub open spec fn without_leading(s: Seq<char>, class: CharClass) -> Seq<char> {
    s.skip(leading(s, class) as int)
}

/// The text without the characters of `class` that it ends with.
pub open spec fn without_trailing(s: Seq<char>, class: CharClass) -> Seq<char> {
    s.take(s.len() - trailing(s, class))
}

/// The text without the characters of `class` at either end.
pub open spec fn stripped(s: Seq<char>, class: CharClass) -> Seq<char> {
    without_trailing(without_leading(s, class), class)
}

/// The text without white space at either end.
pub open spec fn trimmed(s: Seq<char>) -> Seq<char> {
    stripped(s, CharClass::WhiteSpace)
}

/// `leading` is the one number before which all characters are of the class, and at which one
/// is not.
pub proof fn lemma_leading_is(s: Seq<char>, class: CharClass, n: int)
    requires
        0 <= n <= s.len(),
        forall|i: int| 0 <= i < n ==> class.has(#[trigger] s[i]),
        n < s.len() ==> !class.has(s[n]),
    ensures
        leading(s, class) == n,
    decreases n,
{
    if n > 0 {
        let rest = s.skip(1);
        assert forall|i: int| 0 <= i < n - 1 implies class.has(#[trigger] rest[i]) by {
            assert(rest[i] == s[i + 1]);
        }
        if n < s.len() {
            assert(rest[n - 1] == s[n]);
        }
        assert(class.has(s[0]));
        lemma_leading_is(rest, class, n - 1);
    }
}

/// What `leading` says of the characters it counts, and of the one after them.
pub proof fn lemma_leading_has(s: Seq<char>, class: CharClass)
    ensures
        leading(s, class) <= s.len(),
        forall|i: int| 0 <= i < leading(s, class) ==> class.has(#[trigger] s[i]),
        leading(s, class) < s.len() ==> !class.has(s[leading(s, class) as int]),
    decreases s.len(),
{
    if s.len() > 0 && class.has(s[0]) {
        let rest = s.skip(1);
        lemma_leading_has(rest, class);
        let n = leading(rest, class);
        assert forall|i: int| 0 <= i < 1 + n implies class.has(#[trigger] s[i]) by {
            if i > 0 {
                assert(rest[i - 1] == s[i]);
            }
        }
        if n < rest.len() {
            assert(rest[n as int] == s[n + 1int]);
        }
    }
}

/// The counterpart of `lemma_leading_is` at the end of the text.
pub proof fn lemma_trailing_is(s: Seq<char>, class: CharClass, n: int)
    requires
        0 <= n <= s.len(),
        forall|i: int| s.len() - n <= i < s.len() ==> class.has(#[trigger] s[i]),
        n < s.len() ==> !class.has(s[s.len() - n - 1]),
    ensures
        trailing(s, class) == n,
    decreases n,
{
    if n > 0 {
        assert(class.has(s[s.len() - 1]));
        lemma_trailing_is(s.drop_last(), class, n - 1);
    }
}

/// The counterpart of `lemma_leading_has` at the end of the text.
pub proof fn lemma_trailing_has(s: Seq<char>, class: CharClass)
    ensures
        trailing(s, class) <= s.len(),
        forall|i: int| s.len() - trailing(s, class) <= i < s.len() ==> class.has(#[trigger] s[i]),
        trailing(s, class) < s.len() ==> !class.has(s[s.len() - trailing(s, class) - 1]),
    decreases s.len(),
{
    if s.len() > 0 && class.has(s.last()) {
        let rest = s.drop_last();
        lemma_trailing_has(rest, class);
        assert forall|i: int| s.len() - trailing(s, class) <= i < s.len() implies class.has(
            #[trigger] s[i],
        ) by {
            if i < s.len() - 1 {
                assert(rest[i] == s[i]);
            }
        }
    }
}

/// The characters of `s`, one by one.
pub fn chars_of(s: &str) -> (chars: Vec<char>)
    ensures
        chars@ == s@,
{
    let mut chars: Vec<char> = Vec::new();
    for c in it: s.chars()
        invariant
            it.seq() == s@,
            chars@ == it.seq().take(it.index()),
    {
        chars.push(c);
        assert(chars@ =~= it.seq().take(it.index() + 1));
    }
    assert(s@.take(s@.len() as int) =~= s@);
    chars
}

fn leading_len(chars: &Vec<char>, class: CharClass) -> (n: usize)
    ensures
        n == leading(chars@, class),
        n <= chars@.len(),
{
    let mut n: usize = 0;
    while n < chars.len() && class.contains(chars[n])
        invariant
            n <= chars@.len(),
            forall|i: int| 0 <= i < n ==> class.has(#[trigger] chars@[i]),
        decreases chars@.len() - n,
    {
        n += 1;
    }
    proof {
        lemma_leading_is(chars@, class, n as int);
    }
    n
}

fn trailing_len(chars: &Vec<char>, class: CharClass) -> (n: usize)
    ensures
        n == trailing(chars@, class),
        n <= chars@.len(),
{
    let mut n: usize = 0;
    while n < chars.len() && class.contains(chars[chars.len() - n - 1])
        invariant
            n <= chars@.len(),
            forall|i: int| chars@.len() - n <= i < chars@.len() ==> class.has(#[trigger] chars@[i]),
        decreases chars@.len() - n,
    {
        n += 1;
    }
    proof {
        lemma_trailing_is(chars@, class, n as int);
    }
    n
}

/// Strips `s` of the characters of `class` that it begins with.
pub fn strip_leading<'a>(s: &'a str, class: CharClass) -> (r: &'a str)
    ensures
        r@ == without_leading(s@, class),
{
    let chars = chars_of(s);
    let n: usize = leading_len(&chars, class);
    s.substring_char(n, chars.len())
}

/// Strips `s` of the characters of `class` that it ends with.
pub fn strip_trailing<'a>(s: &'a str, class: CharClass) -> (r: &'a str)
    ensures
        r@ == without_trailing(s@, class),
{
    let chars = chars_of(s);
    let n: usize = trailing_len(&chars, class);
    s.substring_char(0, chars.len() - n)
}

/// Strips `s` of white space at either end.
pub fn trim<'a>(s: &'a str) -> (r: &'a str)
    ensures
        r@ == trimmed(s@),
{
    strip_trailing(strip_leading(s, CharClass::WhiteSpace), CharClass::WhiteSpace)
}

/// The place of the first occurrence of `pattern` in `s`.
pub open spec fn find(s: Seq<char>, pattern: Seq<char>) -> Option<int>
    decreases s.len(),
{
    if pattern.is_prefix_of(s) {
        Some(0int)
    } else if s.len() == 0 {
        None
    } else {
        match find(s.skip(1), pattern) {
            Some(i) => Some(i + 1),
            None => None,
        }
    }
}

/// Whether `pattern` occurs in `s`.
pub open spec fn occurs(s: Seq<char>, pattern: Seq<char>) -> bool {
    find(s, pattern) is Some
}

/// `find` gives the one place at which the pattern stands while it stands at none before.
pub proof fn lemma_find_is(s: Seq<char>, pattern: Seq<char>, n: int)
    requires
        0 <= n <= s.len(),
        pattern.is_prefix_of(s.skip(n)),
        forall|i: int| 0 <= i < n ==> !pattern.is_prefix_of(#[trigger] s.skip(i)),
    ensures
        find(s, pattern) == Some(n),
    decreases n,
{
    if n == 0 {
        assert(s.skip(0) =~= s);
    } else {
        assert(s.skip(0) =~= s);
        assert(!pattern.is_prefix_of(s.skip(0)));
        let rest = s.skip(1);
        assert(rest.skip(n - 1) =~= s.skip(n));
        assert forall|i: int| 0 <= i < n - 1 implies !pattern.is_prefix_of(
            #[trigger] rest.skip(i),
        ) by {
            assert(rest.skip(i) =~= s.skip(i + 1));
        }
        lemma_find_is(rest, pattern, n - 1);
    }
}

/// `find` gives nothing where the pattern stands nowhere.
pub proof fn lemma_find_none(s: Seq<char>, pattern: Seq<char>)
    requires
        forall|i: int| 0 <= i <= s.len() ==> !pattern.is_prefix_of(#[trigger] s.skip(i)),
    ensures
        find(s, pattern) is None,
    decreases s.len(),
{
    assert(s.skip(0) =~= s);
    assert(!pattern.is_prefix_of(s.skip(0)));
    if s.len() > 0 {
        let rest = s.skip(1);
        assert forall|i: int| 0 <= i <= rest.len() implies !pattern.is_prefix_of(
            #[trigger] rest.skip(i),
        ) by {
            assert(rest.skip(i) =~= s.skip(i + 1));
        }
        lemma_find_none(rest, pattern);
    }
}

/// What `find` says of the place that it gives.
pub proof fn lemma_find_has(s: Seq<char>, pattern: Seq<char>)
    ensures
        find(s, pattern) matches Some(n) ==> 0 <= n && n + pattern.len() <= s.len()
            && pattern.is_prefix_of(s.skip(n)),
    decreases s.len(),
{
    assert(s.skip(0) =~= s);
    if !pattern.is_prefix_of(s) && s.len() > 0 {
        lemma_find_has(s.skip(1), pattern);
        if let Some(i) = find(s.skip(1), pattern) {
            assert(s.skip(1).skip(i) =~= s.skip(i + 1));
        }
    }
}

fn stands_at(chars: &Vec<char>, at: usize, pattern: &Vec<char>) -> (r: bool)
    requires
        at <= chars@.len(),
    ensures
        r == pattern@.is_prefix_of(chars@.skip(at as int)),
{
    let left: usize = chars.len() - at;
    if pattern.len() > left {
        return false;
    }
    let mut i: usize = 0;
    while i < pattern.len()
        invariant
            at + left == chars.len(),
            pattern@.len() <= left,
            i <= pattern@.len(),
            forall|j: int| 0 <= j < i ==> pattern@[j] == #[trigger] chars@.skip(at as int)[j],
        decreases pattern@.len() - i,
    {
        if pattern[i] != chars[at + i] {
            assert(pattern@[i as int] != chars@.skip(at as int)[i as int]);
            assert(chars@.skip(at as int).subrange(0, pattern@.len() as int)[i as int]
                == chars@.skip(at as int)[i as int]);
            return false;
        }
        i += 1;
    }
    assert(pattern@ =~= chars@.skip(at as int).subrange(0, pattern@.len() as int));
    true
}

/// Tells whether `s` begins with `prefix`.
pub fn begins_with(s: &str, prefix: &str) -> (r: bool)
    ensures
        r == prefix@.is_prefix_of(s@),
{
    let chars = chars_of(s);
    assert(chars@.skip(0) =~= chars@);
    stands_at(&chars, 0, &chars_of(prefix))
}

/// Tells whether two texts are the same.
pub fn same_text(a: &str, b: &str) -> (r: bool)
    ensures
        r == (a@ == b@),
{
    let left = chars_of(a);
    let right = chars_of(b);
    assert(left@.skip(0) =~= left@);
    let r = left.len() == right.len() && stands_at(&left, 0, &right);
    proof {
        if r {
            assert(left@ =~= left@.subrange(0, left@.len() as int));
        }
        if a@ == b@ {
            assert(right@ =~= left@.subrange(0, right@.len() as int));
        }
    }
    r
}

/// Finds the first occurrence of `pattern` in `s`, counted in characters.
pub fn find_text(s: &str, pattern: &str) -> (r: Option<usize>)
    ensures
        match r {
            Some(n) => find(s@, pattern@) == Some(n as int),
            None => find(s@, pattern@) is None,
        },
{
    let chars = chars_of(s);
    let wanted = chars_of(pattern);
    let mut n: usize = 0;
    loop
        invariant
            chars@ == s@,
            wanted@ == pattern@,
            n <= chars@.len(),
            forall|i: int| 0 <= i < n ==> !wanted@.is_prefix_of(#[trigger] chars@.skip(i)),
        decreases chars@.len() - n,
    {
        if stands_at(&chars, n, &wanted) {
            proof {
                lemma_find_is(chars@, wanted@, n as int);
            }
            return Some(n);
        }
        if n == chars.len() {
            proof {
                lemma_find_none(chars@, wanted@);
            }
            return None;
        }
        n += 1;
    }
}

/// Tells whether `pattern` occurs in `s`.
pub fn has_text(s: &str, pattern: &str) -> (r: bool)
    ensures
        r == occurs(s@, pattern@),
{
    find_text(s, pattern).is_some()
}

/// The place of the last occurrence of a character.
pub open spec fn rfind(s: Seq<char>, c: char) -> Option<int>
    decreases s.len(),
{
    if s.len() == 0 {
        None
    } else if s.last() == c {
        Some(s.len() - 1)
    } else {
        rfind(s.drop_last(), c)
    }
}

/// `rfind` gives the one place of the character after which it does not come again.
pub proof fn lemma_rfind_is(s: Seq<char>, c: char, n: int)
    requires
        0 <= n < s.len(),
        s[n] == c,
        forall|i: int| n < i < s.len() ==> #[trigger] s[i] != c,
    ensures
        rfind(s, c) == Some(n),
    decreases s.len(),
{
    if n < s.len() - 1 {
        assert(s[s.len() - 1] != c);
        lemma_rfind_is(s.drop_last(), c, n);
    }
}

/// `rfind` gives nothing where the character does not occur.
pub proof fn lemma_rfind_none(s: Seq<char>, c: char)
    requires
        forall|i: int| 0 <= i < s.len() ==> #[trigger] s[i] != c,
    ensures
        rfind(s, c) is None,
    decreases s.len(),
{
    if s.len() > 0 {
        assert(s[s.len() - 1] != c);
        lemma_rfind_none(s.drop_last(), c);
    }
}

/// What `rfind` says of the place that it gives.
pub proof fn lemma_rfind_has(s: Seq<char>, c: char)
    ensures
        match rfind(s, c) {
            Some(n) => 0 <= n < s.len() && s[n] == c && forall|i: int|
                n < i < s.len() ==> #[trigger] s[i] != c,
            None => forall|i: int| 0 <= i < s.len() ==> #[trigger] s[i] != c,
        },
    decreases s.len(),
{
    if s.len() > 0 && s.last() != c {
        lemma_rfind_has(s.drop_last(), c);
        assert forall|i: int|
            0 <= i < s.len() && (rfind(s, c) matches Some(n) ==> n < i) implies #[trigger] s[i]
            != c by {
            if i < s.len() - 1 {
                assert(s.drop_last()[i] == s[i]);
            }
        }
    }
}

/// Finds the last occurrence of `c` among `chars`.
pub fn find_last(chars: &Vec<char>, c: char) -> (r: Option<usize>)
    ensures
        match r {
            Some(n) => n < chars.len() && rfind(chars@, c) == Some(n as int),
            None => rfind(chars@, c) is None,
        },
{
    let mut n: usize = chars.len();
    while n > 0
        invariant
            n <= chars@.len(),
            forall|i: int| n <= i < chars@.len() ==> #[trigger] chars@[i] != c,
        decreases n,
    {
        if chars[n - 1] == c {
            proof {
                lemma_rfind_is(chars@, c, n - 1);
            }
            return Some(n - 1);
        }
        n -= 1;
    }
    proof {
        lemma_rfind_none(chars@, c);
    }
    None
}

/// What is left of the text when its first `n` bytes in UTF-8 are cut off.
pub open spec fn text_after(s: Seq<char>, n: int) -> Seq<char> {
    decode_utf8(encode_utf8(s).skip(n))
}

/// Cuts the first `n` bytes off `s`; gives nothing where the text is shorter or the cut would
/// fall inside a character.
pub fn cut_bytes<'a>(s: &'a str, n: usize) -> (r: Option<&'a str>)
    ensures
        match r {
            Some(rest) => is_char_boundary(encode_utf8(s@), n as int) && rest@ == text_after(
                s@,
                n as int,
            ),
            None => !is_char_boundary(encode_utf8(s@), n as int),
        },
{
    if s.is_char_boundary(n) {
        let rest = s.split_at(n).1;
        proof {
            let bytes = encode_utf8(s@);
            assert(bytes.skip(n as int) =~= bytes.subrange(n as int, bytes.len() as int)) by {
                broadcast use vstd::utf8::group_utf8_lib;
                lemma_boundary_in_range(bytes, n as int);
            }
            vstd::utf8::encode_utf8_decode_utf8(rest@);
        }
        Some(rest)
    } else {
        None
    }
}

/// A character boundary is a place within the bytes or at their end.
pub proof fn lemma_boundary_in_range(bytes: Seq<u8>, n: int)
    requires
        vstd::utf8::valid_utf8(bytes),
        is_char_boundary(bytes, n),
    ensures
        0 <= n <= bytes.len(),
{
}

/// The number that a run of decimal digits stands for.
pub open spec fn decimal(digits: Seq<char>) -> nat
    decreases digits.len(),
{
    if digits.len() == 0 {
        0
    } else {
        10 * decimal(digits.drop_last()) + (digits.last() as nat - '0' as nat) as nat
    }
}

/// Whether the text consists of decimal digits, one or more of them.
pub open spec fn is_decimal(s: Seq<char>) -> bool {
    s.len() > 0 && leading(s, CharClass::Digit) == s.len()
}

/// The number that the text spells in decimal digits, where it fits 32 bits.
pub open spec fn digits_to_count(s: Seq<char>) -> Option<u32> {
    if is_decimal(s) && decimal(s) <= u32::MAX {
        Some(decimal(s) as u32)
    } else {
        None
    }
}

/// The number that the text spells in decimal digits after an optional plus sign, where it
/// fits 32 bits.
pub open spec fn text_to_count(s: Seq<char>) -> Option<u32> {
    if s.len() > 0 && s[0] == '+' {
        digits_to_count(s.skip(1))
    } else {
        digits_to_count(s)
    }
}

/// More digits never make a smaller number.
pub proof fn lemma_decimal_grows(digits: Seq<char>, n: int)
    requires
        0 <= n <= digits.len(),
    ensures
        decimal(digits.take(n)) <= decimal(digits),
    decreases digits.len() - n,
{
    if n == digits.len() {
        assert(digits.take(n) =~= digits);
    } else {
        assert(digits.take(n + 1).drop_last() =~= digits.take(n));
        lemma_decimal_grows(digits, n + 1);
    }
}

fn parse_digits(chars: &Vec<char>, from: usize) -> (r: Option<u32>)
    requires
        from <= chars@.len(),
    ensures
        r == digits_to_count(chars@.skip(from as int)),
{
    let ghost s = chars@.skip(from as int);
    proof {
        lemma_leading_has(s, CharClass::Digit);
    }
    if from == chars.len() {
        return None;
    }
    let mut value: u32 = 0;
    let mut i: usize = from;
    assert(s.take(0) =~= Seq::<char>::empty());
    while i < chars.len()
        invariant
            from <= i <= chars@.len(),
            s == chars@.skip(from as int),
            value == decimal(s.take(i - from)),
            forall|j: int| 0 <= j < i - from ==> CharClass::Digit.has(#[trigger] s[j]),
            leading(s, CharClass::Digit) < s.len() ==> !CharClass::Digit.has(
                s[leading(s, CharClass::Digit) as int],
            ),
            leading(s, CharClass::Digit) <= s.len(),
            forall|j: int|
                0 <= j < leading(s, CharClass::Digit) ==> CharClass::Digit.has(#[trigger] s[j]),
        decreases chars@.len() - i,
    {
        let c: char = chars[i];
        assert(s[i - from] == c);
        if !CharClass::Digit.contains(c) {
            return None;
        }
        let digit: u32 = c as u32 - '0' as u32;
        let ghost longer = s.take(i - from + 1);
        assert(longer.drop_last() =~= s.take(i - from));
        assert(decimal(longer) == 10 * decimal(s.take(i - from)) + digit);
        proof {
            lemma_decimal_grows(s, i - from + 1);
        }
        match value.checked_mul(10) {
            Some(shifted) => match shifted.checked_add(digit) {
                Some(sum) => {
                    value = sum;
                },
                None => {
                    return None;
                },
            },
            None => {
                return None;
            },
        }
        i += 1;
    }
    proof {
        assert(s.take(s.len() as int) =~= s);
        lemma_leading_is(s, CharClass::Digit, s.len() as int);
    }
    Some(value)
}

/// Reads `s` as a number in decimal digits.
pub fn parse_decimal(s: &str) -> (r: Option<u32>)
    ensures
        r == digits_to_count(s@),
{
    let chars = chars_of(s);
    assert(chars@.skip(0) =~= chars@);
    parse_digits(&chars, 0)
}

/// Reads `s` as a number in decimal digits after an optional plus sign.
pub fn parse_count(s: &str) -> (r: Option<u32>)
    ensures
        r == text_to_count(s@),
{
    let chars = chars_of(s);
    if chars.len() > 0 && chars[0] == '+' {
        parse_digits(&chars, 1)
    } else {
        assert(chars@.skip(0) =~= chars@);
        parse_digits(&chars, 0)
    }
}

/// The texts one after the other, with a space between each two.
pub open spec fn joined(parts: Seq<Seq<char>>) -> Seq<char>
    decreases parts.len(),
{
    if parts.len() == 0 {
        seq![]
    } else if parts.len() == 1 {
        parts[0]
    } else {
        joined(parts.drop_last()) + seq![' '] + parts.last()
    }
}

/// The contents of a list of texts.
pub open spec fn texts(list: Seq<String>) -> Seq<Seq<char>> {
    list.map_values(|s: String| s@)
}

/// Joins the texts with a space between each two.
pub fn join(parts: &Vec<String>) -> (r: String)
    ensures
        r@ == joined(texts(parts@)),
{
    let mut all = String::new();
    let mut i: usize = 0;
    while i < parts.len()
        invariant
            i <= parts@.len(),
            all@ == joined(texts(parts@).take(i as int)),
        decreases parts@.len() - i,
    {
        proof {
            reveal_strlit(" ");
            let longer = texts(parts@).take(i + 1);
            assert(longer.drop_last() =~= texts(parts@).take(i as int));
            assert(longer.last() == parts@[i as int]@);
            assert(" "@ =~= seq![' ']);
        }
        if i > 0 {
            all.append(" ");
        }
        all.append(parts[i].as_str());
        i += 1;
    }
    assert(texts(parts@).take(i as int) =~= texts(parts@));
    all
}

} // verus!
