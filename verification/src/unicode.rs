//! What the standard library knows of Unicode: lower case, and text out of raw bytes.

use vstd::prelude::*;
use vstd::utf8::{decode_utf8, is_ascii_chars, valid_utf8};

verus! {

/// What `str::to_lowercase` makes of a text from its first character on that is not ASCII.
pub uninterp spec fn unicode_lowercase(s: Seq<char>) -> Seq<char>;

/// What `String::from_utf8_lossy` makes of bytes that are not UTF-8 and do not end with a line
/// feed.
pub uninterp spec fn lossy_text(bytes: Seq<u8>) -> Seq<char>;

/// An ASCII character in lower case.
pub open spec fn ascii_lower(c: char) -> char {
    if 'A' <= c && c <= 'Z' {
        (c as u32 + 32) as char
    } else {
        c
    }
}

/// ASCII text in lower case, letter by letter.
pub open spec fn ascii_lowered(s: Seq<char>) -> Seq<char> {
    s.map_values(|c: char| ascii_lower(c))
}

/// How many ASCII characters the text begins with.
pub open spec fn ascii_len(s: Seq<char>) -> nat
    decreases s.len(),
{
    if s.len() > 0 && s[0] <= '\u{7f}' {
        1 + ascii_len(s.skip(1))
    } else {
        0
    }
}

/// The text in lower case: letter by letter as far as it is ASCII.
pub open spec fn lowered(s: Seq<char>) -> Seq<char> {
    if is_ascii_chars(s) {
        ascii_lowered(s)
    } else {
        ascii_lowered(s.take(ascii_len(s) as int)) + unicode_lowercase(s)
    }
}

/// The text that the bytes encode in UTF-8, also where some of them encode nothing. A line feed
/// at the end is one whatever stands before it.
pub open spec fn decoded(bytes: Seq<u8>) -> Seq<char>
    decreases bytes.len(),
{
    if valid_utf8(bytes) {
        decode_utf8(bytes)
    } else if bytes.len() > 0 && bytes.last() == 10 {
        decoded(bytes.drop_last()) + seq!['\n']
    } else {
        lossy_text(bytes)
    }
}

/// Calls `str::to_lowercase`: ASCII text comes back with its letters `A` to `Z` as `a` to `z`
/// and nothing else changed. Of other text the ASCII characters that it begins with come back so,
/// at the front. What follows them is `unicode_lowercase` of the text, of which nothing more is
/// said than that the same text always gives the same result.
#[verifier::external_body]
pub(crate) fn to_lowercase(s: &str) -> (lower: String)
    ensures
        lower@ == (if is_ascii_chars(s@) {
            ascii_lowered(s@)
        } else {
            ascii_lowered(s@.take(ascii_len(s@) as int)) + unicode_lowercase(s@)
        }),
{
    s.to_lowercase()
}

/// Calls `String::from_utf8_lossy`: bytes that are UTF-8 come back as the text that they
/// encode. In other bytes each invalid sequence is replaced; it ends before a byte that cannot
/// continue it as it does at the end of the bytes. A line feed continues nothing, so one at the
/// end comes back behind what the bytes before it alone come back as. Other bytes come back as
/// `lossy_text` of them, of which nothing more is said than that the same bytes always give the
/// same result.
#[verifier::external_body]
pub(crate) fn decode_lossy(bytes: &[u8]) -> (text: String)
    ensures
        text@ == (if valid_utf8(bytes@) {
            decode_utf8(bytes@)
        } else if bytes@.len() > 0 && bytes@.last() == 10 {
            decoded(bytes@.drop_last()) + seq!['\n']
        } else {
            lossy_text(bytes@)
        }),
{
    String::from_utf8_lossy(bytes).into_owned()
}

} // verus!
