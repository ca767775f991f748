use dotnet_test_plugin::text::{
    begins_with, chars_of, cut_bytes, find_last, find_text, has_text, join, parse_count,
    parse_decimal, same_text, strip_leading, strip_trailing, trim, white_space, CharClass,
};

#[test]
fn white_space_is_the_unicode_property() {
    for code in 0..=0x10FFFFu32 {
        if let Some(c) = char::from_u32(code) {
            assert_eq!(white_space(c), c.is_whitespace(), "U+{:04X}", code);
        }
    }
}

#[test]
fn char_classes() {
    for c in ['0', '5', '9'] {
        assert!(CharClass::Digit.contains(c));
    }
    for c in ['/', ':', 'a', '\u{0663}'] {
        assert!(!CharClass::Digit.contains(c));
    }
    assert!(CharClass::LineEnd.contains('\n') && CharClass::LineEnd.contains('\r'));
    assert!(!CharClass::LineEnd.contains(' '));
    assert!(CharClass::Word.contains('x') && !CharClass::Word.contains('\t'));
}

#[test]
fn trim_strips_both_ends() {
    for s in ["", "  ", "a", " a b ", "\t\u{a0}x\u{3000}\r\n", "é ", "\u{200b}x"] {
        assert_eq!(trim(s), s.trim());
    }
}

#[test]
fn strip_by_class() {
    assert_eq!(strip_trailing("line \r\n\n", CharClass::LineEnd), "line ");
    assert_eq!(strip_trailing("\n\r", CharClass::LineEnd), "");
    assert_eq!(strip_leading("12, 3", CharClass::Digit), ", 3");
    assert_eq!(strip_leading("word rest", CharClass::Word), " rest");
}

#[test]
fn chars_in_order() {
    assert_eq!(chars_of("aé\u{212A}"), vec!['a', 'é', '\u{212A}']);
}

#[test]
fn find_first_and_last() {
    assert_eq!(find_text("éfailed: failed:", "failed:"), Some(1));
    assert_eq!(find_text("passed", "passed:"), None);
    assert_eq!(find_text("abc", ""), Some(0));
    assert_eq!(find_text("", "a"), None);
    assert!(has_text("xx passed: 3", "passed:"));
    assert!(!has_text("xx passed 3", "passed:"));
    assert_eq!(find_last(&chars_of("a.b.c"), '.'), Some(3));
    assert_eq!(find_last(&chars_of("abc"), '.'), None);
}

#[test]
fn prefixes_and_equality() {
    assert!(begins_with("test run failed.", "test run failed"));
    assert!(!begins_with("test run", "test run "));
    assert!(begins_with("x", ""));
    assert!(same_text("[fail]", "[fail]"));
    assert!(!same_text("[fail]", "[fail"));
    assert!(!same_text("[fail", "[fail]"));
    assert!(!same_text("a", "b"));
}

#[test]
fn cut_counts_bytes() {
    assert_eq!(cut_bytes("éa", 2), Some("a"));
    assert_eq!(cut_bytes("éa", 1), None);
    assert_eq!(cut_bytes("éa", 3), Some(""));
    assert_eq!(cut_bytes("éa", 4), None);
    assert_eq!(cut_bytes("passed  Ns", 8), Some("Ns"));
}

#[test]
fn numbers() {
    for s in [
        "", "0", "7", "007", "74", "4294967295", "4294967296", "99999999999", "+5", "+", "++5",
        "-0", " 5", "5 ", "5a", "\u{0663}",
    ] {
        assert_eq!(parse_count(s), s.parse::<u32>().ok(), "{:?}", s);
    }
    assert_eq!(parse_decimal("4294967295"), Some(u32::MAX));
    assert_eq!(parse_decimal("4294967296"), None);
    assert_eq!(parse_decimal("+5"), None);
    assert_eq!(parse_decimal(""), None);
}

#[test]
fn join_with_spaces() {
    let parts = |p: &[&str]| p.iter().map(|s| s.to_string()).collect::<Vec<String>>();
    assert_eq!(join(&parts(&[])), "");
    assert_eq!(join(&parts(&["a"])), "a");
    assert_eq!(join(&parts(&["a", "", "b c"])), "a  b c");
}
