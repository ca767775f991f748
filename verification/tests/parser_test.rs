use dotnet_test_plugin::identifier::{
    looks_like_test_identifier, parse_duration, split_test_identifier, DurationUnit, TestDuration,
};
use dotnet_test_plugin::parser::{
    announces_end, extract_count, find_result, is_result_line, is_summary_line, is_summary_lowered,
    DotnetTestParser, Outcome, TestResult,
};

fn duration(d: &Option<TestDuration>) -> Option<(&str, DurationUnit)> {
    d.as_ref().map(|d| (d.value.as_str(), d.unit))
}

fn show(r: &TestResult) -> String {
    format!(
        "{} {}|{}|{:?}|{:?}",
        r.outcome.as_str(),
        r.test_class,
        r.test_name,
        duration(&r.duration),
        r.message
    )
}

fn feed(parser: &mut DotnetTestParser, lines: &[&str]) -> Vec<String> {
    let mut shown = Vec::new();
    for line in lines {
        for r in parser.feed_line(line) {
            shown.push(show(&r));
        }
    }
    shown
}

fn counts(parser: &DotnetTestParser) -> (u32, u32, u32) {
    (parser.passed, parser.failed, parser.skipped)
}

#[test]
fn durations() {
    assert_eq!(duration(&parse_duration("12 ms")), Some(("12", DurationUnit::Milliseconds)));
    assert_eq!(duration(&parse_duration("1.5 s")), Some(("1.5", DurationUnit::Seconds)));
    assert_eq!(duration(&parse_duration(" 2\tm 3 s")), Some(("2", DurationUnit::Minutes)));
    assert_eq!(duration(&parse_duration("< 1 ms")), Some(("<", DurationUnit::Milliseconds)));
    assert_eq!(duration(&parse_duration("3 h")), Some(("3", DurationUnit::Milliseconds)));
    assert_eq!(duration(&parse_duration("12")), None);
    assert_eq!(duration(&parse_duration("  ")), None);
}

#[test]
fn identifiers_and_prose() {
    assert!(looks_like_test_identifier("Ns.Class.Method [12 ms]"));
    assert!(looks_like_test_identifier("Method [12 ms] "));
    assert!(looks_like_test_identifier("Ns.Class"));
    assert!(looks_like_test_identifier("Method [1.5 s]"));
    assert!(looks_like_test_identifier("Method [< 1 ms]"));
    assert!(looks_like_test_identifier("Method [1 m 3 s]"));
    assert!(!looks_like_test_identifier("to load prune package data"));
    assert!(!looks_like_test_identifier("to load [foo]"));
    assert!(!looks_like_test_identifier("to load [1]"));
    assert!(!looks_like_test_identifier("to load [ms]"));
    assert!(!looks_like_test_identifier("to load [12 files]"));
    assert!(!looks_like_test_identifier("[12 ms] to load"));
    assert!(!looks_like_test_identifier("12 ms]"));
    assert!(!looks_like_test_identifier("]"));
    assert!(!looks_like_test_identifier(""));
}

#[test]
fn identifiers_split() {
    let (class, name, d) = split_test_identifier("Ns.Class.Method [12 ms]");
    assert_eq!((class.as_str(), name.as_str()), ("Ns.Class", "Method"));
    assert_eq!(duration(&d), Some(("12", DurationUnit::Milliseconds)));

    let (class, name, d) = split_test_identifier("Method [3 s]");
    assert_eq!((class.as_str(), name.as_str()), ("Unknown", "Method"));
    assert_eq!(duration(&d), Some(("3", DurationUnit::Seconds)));

    let (class, name, d) = split_test_identifier("Ns.Class.Method");
    assert_eq!((class.as_str(), name.as_str()), ("Ns.Class", "Method"));
    assert_eq!(duration(&d), None);

    let (class, name, d) = split_test_identifier("Ns.C.M(a: [1]) [5 ms]");
    assert_eq!((class.as_str(), name.as_str()), ("Ns.C", "M(a: [1])"));
    assert_eq!(duration(&d), Some(("5", DurationUnit::Milliseconds)));

    let (class, name, d) = split_test_identifier("Ns.C.M(a: [1])");
    assert_eq!((class.as_str(), name.as_str()), ("Ns.C", "M(a: [1])"));
    assert_eq!(duration(&d), None);

    let (class, name, d) = split_test_identifier("Ns.C.M [foo]");
    assert_eq!((class.as_str(), name.as_str()), ("Ns.C", "M [foo]"));
    assert_eq!(duration(&d), None);

    let (class, name, d) = split_test_identifier(" Ns.C.M  [1 m 3 s] ");
    assert_eq!((class.as_str(), name.as_str()), ("Ns.C", "M"));
    assert_eq!(duration(&d), Some(("1", DurationUnit::Minutes)));

    let (class, name, d) = split_test_identifier("M [< 1 ms]");
    assert_eq!((class.as_str(), name.as_str()), ("Unknown", "M"));
    assert_eq!(duration(&d), Some(("<", DurationUnit::Milliseconds)));
}

#[test]
fn outcome_words() {
    assert_eq!(Outcome::Passed.as_str(), "passed");
    assert_eq!(Outcome::Failed.as_str(), "failed");
    assert_eq!(Outcome::Skipped.as_str(), "skipped");
}

#[test]
fn result_lines_told_from_others() {
    assert!(is_result_line("  Passed  MyNamespace.FooTests.SomeMethod [12 ms]"));
    assert!(is_result_line("passed Ns.C.M"));
    assert!(is_result_line("  SKIPPED Ns.C.M"));
    assert!(is_result_line("Failed SomeName [< 1 ms]"));
    assert!(!is_result_line("Failed to load prune package data"));
    assert!(!is_result_line("Failed to load [foo]"));
    assert!(!is_result_line("Passed! - Failed: 0, Passed: 10, Skipped: 0"));
    assert!(!is_result_line("Passed"));
    assert!(!is_result_line(""));
    assert_eq!(
        find_result("Passed  Ns.C.M", "passed  ns.c.m"),
        Some((Outcome::Passed, "Ns.C.M"))
    );
    assert_eq!(find_result("Ns.C.M", "ns.c.m"), None);
}

#[test]
fn summary_lines_told_from_others() {
    assert!(is_summary_line("Test Run Failed."));
    assert!(is_summary_line("test run aborted"));
    assert!(is_summary_line("Failed:     3, Passed:    10, Skipped:     0, Total:    13"));
    assert!(!is_summary_line("     Passed: 74"));
    assert!(!is_summary_line("Test Running"));
    assert!(is_summary_lowered("test run successful."));
    assert!(!is_summary_lowered("Test Run Successful."));
    assert!(announces_end("test run successful."));
    assert!(announces_end("test run failed."));
    assert!(!announces_end("test run aborted."));
}

#[test]
fn counts_behind_labels() {
    let line = "failed:     3, passed:    10, skipped:     0, total:    13";
    assert_eq!(extract_count(line, "passed:"), Some(10));
    assert_eq!(extract_count(line, "failed:"), Some(3));
    assert_eq!(extract_count(line, "skipped:"), Some(0));
    assert_eq!(extract_count(line, "other:"), None);
    assert_eq!(extract_count("passed: x", "passed:"), None);
    assert_eq!(extract_count("passed: 4294967296", "passed:"), None);
    assert_eq!(extract_count("passed: 1 passed: 2", "passed:"), Some(1));
}

#[test]
fn results_of_each_outcome() {
    let mut parser = DotnetTestParser::new();
    let shown = feed(
        &mut parser,
        &[
            "  Passed  MyNamespace.FooTests.SomeMethod [12 ms]\n",
            "  Skipped MyNamespace.FooTests.SkipMethod\r\n",
            "passed Ns.Class.Méthode [1.5 s]",
        ],
    );
    assert_eq!(
        shown,
        vec![
            "passed MyNamespace.FooTests|SomeMethod|Some((\"12\", Milliseconds))|None",
            "skipped MyNamespace.FooTests|SkipMethod|None|None",
            "passed Ns.Class|Méthode|Some((\"1.5\", Seconds))|None",
        ]
    );
    assert_eq!(counts(&parser), (2, 0, 1));
    assert!(!parser.run_complete);
}

#[test]
fn casing_and_spaces_do_not_matter() {
    for heading in ["Passed ", "passed  ", "PASSED     ", "pAsSeD "] {
        for test in ["Ns.C.M [5 ms]", "Éa.C.Mé [5 ms]  "] {
            let mut parser = DotnetTestParser::new();
            let mut plain = DotnetTestParser::new();
            let a = parser.parse_line(&format!("{}{}", heading, test)).map(|r| show(&r));
            let b = plain.parse_line(&format!("passed {}", test)).map(|r| show(&r));
            assert!(a.is_some());
            assert_eq!(a, b);
            assert_eq!(counts(&parser), (1, 0, 0));
        }
    }
    let mut parser = DotnetTestParser::new();
    assert_eq!(
        feed(&mut parser, &["SKIPPED    Éa.C.Mé"]),
        vec!["skipped Éa.C|Mé|None|None"]
    );
}

#[test]
fn line_ends_do_not_matter() {
    for ends in ["", "\n", "\r\n", "\r\r\n\n"] {
        let mut parser = DotnetTestParser::new();
        let line = format!("Skipped Ns.C.M{}", ends);
        assert_eq!(feed(&mut parser, &[line.as_str()]), vec!["skipped Ns.C|M|None|None"]);
        assert_eq!(counts(&parser), (0, 0, 1));
    }
}

#[test]
fn counters_are_the_reports() {
    let mut parser = DotnetTestParser::new();
    let shown = feed(
        &mut parser,
        &["Passed Ns.A", "Failed Ns.B", "Error Message:", "x", "Failed Ns.C", "Skipped Ns.D", "Failed Ns.E"],
    );
    let number = |word: &str| shown.iter().filter(|r| r.starts_with(word)).count() as u32;
    assert_eq!((number("passed"), number("failed"), number("skipped")), (1, 2, 1));
    assert_eq!(counts(&parser), (1, 3, 1));
    assert_eq!(parser.flush_pending().len(), 1);
}

#[test]
fn a_failure_waits_for_its_message() {
    let mut parser = DotnetTestParser::new();
    let shown = feed(
        &mut parser,
        &[
            "  Failed  MyNamespace.FooTests.OtherMethod [5 ms]",
            "    Error Message:",
            "      System.Exception : boom",
            "",
        ],
    );
    assert_eq!(
        shown,
        vec![
            "failed MyNamespace.FooTests|OtherMethod|Some((\"5\", Milliseconds))|Some(\"System.Exception : boom\")",
        ]
    );
    assert_eq!(counts(&parser), (0, 1, 0));
    assert!(parser.current_failure.is_none());
}

#[test]
fn three_lines_of_a_message_are_kept() {
    let mut parser = DotnetTestParser::new();
    let shown = feed(
        &mut parser,
        &["Failed Ns.C.M", "[fail]", "one", "  two", "three", "four", ""],
    );
    assert_eq!(shown, vec!["failed Ns.C|M|None|Some(\"one two three\")"]);
}

#[test]
fn a_stack_trace_ends_the_message() {
    for trace in ["Stack Trace:", "  at Ns.C.N()", "[STACK] x", "[OUTPUT] x"] {
        let mut parser = DotnetTestParser::new();
        let shown = feed(
            &mut parser,
            &["Failed  Ns.C.M [5 ms]", "Error Message:", "boom", trace, "at Ns.C.M()", "prose", ""],
        );
        assert_eq!(shown, vec!["failed Ns.C|M|Some((\"5\", Milliseconds))|Some(\"boom\")"]);
    }
}

#[test]
fn a_message_may_be_opened_again() {
    let mut parser = DotnetTestParser::new();
    let shown = feed(
        &mut parser,
        &["Failed Ns.C.M", "Error Message:", "a", "Stack Trace:", "x", "Standard Output Messages:", "b", ""],
    );
    assert_eq!(shown, vec!["failed Ns.C|M|None|Some(\"a b\")"]);
}

#[test]
fn lines_before_the_message_are_not_kept() {
    let mut parser = DotnetTestParser::new();
    let shown = feed(
        &mut parser,
        &["Failed Ns.C.M", "at x", "prose", "Standard Output Messages:", "y", "Test Run Failed."],
    );
    assert_eq!(shown, vec!["failed Ns.C|M|None|Some(\"y\")"]);
    assert!(parser.run_complete);
}

#[test]
fn a_result_line_closes_the_failure_before_it() {
    let mut parser = DotnetTestParser::new();
    assert!(parser.feed_line("Failed Ns.C.A").is_empty());
    let two: Vec<String> = parser.feed_line("Passed Ns.C.B").iter().map(show).collect();
    assert_eq!(two, vec!["failed Ns.C|A|None|Some(\"\")", "passed Ns.C|B|None|None"]);
    assert!(parser.feed_line("Failed Ns.C.D").is_empty());
    let one: Vec<String> = parser.feed_line("Failed Ns.C.E").iter().map(show).collect();
    assert_eq!(one, vec!["failed Ns.C|D|None|Some(\"\")"]);
    let last: Vec<String> = parser.flush_pending().iter().map(show).collect();
    assert_eq!(last, vec!["failed Ns.C|E|None|Some(\"\")"]);
    assert!(parser.flush_pending().is_empty());
    assert_eq!(counts(&parser), (1, 3, 0));
}

#[test]
fn prose_changes_nothing() {
    let mut parser = DotnetTestParser::new();
    assert!(feed(&mut parser, &["Failed to load prune package data", "Build succeeded."]).is_empty());
    assert_eq!(counts(&parser), (0, 0, 0));
    assert!(!parser.run_complete);
    assert!(parser.current_failure.is_none());
}

#[test]
fn the_summary_overrides_the_counts() {
    let mut parser = DotnetTestParser::new();
    feed(&mut parser, &["Passed Ns.C.A", "Failed!  - Failed:     2, Passed:     8, Skipped:    1, Total: 11"]);
    assert_eq!(counts(&parser), (8, 2, 1));
    assert!(parser.run_complete);
}

#[test]
fn a_summary_without_all_counts_only_ends_the_run() {
    let mut parser = DotnetTestParser::new();
    feed(&mut parser, &["Passed Ns.C.A", "Failed: 2, Passed: 8"]);
    assert_eq!(counts(&parser), (1, 0, 0));
    assert!(parser.run_complete);
}

#[test]
fn counts_on_lines_of_their_own() {
    let mut parser = DotnetTestParser::new();
    feed(&mut parser, &["     Passed: 74"]);
    assert_eq!(counts(&parser), (0, 0, 0));
    feed(
        &mut parser,
        &["Test Run Failed.", "Total tests: 80", "     Passed: 74", "     Failed: +5", "    Skipped: 1"],
    );
    assert_eq!(counts(&parser), (74, 5, 1));
    feed(&mut parser, &["Passed: many", "Failed:", "Skipped: 1.5"]);
    assert_eq!(counts(&parser), (74, 5, 1));
    assert!(parser.run_complete);
}

#[test]
fn a_full_counter_is_told() {
    let mut parser = DotnetTestParser::new();
    feed(&mut parser, &["Failed: 0, Passed: 4294967295, Skipped: 0"]);
    assert_eq!(counts(&parser), (u32::MAX, 0, 0));
    assert!(!parser.can_feed("Passed Ns.C.M"));
    assert!(parser.can_feed("Skipped Ns.C.M"));
    assert!(parser.can_feed("Passed nothing"));
    assert!(parser.checked_feed_line("Passed Ns.C.M").is_none());
    assert_eq!(parser.checked_feed_line("Skipped Ns.C.M").map(|r| r.len()), Some(1));
    assert_eq!(counts(&parser), (u32::MAX, 0, 1));
}

#[test]
fn lower_case_beyond_ascii() {
    // The Kelvin sign is three bytes long and has the letter k as its lower case.
    assert!(is_result_line("s\u{212A}ipped Ns.Tests.One"));
    let mut parser = DotnetTestParser::new();
    let shown = feed(&mut parser, &["s\u{212A}ipped Ns.Tests.One"]);
    assert_eq!(shown, vec!["skipped d Ns.Tests|One|None|None"]);
    // The dotted capital I has two characters as its lower case.
    assert!(!is_result_line("sk\u{130}pped Ns.Tests.One"));
}

#[test]
fn parse_line_and_parse_lowered_agree() {
    let mut one = DotnetTestParser::new();
    let mut other = DotnetTestParser::new();
    let a = one.parse_line("  Passed  Ns.C.M [2 m] ").map(|r| show(&r));
    let b = other.parse_lowered("Passed  Ns.C.M [2 m]", "passed  ns.c.m [2 m]").map(|r| show(&r));
    assert_eq!(a, Some("passed Ns.C|M|Some((\"2\", Minutes))|None".to_string()));
    assert_eq!(a, b);
    assert_eq!(counts(&one), counts(&other));
}
