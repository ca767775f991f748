use dotnet_test_plugin::event::HostEvent;
use dotnet_test_plugin::parser::DotnetTestParser;
use dotnet_test_plugin::stream::{
    flush_partial, log_line, process_lines, stderr_ends_run, take_line, text_ends_run,
};

fn show(events: &[HostEvent]) -> Vec<String> {
    events
        .iter()
        .map(|e| match e {
            HostEvent::Log(line) => format!("log {}", line),
            HostEvent::Result(r) => {
                format!("{} {}|{}", r.outcome.as_str(), r.test_class, r.test_name)
            }
            other => format!("{:?}", other),
        })
        .collect()
}

const OUTPUT: &str = "Build\r\n\n  Passed  Ns.C.A [1 ms]\n  Failed  Ns.C.B [2 ms]\n  Error Message:\n   boom é\nTest Run Failed.\n  Passed: 1\n  Fail";

fn expected() -> Vec<&'static str> {
    vec![
        "log Build",
        "log   Passed  Ns.C.A [1 ms]",
        "passed Ns.C|A",
        "log   Failed  Ns.C.B [2 ms]",
        "log   Error Message:",
        "log    boom é",
        "log Test Run Failed.",
        "failed Ns.C|B",
        "log   Passed: 1",
    ]
}

#[test]
fn complete_lines_are_processed() {
    let mut parser = DotnetTestParser::new();
    let mut buf = OUTPUT.as_bytes().to_vec();
    let batch = process_lines(&mut buf, &mut parser);
    assert!(!batch.overflowed);
    assert_eq!(show(&batch.events), expected());
    assert_eq!(buf, b"  Fail");
    assert_eq!((parser.passed, parser.failed, parser.skipped), (1, 1, 0));
    assert!(parser.run_complete);
}

#[test]
fn pieces_do_not_matter() {
    for size in 1..20 {
        let mut parser = DotnetTestParser::new();
        let mut buf: Vec<u8> = Vec::new();
        let mut shown = Vec::new();
        for piece in OUTPUT.as_bytes().chunks(size) {
            buf.extend(piece);
            shown.extend(show(&process_lines(&mut buf, &mut parser).events));
        }
        assert_eq!(shown, expected());
        assert_eq!(buf, b"  Fail");
    }
}

#[test]
fn the_tail_is_flushed() {
    let mut parser = DotnetTestParser::new();
    let mut buf = b"  Skipped Ns.C.T".to_vec();
    assert!(process_lines(&mut buf, &mut parser).events.is_empty());
    let batch = flush_partial(&mut buf, &mut parser);
    assert_eq!(show(&batch.events), vec!["log   Skipped Ns.C.T", "skipped Ns.C|T"]);
    assert!(buf.is_empty());
    assert!(flush_partial(&mut buf, &mut parser).events.is_empty());
}

#[test]
fn the_tail_is_a_line() {
    for tail in ["Passed Ns.C.T", "  x é\r", "Failed: 1, Passed: 2, Skipped: 3", ""] {
        let mut parser = DotnetTestParser::new();
        let mut buf = tail.as_bytes().to_vec();
        let flushed = flush_partial(&mut buf, &mut parser);
        let mut other = DotnetTestParser::new();
        let mut ended = tail.as_bytes().to_vec();
        if !ended.is_empty() {
            ended.push(b'\n');
        }
        let processed = process_lines(&mut ended, &mut other);
        assert_eq!(show(&flushed.events), show(&processed.events));
        assert_eq!(format!("{:?}", parser), format!("{:?}", other));
        assert!(buf.is_empty() && ended.is_empty());
    }
}

#[test]
fn a_line_feed_behind_any_bytes() {
    // One byte of each kind that UTF-8 tells apart, so that every way to break off is among them.
    let kinds: [u8; 15] = [
        b'a', b'\r', 0x80, 0x8f, 0x90, 0x9f, 0xa0, 0xbf, 0xc0, 0xc3, 0xe0, 0xe2, 0xed, 0xf0, 0xf4,
    ];
    let mut tails: Vec<Vec<u8>> = vec![Vec::new()];
    let mut from = 0;
    for _ in 0..4 {
        let to = tails.len();
        for i in from..to {
            for kind in kinds {
                let mut longer = tails[i].clone();
                longer.push(kind);
                tails.push(longer);
            }
        }
        from = to;
    }
    tails.push(b"\xff\xfe\xf5".to_vec());
    for tail in tails.iter().skip(1) {
        let mut buf = tail.clone();
        let flushed = flush_partial(&mut buf, &mut DotnetTestParser::new());
        let mut ended = tail.clone();
        ended.push(b'\n');
        let processed = process_lines(&mut ended, &mut DotnetTestParser::new());
        assert_eq!(show(&flushed.events), show(&processed.events), "{:?}", tail);
        assert!(buf.is_empty() && ended.is_empty());
    }
}

#[test]
fn nothing_new_changes_nothing() {
    let mut parser = DotnetTestParser::new();
    let mut buf = OUTPUT.as_bytes().to_vec();
    process_lines(&mut buf, &mut parser);
    let before = format!("{:?}", parser);
    assert!(process_lines(&mut buf, &mut parser).events.is_empty());
    assert_eq!(buf, b"  Fail");
    assert_eq!(format!("{:?}", parser), before);
}

#[test]
fn bytes_that_are_not_utf8() {
    let mut parser = DotnetTestParser::new();
    let mut buf = b"a\xffb\n".to_vec();
    let batch = process_lines(&mut buf, &mut parser);
    assert_eq!(show(&batch.events), vec!["log a\u{fffd}b"]);
}

#[test]
fn a_log_has_no_line_end() {
    match log_line("  x \r\n") {
        Some(HostEvent::Log(line)) => assert_eq!(line, "  x "),
        other => panic!("{:?}", other),
    }
    assert!(log_line("\r\n").is_none());
    assert!(log_line("").is_none());
}

#[test]
fn one_line() {
    let mut parser = DotnetTestParser::new();
    let batch = take_line(&mut parser, "Passed Ns.C.M\n");
    assert_eq!(show(&batch.events), vec!["log Passed Ns.C.M", "passed Ns.C|M"]);
}

#[test]
fn a_full_counter_ends_it() {
    let mut parser = DotnetTestParser::new();
    let mut buf = b"Failed: 4294967295, Passed: 0, Skipped: 0\nPassed Ns.A\nFailed Ns.B\nPassed Ns.C\n".to_vec();
    let batch = process_lines(&mut buf, &mut parser);
    assert!(batch.overflowed);
    assert_eq!(
        show(&batch.events),
        vec![
            "log Failed: 4294967295, Passed: 0, Skipped: 0",
            "log Passed Ns.A",
            "passed Ns|A",
            "log Failed Ns.B",
        ]
    );
    assert_eq!(buf, b"Passed Ns.C\n");
    assert_eq!((parser.passed, parser.failed), (1, u32::MAX));
    let mut tail = b"Failed Ns.B".to_vec();
    assert!(flush_partial(&mut tail, &mut parser).overflowed);
}

#[test]
fn error_output_may_announce_the_end() {
    assert!(stderr_ends_run(b"warning\r\n  Test Run Failed.\r\n"));
    assert!(stderr_ends_run(b"TEST RUN SUCCESSFUL"));
    assert!(!stderr_ends_run(b"the test run failed\nTest Run\nFailed"));
    assert!(!stderr_ends_run(b""));
    assert!(stderr_ends_run(b"\xff\ntest run failed"));
    assert!(text_ends_run("\n\ntest run successful!"));
    assert!(!text_ends_run("test run\rfailed"));
}
