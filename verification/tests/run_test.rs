use dotnet_test_plugin::event::HostEvent;
use dotnet_test_plugin::run::{Action, Phase, Reply, TestRun};

fn kind(event: &HostEvent) -> String {
    match event {
        HostEvent::Started(path) => format!("started {}", path),
        HostEvent::Log(_) => "log".to_string(),
        HostEvent::Result(r) => format!("{} {}", r.outcome.as_str(), r.test_name),
        HostEvent::Completed { passed, failed, skipped } => {
            format!("completed {} {} {}", passed, failed, skipped)
        }
        HostEvent::SpawnFailed => "spawn failed".to_string(),
    }
}

fn tell(run: &mut TestRun, reply: Reply) -> Vec<String> {
    run.step(reply).iter().map(kind).collect()
}

fn drain(run: &mut TestRun) -> Vec<String> {
    for round in 0..5 {
        assert_eq!(run.action(), Action::Wait(100));
        assert!(tell(run, Reply::Waited).is_empty());
        assert_eq!(run.action(), Action::ReadStdout);
        let last = tell(run, if round % 2 == 0 { Reply::NoData } else { Reply::Eof });
        if round == 4 {
            return last;
        }
        assert!(last.is_empty());
    }
    panic!("the run does not end");
}

fn spawned() -> TestRun {
    let (mut run, event) = TestRun::start("/src");
    assert_eq!(kind(&event), "started /src");
    assert_eq!(run.action(), Action::Spawn);
    assert!(tell(&mut run, Reply::Spawned).is_empty());
    assert_eq!(run.action(), Action::Wait(200));
    assert!(tell(&mut run, Reply::Waited).is_empty());
    assert_eq!(run.action(), Action::ReadStderr);
    run
}

#[test]
fn a_run_that_cannot_begin() {
    let (mut run, _) = TestRun::start(".");
    assert_eq!(tell(&mut run, Reply::SpawnFailed), vec!["spawn failed"]);
    assert_eq!(run.action(), Action::Stop);
    assert!(tell(&mut run, Reply::Waited).is_empty());
    assert_eq!(run.phase, Phase::Done);
}

#[test]
fn a_run_whose_end_is_announced() {
    let mut run = spawned();
    assert!(tell(&mut run, Reply::NoData).is_empty());
    assert_eq!(run.action(), Action::ReadStdout);
    assert_eq!(
        tell(&mut run, Reply::Data(b"Passed Ns.C.A\nFailed Ns.C.B\nTest Run Fai".to_vec())),
        vec!["log", "passed A", "log"]
    );
    assert_eq!(tell(&mut run, Reply::Data(b"led.\nFailed Ns.C.D".to_vec())), vec!["log", "failed B"]);
    assert!(tell(&mut run, Reply::NoData).is_empty());
    assert_eq!(drain(&mut run), vec!["log", "failed D", "completed 1 2 0"]);
    assert_eq!(run.action(), Action::Stop);
    assert!(tell(&mut run, Reply::Data(b"Passed Ns.C.E\n".to_vec())).is_empty());
}

#[test]
fn lines_are_the_output() {
    let output = b"a\n\nPassed Ns.C.A\r\nb\xe2\x82\nTest Run Successful.\nlast \xc3";
    for size in 1..=output.len() {
        let mut run = spawned();
        tell(&mut run, Reply::NoData);
        let mut lines: Vec<String> = Vec::new();
        let mut keep = |events: Vec<HostEvent>| {
            for event in events {
                if let HostEvent::Log(line) = event {
                    lines.push(line);
                }
            }
        };
        for piece in output.chunks(size) {
            keep(run.step(Reply::Data(piece.to_vec())));
        }
        assert_eq!(run.stdout_buf, b"last \xc3");
        keep(run.step(Reply::Eof));
        while run.action() != Action::Stop {
            let reply = match run.action() {
                Action::Wait(_) => Reply::Waited,
                _ => Reply::NoData,
            };
            keep(run.step(reply));
        }
        assert_eq!(
            lines,
            vec!["a", "Passed Ns.C.A", "b\u{fffd}", "Test Run Successful.", "last \u{fffd}"]
        );
    }
}

#[test]
fn the_end_announced_on_the_error_output() {
    let mut run = spawned();
    assert!(tell(&mut run, Reply::Data(b"Test Run Successful.\n".to_vec())).is_empty());
    assert_eq!(run.action(), Action::ReadStderr);
    assert!(run.parser.run_complete);
    assert!(tell(&mut run, Reply::Eof).is_empty());
    assert!(tell(&mut run, Reply::NoData).is_empty());
    assert_eq!(drain(&mut run), vec!["completed 0 0 0"]);
}

#[test]
fn output_that_ends() {
    let mut run = spawned();
    tell(&mut run, Reply::NoData);
    assert!(tell(&mut run, Reply::Eof).is_empty());
    assert_eq!(run.phase, Phase::DrainWaiting(0));
    tell(&mut run, Reply::Waited);
    assert_eq!(tell(&mut run, Reply::Data(b"Skipped Ns.C.A\n".to_vec())), vec!["log", "skipped A"]);
    assert_eq!(run.phase, Phase::DrainReading(0));
    tell(&mut run, Reply::NoData);
    assert_eq!(run.phase, Phase::DrainWaiting(1));
}

#[test]
fn a_process_that_exits() {
    let mut run = spawned();
    tell(&mut run, Reply::NoData);
    tell(&mut run, Reply::NoData);
    assert_eq!(run.action(), Action::CheckStatus);
    tell(&mut run, Reply::Running);
    assert_eq!(run.action(), Action::Wait(200));
    tell(&mut run, Reply::Waited);
    tell(&mut run, Reply::NoData);
    tell(&mut run, Reply::NoData);
    tell(&mut run, Reply::Exited);
    assert_eq!(drain(&mut run), vec!["completed 0 0 0"]);
}

#[test]
fn what_was_not_asked_for_is_ignored() {
    let mut run = spawned();
    assert!(tell(&mut run, Reply::Running).is_empty());
    assert!(tell(&mut run, Reply::Waited).is_empty());
    assert_eq!(run.action(), Action::ReadStderr);
}

#[test]
fn a_counter_that_overflows() {
    let mut run = spawned();
    tell(&mut run, Reply::NoData);
    let data = b"Failed: 0, Passed: 4294967295, Skipped: 0\nPassed Ns.C.A\nPassed Ns.C.B\n".to_vec();
    assert_eq!(tell(&mut run, Reply::Data(data)), vec!["log", "log"]);
    assert_eq!(run.action(), Action::Fail);
    assert!(tell(&mut run, Reply::NoData).is_empty());
    assert_eq!(run.phase, Phase::Overflowed);
}

#[test]
fn a_counter_that_overflows_at_the_end() {
    let mut run = spawned();
    tell(&mut run, Reply::NoData);
    let data = b"Failed: 0, Passed: 4294967295, Skipped: 0\nPassed Ns.C.A".to_vec();
    assert_eq!(tell(&mut run, Reply::Data(data)), vec!["log"]);
    tell(&mut run, Reply::NoData);
    assert_eq!(drain(&mut run), vec!["log"]);
    assert_eq!(run.action(), Action::Fail);
}
