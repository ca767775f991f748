//! The events that the plugin sends to its host, and their JSON.
//!
//! ```text
//! {"type":"testRunStarted","framework":"dotnet-xunit","projectPath":"<cwd>"}
//! {"type":"testLog","line":"<a line of output>"}
//! {"type":"testResult","outcome":"passed"|"failed"|"skipped",
//!  "testClass":"Ns.ClassName","testName":"MethodName",
//!  "duration":0.042,"message":"optional failure message"}
//! {"type":"testRunCompleted","passed":N,"failed":N,"skipped":N,"duration":S}
//! ```
//!
//! A duration in seconds is a number with a fraction. The caller makes it and hands it over as
//! a JSON value; it goes into the event as it is.

use vstd::prelude::*;

use crate::json::{count_value, empty_object, json, json_text, set_member, text_value, value_text, Json};
use crate::parser::{ResultView, TestResult};

verus! {

/// An event for the host.
#[derive(Debug)]
pub enum HostEvent {
    /// The run begins, in the given directory.
    Started(String),
    /// A line of output.
    Log(String),
    /// A test has ended.
    Result(TestResult),
    /// The run is over, with these counts.
    Completed { passed: u32, failed: u32, skipped: u32 },
    /// The run is over because it could not begin.
    SpawnFailed,
}

/// The contents of a `HostEvent`.
#[verifier::ext_equal]
pub enum EventView {
    Started(Seq<char>),
    Log(Seq<char>),
    Result(ResultView),
    Completed { passed: u32, failed: u32, skipped: u32 },
    SpawnFailed,
}

impl View for HostEvent {
    type V = EventView;

    open spec fn view(&self) -> EventView {
        match *self {
            HostEvent::Started(path) => EventView::Started(path@),
            HostEvent::Log(line) => EventView::Log(line@),
            HostEvent::Result(result) => EventView::Result(result@),
            HostEvent::Completed { passed, failed, skipped } => EventView::Completed {
                passed,
                failed,
                skipped,
            },
            HostEvent::SpawnFailed => EventView::SpawnFailed,
        }
    }
}

/// The contents of a list of events.
pub open spec fn events_view(events: Seq<HostEvent>) -> Seq<EventView> {
    events.map_values(|event: HostEvent| event@)
}

/// The event `testRunStarted`.
pub open spec fn started_json(project_path: Seq<char>) -> Json {
    Json::Object(
        map![
            "type"@ => Json::Text("testRunStarted"@),
            "framework"@ => Json::Text("dotnet-xunit"@),
            "projectPath"@ => Json::Text(project_path),
        ],
    )
}

/// The event `testLog`.
pub open spec fn log_json(line: Seq<char>) -> Json {
    Json::Object(map!["type"@ => Json::Text("testLog"@), "line"@ => Json::Text(line)])
}

/// The members that every event `testResult` has.
pub open spec fn result_members(
    outcome: Seq<char>,
    test_class: Seq<char>,
    test_name: Seq<char>,
    duration: Json,
) -> Map<Seq<char>, Json> {
    map![
        "type"@ => Json::Text("testResult"@),
        "outcome"@ => Json::Text(outcome),
        "testClass"@ => Json::Text(test_class),
        "testName"@ => Json::Text(test_name),
        "duration"@ => duration,
    ]
}

/// The event `testResult`: it has a message where there is one that is not empty.
pub open spec fn result_json(
    outcome: Seq<char>,
    test_class: Seq<char>,
    test_name: Seq<char>,
    duration: Json,
    message: Option<Seq<char>>,
) -> Json {
    let members = result_members(outcome, test_class, test_name, duration);
    match message {
        Some(text) => if text.len() > 0 {
            Json::Object(members.insert("message"@, Json::Text(text)))
        } else {
            Json::Object(members)
        },
        None => Json::Object(members),
    }
}

/// The members of the event `testRunCompleted`.
pub open spec fn completed_members(
    passed: u32,
    failed: u32,
    skipped: u32,
    duration: Json,
) -> Map<Seq<char>, Json> {
    map![
        "type"@ => Json::Text("testRunCompleted"@),
        "passed"@ => Json::Integer(passed as int),
        "failed"@ => Json::Integer(failed as int),
        "skipped"@ => Json::Integer(skipped as int),
        "duration"@ => duration,
    ]
}

/// The event `testRunCompleted`.
pub open spec fn completed_json(passed: u32, failed: u32, skipped: u32, duration: Json) -> Json {
    Json::Object(completed_members(passed, failed, skipped, duration))
}

/// The event `testRunCompleted` of a run that could not begin.
pub open spec fn spawn_failed_json(duration: Json) -> Json {
    Json::Object(
        completed_members(0, 0, 0, duration).insert(
            "error"@,
            Json::Text("Failed to spawn dotnet test"@),
        ),
    )
}

/// The JSON of an event that takes the given duration.
pub open spec fn event_json(event: EventView, duration: Json) -> Json {
    match event {
        EventView::Started(path) => started_json(path),
        EventView::Log(line) => log_json(line),
        EventView::Result(result) => result_json(
            result.outcome.word(),
            result.test_class,
            result.test_name,
            duration,
            result.message,
        ),
        EventView::Completed { passed, failed, skipped } => completed_json(
            passed,
            failed,
            skipped,
            duration,
        ),
        EventView::SpawnFailed => spawn_failed_json(duration),
    }
}

/// Writes the event `testRunStarted`.
pub fn make_started_event(project_path: &str) -> (text: String)
    ensures
        text@ == json_text(started_json(project_path@)),
{
    let mut event = empty_object();
    set_member(&mut event, "type", text_value("testRunStarted"));
    set_member(&mut event, "framework", text_value("dotnet-xunit"));
    set_member(&mut event, "projectPath", text_value(project_path));
    value_text(&event)
}

/// Writes the event `testLog`.
pub fn make_log_event(line: &str) -> (text: String)
    ensures
        text@ == json_text(log_json(line@)),
{
    let mut event = empty_object();
    set_member(&mut event, "type", text_value("testLog"));
    set_member(&mut event, "line", text_value(line));
    value_text(&event)
}

/// Writes the event `testResult`.
pub fn make_test_event(
    outcome: &str,
    test_class: &str,
    test_name: &str,
    duration: serde_json::Value,
    message: Option<&str>,
) -> (text: String)
    ensures
        text@ == json_text(
            result_json(
                outcome@,
                test_class@,
                test_name@,
                json(duration),
                match message {
                    Some(m) => Some(m@),
                    None => None,
                },
            ),
        ),
{
    let mut event = empty_object();
    set_member(&mut event, "type", text_value("testResult"));
    set_member(&mut event, "outcome", text_value(outcome));
    set_member(&mut event, "testClass", text_value(test_class));
    set_member(&mut event, "testName", text_value(test_name));
    set_member(&mut event, "duration", duration);
    if let Some(m) = message {
        if !m.is_empty() {
            set_member(&mut event, "message", text_value(m));
        }
    }
    value_text(&event)
}

fn completed_value(passed: u32, failed: u32, skipped: u32, duration: serde_json::Value) -> (event:
    serde_json::Value)
    ensures
        json(event) == completed_json(passed, failed, skipped, json(duration)),
{
    let mut event = empty_object();
    set_member(&mut event, "type", text_value("testRunCompleted"));
    set_member(&mut event, "passed", count_value(passed));
    set_member(&mut event, "failed", count_value(failed));
    set_member(&mut event, "skipped", count_value(skipped));
    set_member(&mut event, "duration", duration);
    event
}

/// Writes the event `testRunCompleted`.
pub fn make_completed_event(
    passed: u32,
    failed: u32,
    skipped: u32,
    duration: serde_json::Value,
) -> (text: String)
    ensures
        text@ == json_text(completed_json(passed, failed, skipped, json(duration))),
{
    let event = completed_value(passed, failed, skipped, duration);
    value_text(&event)
}

/// Writes the event `testRunCompleted` of a run that could not begin.
pub fn make_spawn_failed_event(duration: serde_json::Value) -> (text: String)
    ensures
        text@ == json_text(spawn_failed_json(json(duration))),
{
    let mut event = completed_value(0, 0, 0, duration);
    set_member(&mut event, "error", text_value("Failed to spawn dotnet test"));
    value_text(&event)
}

/// Writes an event. The duration goes into those that have one.
pub fn make_event(event: &HostEvent, duration: serde_json::Value) -> (text: String)
    ensures
        text@ == json_text(event_json(event@, json(duration))),
{
    match event {
        HostEvent::Started(path) => make_started_event(path.as_str()),
        HostEvent::Log(line) => make_log_event(line.as_str()),
        HostEvent::Result(result) => {
            let message = match &result.message {
                Some(m) => Some(m.as_str()),
                None => None,
            };
            make_test_event(
                result.outcome.as_str(),
                result.test_class.as_str(),
                result.test_name.as_str(),
                duration,
                message,
            )
        },
        HostEvent::Completed { passed, failed, skipped } => make_completed_event(
            *passed,
            *failed,
            *skipped,
            duration,
        ),
        HostEvent::SpawnFailed => make_spawn_failed_event(duration),
    }
}

} // verus!
