//! What the host finds in the events and in the panel, and what the plugin finds in a request.

use vstd::prelude::*;

use crate::action::{panel_json, request_in, strings_in, RunRequest};
use crate::event::{event_json, events_view, EventView, HostEvent};
use crate::identifier::TestDuration;
use crate::json::Json;
use crate::parser::{results_view, DotnetTestParser, Outcome, PendingFailure, ResultView, TestResult};
use crate::run::{Reply, ReplyView, TestRun};
use crate::text::texts;

verus! {

/// The keys of the members that an event has.
pub open spec fn has_only(value: Json, keys: Set<Seq<char>>) -> bool {
    value is Object && value->Object_0.dom() == keys
}

proof fn lemma_keys_differ()
    ensures
        "type"@ != "framework"@,
        "type"@ != "projectPath"@,
        "framework"@ != "projectPath"@,
        "type"@ != "line"@,
        "type"@ != "outcome"@,
        "type"@ != "testClass"@,
        "type"@ != "testName"@,
        "type"@ != "duration"@,
        "type"@ != "message"@,
        "outcome"@ != "testClass"@,
        "outcome"@ != "testName"@,
        "outcome"@ != "duration"@,
        "outcome"@ != "message"@,
        "testClass"@ != "testName"@,
        "testClass"@ != "duration"@,
        "testClass"@ != "message"@,
        "testName"@ != "duration"@,
        "testName"@ != "message"@,
        "duration"@ != "message"@,
        "type"@ != "passed"@,
        "type"@ != "failed"@,
        "type"@ != "skipped"@,
        "type"@ != "error"@,
        "passed"@ != "failed"@,
        "passed"@ != "skipped"@,
        "passed"@ != "duration"@,
        "passed"@ != "error"@,
        "failed"@ != "skipped"@,
        "failed"@ != "duration"@,
        "failed"@ != "error"@,
        "skipped"@ != "duration"@,
        "skipped"@ != "error"@,
        "duration"@ != "error"@,
        "type"@ != "text"@,
        "type"@ != "action"@,
        "text"@ != "action"@,
{
    reveal_strlit("type");
    reveal_strlit("framework");
    reveal_strlit("projectPath");
    reveal_strlit("line");
    reveal_strlit("outcome");
    reveal_strlit("testClass");
    reveal_strlit("testName");
    reveal_strlit("duration");
    reveal_strlit("message");
    reveal_strlit("passed");
    reveal_strlit("failed");
    reveal_strlit("skipped");
    reveal_strlit("error");
    reveal_strlit("text");
    reveal_strlit("action");
    assert("type"@[0] == 't' && "type"@[1] == 'y' && "framework"@[0] == 'f');
    assert("projectPath"@[0] == 'p' && "line"@[0] == 'l' && "outcome"@[0] == 'o');
    assert("testClass"@[1] == 'e' && "testClass"@[4] == 'C');
    assert("testName"@[1] == 'e' && "testName"@[4] == 'N' && "testName"@[0] == 't');
    assert("testClass"@[0] == 't' && "duration"@[0] == 'd' && "message"@[0] == 'm');
    assert("passed"@[0] == 'p' && "failed"@[0] == 'f' && "skipped"@[0] == 's');
    assert("error"@[0] == 'e' && "text"@[1] == 'e' && "text"@[0] == 't' && "action"@[0] == 'a');
}

/// The event that announces a run says where it takes place.
pub proof fn law_started_event(path: Seq<char>, duration: Json)
    ensures
        ({
            let sent = event_json(EventView::Started(path), duration);
            &&& sent.member("type"@) == Some(Json::Text("testRunStarted"@))
            &&& sent.member("framework"@) == Some(Json::Text("dotnet-xunit"@))
            &&& sent.member("projectPath"@) == Some(Json::Text(path))
            &&& has_only(sent, set!["type"@, "framework"@, "projectPath"@])
        }),
{
    lemma_keys_differ();
    let sent = event_json(EventView::Started(path), duration);
    assert(sent->Object_0.dom() =~= set!["type"@, "framework"@, "projectPath"@]);
}

/// The event of a line gives that line.
pub proof fn law_log_event(line: Seq<char>, duration: Json)
    ensures
        ({
            let sent = event_json(EventView::Log(line), duration);
            &&& sent.member("type"@) == Some(Json::Text("testLog"@))
            &&& sent.member("line"@) == Some(Json::Text(line))
            &&& has_only(sent, set!["type"@, "line"@])
        }),
{
    lemma_keys_differ();
    let sent = event_json(EventView::Log(line), duration);
    assert(sent->Object_0.dom() =~= set!["type"@, "line"@]);
}

/// The event of a test says how it ended, in the word for that and no other, which test it was,
/// how long it took, and its message where it has one that is not empty.
pub proof fn law_result_event(result: ResultView, duration: Json)
    ensures
        ({
            let sent = event_json(EventView::Result(result), duration);
            &&& sent.member("type"@) == Some(Json::Text("testResult"@))
            &&& result.outcome == Outcome::Passed <==> sent.member("outcome"@) == Some(
                Json::Text("passed"@),
            )
            &&& result.outcome == Outcome::Failed <==> sent.member("outcome"@) == Some(
                Json::Text("failed"@),
            )
            &&& result.outcome == Outcome::Skipped <==> sent.member("outcome"@) == Some(
                Json::Text("skipped"@),
            )
            &&& sent.member("testClass"@) == Some(Json::Text(result.test_class))
            &&& sent.member("testName"@) == Some(Json::Text(result.test_name))
            &&& sent.member("duration"@) == Some(duration)
            &&& match result.message {
                Some(message) => if message.len() > 0 {
                    &&& sent.member("message"@) == Some(Json::Text(message))
                    &&& has_only(
                        sent,
                        set![
                            "type"@,
                            "outcome"@,
                            "testClass"@,
                            "testName"@,
                            "duration"@,
                            "message"@,
                        ],
                    )
                } else {
                    has_only(
                        sent,
                        set!["type"@, "outcome"@, "testClass"@, "testName"@, "duration"@],
                    )
                },
                None => has_only(
                    sent,
                    set!["type"@, "outcome"@, "testClass"@, "testName"@, "duration"@],
                ),
            }
        }),
{
    lemma_keys_differ();
    let sent = event_json(EventView::Result(result), duration);
    let few = set!["type"@, "outcome"@, "testClass"@, "testName"@, "duration"@];
    if result.message is Some && result.message->0.len() > 0 {
        assert(sent->Object_0.dom() =~= set![
            "type"@,
            "outcome"@,
            "testClass"@,
            "testName"@,
            "duration"@,
            "message"@,
        ]);
    } else {
        assert(sent->Object_0.dom() =~= few);
    }
}

/// Two tests that the host is told the same of ended alike, have the same names, took equally long,
/// and have the same message, where no message is as good as an empty one.
pub proof fn law_results_told_apart(a: ResultView, a_duration: Json, b: ResultView, b_duration: Json)
    requires
        event_json(EventView::Result(a), a_duration) == event_json(EventView::Result(b), b_duration),
    ensures
        a.outcome == b.outcome,
        a.test_class == b.test_class,
        a.test_name == b.test_name,
        a_duration == b_duration,
        a.message == b.message || ((a.message is None || a.message->0.len() == 0) && (
        b.message is None || b.message->0.len() == 0)),
{
    let sent = event_json(EventView::Result(a), a_duration);
    law_result_event(a, a_duration);
    law_result_event(b, b_duration);
    lemma_keys_differ();
    assert(sent.member("testClass"@) == Some(Json::Text(b.test_class)));
    assert(sent.member("testName"@) == Some(Json::Text(b.test_name)));
    assert(sent.member("duration"@) == Some(b_duration));
    assert(sent.member("message"@) is Some <==> (a.message is Some && a.message->0.len() > 0));
    assert(sent.member("message"@) is Some <==> (b.message is Some && b.message->0.len() > 0));
}

/// The event that ends a run gives its counters and how long it took.
pub proof fn law_completed_event(passed: u32, failed: u32, skipped: u32, duration: Json)
    ensures
        ({
            let sent = event_json(EventView::Completed { passed, failed, skipped }, duration);
            &&& sent.member("type"@) == Some(Json::Text("testRunCompleted"@))
            &&& sent.member("passed"@) == Some(Json::Integer(passed as int))
            &&& sent.member("failed"@) == Some(Json::Integer(failed as int))
            &&& sent.member("skipped"@) == Some(Json::Integer(skipped as int))
            &&& sent.member("duration"@) == Some(duration)
            &&& has_only(sent, set!["type"@, "passed"@, "failed"@, "skipped"@, "duration"@])
        }),
{
    lemma_keys_differ();
    let sent = event_json(EventView::Completed { passed, failed, skipped }, duration);
    assert(sent->Object_0.dom() =~= set!["type"@, "passed"@, "failed"@, "skipped"@, "duration"@]);
}

/// The event of a run that could not begin ends it with no tests, and says why.
pub proof fn law_spawn_failed_event(duration: Json)
    ensures
        ({
            let sent = event_json(EventView::SpawnFailed, duration);
            &&& sent.member("type"@) == Some(Json::Text("testRunCompleted"@))
            &&& sent.member("passed"@) == Some(Json::Integer(0))
            &&& sent.member("failed"@) == Some(Json::Integer(0))
            &&& sent.member("skipped"@) == Some(Json::Integer(0))
            &&& sent.member("duration"@) == Some(duration)
            &&& sent.member("error"@) == Some(Json::Text("Failed to spawn dotnet test"@))
            &&& has_only(sent, set!["type"@, "passed"@, "failed"@, "skipped"@, "duration"@, "error"@])
        }),
{
    lemma_keys_differ();
    let sent = event_json(EventView::SpawnFailed, duration);
    assert(sent->Object_0.dom() =~= set![
        "type"@,
        "passed"@,
        "failed"@,
        "skipped"@,
        "duration"@,
        "error"@,
    ]);
}

/// The panel is a label and a button, and the button asks for the action that runs the tests.
pub proof fn law_panel()
    ensures
        panel_json() is Array,
        ({
            let shown = panel_json()->Array_0;
            &&& shown.len() == 2
            &&& shown[0].member("type"@) == Some(Json::Text("label"@))
            &&& shown[0].member("text"@) == Some(Json::Text("dotnet test"@))
            &&& has_only(shown[0], set!["type"@, "text"@])
            &&& shown[1].member("type"@) == Some(Json::Text("button"@))
            &&& shown[1].member("text"@) == Some(Json::Text("Run Tests"@))
            &&& shown[1].member("action"@) == Some(Json::Text("run_tests"@))
            &&& has_only(shown[1], set!["type"@, "text"@, "action"@])
        }),
{
    lemma_keys_differ();
    let shown = panel_json()->Array_0;
    assert(shown[0]->Object_0.dom() =~= set!["type"@, "text"@]);
    assert(shown[1]->Object_0.dom() =~= set!["type"@, "text"@, "action"@]);
}

/// What a request gives as text is taken as it is. Without a session the events go to
/// `dotnet-test`; without a directory there is none.
pub proof fn law_request_texts(payload: Json, text: Seq<char>)
    ensures
        payload.member("session_id"@) == Some(Json::Text(text)) ==> request_in(payload).session_id
            == text,
        (payload.member("session_id"@) is None || !(payload.member("session_id"@)->0 is Text))
            ==> request_in(payload).session_id == "dotnet-test"@,
        payload.member("cwd"@) == Some(Json::Text(text)) ==> request_in(payload).cwd == Some(text),
        (payload.member("cwd"@) is None || !(payload.member("cwd"@)->0 is Text)) ==> request_in(
            payload,
        ).cwd is None,
{
}

/// The strings of the list `args` are the further arguments, in their order; what is no string is
/// left out. Without a list there are none.
pub proof fn law_request_args(payload: Json, values: Seq<Json>)
    ensures
        payload.member("args"@) == Some(Json::Array(values)) ==> request_in(payload).extra_args
            == strings_in(values),
        (payload.member("args"@) is None || !(payload.member("args"@)->0 is Array)) ==> request_in(
            payload,
        ).extra_args == Seq::<Seq<char>>::empty(),
{
}

/// The strings of two lists one after the other are those of the first and then those of the
/// second. A string alone gives itself, and anything else gives nothing.
pub proof fn law_strings_in_order(a: Seq<Json>, b: Seq<Json>, one: Json)
    ensures
        strings_in(a + b) == strings_in(a) + strings_in(b),
        one is Text ==> strings_in(seq![one]) == seq![one->Text_0],
        !(one is Text) ==> strings_in(seq![one]) == Seq::<Seq<char>>::empty(),
    decreases b.len(),
{
    assert(seq![one].drop_last() =~= Seq::<Json>::empty());
    assert(strings_in(seq![one].drop_last()) =~= Seq::<Seq<char>>::empty());
    if one is Text {
        assert(strings_in(seq![one]) =~= seq![one->Text_0]);
    }
    if b.len() == 0 {
        assert(a + b =~= a);
        assert(strings_in(a) + strings_in(b) =~= strings_in(a));
    } else {
        law_strings_in_order(a, b.drop_last(), one);
        assert((a + b).drop_last() =~= a + b.drop_last());
        assert(strings_in(a + b) =~= strings_in(a) + strings_in(b));
    }
}

// ---------------------------------------------------------------------------
// Contents
// ---------------------------------------------------------------------------

/// The contents of a result, of a pending failure and of a parser are those of their fields.
pub proof fn law_contents_of_the_parser(
    result: TestResult,
    failure: PendingFailure,
    parser: DotnetTestParser,
)
    ensures
        result@.outcome == result.outcome,
        result@.test_class == result.test_class@,
        result@.test_name == result.test_name@,
        result.message matches Some(m) ==> result@.message == Some(m@),
        result.message is None <==> result@.message is None,
        result.duration matches Some(d) ==> result@.duration == Some(d@),
        result.duration is None <==> result@.duration is None,
        failure@.test_class == failure.test_class@,
        failure@.test_name == failure.test_name@,
        failure.duration matches Some(d) ==> failure@.duration == Some(d@),
        failure.duration is None <==> failure@.duration is None,
        failure@.in_error_block == failure.in_error_block,
        failure@.message.len() == failure.message@.len(),
        forall|i: int|
            0 <= i < failure.message@.len() ==> #[trigger] failure@.message[i]
                == failure.message@[i]@,
        parser@.passed == parser.passed,
        parser@.failed == parser.failed,
        parser@.skipped == parser.skipped,
        parser@.run_complete == parser.run_complete,
        parser.current_failure matches Some(f) ==> parser@.current_failure == Some(f@),
        parser.current_failure is None <==> parser@.current_failure is None,
{
}

/// The contents of a list are those of its elements, each in its place.
pub proof fn law_contents_of_lists(
    results: Seq<TestResult>,
    events: Seq<HostEvent>,
    list: Seq<String>,
    i: int,
)
    ensures
        results_view(results).len() == results.len(),
        events_view(events).len() == events.len(),
        texts(list).len() == list.len(),
        0 <= i < results.len() ==> results_view(results)[i] == results[i]@,
        0 <= i < events.len() ==> events_view(events)[i] == events[i]@,
        0 <= i < list.len() ==> texts(list)[i] == list[i]@,
{
}

/// The contents of a duration, an event, a request, a reply and a run are those of their fields.
pub proof fn law_contents_of_the_rest(
    duration: TestDuration,
    event: HostEvent,
    request: RunRequest,
    reply: Reply,
    run: TestRun,
)
    ensures
        duration@.value == duration.value@,
        duration@.unit == duration.unit,
        event matches HostEvent::Started(path) ==> event@ == EventView::Started(path@),
        event matches HostEvent::Log(line) ==> event@ == EventView::Log(line@),
        event matches HostEvent::Result(r) ==> event@ == EventView::Result(r@),
        event matches HostEvent::Completed { passed, failed, skipped } ==> event@
            == (EventView::Completed { passed, failed, skipped }),
        event is SpawnFailed ==> event@ == EventView::SpawnFailed,
        request@.session_id == request.session_id@,
        request.cwd matches Some(cwd) ==> request@.cwd == Some(cwd@),
        request.cwd is None <==> request@.cwd is None,
        request@.extra_args == texts(request.extra_args@),
        reply matches Reply::Data(data) ==> reply@ == ReplyView::Data(data@),
        reply is Spawned <==> reply@ is Spawned,
        reply is SpawnFailed <==> reply@ is SpawnFailed,
        reply is Waited <==> reply@ is Waited,
        reply is Eof <==> reply@ is Eof,
        reply is NoData <==> reply@ is NoData,
        reply is Running <==> reply@ is Running,
        reply is Exited <==> reply@ is Exited,
        run@.phase == run.phase,
        run@.stdout_buf == run.stdout_buf@,
        run@.parser == run.parser@,
{
}

} // verus!
