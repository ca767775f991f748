use dotnet_test_plugin::event::{
    make_completed_event, make_event, make_log_event, make_spawn_failed_event, make_started_event,
    make_test_event, HostEvent,
};
use dotnet_test_plugin::parser::{Outcome, TestResult};
use serde_json::Value;

#[test]
fn started() {
    assert_eq!(
        make_started_event("/tmp/a \"b\""),
        r#"{"framework":"dotnet-xunit","projectPath":"/tmp/a \"b\"","type":"testRunStarted"}"#
    );
}

#[test]
fn log() {
    assert_eq!(make_log_event("a\tb"), r#"{"line":"a\tb","type":"testLog"}"#);
}

#[test]
fn result_without_message() {
    assert_eq!(
        make_test_event("passed", "Ns.ClassName", "MethodName", Value::from(0.042), None),
        r#"{"duration":0.042,"outcome":"passed","testClass":"Ns.ClassName","testName":"MethodName","type":"testResult"}"#
    );
}

#[test]
fn result_with_message() {
    assert_eq!(
        make_test_event("failed", "C", "m", Value::from(0.0), Some("boom")),
        r#"{"duration":0.0,"message":"boom","outcome":"failed","testClass":"C","testName":"m","type":"testResult"}"#
    );
    assert_eq!(
        make_test_event("failed", "C", "m", Value::from(1.5), Some("")),
        r#"{"duration":1.5,"outcome":"failed","testClass":"C","testName":"m","type":"testResult"}"#
    );
}

#[test]
fn a_duration_that_is_no_number() {
    assert_eq!(
        make_test_event("skipped", "C", "m", Value::from(f64::INFINITY), None),
        r#"{"duration":null,"outcome":"skipped","testClass":"C","testName":"m","type":"testResult"}"#
    );
}

#[test]
fn completed() {
    assert_eq!(
        make_completed_event(10, 3, u32::MAX, Value::from(2.5)),
        r#"{"duration":2.5,"failed":3,"passed":10,"skipped":4294967295,"type":"testRunCompleted"}"#
    );
}

#[test]
fn spawn_failed() {
    assert_eq!(
        make_spawn_failed_event(Value::from(0.0)),
        r#"{"duration":0.0,"error":"Failed to spawn dotnet test","failed":0,"passed":0,"skipped":0,"type":"testRunCompleted"}"#
    );
}

#[test]
fn any_event() {
    let zero = || Value::from(0.0);
    assert_eq!(make_event(&HostEvent::Started(".".to_string()), zero()), make_started_event("."));
    assert_eq!(make_event(&HostEvent::Log("x".to_string()), zero()), make_log_event("x"));
    assert_eq!(make_event(&HostEvent::SpawnFailed, zero()), make_spawn_failed_event(zero()));
    assert_eq!(
        make_event(&HostEvent::Completed { passed: 1, failed: 2, skipped: 3 }, Value::from(4.5)),
        make_completed_event(1, 2, 3, Value::from(4.5))
    );
    let result = TestResult {
        outcome: Outcome::Failed,
        test_class: "C".to_string(),
        test_name: "m".to_string(),
        duration: None,
        message: Some("boom".to_string()),
    };
    assert_eq!(
        make_event(&HostEvent::Result(result), Value::from(0.25)),
        make_test_event("failed", "C", "m", Value::from(0.25), Some("boom"))
    );
}
