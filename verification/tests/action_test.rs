use dotnet_test_plugin::action::{dotnet_args, handle_action, init, project_path};
use serde_json::Value;

fn payload(text: &str) -> Value {
    serde_json::from_str(text).unwrap()
}

#[test]
fn the_panel() {
    assert_eq!(
        init(),
        r#"[{"text":"dotnet test","type":"label"},{"action":"run_tests","text":"Run Tests","type":"button"}]"#
    );
}

#[test]
fn other_actions_are_ignored() {
    assert!(handle_action("run_test".to_string(), payload("{}")).is_none());
    assert!(handle_action("".to_string(), payload(r#"{"cwd":"/x"}"#)).is_none());
}

#[test]
fn defaults() {
    for text in ["{}", "null", "[1]", r#"{"session_id":1,"cwd":false,"args":"x"}"#] {
        let request = handle_action("run_tests".to_string(), payload(text)).unwrap();
        assert_eq!(request.session_id, "dotnet-test");
        assert_eq!(request.cwd, None);
        assert!(request.extra_args.is_empty());
        assert_eq!(project_path(&request), ".");
        assert_eq!(dotnet_args(&request), vec!["test", "--verbosity", "detailed"]);
    }
}

#[test]
fn a_full_request() {
    let text = r#"{"session_id":"s1","cwd":"/src","args":["--filter",2,"Name~Foo",null]}"#;
    let request = handle_action("run_tests".to_string(), payload(text)).unwrap();
    assert_eq!(request.session_id, "s1");
    assert_eq!(request.cwd.as_deref(), Some("/src"));
    assert_eq!(request.extra_args, vec!["--filter", "Name~Foo"]);
    assert_eq!(project_path(&request), "/src");
    assert_eq!(
        dotnet_args(&request),
        vec!["test", "--verbosity", "detailed", "--filter", "Name~Foo"]
    );
}
