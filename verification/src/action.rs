//! What the plugin shows to the user, and what it makes of the user's actions.

use vstd::prelude::*;

use crate::json::{
    array_value, as_elements, as_text, empty_object, json, json_list, json_text, member, set_member,
    text_value, value_text, Json,
};
use crate::text::{same_text, texts};

verus! {

/// The panel: a label and a button that runs the tests.
pub open spec fn panel_json() -> Json {
    Json::Array(
        seq![
            Json::Object(
                map!["type"@ => Json::Text("label"@), "text"@ => Json::Text("dotnet test"@)],
            ),
            Json::Object(
                map![
                    "type"@ => Json::Text("button"@),
                    "text"@ => Json::Text("Run Tests"@),
                    "action"@ => Json::Text("run_tests"@),
                ],
            ),
        ],
    )
}

/// Writes the panel that the plugin shows when it starts.
pub fn init() -> (ui: String)
    ensures
        ui@ == json_text(panel_json()),
{
    let mut label = empty_object();
    set_member(&mut label, "type", text_value("label"));
    set_member(&mut label, "text", text_value("dotnet test"));
    let mut button = empty_object();
    set_member(&mut button, "type", text_value("button"));
    set_member(&mut button, "text", text_value("Run Tests"));
    set_member(&mut button, "action", text_value("run_tests"));
    let mut elements: Vec<serde_json::Value> = Vec::new();
    elements.push(label);
    elements.push(button);
    assert(json_list(elements@) =~= panel_json()->Array_0);
    let panel = array_value(elements);
    value_text(&panel)
}

/// A request to run tests.
#[derive(Debug)]
pub struct RunRequest {
    /// Where the events go.
    pub session_id: String,
    /// The directory to run in; the current one where missing.
    pub cwd: Option<String>,
    /// Further arguments for `dotnet test`.
    pub extra_args: Vec<String>,
}

/// The contents of a `RunRequest`.
#[verifier::ext_equal]
pub struct RequestView {
    pub session_id: Seq<char>,
    pub cwd: Option<Seq<char>>,
    pub extra_args: Seq<Seq<char>>,
}

impl View for RunRequest {
    type V = RequestView;

    open spec fn view(&self) -> RequestView {
        RequestView {
            session_id: self.session_id@,
            cwd: match self.cwd {
                Some(cwd) => Some(cwd@),
                None => None,
            },
            extra_args: texts(self.extra_args@),
        }
    }
}

/// The member of that key, where it is a string.
pub open spec fn text_member(payload: Json, key: Seq<char>) -> Option<Seq<char>> {
    match payload.member(key) {
        Some(value) => value.text(),
        None => None,
    }
}

/// The strings among the values, in their order.
pub open spec fn strings_in(values: Seq<Json>) -> Seq<Seq<char>>
    decreases values.len(),
{
    if values.len() == 0 {
        seq![]
    } else {
        match values.last().text() {
            Some(text) => strings_in(values.drop_last()).push(text),
            None => strings_in(values.drop_last()),
        }
    }
}

/// The strings in the array of that key; none where there is no array.
pub open spec fn string_list_member(payload: Json, key: Seq<char>) -> Seq<Seq<char>> {
    match payload.member(key) {
        Some(Json::Array(values)) => strings_in(values),
        _ => seq![],
    }
}

/// What the payload of the action `run_tests` asks for.
pub open spec fn request_in(payload: Json) -> RequestView {
    RequestView {
        session_id: match text_member(payload, "session_id"@) {
            Some(text) => text,
            None => "dotnet-test"@,
        },
        cwd: text_member(payload, "cwd"@),
        extra_args: string_list_member(payload, "args"@),
    }
}

fn read_text(payload: &serde_json::Value, key: &str) -> (r: Option<String>)
    ensures
        text_member(json(*payload), key@) == (match r {
            Some(text) => Some(text@),
            None => None,
        }),
{
    match member(payload, key) {
        Some(value) => match as_text(value) {
            Some(text) => Some(text.to_string()),
            None => None,
        },
        None => None,
    }
}

fn read_strings(payload: &serde_json::Value, key: &str) -> (strings: Vec<String>)
    ensures
        texts(strings@) == string_list_member(json(*payload), key@),
{
    let mut strings: Vec<String> = Vec::new();
    if let Some(value) = member(payload, key) {
        if let Some(elements) = as_elements(value) {
            let ghost all = json_list(elements@);
            assert(all.take(0) =~= Seq::<Json>::empty());
            assert(texts(strings@) =~= strings_in(all.take(0)));
            let mut i: usize = 0;
            while i < elements.len()
                invariant
                    i <= elements@.len(),
                    all == json_list(elements@),
                    texts(strings@) == strings_in(all.take(i as int)),
                decreases elements@.len() - i,
            {
                let ghost longer = all.take(i + 1);
                assert(longer.drop_last() =~= all.take(i as int));
                assert(longer.last() == json(elements@[i as int]));
                if let Some(text) = as_text(&elements[i]) {
                    let ghost before = texts(strings@);
                    strings.push(text.to_string());
                    assert(texts(strings@) =~= before.push(text@));
                }
                i += 1;
            }
            assert(all.take(i as int) =~= all);
        }
    }
    assert(texts(strings@) =~= string_list_member(json(*payload), key@));
    strings
}

/// Handles an action of the user: the action `run_tests` asks for a run, any other for nothing.
pub fn handle_action(action_id: String, payload: serde_json::Value) -> (r: Option<RunRequest>)
    ensures
        match r {
            Some(request) => action_id@ == "run_tests"@ && request@ == request_in(json(payload)),
            None => action_id@ != "run_tests"@,
        },
{
    if !same_text(action_id.as_str(), "run_tests") {
        return None;
    }
    let session_id = match read_text(&payload, "session_id") {
        Some(text) => text,
        None => "dotnet-test".to_string(),
    };
    let cwd = read_text(&payload, "cwd");
    let extra_args = read_strings(&payload, "args");
    Some(RunRequest { session_id, cwd, extra_args })
}

/// The directory that a run is reported to take place in.
pub fn project_path<'a>(request: &'a RunRequest) -> (path: &'a str)
    ensures
        path@ == (match request@.cwd {
            Some(cwd) => cwd,
            None => "."@,
        }),
{
    match &request.cwd {
        Some(cwd) => cwd.as_str(),
        None => ".",
    }
}

/// The arguments of `dotnet`. With the verbosity `normal` some frameworks print the summary
/// alone; `detailed` makes them print a line for each test.
pub fn dotnet_args(request: &RunRequest) -> (args: Vec<String>)
    ensures
        texts(args@) == seq!["test"@, "--verbosity"@, "detailed"@] + request@.extra_args,
{
    let mut args: Vec<String> = Vec::new();
    args.push("test".to_string());
    args.push("--verbosity".to_string());
    args.push("detailed".to_string());
    let ghost fixed = seq!["test"@, "--verbosity"@, "detailed"@];
    let mut i: usize = 0;
    assert(texts(args@) =~= fixed + request@.extra_args.take(0));
    while i < request.extra_args.len()
        invariant
            i <= request.extra_args@.len(),
            texts(args@) == fixed + request@.extra_args.take(i as int),
        decreases request.extra_args@.len() - i,
    {
        let ghost before = texts(args@);
        args.push(request.extra_args[i].clone());
        i += 1;
        assert(texts(args@) =~= before.push(request@.extra_args[i - 1]));
        assert(texts(args@) =~= fixed + request@.extra_args.take(i as int));
    }
    assert(request@.extra_args.take(i as int) =~= request@.extra_args);
    args
}

} // verus!
