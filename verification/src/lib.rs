//! A plugin that runs `dotnet test`, reads what it prints line by line, and turns it into events
//! for the host of the plugin.
//!
//! - `action`: the panel that the plugin shows, and the user's request for a run.
//! - `run`: a run, from the start of the process to the last event.
//! - `stream`: from bytes to lines, and from lines to events.
//! - `parser`, `identifier`: what a line says.
//! - `event`: the JSON of events.
//! - `text`: text as a sequence of characters.
//! - `json`, `unicode`: what is taken from `serde_json` and from the standard library.
//! - `laws`, `output_laws`, `count_laws`, `wording`: what holds of all this together.
//! - `text_laws`, `timing_laws`, `line_laws`, `course_laws`, `event_laws`: what each part is for,
//!   in the words of its inputs.

pub mod action;
pub mod count_laws;
pub mod course_laws;
pub mod event;
pub mod event_laws;
pub mod identifier;
pub mod json;
pub mod laws;
pub mod line_laws;
pub mod output_laws;
pub mod parser;
pub mod run;
pub mod stream;
pub mod text;
pub mod text_laws;
pub mod timing_laws;
pub mod unicode;
pub mod wording;

pub use crate::action::{handle_action, init};
