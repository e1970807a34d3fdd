//! Hook logic for a task-tracking tool: a task wire model with strict JSON
//! encoding and lossless passthrough of unrecognized fields, a notes
//! document with a detachable structured header, and the hook engine that
//! keeps a task's notes artifact and ownership annotation in step with its
//! tag state.

pub mod config;
pub mod datetime;
pub mod hooks;
mod json;
pub mod notes;
mod strings;
pub mod task;

pub use config::Config;
pub use datetime::{Date, DateTime};
pub use hooks::{Feedback, HookAction, Hooks};
pub use notes::{split_yaml_header, NotesFile, YamlMeta};
pub use task::{Annotation, DecodeError, Status, Task};
