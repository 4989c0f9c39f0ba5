//! Task list state engine for a plain-text (todo.txt style) task manager.
//!
//! The library models the in-memory task collection, the tag-derived
//! filter views, the sort and selection logic that keeps the three panes
//! (projects, tasks, contexts) consistent, and the mutation state machine.
//! Terminal rendering, key handling and file or network access live in the
//! surrounding binary, which talks to this engine through plain values.

pub mod app;
pub mod date;
pub mod filter;
pub mod lines;
pub mod nav;
pub mod strorder;
pub mod tags;
pub mod task;
pub mod textio;

pub use app::App;
pub use app::Command;
pub use app::EngineError;
pub use app::StepResult;
pub use date::Date;
pub use nav::Focus;
pub use task::Task;
