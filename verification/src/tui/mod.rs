//! The state of the monitoring dashboard (`lion run --tui`) and the events
//! it shows.  Drawing it and reading the keyboard are the caller's work.

pub mod events;
pub mod app;
pub mod perf;
pub mod layout;
pub mod view;
