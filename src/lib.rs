//! Core of a terminal route-tracing map.
//!
//! - `hop`: reading the probe tool's output, line by line, into hop records.
//! - `shapes`: what the reader gives for lines of the usual layouts.
//! - `text`: trimming and splitting of text, with their models.
//! - `session`: the status of a trace and the records received so far.
//! - `state`: the interface state: tabs, typed target, zoom, current trace.
//! - `tabs`, `list`: selection within a row of tabs or a list.
pub mod tabs;
pub mod text;
pub mod hop;
pub mod list;
pub mod session;
pub mod shapes;
pub mod state;
