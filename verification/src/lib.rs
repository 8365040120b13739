//! The logic of a log viewer: the line formats it reads, the store that keeps
//! several sources in one order of time, the scoring of lines and the decisions
//! of the user interface.

pub mod collections;
pub mod config;
pub mod filetype;
pub mod loader;
pub mod net;
pub mod sidecar;
pub mod store;
pub mod string_set;
pub mod text;
pub mod time;
pub mod ui;

