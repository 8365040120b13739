//! Loading a file and scoring its lines.

pub mod chunked;
pub mod heuristic;
pub mod log_file;
