//! Several log files in one order of time.

pub mod crab;
pub mod ids;
pub mod kway;
pub mod log_store;
pub mod order;
pub mod score_map;
pub mod scores;
pub mod source;
pub mod source_map;
pub mod variant;
