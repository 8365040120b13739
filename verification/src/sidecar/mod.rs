//! The service that scores lines with a learned model.

pub mod explain;
pub mod model;
pub mod run;
pub mod scoring;
pub mod stream;
