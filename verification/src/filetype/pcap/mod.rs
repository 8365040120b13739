//! Packet captures.

pub mod flow;
pub mod line;
pub mod packet;
pub mod reader;
pub mod someip;
