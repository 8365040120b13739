//! DLT logs: diagnostic log and trace messages of the control units of a vehicle.

pub mod boot_times;
pub mod file;
pub mod line;
pub mod message;
pub mod reader;
pub mod state;
