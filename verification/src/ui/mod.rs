//! The decisions of the user interface.

pub mod files;
pub mod frame;
pub mod input;
pub mod menu;
pub mod sessions;
pub mod toasts;
