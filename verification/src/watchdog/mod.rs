//! The watchdog over applications in the background.

pub mod link;
pub mod tick;
pub mod timer;
