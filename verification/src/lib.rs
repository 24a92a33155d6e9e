//! The policy daemon of a device: which refresh rate the display has, which applications are
//! preloaded or punished, how deep the device sleeps, and how the daemon itself is supervised.
//!
//! What the policies decide stands here, as state machines from what was observed to what is to be
//! done. Observing and doing is left to the program around the library.

pub mod command;
pub mod deepsleep;
pub mod lines;
pub mod lossy;
pub mod numeral;
pub mod packages;
pub mod paths;
pub mod pids;
pub mod pm;
pub mod preload;
pub mod property;
pub mod readiness;
pub mod refresh;
pub mod supervisor;
pub mod text;
pub mod watchdog;
