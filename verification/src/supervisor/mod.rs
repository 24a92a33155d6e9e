//! The supervisor of the policy daemon: its commands, its PID file, how it starts and stops.

pub mod command_line;
pub mod crashes;
pub mod pid_file;
pub mod start;
pub mod status;
pub mod stop;
