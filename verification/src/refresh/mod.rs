//! The refresh-rate policy: a low rate while the screen is idle, a high one while it is touched.

pub mod cli;
pub mod config;
pub mod daemon;
pub mod inputs;
pub mod props;
pub mod rate;
pub mod settings;
pub mod status;
