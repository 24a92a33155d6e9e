//! Starting the daemon.
//!
//! Spans of time are in nanoseconds.

use crate::numeral::{signed_decimal, signed_decimal_text};
use crate::supervisor::pid_file::{pid_in, pid_named};
use vstd::prelude::*;

verus! {

/// How long a start may take: ten seconds.
pub const START_LIMIT_NS: u128 = 10_000_000_000;

/// How long a restart waits for the PID file to go: three seconds.
pub const RESTART_LIMIT_NS: u128 = 3_000_000_000;

/// The milliseconds between two looks at the PID file.
pub const POLL_MS: u64 = 100;

/// What is told of a start that took too long.
pub const START_TIMED_OUT: &'static str = "warning: daemon start timed out";

/// What a start comes to.
#[derive(Clone, Copy, Debug, PartialEq, Eq, Structural)]
pub enum Startup {
    /// The daemon runs already, as this process.
    Running(i32),
    /// It is to be started, after the PID file was removed where there is one.
    Start { remove: bool },
}

/// What a start comes to, of a PID file that is there or not, of what was read of it, and of
/// whether the process it names is alive.
pub fn startup(there: bool, text: Option<&str>, alive: bool) -> (r: Startup)
    ensures
        match r {
            Startup::Running(pid) => there && alive && pid_named(text) == Some(pid as int),
            Startup::Start { remove } => remove == there && !(there && alive && pid_named(
                text,
            ) is Some),
        },
{
    if !there {
        return Startup::Start { remove: false };
    }
    match pid_in(text) {
        Some(pid) => if alive {
            Startup::Running(pid)
        } else {
            Startup::Start { remove: true }
        },
        None => Startup::Start { remove: true },
    }
}

/// What is told of a daemon that runs already.
pub fn running_line(pid: i32) -> (r: String)
    ensures
        r@ == "daemon already running (pid "@ + signed_decimal(pid as int) + ")"@,
{
    let mut line: String = "daemon already running (pid ".to_string();
    line.append(signed_decimal_text(pid).as_str());
    line.append(")");
    line
}

/// What comes next while the start of the daemon is waited for.
#[derive(Clone, Copy, Debug, PartialEq, Eq, Structural)]
pub enum StartWait {
    /// It has started.
    Started,
    /// It took too long.
    TimedOut,
    /// Look again after this many milliseconds.
    Pause(u64),
}

/// What comes next while the start of the daemon is waited for: it has started once there is a
/// PID file.
pub fn start_wait(there: bool, elapsed: u128) -> (r: StartWait)
    ensures
        r == if there {
            StartWait::Started
        } else if elapsed > START_LIMIT_NS {
            StartWait::TimedOut
        } else {
            StartWait::Pause(POLL_MS)
        },
        r == StartWait::TimedOut <==> !there && elapsed > 10_000_000_000,
        r matches StartWait::Pause(ms) ==> ms == 100,
{
    if there {
        StartWait::Started
    } else if elapsed > START_LIMIT_NS {
        StartWait::TimedOut
    } else {
        StartWait::Pause(POLL_MS)
    }
}

/// The milliseconds after which a restart looks at the PID file again, or none where it goes on.
pub fn restart_wait(there: bool, elapsed: u128) -> (r: Option<u64>)
    ensures
        r == if there && elapsed < RESTART_LIMIT_NS {
            Some(POLL_MS)
        } else {
            None
        },
        r is Some <==> there && elapsed < 3_000_000_000,
        r matches Some(ms) ==> ms == 100,
{
    if there && elapsed < RESTART_LIMIT_NS {
        Some(POLL_MS)
    } else {
        None
    }
}

/// A start is waited for ten seconds, the end of the daemon before it three, with ten looks in each
/// second; what is told of a start that took too long is a warning.
pub proof fn law_times_of_starting()
    ensures
        START_LIMIT_NS == 10 * 1_000_000_000,
        RESTART_LIMIT_NS == 3 * 1_000_000_000,
        POLL_MS == 100,
        START_TIMED_OUT@ == "warning: daemon start timed out"@,
{
}

} // verus!
