//! What the status command tells.

use crate::numeral::parsed;
use crate::supervisor::pid_file::{pid_in, pid_named};
use crate::text::{label, labelled, texts, trim, trimmed};
use vstd::prelude::*;

verus! {

/// The property of the screen.
pub const SCREEN_STATE_PROP: &'static str = "debug.tracing.screen_state";

/// The property of charging.
pub const CHARGE_STATE_PROP: &'static str = "debug.tracing.charge_state";

/// What stands for a property that is not there.
pub const ABSENT: &'static str = "-";

/// What is told where there is no PID file.
pub const NOT_RUNNING: &'static str = "daemon: not running";

/// What is told of a property, where it has a value.
pub open spec fn prop_told(name: Seq<char>, value: Option<&str>) -> Seq<char> {
    labelled(
        name,
        match value {
            Some(v) => v@,
            None => ABSENT@,
        },
    )
}

/// What is told of a property.
pub fn prop_line(name: &str, value: Option<&str>) -> (r: String)
    ensures
        r@ == prop_told(name@, value),
{
    match value {
        Some(v) => label(name, v),
        None => label(name, ABSENT),
    }
}

/// What is told of the daemon: whether the process is alive that the PID file names, with what
/// the file holds; or that there is no PID file; or nothing, where the file cannot be read.
pub open spec fn daemon_told(there: bool, text: Option<&str>, alive: bool) -> Option<Seq<char>> {
    if !there {
        Some(NOT_RUNNING@)
    } else {
        match text {
            Some(t) => Some(
                "daemon: "@ + (if alive && pid_named(text) is Some {
                    "running"@
                } else {
                    "stale"@
                }) + " (pid "@ + trimmed(t@) + ")"@,
            ),
            None => None,
        }
    }
}

/// What is told of the daemon, of a PID file that is there or not, of what was read of it, and of
/// whether the process it names is alive.
pub fn daemon_line(there: bool, text: Option<&str>, alive: bool) -> (r: Option<String>)
    ensures
        match r {
            Some(line) => daemon_told(there, text, alive) == Some(line@),
            None => daemon_told(there, text, alive) is None,
        },
{
    if !there {
        return Some(NOT_RUNNING.to_string());
    }
    match text {
        Some(t) => {
            let mut line: String = "daemon: ".to_string();
            if alive && pid_in(text).is_some() {
                line.append("running");
            } else {
                line.append("stale");
            }
            line.append(" (pid ");
            line.append(trim(t));
            line.append(")");
            Some(line)
        },
        None => None,
    }
}

/// All that the status command tells: of the daemon, and of its properties by the values that
/// they have.
pub fn cmd_status(
    there: bool,
    text: Option<&str>,
    alive: bool,
    screen: Option<&str>,
    idle: Option<&str>,
    charge: Option<&str>,
    tick: Option<&str>,
) -> (r: Vec<String>)
    ensures
        texts(r@) == (match daemon_told(there, text, alive) {
            Some(line) => seq![line],
            None => Seq::empty(),
        }) + seq![
            prop_told("screen_state"@, screen),
            prop_told("idle_state"@, idle),
            prop_told("charge_state"@, charge),
            prop_told("watchdog_tick"@, tick),
        ],
{
    let mut lines: Vec<String> = Vec::new();
    match daemon_line(there, text, alive) {
        Some(line) => lines.push(line),
        None => {},
    }
    lines.push(prop_line("screen_state", screen));
    lines.push(prop_line("idle_state", idle));
    lines.push(prop_line("charge_state", charge));
    lines.push(prop_line("watchdog_tick", tick));
    assert(texts(lines@) == (match daemon_told(there, text, alive) {
        Some(line) => seq![line],
        None => Seq::empty(),
    }) + seq![
        prop_told("screen_state"@, screen),
        prop_told("idle_state"@, idle),
        prop_told("charge_state"@, charge),
        prop_told("watchdog_tick"@, tick),
    ]);
    lines
}

/// A property is told by its name and its value, and by a dash where it has none.
pub proof fn law_properties_are_told(name: Seq<char>, value: &str)
    ensures
        prop_told(name, Some(value)) == name + "="@ + value@,
        prop_told(name, None) == name + "="@ + "-"@,
        SCREEN_STATE_PROP@ == "debug.tracing.screen_state"@,
        CHARGE_STATE_PROP@ == "debug.tracing.charge_state"@,
{
}

/// The daemon is told to run exactly where the file names a process that is alive; with a file that
/// can be read, what it holds is told too; with one that cannot, nothing is; without one, that the
/// daemon does not run.
pub proof fn law_daemon_is_told(text: &str, alive: bool)
    ensures
        daemon_told(false, Some(text), alive) == Some("daemon: not running"@),
        daemon_told(false, None, alive) == Some("daemon: not running"@),
        daemon_told(true, None, alive) is None,
        alive && parsed(trimmed(text@), i32::MIN as int, i32::MAX as int) is Ok ==> daemon_told(
            true,
            Some(text),
            alive,
        ) == Some("daemon: "@ + "running"@ + " (pid "@ + trimmed(text@) + ")"@),
        !alive || parsed(trimmed(text@), i32::MIN as int, i32::MAX as int) is Err ==> daemon_told(
            true,
            Some(text),
            alive,
        ) == Some("daemon: "@ + "stale"@ + " (pid "@ + trimmed(text@) + ")"@),
{
}

} // verus!
