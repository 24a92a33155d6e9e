//! The two system settings that bound the refresh rate.

use crate::command::{
    capturing_process, captured_text, cmd_line, quiet_process, run_cmd, run_cmd_output, slices,
    spawnable, CMD_TIMEOUT_MS,
};
use crate::lossy::read_text;
use crate::text::trimmed;
use coreshift_core::spawn::SpawnOptions;
use vstd::prelude::*;

verus! {

pub const MIN_RATE: &'static str = "min_refresh_rate";

pub const PEAK_RATE: &'static str = "peak_refresh_rate";

/// The command that prints the system setting `key`.
pub open spec fn get_line(key: Seq<char>) -> Seq<Seq<char>> {
    cmd_line(seq!["settings"@, "get"@, "system"@, key])
}

/// The command that sets the system setting `key` to `val`.
pub open spec fn put_line(key: Seq<char>, val: Seq<char>) -> Seq<Seq<char>> {
    cmd_line(seq!["settings"@, "put"@, "system"@, key, val])
}

/// The process that prints the system setting `key`, where it can be built.
pub fn rate_setting_command(key: &str) -> (r: Option<SpawnOptions>)
    ensures
        r is Some <==> spawnable(get_line(key@)),
        r matches Some(process) ==> process == capturing_process(get_line(key@), CMD_TIMEOUT_MS),
        r matches Some(process) ==> process == capturing_process(
            seq!["/system/bin/cmd"@] + seq!["settings"@, "get"@, "system"@, key@],
            5000,
        ),
{
    let args: [&str; 4] = ["settings", "get", "system", key];
    assert(slices(args@) == seq!["settings"@, "get"@, "system"@, key@]);
    run_cmd_output(&args)
}

/// The value of a setting, of what the command printed: nothing where it could not be run.
pub fn read_rate_setting(stdout: Option<&[u8]>) -> (r: String)
    ensures
        match stdout {
            Some(bytes) => r@ == trimmed(read_text(bytes@)),
            None => r@ == Seq::<char>::empty(),
        },
{
    match stdout {
        Some(bytes) => captured_text(bytes),
        None => String::new(),
    }
}

/// The process that sets the system setting `key` to `val`, where it can be built.
pub fn set_rate(key: &str, val: &str) -> (r: Option<SpawnOptions>)
    ensures
        r is Some <==> spawnable(put_line(key@, val@)),
        r matches Some(process) ==> process == quiet_process(
            put_line(key@, val@),
            CMD_TIMEOUT_MS,
        ),
        r matches Some(process) ==> process == quiet_process(
            seq!["/system/bin/cmd"@] + seq!["settings"@, "put"@, "system"@, key@, val@],
            5000,
        ),
{
    let args: [&str; 5] = ["settings", "put", "system", key, val];
    assert(slices(args@) == seq!["settings"@, "put"@, "system"@, key@, val@]);
    run_cmd(&args)
}

/// Reading and setting go to the same key of the same table, and what is set is the value as it is
/// given.
pub proof fn law_same_key_read_and_set(key: Seq<char>, val: Seq<char>)
    ensures
        get_line(key).len() == 5,
        put_line(key, val).len() == 6,
        get_line(key)[0] == "/system/bin/cmd"@,
        get_line(key)[1] == "settings"@,
        get_line(key)[2] == "get"@,
        put_line(key, val)[2] == "put"@,
        get_line(key)[3] == "system"@,
        get_line(key)[4] == key,
        put_line(key, val)[5] == val,
        forall|i: int| 0 <= i < 5 && i != 2 ==> #[trigger] get_line(key)[i] == put_line(key, val)[i],
        MIN_RATE@ == "min_refresh_rate"@,
        PEAK_RATE@ == "peak_refresh_rate"@,
{
}

} // verus!
