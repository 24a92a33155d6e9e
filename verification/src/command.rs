//! Commands of the system's `cmd` tool: their argument vectors, how they are run, what is read of
//! their output.

use crate::lossy::{decode_lossy, read_text};
use crate::text::{texts, trim, trimmed};
use coreshift_core::spawn::{SpawnBackend, SpawnOptions};
use coreshift_core::CoreError;
use vstd::prelude::*;

verus! {

pub const CMD: &'static str = "/system/bin/cmd";

/// How long a command may take.
pub const CMD_TIMEOUT_MS: u32 = 5000;

/// A prepared process of `coreshift_core`.
#[verifier::external_type_specification]
#[verifier::external_body]
pub struct ExSpawnOptions(SpawnOptions);

/// The error of `coreshift_core`.
#[verifier::external_type_specification]
#[verifier::external_body]
pub struct ExCoreError(CoreError);

/// The process, prepared by `posix_spawn`, that runs `argv` within `timeout_ms` and keeps what
/// it prints.
pub uninterp spec fn capturing_process(argv: Seq<Seq<char>>, timeout_ms: u32) -> SpawnOptions;

/// The process, prepared by `posix_spawn`, that runs `argv` within `timeout_ms`.
pub uninterp spec fn quiet_process(argv: Seq<Seq<char>>, timeout_ms: u32) -> SpawnOptions;

/// A process can be given these arguments: there is one, and none holds a NUL.
pub open spec fn spawnable(argv: Seq<Seq<char>>) -> bool {
    argv.len() > 0 && forall|i: int, j: int|
        0 <= i < argv.len() && 0 <= j < argv[i].len() ==> #[trigger] argv[i][j] != '\0'
}

/// Builds a process with `SpawnOptions::builder`, `capture_stdout`, `timeout_ms` and `build` of
/// `coreshift_core`. Building fails exactly when the argument vector is empty or an argument
/// holds a NUL; what is built depends on the arguments and the time alone and is given the name
/// `capturing_process`.
#[verifier::external_body]
fn build_capturing(argv: Vec<String>, timeout_ms: u32) -> (r: Result<SpawnOptions, CoreError>)
    ensures
        r is Ok <==> spawnable(texts(argv@)),
        r matches Ok(process) ==> process == capturing_process(texts(argv@), timeout_ms),
{
    SpawnOptions::builder(argv, SpawnBackend::PosixSpawn).capture_stdout().timeout_ms(
        timeout_ms,
    ).build()
}

/// Builds a process with `SpawnOptions::builder`, `timeout_ms` and `build` of `coreshift_core`.
/// Building fails exactly when the argument vector is empty or an argument holds a NUL; what is
/// built depends on the arguments and the time alone and is given the name `quiet_process`.
#[verifier::external_body]
fn build_quiet(argv: Vec<String>, timeout_ms: u32) -> (r: Result<SpawnOptions, CoreError>)
    ensures
        r is Ok <==> spawnable(texts(argv@)),
        r matches Ok(process) ==> process == quiet_process(texts(argv@), timeout_ms),
{
    SpawnOptions::builder(argv, SpawnBackend::PosixSpawn).timeout_ms(timeout_ms).build()
}

/// The argument vector of a `cmd` command.
pub open spec fn cmd_line(args: Seq<Seq<char>>) -> Seq<Seq<char>> {
    seq![CMD@] + args
}

/// The texts that a list of string slices holds.
pub open spec fn slices(list: Seq<&str>) -> Seq<Seq<char>> {
    list.map_values(|t: &str| t@)
}

/// The argument vector that runs `cmd` with `args`.
pub fn cmd_argv(args: &[&str]) -> (r: Vec<String>)
    ensures
        texts(r@) == cmd_line(slices(args@)),
{
    let mut argv: Vec<String> = Vec::new();
    argv.push(CMD.to_string());
    let mut i: usize = 0;
    let ghost all = slices(args@);
    assert(texts(argv@) == cmd_line(all.take(0)));
    while i < args.len()
        invariant
            i <= args.len(),
            all == slices(args@),
            texts(argv@) == cmd_line(all.take(i as int)),
        decreases args.len() - i,
    {
        let ghost before = argv@;
        argv.push(args[i].to_string());
        proof {
            assert(texts(argv@) == texts(before).push(all[i as int]));
            assert(all.take(i + 1) == all.take(i as int).push(all[i as int]));
        }
        i += 1;
    }
    assert(all.take(i as int) == all);
    argv
}

/// The process that runs `cmd` with `args` and keeps what it prints, where it can be built.
pub fn run_cmd_output(args: &[&str]) -> (r: Option<SpawnOptions>)
    ensures
        r is Some <==> spawnable(cmd_line(slices(args@))),
        r matches Some(process) ==> process == capturing_process(
            cmd_line(slices(args@)),
            CMD_TIMEOUT_MS,
        ),
        r matches Some(process) ==> process == capturing_process(
            seq!["/system/bin/cmd"@] + slices(args@),
            5000,
        ),
{
    match build_capturing(cmd_argv(args), CMD_TIMEOUT_MS) {
        Ok(process) => Some(process),
        Err(_) => None,
    }
}

/// The process that runs `cmd` with `args`, where it can be built.
pub fn run_cmd(args: &[&str]) -> (r: Option<SpawnOptions>)
    ensures
        r is Some <==> spawnable(cmd_line(slices(args@))),
        r matches Some(process) ==> process == quiet_process(
            cmd_line(slices(args@)),
            CMD_TIMEOUT_MS,
        ),
        r matches Some(process) ==> process == quiet_process(
            seq!["/system/bin/cmd"@] + slices(args@),
            5000,
        ),
{
    match build_quiet(cmd_argv(args), CMD_TIMEOUT_MS) {
        Ok(process) => Some(process),
        Err(_) => None,
    }
}

/// What is read of the bytes that a command printed: their text without the whitespace around it.
pub fn captured_text(stdout: &[u8]) -> (r: String)
    ensures
        r@ == trimmed(read_text(stdout@)),
{
    let all: String = decode_lossy(stdout);
    trim(all.as_str()).to_string()
}

/// A command is the tool and then its arguments, as they are given.
pub proof fn law_the_tool_comes_first(args: Seq<Seq<char>>)
    ensures
        cmd_line(args).len() == args.len() + 1,
        cmd_line(args)[0] == "/system/bin/cmd"@,
        cmd_line(args).skip(1) == args,
{
}

/// The texts of slices are theirs, one for one.
pub proof fn law_slices_one_for_one(list: Seq<&str>)
    ensures
        slices(list).len() == list.len(),
        forall|i: int| 0 <= i < list.len() ==> #[trigger] slices(list)[i] == list[i]@,
{
}

/// A process can be given arguments exactly where there is one and none holds a NUL: one more
/// argument spoils it exactly when it holds one.
pub proof fn law_no_nul_in_arguments(argv: Seq<Seq<char>>, more: Seq<char>)
    ensures
        !spawnable(Seq::<Seq<char>>::empty()),
        spawnable(seq![more]) <==> !more.contains('\0'),
        argv.len() > 0 ==> (spawnable(argv.push(more)) <==> spawnable(argv) && !more.contains(
            '\0',
        )),
{
    let one = seq![more];
    assert(one[0] == more);
    let grown = argv.push(more);
    assert(grown[argv.len() as int] == more);
    if more.contains('\0') {
        let j = choose|j: int| 0 <= j < more.len() && more[j] == '\0';
        assert(one[0][j] == '\0');
        assert(grown[argv.len() as int][j] == '\0');
    } else {
        assert forall|j: int| 0 <= j < more.len() implies more[j] != '\0' by {
            assert(more.contains(more[j]));
        }
        assert forall|i: int, j: int| 0 <= i < one.len() && 0 <= j < one[i].len() implies
            #[trigger] one[i][j] != '\0' by {
            assert(one[i] == more);
        }
    }
    if spawnable(grown) && argv.len() > 0 {
        assert forall|i: int, j: int| 0 <= i < argv.len() && 0 <= j < argv[i].len() implies
            #[trigger] argv[i][j] != '\0' by {
            assert(grown[i] == argv[i]);
            assert(grown[i][j] != '\0');
        }
    }
    if spawnable(argv) && !more.contains('\0') {
        assert forall|i: int, j: int| 0 <= i < grown.len() && 0 <= j < grown[i].len() implies
            #[trigger] grown[i][j] != '\0' by {
            if i < argv.len() {
                assert(grown[i] == argv[i]);
                assert(argv[i][j] != '\0');
            } else {
                assert(grown[i] == more);
            }
        }
    }
}

} // verus!
