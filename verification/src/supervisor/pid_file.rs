//! What the PID file holds.

use crate::numeral::{
    decimal, law_numeral_round_trip, law_shortest_numeral, lemma_trimmed_numeral, parse_i32,
    parsed, signed_decimal, signed_decimal_text, IntError,
};
use crate::text::{law_trim_leaves_the_core, trim, trimmed, whitespace};
use vstd::prelude::*;

verus! {

/// The process that the text of a PID file names, or why it names none.
pub open spec fn named_in(text: Seq<char>) -> Result<int, IntError> {
    parsed(trimmed(text), i32::MIN as int, i32::MAX as int)
}

/// The process that the text of a PID file names, or why it names none.
pub fn read_pid(text: &str) -> (r: Result<i32, IntError>)
    ensures
        match r {
            Ok(pid) => named_in(text@) == Ok::<int, IntError>(pid as int),
            Err(e) => named_in(text@) == Err::<int, IntError>(e),
        },
{
    parse_i32(trim(text))
}

/// The process that the text of a PID file names, where the file could be read and names one.
pub open spec fn pid_named(text: Option<&str>) -> Option<int> {
    match text {
        Some(t) => match named_in(t@) {
            Ok(pid) => Some(pid),
            Err(_) => None,
        },
        None => None,
    }
}

/// The process that the text of a PID file names, where the file could be read and names one.
pub fn pid_in(text: Option<&str>) -> (r: Option<i32>)
    ensures
        match r {
            Some(pid) => pid_named(text) == Some(pid as int),
            None => pid_named(text) is None,
        },
{
    match text {
        Some(t) => match read_pid(t) {
            Ok(pid) => Some(pid),
            Err(_) => None,
        },
        None => None,
    }
}

/// The text of the PID file of a process.
pub fn pid_text(pid: i32) -> (r: String)
    ensures
        r@ == signed_decimal(pid as int),
{
    signed_decimal_text(pid)
}

/// What is written for a process names that process.
pub proof fn law_pid_file_round_trip(pid: i32)
    ensures
        named_in(signed_decimal(pid as int)) == Ok::<int, IntError>(pid as int),
{
    lemma_trimmed_numeral(pid as int);
    law_numeral_round_trip(pid as int, i32::MIN as int, i32::MAX as int);
}

/// A PID file names the process whose number it holds, whatever whitespace stands around it; one
/// that cannot be read, or holds no such number, names none.
pub proof fn law_named_with_whitespace_around(
    before: Seq<char>,
    pid: i32,
    after: Seq<char>,
    text: &str,
)
    requires
        forall|i: int| 0 <= i < before.len() ==> whitespace(#[trigger] before[i]),
        forall|i: int| 0 <= i < after.len() ==> whitespace(#[trigger] after[i]),
    ensures
        named_in(before + signed_decimal(pid as int) + after) == Ok::<int, IntError>(pid as int),
        pid_named(None) is None,
        pid_named(Some(text)) is None <==> parsed(
            trimmed(text@),
            i32::MIN as int,
            i32::MAX as int,
        ) is Err,
        text@ == before + signed_decimal(pid as int) + after ==> pid_named(Some(text)) == Some(
            pid as int,
        ),
{
    let core = signed_decimal(pid as int);
    let n: nat = if pid < 0 { (-pid) as nat } else { pid as nat };
    law_shortest_numeral(n);
    assert('0' <= decimal(n)[0] <= '9');
    assert('0' <= decimal(n)[decimal(n).len() - 1] <= '9');
    assert(core[core.len() - 1] == decimal(n)[decimal(n).len() - 1]);
    law_trim_leaves_the_core(before, core, after);
    law_numeral_round_trip(pid as int, i32::MIN as int, i32::MAX as int);
}

} // verus!
