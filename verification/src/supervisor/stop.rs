//! Stopping the daemon.
//!
//! Spans of time are in nanoseconds.

use crate::numeral::{law_numeral_round_trip, parsed, signed_decimal, IntError};
use crate::supervisor::pid_file::{named_in, read_pid};
use crate::supervisor::start::POLL_MS;
use crate::text::trimmed;
use vstd::prelude::*;

verus! {

/// How long the daemon is waited for: three seconds.
pub const STOP_LIMIT_NS: u128 = 3_000_000_000;

pub const NO_PID_FILE: &'static str = "daemon not running (no PID file)";

pub const STALE_REMOVED: &'static str = "daemon not running (stale PID file removed)";

pub const STOPPED: &'static str = "daemon stopped";

pub const FORCE_REMOVED: &'static str = "daemon stopped (PID file force-removed)";

pub const NOT_STOPPED: &'static str = "warning: daemon did not stop within 3s";

/// What came of a step of stopping the daemon; all but the first with the process that the step
/// was about.
#[derive(Clone, Copy, Debug)]
pub enum StopEvent<'a> {
    /// What was read of the PID file, where it could be read.
    Read(Option<&'a str>),
    /// The process is alive, or not.
    Probed(i32, bool),
    /// So much time went by since the process was told to end.
    Waited(i32, u128),
    /// After a pause, the PID file is there, or not.
    Looked(i32, bool),
    /// After a pause, the process is alive, or not.
    ProbedAgain(i32, bool),
    /// After the last pause, the process is alive, or not.
    ProbedLast(i32, bool),
}

/// A step of stopping the daemon, with the process that it is about.
#[derive(Clone, Copy, Debug)]
pub enum StopStep {
    /// Find out whether the process is alive.
    Probe(i32),
    /// Tell the process to end, then look at the time.
    Terminate(i32),
    /// Pause for this many milliseconds, then look for the PID file.
    Pause(i32, u64),
    /// Find out whether the process is alive.
    ProbeAgain(i32),
    /// Look at the time.
    Wait(i32),
    /// Find out whether the process is alive, for the last time.
    ProbeLast(i32),
    /// Tell this. That is all.
    Tell(&'static str),
    /// Remove the PID file and tell this. That is all.
    RemoveAndTell(&'static str),
    /// The PID file names no process: fail, and tell why.
    Fail(IntError),
}

/// The step of stopping the daemon that follows.
pub open spec fn step_after(event: StopEvent) -> StopStep {
    match event {
        StopEvent::Read(None) => StopStep::Tell(NO_PID_FILE),
        StopEvent::Read(Some(text)) => match named_in(text@) {
            Ok(pid) => StopStep::Probe(pid as i32),
            Err(e) => StopStep::Fail(e),
        },
        StopEvent::Probed(pid, alive) => if alive {
            StopStep::Terminate(pid)
        } else {
            StopStep::RemoveAndTell(STALE_REMOVED)
        },
        StopEvent::Waited(pid, elapsed) => if elapsed < STOP_LIMIT_NS {
            StopStep::Pause(pid, POLL_MS)
        } else {
            StopStep::ProbeLast(pid)
        },
        StopEvent::Looked(pid, there) => if there {
            StopStep::ProbeAgain(pid)
        } else {
            StopStep::Tell(STOPPED)
        },
        StopEvent::ProbedAgain(pid, alive) => if alive {
            StopStep::Wait(pid)
        } else {
            StopStep::RemoveAndTell(STOPPED)
        },
        StopEvent::ProbedLast(_, alive) => if alive {
            StopStep::Tell(NOT_STOPPED)
        } else {
            StopStep::RemoveAndTell(FORCE_REMOVED)
        },
    }
}

/// The step of stopping the daemon that follows.
pub fn cmd_stop(event: StopEvent) -> (r: StopStep)
    ensures
        r == step_after(event),
{
    match event {
        StopEvent::Read(None) => StopStep::Tell(NO_PID_FILE),
        StopEvent::Read(Some(text)) => match read_pid(text) {
            Ok(pid) => StopStep::Probe(pid),
            Err(e) => StopStep::Fail(e),
        },
        StopEvent::Probed(pid, true) => StopStep::Terminate(pid),
        StopEvent::Probed(_, false) => StopStep::RemoveAndTell(STALE_REMOVED),
        StopEvent::Waited(pid, elapsed) => if elapsed < STOP_LIMIT_NS {
            StopStep::Pause(pid, POLL_MS)
        } else {
            StopStep::ProbeLast(pid)
        },
        StopEvent::Looked(pid, true) => StopStep::ProbeAgain(pid),
        StopEvent::Looked(_, false) => StopStep::Tell(STOPPED),
        StopEvent::ProbedAgain(pid, true) => StopStep::Wait(pid),
        StopEvent::ProbedAgain(_, false) => StopStep::RemoveAndTell(STOPPED),
        StopEvent::ProbedLast(_, true) => StopStep::Tell(NOT_STOPPED),
        StopEvent::ProbedLast(_, false) => StopStep::RemoveAndTell(FORCE_REMOVED),
    }
}

/// The process was asked for and is dead.
pub open spec fn found_dead(event: StopEvent) -> bool {
    match event {
        StopEvent::Probed(_, alive) => !alive,
        StopEvent::ProbedAgain(_, alive) => !alive,
        StopEvent::ProbedLast(_, alive) => !alive,
        _ => false,
    }
}

/// The PID file is removed exactly when the process was just found dead, and only a process that
/// was just found alive is told to end.
pub proof fn law_only_the_dead_lose_their_file(event: StopEvent, pid: i32)
    ensures
        step_after(event) is RemoveAndTell <==> found_dead(event),
        step_after(event) == StopStep::Terminate(pid) <==> event == StopEvent::Probed(pid, true),
{
}

/// The event tells what came of the step, for the process that the step is about.
pub open spec fn answers(step: StopStep, event: StopEvent) -> bool {
    match step {
        StopStep::Probe(pid) => event matches StopEvent::Probed(p, _) && p == pid,
        StopStep::Terminate(pid) => event matches StopEvent::Waited(p, _) && p == pid,
        StopStep::Pause(pid, _) => event matches StopEvent::Looked(p, _) && p == pid,
        StopStep::ProbeAgain(pid) => event matches StopEvent::ProbedAgain(p, _) && p == pid,
        StopStep::Wait(pid) => event matches StopEvent::Waited(p, _) && p == pid,
        StopStep::ProbeLast(pid) => event matches StopEvent::ProbedLast(p, _) && p == pid,
        _ => false,
    }
}

/// The process that a step is about, where it is about one.
pub open spec fn process_of(step: StopStep) -> Option<i32> {
    match step {
        StopStep::Probe(pid) => Some(pid),
        StopStep::Terminate(pid) => Some(pid),
        StopStep::Pause(pid, _) => Some(pid),
        StopStep::ProbeAgain(pid) => Some(pid),
        StopStep::Wait(pid) => Some(pid),
        StopStep::ProbeLast(pid) => Some(pid),
        _ => None,
    }
}

/// From reading the PID file on, all steps are about the process that the file names: it is the
/// one that is probed and that is told to end, and it is told so once at most, right after it was
/// found alive.
pub proof fn law_only_the_named_process(text: &str, pid: i32, events: Seq<StopEvent>, i: int)
    requires
        0 <= i < events.len(),
        events[0] == StopEvent::Read(Some(text)),
        named_in(text@) == Ok::<int, IntError>(pid as int),
        forall|k: int|
            0 <= k < events.len() - 1 ==> answers(step_after(#[trigger] events[k]), events[k + 1]),
    ensures
        process_of(step_after(events[i])) matches Some(p) ==> p == pid,
        i == 0 ==> step_after(events[i]) == StopStep::Probe(pid),
        step_after(events[i]) is Terminate <==> i == 1 && events[i] == StopEvent::Probed(pid, true),
        i > 0 ==> step_after(events[i]) !is Probe,
    decreases i,
{
    if i > 0 {
        law_only_the_named_process(text, pid, events, i - 1);
        assert(answers(step_after(events[i - 1]), events[i - 1 + 1]));
    }
}

/// What is found in one round of waiting: the time that went by, and, after a pause, whether the
/// PID file is there and whether the process is alive.
pub struct Round {
    pub elapsed: u128,
    pub there: bool,
    pub alive: bool,
}

/// What waiting for a process comes to, of what is found in each round and whether the process is
/// alive at last.
pub open spec fn waiting(pid: i32, rounds: Seq<Round>, at_last: bool) -> StopStep
    decreases rounds.len(),
{
    if rounds.len() == 0 {
        StopStep::Wait(pid)
    } else {
        match step_after(StopEvent::Waited(pid, rounds[0].elapsed)) {
            StopStep::Pause(p, _) => match step_after(StopEvent::Looked(p, rounds[0].there)) {
                StopStep::ProbeAgain(q) => match step_after(
                    StopEvent::ProbedAgain(q, rounds[0].alive),
                ) {
                    StopStep::Wait(w) => waiting(w, rounds.drop_first(), at_last),
                    step => step,
                },
                step => step,
            },
            StopStep::ProbeLast(p) => step_after(StopEvent::ProbedLast(p, at_last)),
            step => step,
        }
    }
}

/// A round in which the daemon is still there.
pub open spec fn stays(round: Round) -> bool {
    round.there && round.alive
}

/// Waiting for the daemon comes to an end once three seconds went by. If the daemon was still
/// there in every round, a warning is told, and the PID file stays, where it lives on; where it
/// does not, the PID file is removed.
pub proof fn law_waiting_ends(pid: i32, rounds: Seq<Round>, at_last: bool)
    requires
        rounds.len() > 0,
        rounds.last().elapsed >= STOP_LIMIT_NS,
    ensures
        waiting(pid, rounds, at_last) is Tell || waiting(pid, rounds, at_last) is RemoveAndTell,
        (forall|i: int| 0 <= i < rounds.len() ==> stays(#[trigger] rounds[i])) ==> waiting(
            pid,
            rounds,
            at_last,
        ) == step_after(StopEvent::ProbedLast(pid, at_last)),
    decreases rounds.len(),
{
    let first = rounds[0];
    if first.elapsed < STOP_LIMIT_NS && stays(first) {
        let rest = rounds.drop_first();
        assert(rest.last() == rounds.last());
        law_waiting_ends(pid, rest, at_last);
        if forall|i: int| 0 <= i < rounds.len() ==> stays(#[trigger] rounds[i]) {
            assert forall|i: int| 0 <= i < rest.len() implies stays(#[trigger] rest[i]) by {
                assert(stays(rounds[i + 1]));
            }
        }
    }
}

/// The daemon counts as stopped in the first round in which its PID file or the process itself is
/// gone, if that comes within three seconds; the file is removed where it is still there.
pub proof fn law_stopped_when_gone(pid: i32, rounds: Seq<Round>, at_last: bool, n: int)
    requires
        0 <= n < rounds.len(),
        forall|i: int| 0 <= i <= n ==> (#[trigger] rounds[i]).elapsed < STOP_LIMIT_NS,
        forall|i: int| 0 <= i < n ==> stays(#[trigger] rounds[i]),
        !stays(rounds[n]),
    ensures
        waiting(pid, rounds, at_last) == if rounds[n].there {
            StopStep::RemoveAndTell(STOPPED)
        } else {
            StopStep::Tell(STOPPED)
        },
    decreases n,
{
    if n > 0 {
        let rest = rounds.drop_first();
        assert(stays(rounds[0]));
        assert(rounds[0].elapsed < STOP_LIMIT_NS);
        assert forall|i: int| 0 <= i <= n - 1 implies (#[trigger] rest[i]).elapsed < STOP_LIMIT_NS by {
            assert(rest[i] == rounds[i + 1]);
        }
        assert forall|i: int| 0 <= i < n - 1 implies stays(#[trigger] rest[i]) by {
            assert(stays(rounds[i + 1]));
        }
        law_stopped_when_gone(pid, rest, at_last, n - 1);
    } else {
        assert(rounds[0].elapsed < STOP_LIMIT_NS);
    }
}

/// What each step of stopping leads to: the process that the file names is looked for; once told to
/// end, it is looked at every tenth of a second for three seconds, and a last time after that.
pub proof fn law_steps_of_stopping(pid: i32, elapsed: u128, yes: bool)
    ensures
        step_after(StopEvent::Waited(pid, elapsed)) == StopStep::Pause(pid, 100) <==> elapsed
            < 3_000_000_000,
        step_after(StopEvent::Waited(pid, elapsed)) == StopStep::ProbeLast(pid) <==> elapsed
            >= 3_000_000_000,
        step_after(StopEvent::Probed(pid, yes)) == StopStep::Terminate(pid) <==> yes,
        step_after(StopEvent::Looked(pid, yes)) == StopStep::ProbeAgain(pid) <==> yes,
        step_after(StopEvent::ProbedAgain(pid, yes)) == StopStep::Wait(pid) <==> yes,
        step_after(StopEvent::ProbedLast(pid, yes)) is Tell <==> yes,
{
}

/// Stopping fails exactly when the file was read and names no process, and ends at once where there
/// is no file.
pub proof fn law_stopping_by_the_file(text: &str, pid: i32)
    ensures
        step_after(StopEvent::Read(Some(text))) is Fail <==> parsed(
            trimmed(text@),
            i32::MIN as int,
            i32::MAX as int,
        ) is Err,
        trimmed(text@) == signed_decimal(pid as int) ==> step_after(StopEvent::Read(Some(text)))
            == StopStep::Probe(pid),
        step_after(StopEvent::Read(None)) is Tell,
{
    law_numeral_round_trip(pid as int, i32::MIN as int, i32::MAX as int);
}

} // verus!
