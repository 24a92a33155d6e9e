use coreshift_core::reactor::{Fd, Reactor};
use utensil::numeral::IntError;
use utensil::readiness::Readiness;
use utensil::supervisor::command_line::{command, error_line, is_signal, print_usage, Command};
use utensil::supervisor::crashes::{Crashes, Next};
use utensil::supervisor::pid_file::{pid_in, pid_text, read_pid};
use utensil::supervisor::start::{
    restart_wait, running_line, start_wait, startup, StartWait, Startup,
};
use utensil::supervisor::status::{cmd_status, daemon_line, prop_line};
use utensil::supervisor::stop::{cmd_stop, StopEvent, StopStep};

const SECOND: u128 = 1_000_000_000;

fn words(list: &[&str]) -> Vec<String> {
    list.iter().map(|s| s.to_string()).collect()
}

#[test]
fn commands_by_name() {
    assert_eq!(command(&words(&["corepolicy", "daemon"])), Command::Daemon);
    assert_eq!(command(&words(&["corepolicy", "stop", "x"])), Command::Stop);
    assert_eq!(command(&words(&["corepolicy", "restart"])), Command::Restart);
    assert_eq!(command(&words(&["corepolicy", "status"])), Command::Status);
    assert_eq!(command(&words(&["corepolicy", "Status"])), Command::Usage);
    assert_eq!(command(&words(&["corepolicy"])), Command::Usage);
    assert_eq!(command(&words(&[])), Command::Usage);
}

#[test]
fn usage_text() {
    assert_eq!(
        print_usage(),
        vec![
            "Usage: corepolicy <command>",
            "Commands:",
            "  daemon   Start the policy daemon (supervised, detached)",
            "  stop     Stop the running daemon",
            "  restart  Stop then start the daemon",
            "  status   Show daemon state and property snapshot",
        ]
    );
    assert_eq!(error_line("x"), "error: x");
}

#[test]
fn the_signal_is_told_by_its_handle() {
    let mut reactor = Reactor::new().unwrap();
    let a = Fd::eventfd(0).unwrap();
    let b = Fd::eventfd(0).unwrap();
    let signal = reactor.add(&a, true, false).unwrap();
    let other = reactor.add(&b, true, false).unwrap();
    let event = Readiness { token: signal, readable: true, error: false, hangup: false };
    assert!(is_signal(&event, signal));
    assert!(!is_signal(&event, other));
}

#[test]
fn pid_file_round_trips() {
    for pid in [1, 4321, i32::MAX, -7] {
        assert_eq!(pid_text(pid), pid.to_string());
        assert_eq!(read_pid(&pid_text(pid)), Ok(pid));
        assert_eq!(pid_in(Some(&format!(" {pid}\n"))), Some(pid));
    }
    assert_eq!(pid_in(Some("12 34")), None);
    assert_eq!(pid_in(None), None);
    assert_eq!(read_pid(" \n"), Err(IntError::Empty));
}

#[test]
fn starting_looks_at_the_pid_file() {
    assert_eq!(startup(true, Some("42\n"), true), Startup::Running(42));
    assert_eq!(startup(true, Some("42"), false), Startup::Start { remove: true });
    assert_eq!(startup(true, Some("x"), true), Startup::Start { remove: true });
    assert_eq!(startup(true, None, true), Startup::Start { remove: true });
    assert_eq!(startup(false, None, false), Startup::Start { remove: false });
    assert_eq!(running_line(42), "daemon already running (pid 42)");
}

#[test]
fn a_start_is_waited_for() {
    assert_eq!(start_wait(true, 20 * SECOND), StartWait::Started);
    assert_eq!(start_wait(false, 10 * SECOND), StartWait::Pause(100));
    assert_eq!(start_wait(false, 10 * SECOND + 1), StartWait::TimedOut);
    assert_eq!(restart_wait(true, 0), Some(100));
    assert_eq!(restart_wait(true, 3 * SECOND), None);
    assert_eq!(restart_wait(false, 0), None);
}

#[test]
fn five_crashes_in_ten_seconds_end_the_supervisor() {
    let mut crashes = Crashes::new(0);
    assert_eq!(crashes.ended(Some(1), SECOND), Next::Restart(500));
    assert_eq!(crashes.ended(None, 2 * SECOND), Next::Restart(1000));
    assert_eq!(crashes.ended(Some(139), 3 * SECOND), Next::Restart(1500));
    assert_eq!(crashes.ended(None, 4 * SECOND), Next::Restart(2000));
    assert_eq!(crashes.ended(Some(1), 10 * SECOND), Next::Leave(1));
}

#[test]
fn a_late_crash_starts_the_count_again() {
    let mut crashes = Crashes::new(0);
    for _ in 0..4 {
        crashes.ended(None, 10 * SECOND);
    }
    assert_eq!(crashes.ended(None, 10 * SECOND + 1), Next::Restart(500));
    assert_eq!(crashes, Crashes { count: 1, window: 10 * SECOND + 1 });
    assert_eq!(crashes.ended(None, 20 * SECOND + 1), Next::Restart(1000));
    assert_eq!(crashes.ended(None, 20 * SECOND + 2), Next::Restart(500));
}

#[test]
fn a_clean_end_ends_the_supervisor() {
    let mut crashes = Crashes::new(0);
    crashes.ended(None, 1);
    assert_eq!(crashes.ended(Some(0), 100 * SECOND), Next::Leave(0));
    assert_eq!(crashes, Crashes { count: 1, window: 0 });
}

fn stop(event: StopEvent) -> StopStep {
    cmd_stop(event)
}

#[test]
fn stopping_step_by_step() {
    assert!(matches!(
        stop(StopEvent::Read(None)),
        StopStep::Tell("daemon not running (no PID file)")
    ));
    assert!(matches!(stop(StopEvent::Read(Some(" 42\n"))), StopStep::Probe(42)));
    assert!(matches!(
        stop(StopEvent::Read(Some("x"))),
        StopStep::Fail(IntError::InvalidDigit)
    ));
    assert!(matches!(stop(StopEvent::Read(Some(""))), StopStep::Fail(IntError::Empty)));
    assert!(matches!(
        stop(StopEvent::Probed(42, false)),
        StopStep::RemoveAndTell("daemon not running (stale PID file removed)")
    ));
    assert!(matches!(stop(StopEvent::Probed(42, true)), StopStep::Terminate(42)));
    assert!(matches!(stop(StopEvent::Waited(42, 0)), StopStep::Pause(42, 100)));
    assert!(matches!(stop(StopEvent::Waited(42, 3 * SECOND - 1)), StopStep::Pause(42, 100)));
    assert!(matches!(stop(StopEvent::Waited(42, 3 * SECOND)), StopStep::ProbeLast(42)));
    assert!(matches!(stop(StopEvent::Looked(42, false)), StopStep::Tell("daemon stopped")));
    assert!(matches!(stop(StopEvent::Looked(42, true)), StopStep::ProbeAgain(42)));
    assert!(matches!(
        stop(StopEvent::ProbedAgain(42, false)),
        StopStep::RemoveAndTell("daemon stopped")
    ));
    assert!(matches!(stop(StopEvent::ProbedAgain(42, true)), StopStep::Wait(42)));
    assert!(matches!(
        stop(StopEvent::ProbedLast(42, false)),
        StopStep::RemoveAndTell("daemon stopped (PID file force-removed)")
    ));
    assert!(matches!(
        stop(StopEvent::ProbedLast(42, true)),
        StopStep::Tell("warning: daemon did not stop within 3s")
    ));
}

#[test]
fn waiting_for_a_daemon_that_stays_ends_in_a_warning() {
    let mut elapsed = 0;
    let mut step = stop(StopEvent::Waited(42, elapsed));
    let mut pauses = 0;
    let told = loop {
        step = match step {
            StopStep::Pause(42, ms) => {
                pauses += 1;
                elapsed += ms as u128 * 1_000_000;
                stop(StopEvent::Looked(42, true))
            }
            StopStep::ProbeAgain(42) => stop(StopEvent::ProbedAgain(42, true)),
            StopStep::Wait(42) => stop(StopEvent::Waited(42, elapsed)),
            StopStep::ProbeLast(42) => stop(StopEvent::ProbedLast(42, true)),
            StopStep::Tell(text) => break text,
            other => panic!("{other:?}"),
        };
    };
    assert_eq!(told, "warning: daemon did not stop within 3s");
    assert_eq!(pauses, 30);
}

#[test]
fn status_of_the_daemon() {
    assert_eq!(daemon_line(false, None, false).unwrap(), "daemon: not running");
    assert_eq!(daemon_line(true, Some("42\n"), true).unwrap(), "daemon: running (pid 42)");
    assert_eq!(daemon_line(true, Some("42"), false).unwrap(), "daemon: stale (pid 42)");
    assert_eq!(daemon_line(true, Some(" x "), true).unwrap(), "daemon: stale (pid x)");
    assert_eq!(daemon_line(true, None, true), None);
    assert_eq!(prop_line("idle_state", None), "idle_state=-");
}

#[test]
fn status_of_everything() {
    assert_eq!(
        cmd_status(true, Some("7"), true, Some("2"), None, Some("1"), Some("12")),
        vec![
            "daemon: running (pid 7)",
            "screen_state=2",
            "idle_state=-",
            "charge_state=1",
            "watchdog_tick=12",
        ]
    );
    assert_eq!(
        cmd_status(true, None, false, None, None, None, None),
        vec!["screen_state=-", "idle_state=-", "charge_state=-", "watchdog_tick=-"]
    );
}
