use coreshift_core::reactor::{Fd, Reactor, Token};
use utensil::command::{captured_text, cmd_argv, run_cmd, run_cmd_output};
use utensil::readiness::Readiness;
use utensil::refresh::cli::{cli_next, handle_cli, report, CliPlan, CliStep};
use utensil::refresh::config::{idle_seconds, load_config, parse_devices, Config};
use utensil::refresh::daemon::{Apply, Daemon, DisplayCtx, Mode, Step};
use utensil::refresh::inputs::{drain_input, Drain, Inputs, Reaction, Record, Round, Wake};
use utensil::refresh::props::{watched_props, FIND_RETRY_MS, WAIT_PAUSE_MS};
use utensil::refresh::rate::{dynamic_enabled, rate_gt, rate_int, same_rate, valid_rate};
use utensil::refresh::settings::{rate_setting_command, read_rate_setting, set_rate};
use utensil::refresh::status::{print_status, Observed};

fn tokens(n: usize) -> Vec<Token> {
    let mut reactor = Reactor::new().unwrap();
    let mut fds = Vec::new();
    let mut list = Vec::new();
    for _ in 0..n {
        let fd = Fd::eventfd(0).unwrap();
        list.push(reactor.add(&fd, true, false).unwrap());
        fds.push(fd);
    }
    list
}

fn words(list: &[&str]) -> Vec<String> {
    list.iter().map(|s| s.to_string()).collect()
}

fn config() -> Config {
    load_config(None, None, None, None)
}

#[test]
fn switch_values() {
    for v in ["1", "true", "TRUE", "yes", "YES", "on", "ON"] {
        assert!(dynamic_enabled(v), "{v}");
    }
    for v in ["", "0", "True", "off", " 1", "11"] {
        assert!(!dynamic_enabled(v), "{v}");
    }
}

#[test]
fn rates_are_digits_and_dots() {
    assert!(valid_rate("60"));
    assert!(valid_rate("59.94"));
    assert!(valid_rate("."));
    assert!(!valid_rate(""));
    assert!(!valid_rate("60Hz"));
    assert!(!valid_rate("-60"));
    assert!(!valid_rate("٣"));
}

#[test]
fn rates_compare_by_whole_hertz() {
    assert_eq!(rate_int("59.94"), Some(59));
    assert_eq!(rate_int("-5.5"), Some(-5));
    assert_eq!(rate_int("+5"), Some(5));
    assert_eq!(rate_int(".5"), None);
    assert_eq!(rate_int(""), None);
    assert_eq!(rate_int("9223372036854775808"), None);
    assert!(rate_gt("120", "60"));
    assert!(!rate_gt("60.9", "60.1"));
    assert!(!rate_gt("120", "null"));
    assert!(same_rate("60", "60.0"));
    assert!(!same_rate("60", "61"));
    assert!(!same_rate("null", "null"));
    assert!(rate_gt("144", "120") && rate_gt("120", "60") && rate_gt("144", "60"));
}

#[test]
fn device_lists() {
    assert_eq!(parse_devices("/dev/a, /dev/b\t/dev/c,,"), vec!["/dev/a", "/dev/b", "/dev/c"]);
    assert!(parse_devices(" , ").is_empty());
    assert!(parse_devices("").is_empty());
    assert_eq!(parse_devices("a\u{a0}b\u{b}c"), vec!["a\u{a0}b\u{b}c"]);
    let names = words(&["/dev/input/event1", "/dev/input/event2"]);
    assert_eq!(parse_devices(&names.join(" ")), names);
}

#[test]
fn defaults_of_the_configuration() {
    let c = config();
    assert_eq!(c.idle_ms, 5000);
    assert_eq!(c.default_low, "60");
    assert_eq!(c.default_high, "120");
    assert_eq!(c.input_devices, vec!["/dev/input/event2"]);
}

#[test]
fn configuration_from_the_environment() {
    let c = load_config(Some("12"), Some("48"), Some("90.0"), Some("a,b"));
    assert_eq!(c.idle_ms, 12000);
    assert_eq!(c.default_low, "48");
    assert_eq!(c.default_high, "90.0");
    assert_eq!(c.input_devices, vec!["a", "b"]);
    let c = load_config(Some("0"), Some("x"), Some(""), Some(""));
    assert_eq!(c.idle_ms, 5000);
    assert_eq!(c.default_low, "60");
    assert_eq!(c.default_high, "120");
    assert!(c.input_devices.is_empty());
    assert_eq!(idle_seconds(Some(" 7")), 5);
    assert_eq!(idle_seconds(Some("18446744073709551616")), 5);
    assert_eq!(idle_seconds(Some("18446744073709551615")), u64::MAX);
}

#[test]
fn display_falls_back_to_a_fixed_code() {
    assert_eq!(DisplayCtx::open(Some(7), true), Some(DisplayCtx { code: 7 }));
    assert_eq!(DisplayCtx::open(None, true), Some(DisplayCtx { code: 51 }));
    assert_eq!(DisplayCtx::open(Some(7), false), None);
}

#[test]
fn rates_are_loaded_from_properties() {
    let mut d = Daemon::new(config(), None);
    assert_eq!(d.mode, Mode::Unknown);
    assert!(d.load_rates("", "junk"));
    assert_eq!((d.low_rate.as_str(), d.high_rate.as_str()), ("60", "120"));
    assert!(d.load_rates("48.0", "90"));
    assert_eq!((d.low_rate.as_str(), d.high_rate.as_str()), ("48.0", "90"));
    assert!(!d.load_rates("90", "90.5"));
    assert_eq!((d.low_rate.as_str(), d.high_rate.as_str()), ("48.0", "90"));
    assert!(!d.load_rates("..", "90"));
}

fn run(d: &mut Daemon, mut apply: Apply, min: &str, peak: &str, min_ok: bool, peak_ok: bool) -> Vec<Step> {
    let mut steps = Vec::new();
    loop {
        steps.push(apply.step);
        apply = match apply.step {
            Step::ReadMin => d.setting_read(apply, min),
            Step::ReadPeak => d.setting_read(apply, peak),
            Step::WriteMin => d.setting_written(apply, min_ok),
            Step::WritePeak => d.setting_written(apply, peak_ok),
            Step::Switch(_, _) => d.switched(apply),
            Step::Done(_) => return steps,
        };
    }
}

#[test]
fn a_mode_is_written_and_then_only_looked_at() {
    let mut d = Daemon::new(config(), Some(DisplayCtx { code: 51 }));
    let apply = d.set_high("", "");
    assert_eq!(
        run(&mut d, apply, "", "", true, true),
        vec![Step::WriteMin, Step::WritePeak, Step::Switch(51, 2), Step::Done(true)]
    );
    assert_eq!(d.mode, Mode::High);
    assert_eq!(d.min_rate(), "60");
    assert_eq!(d.peak_rate(Mode::High), "120");
    assert_eq!(d.peak_rate(Mode::Low), "60");
    let apply = d.set_high("", "");
    assert_eq!(
        run(&mut d, apply, "60.0", "120.0", true, true),
        vec![Step::ReadMin, Step::ReadPeak, Step::Done(true)]
    );
    let apply = d.set_high("", "");
    assert_eq!(
        run(&mut d, apply, "60.0", "60", true, true),
        vec![
            Step::ReadMin,
            Step::ReadPeak,
            Step::WriteMin,
            Step::WritePeak,
            Step::Switch(51, 2),
            Step::Done(true)
        ]
    );
    let apply = d.set_low("", "");
    assert_eq!(
        run(&mut d, apply, "", "", true, true),
        vec![Step::WriteMin, Step::WritePeak, Step::Switch(51, 0), Step::Done(true)]
    );
    assert_eq!(d.mode, Mode::Low);
}

#[test]
fn a_mode_that_cannot_be_written_is_not_in_force() {
    let mut d = Daemon::new(config(), None);
    let apply = d.set_low("", "");
    assert_eq!(run(&mut d, apply, "", "", false, true), vec![Step::WriteMin, Step::Done(false)]);
    let apply = d.set_low("", "");
    assert_eq!(
        run(&mut d, apply, "", "", true, false),
        vec![Step::WriteMin, Step::WritePeak, Step::Done(false)]
    );
    assert_eq!(d.mode, Mode::Unknown);
    let apply = d.set_low("", "");
    assert_eq!(
        run(&mut d, apply, "", "", true, true),
        vec![Step::WriteMin, Step::WritePeak, Step::Done(true)]
    );
    assert_eq!(d.mode, Mode::Low);
    let apply = d.set_low("120", "60");
    assert_eq!(run(&mut d, apply, "", "", true, true), vec![Step::Done(false)]);
    let apply = d.apply_mode(Mode::Unknown, "", "");
    assert_eq!(run(&mut d, apply, "", "", true, true), vec![Step::Done(false)]);
    assert_eq!(d.mode, Mode::Low);
}

#[test]
fn modes_to_apply() {
    let mut d = Daemon::new(config(), None);
    assert_eq!(d.on_start(true), Some(Mode::Low));
    assert_eq!(d.on_start(false), None);
    assert_eq!(d.on_idle(), None);
    assert_eq!(d.on_input(true, true), Some((Mode::High, 5000)));
    assert_eq!(d.on_input(true, false), None);
    assert_eq!(d.on_input(false, true), None);
    assert_eq!(d.on_prop_change(true), Some(Mode::Low));
    assert_eq!(d.on_prop_change(false), None);
    let apply = d.set_high("", "");
    run(&mut d, apply, "", "", true, true);
    assert_eq!(d.on_idle(), Some(Mode::Low));
    assert_eq!(d.on_prop_change(true), Some(Mode::High));
    assert_eq!(d.mode, Mode::Unknown);
    let apply = d.apply_mode(Mode::High, "", "");
    assert_eq!(apply.step, Step::WriteMin);
}

fn record(type_: u16, code: u16) -> Record {
    let mut bytes = vec![1u8; 24];
    bytes[16..18].copy_from_slice(&type_.to_ne_bytes());
    bytes[18..20].copy_from_slice(&code.to_ne_bytes());
    Record::Bytes(bytes)
}

#[test]
fn a_drain_sees_reports() {
    assert!(drain_input(&vec![record(3, 53), record(0, 0), Record::Drained]));
    assert!(!drain_input(&vec![record(3, 53), record(0, 1), record(256, 0), Record::Drained]));
    assert!(!drain_input(&vec![record(3, 53), Record::Drained, record(0, 0)]));
    assert!(!drain_input(&vec![Record::Bytes(vec![0; 23]), record(0, 0)]));
    assert!(!drain_input(&vec![Record::Failed, record(0, 0)]));
    assert!(!drain_input(&vec![]));
    let mut drain = Drain::new();
    drain.feed(&record(0, 0));
    assert_eq!(drain, Drain { saw: true, more: true });
    drain.feed(&Record::Drained);
    assert_eq!(drain, Drain { saw: true, more: false });
}

#[test]
fn events_of_inputs() {
    let t = tokens(5);
    let mut inputs =
        Inputs::new(t[0], t[1], words(&["a", "b", "c"]), &vec![Some(t[2]), None, Some(t[3])]);
    assert!(inputs.needs_reopen());
    let event =
        |token, readable, error, hangup| Readiness { token, readable, error, hangup };
    assert_eq!(inputs.on_event(&event(t[0], true, true, true)), Reaction::Property);
    assert_eq!(inputs.on_event(&event(t[1], true, true, true)), Reaction::Idle);
    assert_eq!(inputs.on_event(&event(t[2], true, false, false)), Reaction::Read(0));
    assert_eq!(inputs.on_event(&event(t[3], true, false, false)), Reaction::Read(2));
    assert_eq!(inputs.on_event(&event(t[3], false, false, false)), Reaction::Nothing);
    assert_eq!(inputs.on_event(&event(t[4], true, true, true)), Reaction::Nothing);
    assert_eq!(inputs.on_event(&event(t[2], true, false, true)), Reaction::Lost(0));
    assert_eq!(inputs.on_event(&event(t[2], true, false, false)), Reaction::Nothing);
    assert_eq!(inputs.on_event(&event(t[3], true, true, false)), Reaction::Lost(2));
    assert!(inputs.watched.is_empty());
}

fn ready(token: Token) -> Readiness {
    Readiness { token, readable: true, error: false, hangup: false }
}

fn hung_up(token: Token) -> Readiness {
    Readiness { token, readable: false, error: false, hangup: true }
}

#[test]
fn devices_are_opened_again() {
    let t = tokens(6);
    let mut inputs = Inputs::new(t[0], t[1], words(&["a", "b"]), &vec![Some(t[2]), Some(t[3])]);
    assert!(!inputs.needs_reopen());
    assert!(!inputs.is_missing("a"));
    assert_eq!(inputs.on_event(&hung_up(t[2])), Reaction::Lost(0));
    assert!(inputs.needs_reopen());
    assert!(inputs.is_missing("a"));
    assert!(!inputs.is_missing("b"));
    assert_eq!(inputs.enroll("a".to_string(), t[4]), 0);
    assert!(!inputs.is_missing("a"));
    assert!(!inputs.needs_reopen());
    assert_eq!(inputs.paths, vec!["a", "b"]);
    assert_eq!(inputs.on_event(&ready(t[4])), Reaction::Read(0));
    assert_eq!(inputs.on_event(&ready(t[3])), Reaction::Read(1));
    assert_eq!(inputs.on_event(&ready(t[2])), Reaction::Nothing);
    assert_eq!(inputs.on_event(&hung_up(t[4])), Reaction::Lost(0));
    assert_eq!(inputs.enroll("a".to_string(), t[5]), 0);
    assert_eq!(inputs.on_event(&ready(t[5])), Reaction::Read(0));
}

#[test]
fn a_device_that_was_not_listed_gets_a_new_place() {
    let t = tokens(4);
    let mut inputs = Inputs::new(t[0], t[1], words(&["a"]), &vec![Some(t[2])]);
    assert!(inputs.is_missing("b"));
    assert_eq!(inputs.on_event(&hung_up(t[2])), Reaction::Lost(0));
    assert_eq!(inputs.enroll("b".to_string(), t[3]), 1);
    assert!(!inputs.is_missing("b"));
    assert!(inputs.is_missing("a"));
    assert!(inputs.needs_reopen());
    assert_eq!(inputs.on_event(&ready(t[3])), Reaction::Read(1));
}

#[test]
fn a_device_that_the_reactor_refused_is_missing() {
    let t = tokens(3);
    let mut inputs = Inputs::new(t[0], t[1], words(&["a"]), &vec![None]);
    assert!(inputs.needs_reopen());
    assert!(inputs.is_missing("a"));
    assert_eq!(inputs.enroll("a".to_string(), t[2]), 0);
    assert!(!inputs.needs_reopen());
}

#[test]
fn a_device_that_is_listed_twice_is_opened_twice_again() {
    let t = tokens(6);
    let mut inputs = Inputs::new(t[0], t[1], words(&["a", "a"]), &vec![Some(t[2]), Some(t[3])]);
    inputs.on_event(&hung_up(t[3]));
    assert!(inputs.is_missing("a"));
    inputs.on_event(&hung_up(t[2]));
    assert_eq!(inputs.enroll("a".to_string(), t[4]), 0);
    assert!(inputs.is_missing("a"));
    assert_eq!(inputs.enroll("a".to_string(), t[5]), 1);
    assert!(!inputs.is_missing("a"));
    assert!(!inputs.needs_reopen());
}

#[test]
fn input_of_a_device_that_came_back_leads_to_the_high_rate() {
    let t = tokens(4);
    let mut d = Daemon::new(config(), None);
    let mut inputs = Inputs::new(t[0], t[1], words(&["a"]), &vec![Some(t[2])]);
    inputs.on_event(&hung_up(t[2]));
    let place = inputs.enroll("a".to_string(), t[3]);
    let reaction = inputs.on_event(&ready(t[3]));
    assert_eq!(reaction, Reaction::Read(place));
    let mut round = Round::new();
    round.note(reaction, drain_input(&vec![record(0, 0), Record::Drained]));
    assert_eq!(round.next(inputs.needs_reopen(), Wake::Events), Some(Wake::Input));
    let (mode, _) = d.on_input(round.saw_input, dynamic_enabled("1")).unwrap();
    let apply = d.apply_mode(mode, "", "");
    run(&mut d, apply, "", "", true, true);
    assert_eq!(d.mode, Mode::High);
}

#[test]
fn order_of_a_wake_up() {
    for missing in [false, true] {
        for prop_change in [false, true] {
            for saw_input in [false, true] {
                let round = Round { saw_input, prop_change };
                let mut steps = Vec::new();
                let mut done = Wake::Events;
                while let Some(step) = round.next(missing, done) {
                    steps.push(step);
                    done = step;
                }
                let mut expected = Vec::new();
                if missing {
                    expected.push(Wake::Reopen);
                }
                if prop_change {
                    expected.push(Wake::Change);
                }
                if saw_input {
                    expected.push(Wake::Input);
                }
                assert_eq!(steps, expected);
            }
        }
    }
}

#[test]
fn a_round_notes_what_came() {
    let mut round = Round::new();
    round.note(Reaction::Idle, true);
    round.note(Reaction::Lost(0), true);
    round.note(Reaction::Nothing, true);
    round.note(Reaction::Read(0), false);
    assert_eq!(round, Round { saw_input: false, prop_change: false });
    round.note(Reaction::Read(0), true);
    assert_eq!(round, Round { saw_input: true, prop_change: false });
    round.note(Reaction::Property, false);
    assert_eq!(round, Round { saw_input: true, prop_change: true });
}

#[test]
fn commands_start_with_the_tool() {
    assert_eq!(cmd_argv(&["settings", "get"]), vec!["/system/bin/cmd", "settings", "get"]);
    assert_eq!(cmd_argv(&[]), vec!["/system/bin/cmd"]);
}

#[test]
fn commands_that_can_be_built() {
    assert!(run_cmd_output(&["settings"]).is_some());
    assert!(run_cmd_output(&["set\0tings"]).is_none());
    assert!(run_cmd(&["settings"]).is_some());
    assert!(run_cmd(&["settings", "\0"]).is_none());
    assert!(rate_setting_command("min_refresh_rate").is_some());
    assert!(rate_setting_command("a\0").is_none());
    assert!(set_rate("min_refresh_rate", "60").is_some());
    assert!(set_rate("min_refresh_rate", "6\0").is_none());
}

#[test]
fn a_command_that_is_not_there_cannot_be_run() {
    assert!(rate_setting_command("min_refresh_rate").unwrap().run().is_err());
    assert!(set_rate("min_refresh_rate", "60").unwrap().run().is_err());
}

#[test]
fn output_of_commands() {
    assert_eq!(captured_text(b" 60.0\n"), "60.0");
    assert_eq!(captured_text(b"6\xff\n"), "6\u{fffd}");
    assert_eq!(read_rate_setting(Some(b"120.0\r\n")), "120.0");
    assert_eq!(read_rate_setting(None), "");
}

#[test]
fn status_lines() {
    let seen = Observed {
        dynamic: "1".to_string(),
        low: "48".to_string(),
        high: "90".to_string(),
        min_setting: "60.0".to_string(),
        peak_setting: "null".to_string(),
    };
    let mut d = Daemon::new(load_config(None, None, None, Some("a b")), None);
    assert_eq!(
        print_status(&mut d, &seen, "48", "90"),
        vec![
            "prop=persist.inoi.refresh.dynamic=1",
            "prop_low=persist.inoi.refresh.low=48",
            "prop_high=persist.inoi.refresh.high=90",
            "idle_ms=5000",
            "input_devices=a b",
            "current_min_refresh_rate=60.0",
            "current_peak_refresh_rate=null",
            "chosen_low_rate=48",
            "chosen_high_rate=90",
        ]
    );
    let lines = print_status(&mut d, &seen, "90", "48");
    assert_eq!(lines[7..], ["chosen_low_rate=none", "chosen_high_rate=none"]);
}

#[test]
fn command_lines_of_others() {
    assert!(matches!(handle_cli(&words(&[])), CliPlan::NotOurs));
    assert!(matches!(handle_cli(&words(&["dynamic-rr", "--enable"])), CliPlan::NotOurs));
    assert!(matches!(handle_cli(&words(&["u", "daemon", "--enable"])), CliPlan::NotOurs));
    assert!(matches!(handle_cli(&words(&["u", "dynamic-rr", "--what"])), CliPlan::NotOurs));
}

#[test]
fn command_lines_of_the_policy() {
    assert!(matches!(handle_cli(&words(&["u", "dynamic-rr"])), CliPlan::Status));
    assert!(matches!(handle_cli(&words(&["u", "dynamic-rr", "--status"])), CliPlan::Status));
    assert!(matches!(handle_cli(&words(&["u", "x", "--status", "dynamic-rr-2"])), CliPlan::Status));
    let told = |args: &[&str]| match handle_cli(&words(args)) {
        CliPlan::Assign(list) => report(&list),
        other => panic!("{other:?}"),
    };
    assert_eq!(told(&["u", "dynamic-rr", "--enable"]), vec!["persist.inoi.refresh.dynamic=1"]);
    assert_eq!(told(&["u", "dynamic-rr", "--disable"]), vec!["persist.inoi.refresh.dynamic=0"]);
    assert_eq!(
        told(&["u", "dynamic-rr", "--set", "60", "90.5"]),
        vec![
            "persist.inoi.refresh.low=60",
            "persist.inoi.refresh.high=90.5",
            "persist.inoi.refresh.dynamic=1",
        ]
    );
    for args in [
        vec!["u", "dynamic-rr", "--set"],
        vec!["u", "dynamic-rr", "--set", "60"],
        vec!["u", "dynamic-rr", "--set", "60", "60.5"],
        vec!["u", "dynamic-rr", "--set", "60", "-1"],
        vec!["u", "dynamic-rr", "--set", "x", "60"],
    ] {
        assert!(matches!(handle_cli(&words(&args)), CliPlan::Usage), "{args:?}");
    }
}

#[test]
fn properties_are_set_until_one_fails() {
    assert_eq!(cli_next(3, &vec![]), CliStep::Put(0));
    assert_eq!(cli_next(3, &vec![true, true]), CliStep::Put(2));
    assert_eq!(cli_next(3, &vec![true, true, true]), CliStep::Report);
    assert_eq!(cli_next(3, &vec![true, false]), CliStep::Fail);
}

#[test]
fn set_rates_are_used() {
    let mut d = Daemon::new(config(), None);
    assert!(d.load_rates("48", "144"));
    assert_eq!((d.low_rate.as_str(), d.high_rate.as_str()), ("48", "144"));
    assert!(dynamic_enabled("1") && !dynamic_enabled("0"));
}

#[test]
fn properties_that_are_watched() {
    assert_eq!(
        watched_props(),
        ["persist.inoi.refresh.dynamic", "persist.inoi.refresh.low", "persist.inoi.refresh.high"]
    );
    assert_eq!((FIND_RETRY_MS, WAIT_PAUSE_MS), (1000, 200));
}
