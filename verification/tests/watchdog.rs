use coreshift_core::reactor::{Fd, Reactor, Token};
use utensil::deepsleep::{screen_on, DeepSleep, ScreenStep, Turn, IDLE_STATE_PROP, NOT_IDLE};
use utensil::property::{PropWatch, Wait, Watched};
use utensil::readiness::Readiness;
use utensil::watchdog::link::{
    fg_connect, on_event, terminal_apps_path, whitelist_path, Due, FgReaction, Link, LinkEvent,
    LinkStep,
};
use utensil::watchdog::tick::{tick_next, Seen, TickEvent, TickStep, Ticks, TICK_PROP};
use utensil::watchdog::timer::{idle_is_deep, idle_word, Timer, TimerCall, INTERVAL_NS};

const SECOND: u128 = 1_000_000_000;

fn tokens(n: usize) -> Vec<Token> {
    let mut reactor = Reactor::new().unwrap();
    let mut fds = Vec::new();
    let mut list = Vec::new();
    for _ in 0..n {
        let fd = Fd::eventfd(0).unwrap();
        list.push(reactor.add(&fd, true, false).unwrap());
        fds.push(fd);
    }
    list
}

fn seen(list: &[(&str, bool)]) -> Vec<Seen> {
    list.iter().map(|(p, blocked)| Seen { package: p.to_string(), blocked: *blocked }).collect()
}

#[test]
fn a_property_watcher_keeps_the_serial_number() {
    let mut watch = PropWatch::new(None, Some(200));
    assert_eq!(watch.serial, 0);
    assert_eq!(watch.waited(Wait::Changed(6)), Watched::Tell);
    assert_eq!(watch.serial, 6);
    assert_eq!(watch.waited(Wait::Unchanged), Watched::Again);
    assert_eq!(watch.waited(Wait::Failed), Watched::Pause(200));
    assert_eq!(watch.serial, 6);
    let mut watch = PropWatch::new(Some(4), None);
    assert_eq!(watch.serial, 4);
    assert_eq!(watch.waited(Wait::Failed), Watched::Again);
}

#[test]
fn deep_idle_is_told_by_its_name() {
    assert!(idle_is_deep(" deep\n"));
    assert!(!idle_is_deep("none"));
    assert!(!idle_is_deep("deeper"));
    assert_eq!(idle_word(Some("deep")), Some(true));
    assert_eq!(idle_word(Some("light")), Some(false));
    assert_eq!(idle_word(None), None);
}

#[test]
fn the_timer_stands_still_in_deep_idle() {
    let mut timer = Timer::armed(10 * SECOND);
    assert_eq!(timer.on_idle(false, 20 * SECOND), TimerCall::Nothing);
    assert_eq!(timer.on_idle(true, 310 * SECOND), TimerCall::Disarm);
    assert_eq!(timer, Timer { armed_at: None, frozen: Some(600 * SECOND) });
    assert_eq!(timer.on_idle(true, 400 * SECOND), TimerCall::Nothing);
    assert_eq!(timer.on_idle(false, 5000 * SECOND), TimerCall::Arm(600 * SECOND));
    assert_eq!(timer, Timer { armed_at: None, frozen: None });
    timer.arming(true, 5001 * SECOND);
    assert_eq!(timer, Timer { armed_at: Some(5001 * SECOND), frozen: None });
    assert_eq!(timer.on_idle(false, 5002 * SECOND), TimerCall::Nothing);
}

#[test]
fn a_timer_that_is_overdue_has_nothing_left() {
    let mut timer = Timer::armed(0);
    assert_eq!(timer.on_idle(true, 901 * SECOND), TimerCall::Disarm);
    assert_eq!(timer.frozen, Some(0));
    let mut timer = Timer::armed(5);
    assert_eq!(timer.on_idle(true, 3), TimerCall::Disarm);
    assert_eq!(timer.frozen, Some(INTERVAL_NS));
}

#[test]
fn a_timer_that_cannot_be_armed_stays_as_it_is() {
    let mut timer = Timer::armed(0);
    timer.on_idle(true, 100 * SECOND);
    assert_eq!(timer.on_idle(false, 200 * SECOND), TimerCall::Arm(800 * SECOND));
    timer.arming(false, 200 * SECOND);
    assert_eq!(timer, Timer { armed_at: None, frozen: None });
    assert_eq!(timer.on_tick(false), TimerCall::Arm(900 * SECOND));
    assert_eq!(timer.on_tick(true), TimerCall::Nothing);
}

#[test]
fn the_timer_is_not_lost_when_it_fires_in_deep_idle() {
    let mut timer = Timer::armed(0);
    assert_eq!(timer.on_tick(true), TimerCall::Nothing);
    assert_eq!(timer.on_idle(true, 901 * SECOND), TimerCall::Disarm);
    assert_eq!(timer.on_tick(true), TimerCall::Nothing);
    assert_eq!(timer.on_idle(false, 950 * SECOND), TimerCall::Arm(0));
    timer.arming(true, 950 * SECOND);
    assert_eq!(timer.armed_at, Some(950 * SECOND));
}

#[test]
fn a_timer_that_fires_before_word_came_may_stay_unset() {
    let mut timer = Timer::armed(0);
    assert_eq!(timer.on_tick(true), TimerCall::Nothing);
    assert_eq!(timer.on_idle(false, 901 * SECOND), TimerCall::Nothing);
    assert_eq!(timer, Timer { armed_at: Some(0), frozen: None });
}

#[test]
fn packages_that_stay_in_the_background_are_escalated() {
    let mut ticks = Ticks::new();
    assert_eq!(ticks.begin(), "1");
    let first = seen(&[("com.a", false), ("com.b", false), ("com.a", false), ("com.c", true)]);
    assert!(ticks.do_tick(Some("com.l"), None, &first).is_empty());
    assert_eq!(ticks.begin(), "2");
    let second = seen(&[
        ("com.c", true),
        ("com.b", false),
        ("com.a", false),
        ("com.d", false),
        ("com.a", false),
    ]);
    let mut hit = ticks.do_tick(Some("com.l"), None, &second);
    hit.sort();
    assert_eq!(hit, vec!["com.a", "com.b"]);
    let mut hit = ticks.do_tick(Some("com.d"), Some("com.a"), &second);
    hit.sort();
    assert_eq!(hit, vec!["com.b"]);
    assert_eq!(ticks.do_tick(None, None, &seen(&[("com.a", false)])), Vec::<String>::new());
    assert_eq!(ticks.do_tick(None, None, &seen(&[("com.a", false)])), vec!["com.a"]);
    assert_eq!(ticks.count, 2);
}

#[test]
fn launcher_and_blocked_packages_are_spared() {
    let mut ticks = Ticks::new();
    let list = seen(&[("com.l", false), ("com.f", false), ("com.c", true)]);
    for _ in 0..3 {
        assert!(ticks.do_tick(Some("com.l"), Some("com.f"), &list).is_empty());
    }
}

#[test]
fn connecting_step_by_step() {
    assert_eq!(fg_connect(LinkEvent::Connected), LinkStep::Ask);
    assert_eq!(fg_connect(LinkEvent::InProgress), LinkStep::Finish(200));
    assert_eq!(fg_connect(LinkEvent::Failed), LinkStep::Down);
    assert_eq!(fg_connect(LinkEvent::Finished(true)), LinkStep::Ask);
    assert_eq!(fg_connect(LinkEvent::Finished(false)), LinkStep::Down);
    assert_eq!(fg_connect(LinkEvent::Asked(true)), LinkStep::Add);
    assert_eq!(fg_connect(LinkEvent::Asked(false)), LinkStep::Down);
    assert_eq!(fg_connect(LinkEvent::Added(true)), LinkStep::Up);
    assert_eq!(fg_connect(LinkEvent::Added(false)), LinkStep::Down);
}

#[test]
fn attempts_to_connect_are_spaced() {
    let mut link = Link::new(false, 10 * SECOND);
    assert!(!link.retry_due(9 * SECOND));
    assert!(!link.retry_due(15 * SECOND - 1));
    assert!(link.retry_due(15 * SECOND));
    link.tried(false, 20 * SECOND);
    assert!(!link.retry_due(24 * SECOND));
    link.tried(true, 25 * SECOND);
    assert!(!link.retry_due(100 * SECOND));
    link.lost(100 * SECOND);
    assert!(!link.retry_due(104 * SECOND));
    assert!(link.retry_due(105 * SECOND));
}

#[test]
fn a_lost_connection_loses_its_last_line() {
    let mut link = Link::new(true, 0);
    link.received(b"com.a\ncom.b\n\ncom");
    assert_eq!(link.foregrounds(), vec!["com.a", "com.b"]);
    link.lost(1);
    assert!(!link.up);
    link.tried(true, 5 * SECOND);
    link.received(b"com.c\n");
    assert_eq!(link.foregrounds(), vec!["com.c"]);
}

#[test]
fn watchdog_events() {
    let t = tokens(4);
    let event = |token, error, hangup| Readiness { token, readable: true, error, hangup };
    let due = |foreground, idle, timer| Due { foreground, idle, timer };
    assert_eq!(
        on_event(&event(t[0], false, false), Some(t[0]), t[1], t[2]),
        due(FgReaction::Read, false, false)
    );
    assert_eq!(
        on_event(&event(t[0], false, true), Some(t[0]), t[1], t[2]),
        due(FgReaction::Lost, false, false)
    );
    assert_eq!(
        on_event(&event(t[0], true, false), Some(t[0]), t[1], t[2]),
        due(FgReaction::Lost, false, false)
    );
    assert_eq!(
        on_event(&event(t[0], true, true), None, t[1], t[2]),
        due(FgReaction::Nothing, false, false)
    );
    assert_eq!(
        on_event(&event(t[1], true, true), Some(t[0]), t[1], t[2]),
        due(FgReaction::Nothing, true, false)
    );
    assert_eq!(
        on_event(&event(t[2], false, false), Some(t[0]), t[1], t[2]),
        due(FgReaction::Nothing, false, true)
    );
    assert_eq!(
        on_event(&event(t[3], false, false), Some(t[0]), t[1], t[2]),
        due(FgReaction::Nothing, false, false)
    );
}

#[test]
fn watchdog_paths_and_properties() {
    assert_eq!(whitelist_path("/data/x"), "/data/x/watchdog_whitelist.conf");
    assert_eq!(terminal_apps_path("/data/x"), "/data/x/terminal_apps.conf");
    assert_eq!(TICK_PROP, "debug.tracing.watchdog_tick");
    assert_eq!(IDLE_STATE_PROP, "debug.tracing.idle_state");
    assert_eq!(NOT_IDLE, "none");
}

#[test]
fn the_screen_is_on_at_two() {
    assert!(screen_on("2"));
    assert!(screen_on(" 2\n"));
    assert!(!screen_on("1"));
    assert!(!screen_on("22"));
    assert!(!screen_on(""));
}

#[test]
fn one_idle_machine_at_a_time() {
    let mut sleep = DeepSleep::new();
    let step = |stop, turn| Some(ScreenStep { stop, turn });
    assert_eq!(sleep.on_screen(Some("2")), step(false, Turn::Awake));
    assert_eq!(sleep.on_screen(Some("1")), step(false, Turn::Sleep));
    assert_eq!(sleep.on_screen(None), None);
    assert!(sleep.running);
    assert_eq!(sleep.on_screen(Some("0")), step(true, Turn::Sleep));
    assert_eq!(sleep.on_screen(Some("2")), step(true, Turn::Awake));
    assert_eq!(sleep.on_screen(Some("2")), step(false, Turn::Awake));
    assert!(!sleep.running);
}

fn steps_of_a_tick(foreground: bool, count: usize) -> Vec<TickStep> {
    let mut steps = Vec::new();
    let mut event = TickEvent::Resolved(foreground);
    loop {
        let step = tick_next(event);
        steps.push(step);
        event = match step {
            TickStep::Relieve => TickEvent::Relieved,
            TickStep::Scan => TickEvent::Escalated(0, count),
            TickStep::Escalate(i) => TickEvent::Escalated(i + 1, count),
            TickStep::End => return steps,
        };
    }
}

#[test]
fn relief_comes_before_escalation() {
    assert_eq!(
        steps_of_a_tick(true, 2),
        vec![
            TickStep::Relieve,
            TickStep::Scan,
            TickStep::Escalate(0),
            TickStep::Escalate(1),
            TickStep::End,
        ]
    );
    assert_eq!(steps_of_a_tick(false, 0), vec![TickStep::Scan, TickStep::End]);
    let mut ticks = Ticks::new();
    let list = seen(&[("com.a", false), ("com.f", false)]);
    ticks.do_tick(None, None, &list);
    assert_eq!(ticks.do_tick(None, Some("com.f"), &list), vec!["com.a"]);
}
