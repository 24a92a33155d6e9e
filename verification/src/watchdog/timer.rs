//! The timer between ticks. In deep idle it is stopped; after it, it is started for the interval
//! less the time for which it had run since it was last started.
//!
//! Moments and spans of time are in nanoseconds.

use crate::text::{same_text, trim, trimmed};
use vstd::prelude::*;

verus! {

/// The span between two ticks: a quarter of an hour.
pub const INTERVAL_NS: u128 = 900_000_000_000;

/// What the idle state is called in deep idle.
pub const DEEP: &'static str = "deep";

/// Whether a value of the idle state property means deep idle.
pub fn idle_is_deep(value: &str) -> (r: bool)
    ensures
        r == (trimmed(value@) == DEEP@),
{
    same_text(trim(value), DEEP)
}

/// What the idle state property says, where it could be read: whether it means deep idle.
pub fn idle_word(read: Option<&str>) -> (r: Option<bool>)
    ensures
        r == (match read {
            Some(value) => Some(trimmed(value@) == DEEP@),
            None => None,
        }),
{
    match read {
        Some(value) => Some(idle_is_deep(value)),
        None => None,
    }
}

/// `a` less `b`, or nothing where `b` is more.
pub open spec fn less(a: int, b: int) -> int {
    if a >= b {
        a - b
    } else {
        0
    }
}

/// What to ask of the system's timer.
#[derive(Clone, Copy, Debug, PartialEq, Eq, Structural)]
pub enum TimerCall {
    /// Nothing.
    Nothing,
    /// To stand still.
    Disarm,
    /// To fire once after this span.
    Arm(u128),
}

/// The state of the timer.
#[derive(Clone, Copy, Debug, PartialEq, Eq, Structural)]
pub struct Timer {
    /// The moment at which it was last started, if it was not stopped since. One that fired in
    /// deep idle keeps it, though it runs no more.
    pub armed_at: Option<u128>,
    /// The interval less the time for which it had run, when it was made to stand still.
    pub frozen: Option<u128>,
}

impl Timer {
    /// The timer after it was first armed, for the whole interval.
    pub fn armed(now: u128) -> (r: Timer)
        ensures
            r == (Timer { armed_at: Some(now), frozen: None }),
    {
        Timer { armed_at: Some(now), frozen: None }
    }

    /// The span of the interval that is left at a moment, of a timer that runs since `at`.
    pub open spec fn left(at: u128, now: u128) -> int {
        less(INTERVAL_NS as int, less(now as int, at as int))
    }

    /// What becomes of the timer, and what is asked of it, when the idle state may have changed.
    pub open spec fn after_idle(self, deep: bool, now: u128) -> (Timer, TimerCall) {
        if deep {
            match self.armed_at {
                Some(at) => (
                    Timer { armed_at: None, frozen: Some(Timer::left(at, now) as u128) },
                    TimerCall::Disarm,
                ),
                None => (self, TimerCall::Nothing),
            }
        } else {
            match self.frozen {
                Some(rest) => (
                    Timer { armed_at: self.armed_at, frozen: None },
                    TimerCall::Arm(rest),
                ),
                None => (self, TimerCall::Nothing),
            }
        }
    }

    /// The idle state may have changed: it is `deep` now. In deep idle a timer that runs is made
    /// to stand still; out of it, one that stands still is made to run for what was left.
    pub fn on_idle(&mut self, deep: bool, now: u128) -> (r: TimerCall)
        ensures
            (*final(self), r) == old(self).after_idle(deep, now),
            deep && old(self).armed_at is None ==> *final(self) == *old(self) && r
                == TimerCall::Nothing,
            deep && old(self).armed_at is Some ==> final(self).armed_at is None && r
                == TimerCall::Disarm && final(self).frozen is Some,
            !deep ==> final(self).frozen is None && final(self).armed_at == old(self).armed_at,
            !deep ==> (r is Nothing <==> old(self).frozen is None),
            !deep && old(self).frozen is Some ==> r == TimerCall::Arm(old(self).frozen->0),
    {
        if deep {
            match self.armed_at {
                Some(at) => {
                    let elapsed: u128 = if now >= at {
                        now - at
                    } else {
                        0
                    };
                    let rest: u128 = if INTERVAL_NS >= elapsed {
                        INTERVAL_NS - elapsed
                    } else {
                        0
                    };
                    self.armed_at = None;
                    self.frozen = Some(rest);
                    TimerCall::Disarm
                },
                None => TimerCall::Nothing,
            }
        } else {
            match self.frozen {
                Some(rest) => {
                    self.frozen = None;
                    TimerCall::Arm(rest)
                },
                None => TimerCall::Nothing,
            }
        }
    }

    /// What follows a tick: out of deep idle, the whole interval again.
    pub fn on_tick(&self, deep: bool) -> (r: TimerCall)
        ensures
            r == if deep {
                TimerCall::Nothing
            } else {
                TimerCall::Arm(INTERVAL_NS)
            },
            !deep ==> r == TimerCall::Arm(900_000_000_000),
    {
        if deep {
            TimerCall::Nothing
        } else {
            TimerCall::Arm(INTERVAL_NS)
        }
    }

    /// Takes in how arming the timer ended: where it failed, nothing changes.
    pub fn arming(&mut self, done: bool, now: u128)
        ensures
            final(self).frozen == old(self).frozen,
            final(self).armed_at == if done {
                Some(now)
            } else {
                old(self).armed_at
            },
    {
        if done {
            self.armed_at = Some(now);
        }
    }
}

/// A timer that was started for the whole interval and is stopped before that is over is started
/// again for the rest: the time for which it ran and the time for which it is started make up the
/// interval, however long it stood still between.
pub proof fn law_standing_still_does_not_count(
    armed: u128,
    deep_at: u128,
    awake_at: u128,
)
    requires
        armed <= deep_at <= awake_at,
        deep_at - armed <= INTERVAL_NS,
    ensures
        ({
            let start = Timer { armed_at: Some(armed), frozen: None };
            let (still, first) = start.after_idle(true, deep_at);
            let (running, second) = still.after_idle(false, awake_at);
            &&& first == TimerCall::Disarm
            &&& still.armed_at is None
            &&& second matches TimerCall::Arm(rest) && (deep_at - armed) + rest == INTERVAL_NS
            &&& running.frozen is None
        }),
{
}

/// What a timer takes in: at a moment, whether the device is in deep idle.
pub enum TimerEvent {
    /// The idle state may have changed.
    Idle(bool, u128),
    /// The timer fired.
    Tick(bool, u128),
}

/// The timer together with whether the system's timer is set to fire.
pub struct Course {
    pub timer: Timer,
    pub runs: bool,
}

impl Course {
    /// The timer is set to fire, or holds what was left when it was made to stand still.
    pub open spec fn kept(self) -> bool {
        self.runs || self.timer.frozen is Some
    }

    /// One that is set to fire was started and not stopped since.
    pub open spec fn wf(self) -> bool {
        self.runs ==> self.timer.armed_at is Some
    }

    /// The timer after an event, where it can be armed whenever that is asked for. Once it fired
    /// it is set to fire no more, unless it is armed again.
    pub open spec fn after_event(self, event: TimerEvent) -> Course {
        match event {
            TimerEvent::Idle(deep, now) => match self.timer.after_idle(deep, now) {
                (timer, TimerCall::Arm(_)) => Course {
                    timer: Timer { armed_at: Some(now), frozen: timer.frozen },
                    runs: true,
                },
                (timer, TimerCall::Disarm) => Course { timer, runs: false },
                (timer, TimerCall::Nothing) => Course { timer, runs: self.runs },
            },
            TimerEvent::Tick(deep, now) => if deep {
                Course { timer: self.timer, runs: false }
            } else {
                Course {
                    timer: Timer { armed_at: Some(now), frozen: self.timer.frozen },
                    runs: true,
                }
            },
        }
    }

    /// The timer after events, one after the other.
    pub open spec fn after_events(self, events: Seq<TimerEvent>) -> Course
        decreases events.len(),
    {
        if events.len() == 0 {
            self
        } else {
            self.after_events(events.drop_last()).after_event(events.last())
        }
    }

    /// Whenever the timer fires in deep idle among these events, it had been made to stand still.
    pub open spec fn timely(self, events: Seq<TimerEvent>) -> bool
        decreases events.len(),
    {
        events.len() == 0 || {
            &&& self.timely(events.drop_last())
            &&& events.last() matches TimerEvent::Tick(true, _) ==> self.after_events(
                events.drop_last(),
            ).timer.frozen is Some
        }
    }
}

/// The event finds the device out of deep idle.
pub open spec fn awake(event: TimerEvent) -> bool {
    match event {
        TimerEvent::Idle(deep, _) => !deep,
        TimerEvent::Tick(deep, _) => !deep,
    }
}

/// The timer is not lost, as long as it can be armed and does not fire in deep idle before word of
/// deep idle came: after such events it is set to fire or holds what was left, and it is set to
/// fire where the last event found the device out of deep idle.
pub proof fn law_timer_is_not_lost(course: Course, events: Seq<TimerEvent>)
    requires
        course.wf(),
        course.kept(),
        course.timely(events),
    ensures
        course.after_events(events).wf(),
        course.after_events(events).kept(),
        events.len() > 0 && awake(events.last()) ==> course.after_events(events).runs,
    decreases events.len(),
{
    if events.len() > 0 {
        law_timer_is_not_lost(course, events.drop_last());
    }
}

/// A timer that fires in deep idle before word of deep idle came is not set again at once. If the
/// word comes then, it is held, and set to fire once the device is out of deep idle; if the word
/// is that the device is out of deep idle already, it stays unset.
pub proof fn law_fired_before_word_came(
    course: Course,
    fired: u128,
    word: u128,
    awake_at: u128,
)
    requires
        course.timer.armed_at is Some,
        course.timer.frozen is None,
    ensures
        ({
            let after = course.after_event(TimerEvent::Tick(true, fired));
            let held = after.after_event(TimerEvent::Idle(true, word));
            &&& !after.kept()
            &&& held.kept()
            &&& held.after_event(TimerEvent::Idle(false, awake_at)).runs
            &&& !after.after_event(TimerEvent::Idle(false, word)).kept()
        }),
{
}

/// Repeated word of the same idle state changes nothing: a timer that stands still is not frozen
/// again, and one that runs is not armed again.
pub proof fn law_idle_again(timer: Timer, deep: bool, now: u128, later: u128)
    ensures
        timer.after_idle(deep, now).0.after_idle(deep, later) == (
            timer.after_idle(deep, now).0,
            TimerCall::Nothing,
        ),
{
}

/// What is left and what went by since the start make up the quarter of an hour, as long as it is
/// not over; from then on nothing is left, and before the start nothing went by. What is left
/// depends on the time between the two moments alone.
pub proof fn law_left_and_gone_make_the_interval(at: u128, now: u128, shift: u128)
    requires
        at + shift <= u128::MAX,
        now + shift <= u128::MAX,
    ensures
        at <= now && now - at <= 900_000_000_000 ==> Timer::left(at, now) + (now - at)
            == 900_000_000_000,
        now - at >= 900_000_000_000 ==> Timer::left(at, now) == 0,
        now <= at ==> Timer::left(at, now) == 900_000_000_000,
        Timer::left((at + shift) as u128, (now + shift) as u128) == Timer::left(at, now),
{
}

/// In deep idle a timer that was started is stopped, holding what is left, and one that was not is
/// left alone. Out of deep idle one that holds a rest is started for all of it, and holds it no
/// more; the moment of the last start changes only once the timer was armed.
pub proof fn law_word_of_the_idle_state(timer: Timer, now: u128)
    ensures
        ({
            let (deep, asked) = timer.after_idle(true, now);
            &&& deep.armed_at is None
            &&& timer.armed_at is None ==> deep == timer && asked == TimerCall::Nothing
            &&& timer.armed_at is Some ==> {
                &&& asked == TimerCall::Disarm
                &&& deep.frozen matches Some(rest) && rest == Timer::left(timer.armed_at->0, now)
            }
        }),
        ({
            let (out, asked) = timer.after_idle(false, now);
            &&& out.frozen is None
            &&& out.armed_at == timer.armed_at
            &&& timer.frozen is None ==> asked == TimerCall::Nothing
            &&& timer.frozen matches Some(rest) ==> asked == TimerCall::Arm(rest)
        }),
{
}

} // verus!
