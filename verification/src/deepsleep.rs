//! Deep sleep: a state machine that runs while the screen is off.

use crate::text::{law_trim_leaves_the_core, same_text, text_of, trim, trimmed, whitespace};
use vstd::prelude::*;

verus! {

/// The property that shows the idle state.
pub const IDLE_STATE_PROP: &'static str = "debug.tracing.idle_state";

/// What the property shows while the screen is on.
pub const NOT_IDLE: &'static str = "none";

/// The milliseconds before another attempt to find the property of the screen.
pub const SCREEN_RETRY_MS: u64 = 5000;

/// A value of the property of the screen means that it is on.
pub open spec fn lit(value: Seq<char>) -> bool {
    trimmed(value) == "2"@
}

/// Whether a value of the property of the screen means that it is on.
pub fn screen_on(value: &str) -> (r: bool)
    ensures
        r == lit(value@),
        r <==> trimmed(value@) == seq!['2'],
{
    proof {
        reveal_strlit("2");
        assert("2"@ == seq!['2']);
    }
    same_text(trim(value), "2")
}

/// The state that follows a change of the screen.
#[derive(Clone, Copy, Debug, PartialEq, Eq, Structural)]
pub enum Turn {
    /// The screen is on: show that the device is not idle.
    Awake,
    /// The screen is off: start the idle machine.
    Sleep,
}

/// What follows a change of the screen: first an idle machine that runs is stopped and waited for,
/// then comes the turn.
#[derive(Clone, Copy, Debug, PartialEq, Eq, Structural)]
pub struct ScreenStep {
    pub stop: bool,
    pub turn: Turn,
}

/// Whether an idle machine runs.
#[derive(Clone, Copy, Debug, PartialEq, Eq, Structural)]
pub struct DeepSleep {
    pub running: bool,
}

impl DeepSleep {
    /// No idle machine runs.
    pub fn new() -> (r: DeepSleep)
        ensures
            !r.running,
    {
        DeepSleep { running: false }
    }

    /// What becomes of the idle machine, and what follows, when waiting for the screen ended with
    /// this value, or with none.
    pub open spec fn after(self, value: Option<Seq<char>>) -> (DeepSleep, Option<ScreenStep>) {
        match value {
            Some(v) => (
                DeepSleep { running: !lit(v) },
                Some(
                    ScreenStep {
                        stop: self.running,
                        turn: if lit(v) {
                            Turn::Awake
                        } else {
                            Turn::Sleep
                        },
                    },
                ),
            ),
            None => (self, None),
        }
    }

    /// Waiting for the screen ended with this value; without one, nothing follows.
    pub fn on_screen(&mut self, value: Option<&str>) -> (r: Option<ScreenStep>)
        ensures
            (*final(self), r) == old(self).after(text_of(value)),
            value is None ==> r is None && *final(self) == *old(self),
            value matches Some(v) ==> {
                let on = trimmed(v@) == seq!['2'];
                &&& r matches Some(step) && step.stop == old(self).running && (step.turn
                    == Turn::Awake <==> on)
                &&& final(self).running == !on
            },
    {
        match value {
            Some(v) => {
                let stop: bool = self.running;
                let turn: Turn = if screen_on(v) {
                    self.running = false;
                    Turn::Awake
                } else {
                    self.running = true;
                    Turn::Sleep
                };
                Some(ScreenStep { stop, turn })
            },
            None => None,
        }
    }

    /// The state after these values in turn.
    pub open spec fn after_all(self, values: Seq<Option<Seq<char>>>) -> DeepSleep
        decreases values.len(),
    {
        if values.len() == 0 {
            self
        } else {
            self.after_all(values.drop_last()).after(values.last()).0
        }
    }

    /// How many idle machines were started by these values in turn.
    pub open spec fn started(self, values: Seq<Option<Seq<char>>>) -> int
        decreases values.len(),
    {
        if values.len() == 0 {
            0
        } else {
            self.started(values.drop_last()) + (match self.after_all(values.drop_last()).after(
                values.last(),
            ).1 {
                Some(step) => if step.turn == Turn::Sleep {
                    1int
                } else {
                    0
                },
                None => 0,
            })
        }
    }

    /// How many idle machines were stopped by these values in turn.
    pub open spec fn stopped(self, values: Seq<Option<Seq<char>>>) -> int
        decreases values.len(),
    {
        if values.len() == 0 {
            0
        } else {
            self.stopped(values.drop_last()) + (match self.after_all(values.drop_last()).after(
                values.last(),
            ).1 {
                Some(step) => if step.stop {
                    1int
                } else {
                    0
                },
                None => 0,
            })
        }
    }
}

/// At most one idle machine runs at a time: of those that were started, all but the one that
/// runs were stopped.
pub proof fn law_one_machine(values: Seq<Option<Seq<char>>>)
    ensures
        ({
            let start = DeepSleep { running: false };
            start.started(values) - start.stopped(values) == if start.after_all(values).running {
                1int
            } else {
                0
            }
        }),
    decreases values.len(),
{
    if values.len() > 0 {
        law_one_machine(values.drop_last());
    }
}

/// An idle machine runs exactly while the screen was off when it was last heard of.
pub proof fn law_runs_while_dark(
    before: DeepSleep,
    values: Seq<Option<Seq<char>>>,
    value: Seq<char>,
)
    ensures
        before.after_all(values.push(Some(value))).running == !lit(value),
        before.after_all(values.push(None)) == before.after_all(values),
{
    assert(values.push(Some(value)).drop_last() == values);
    assert(values.push(None).drop_last() == values);
}

/// The screen is on exactly for the digit two, whatever whitespace stands around it.
pub proof fn law_two_is_on(before: Seq<char>, core: Seq<char>, after: Seq<char>)
    requires
        forall|i: int| 0 <= i < before.len() ==> whitespace(#[trigger] before[i]),
        forall|i: int| 0 <= i < after.len() ==> whitespace(#[trigger] after[i]),
        core.len() > 0 ==> !whitespace(core[0]) && !whitespace(core[core.len() - 1]),
    ensures
        lit(before + core + after) <==> core == seq!['2'],
{
    reveal_strlit("2");
    assert("2"@ == seq!['2']);
    law_trim_leaves_the_core(before, core, after);
}

/// Word of the screen stops exactly the machine that runs, and starts one exactly where the screen
/// is off; without word nothing changes.
pub proof fn law_word_of_the_screen(sleep: DeepSleep, value: Seq<char>)
    ensures
        sleep.after(None) == (sleep, None::<ScreenStep>),
        sleep.after(Some(value)).1 matches Some(step) && step.stop == sleep.running && (step.turn
            == Turn::Sleep <==> trimmed(value) != seq!['2']),
        sleep.after(Some(value)).0.running <==> trimmed(value) != seq!['2'],
{
    reveal_strlit("2");
    assert("2"@ == seq!['2']);
}

/// The property of the screen is looked for again after five seconds, and the idle state is shown
/// under its own name.
pub proof fn law_names_and_times()
    ensures
        SCREEN_RETRY_MS == 5000,
        IDLE_STATE_PROP@ == "debug.tracing.idle_state"@,
        NOT_IDLE@ == "none"@,
{
}

} // verus!
