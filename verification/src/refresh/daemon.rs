//! The state of the policy and how a rate is applied.

use crate::numeral::{decimal, digit, law_shortest_numeral};
use crate::refresh::config::Config;
use crate::refresh::rate::{
    above, law_rates_compare_as_numbers, level, rate_gt, same_rate, valid_rate, well_written,
};
use vstd::prelude::*;

verus! {

/// Which rate is in force.
#[derive(Clone, Copy, Debug, PartialEq, Eq, Structural)]
pub enum Mode {
    /// None that the policy has set.
    Unknown,
    /// The low rate, as floor and as ceiling.
    Low,
    /// The low rate as floor, the high one as ceiling.
    High,
}

/// The transaction to use where the framework does not tell.
pub const DISPLAY_FALLBACK_CODE: u32 = 51;

pub const SWITCHING_TYPE_NONE: i32 = 0;

pub const SWITCHING_TYPE_ACROSS_AND_WITHIN_GROUPS: i32 = 2;

/// The display service, where it answers.
#[derive(Clone, Copy, Debug, PartialEq, Eq, Structural)]
pub struct DisplayCtx {
    /// The transaction that sets how the display may switch rates.
    pub code: u32,
}

impl DisplayCtx {
    /// The display service, of the transaction that the framework names and of whether the
    /// service could be opened.
    pub fn open(found: Option<u32>, opened: bool) -> (r: Option<DisplayCtx>)
        ensures
            r is Some <==> opened,
            r matches Some(d) ==> d.code == (match found {
                Some(code) => code,
                None => DISPLAY_FALLBACK_CODE,
            }),
    {
        let code: u32 = match found {
            Some(code) => code,
            None => DISPLAY_FALLBACK_CODE,
        };
        if opened {
            Some(DisplayCtx { code })
        } else {
            None
        }
    }
}

/// The policy.
#[derive(Debug)]
pub struct Daemon {
    pub config: Config,
    pub low_rate: String,
    pub high_rate: String,
    pub mode: Mode,
    pub display: Option<DisplayCtx>,
}

/// How far the application of a mode has come. Each step but the last asks for one thing to be
/// done, whose outcome leads to the next.
#[derive(Clone, Copy, Debug, PartialEq, Eq, Structural)]
pub enum Step {
    /// Read the floor that is set.
    ReadMin,
    /// Read the ceiling that is set.
    ReadPeak,
    /// Set the floor.
    WriteMin,
    /// Set the ceiling.
    WritePeak,
    /// Tell the display with this transaction how it may switch.
    Switch(u32, i32),
    /// Nothing is left to do; whether the mode is in force.
    Done(bool),
}

/// A mode being applied.
#[derive(Clone, Copy, Debug, PartialEq, Eq, Structural)]
pub struct Apply {
    pub mode: Mode,
    pub step: Step,
}

/// How the display may switch in a mode.
pub open spec fn switching(mode: Mode) -> i32 {
    if mode == Mode::High {
        SWITCHING_TYPE_ACROSS_AND_WITHIN_GROUPS
    } else {
        SWITCHING_TYPE_NONE
    }
}

/// The first step of applying `mode` while `current` is in force: what is in force is looked at,
/// what is not is written.
pub open spec fn first_step(current: Mode, mode: Mode) -> Step {
    if current == mode {
        Step::ReadMin
    } else {
        Step::WriteMin
    }
}

/// The step after a setting was read, `same` being whether it is already what it should be.
pub open spec fn step_after_read(step: Step, same: bool) -> Step {
    if !same {
        Step::WriteMin
    } else if step == Step::ReadMin {
        Step::ReadPeak
    } else {
        Step::Done(true)
    }
}

/// The step after a setting was written, `ok` being whether that succeeded.
pub open spec fn step_after_write(
    step: Step,
    ok: bool,
    mode: Mode,
    display: Option<DisplayCtx>,
) -> Step {
    if !ok {
        Step::Done(false)
    } else if step == Step::WriteMin {
        Step::WritePeak
    } else {
        match display {
            Some(d) => Step::Switch(d.code, switching(mode)),
            None => Step::Done(true),
        }
    }
}

impl Daemon {
    /// The low rate to use: the property where it is a rate, else the fallback.
    pub open spec fn wanted_low(self, prop: Seq<char>) -> Seq<char> {
        if well_written(prop) {
            prop
        } else {
            self.config.default_low@
        }
    }

    /// The high rate to use: the property where it is a rate, else the fallback.
    pub open spec fn wanted_high(self, prop: Seq<char>) -> Seq<char> {
        if well_written(prop) {
            prop
        } else {
            self.config.default_high@
        }
    }

    /// The rates that two property values lead to are usable: the high one is above the low one.
    pub open spec fn rates_usable(self, low_prop: Seq<char>, high_prop: Seq<char>) -> bool {
        above(self.wanted_high(high_prop), self.wanted_low(low_prop))
    }

    /// The floor of a mode.
    pub open spec fn floor(self) -> Seq<char> {
        self.low_rate@
    }

    /// The ceiling of a mode.
    pub open spec fn ceiling(self, mode: Mode) -> Seq<char> {
        if mode == Mode::High {
            self.high_rate@
        } else {
            self.low_rate@
        }
    }

    /// Rates have been loaded.
    pub open spec fn loaded(self) -> bool {
        &&& above(self.high_rate@, self.low_rate@)
        &&& well_written(self.low_rate@)
        &&& well_written(self.high_rate@)
    }

    /// Once rates are loaded the high one is above the low one, and a mode is only in force with
    /// rates loaded.
    pub open spec fn wf(self) -> bool {
        &&& self.config.wf()
        &&& self.loaded() || (self.low_rate@.len() == 0 && self.high_rate@.len() == 0)
        &&& self.mode != Mode::Unknown ==> self.loaded()
    }

    /// `self` differs from `other` in the rates at most.
    pub open spec fn same_but_rates(self, other: Daemon) -> bool {
        self.config == other.config && self.mode == other.mode && self.display == other.display
    }

    /// `self` differs from `other` in the mode at most.
    pub open spec fn same_but_mode(self, other: Daemon) -> bool {
        &&& self.config == other.config
        &&& self.low_rate == other.low_rate
        &&& self.high_rate == other.high_rate
        &&& self.display == other.display
    }

    /// A policy that has set no rate yet.
    pub fn new(config: Config, display: Option<DisplayCtx>) -> (r: Daemon)
        ensures
            r.config == config,
            r.display == display,
            r.mode == Mode::Unknown,
            r.low_rate@.len() == 0,
            r.high_rate@.len() == 0,
            config.wf() ==> r.wf(),
    {
        Daemon {
            config,
            low_rate: String::new(),
            high_rate: String::new(),
            mode: Mode::Unknown,
            display,
        }
    }

    /// Takes over the rates that the two properties hold, each with its fallback, where the high
    /// one is above the low one.
    pub fn load_rates(&mut self, low_prop: &str, high_prop: &str) -> (r: bool)
        ensures
            r == old(self).rates_usable(low_prop@, high_prop@),
            r <==> above(
                old(self).wanted_high(high_prop@),
                old(self).wanted_low(low_prop@),
            ),
            final(self).same_but_rates(*old(self)),
            final(self).config == old(self).config,
            final(self).mode == old(self).mode,
            final(self).display == old(self).display,
            r ==> final(self).low_rate@ == old(self).wanted_low(low_prop@)
                && final(self).high_rate@ == old(self).wanted_high(high_prop@),
            !r ==> *final(self) == *old(self),
            old(self).wf() ==> final(self).wf(),
            old(self).wf() && r ==> final(self).loaded(),
    {
        let low: String = if valid_rate(low_prop) {
            low_prop.to_string()
        } else {
            self.config.default_low.clone()
        };
        let high: String = if valid_rate(high_prop) {
            high_prop.to_string()
        } else {
            self.config.default_high.clone()
        };
        if rate_gt(high.as_str(), low.as_str()) {
            self.low_rate = low;
            self.high_rate = high;
            true
        } else {
            false
        }
    }

    /// Begins to apply a mode with the rates that the two properties hold now.
    pub fn apply_mode(&mut self, mode: Mode, low_prop: &str, high_prop: &str) -> (r: Apply)
        ensures
            r.mode == mode,
            final(self).same_but_rates(*old(self)),
            final(self).config == old(self).config,
            final(self).mode == old(self).mode,
            final(self).display == old(self).display,
            old(self).wf() ==> final(self).wf(),
            mode == Mode::Unknown || !old(self).rates_usable(low_prop@, high_prop@) ==> {
                &&& r.step == Step::Done(false)
                &&& *final(self) == *old(self)
            },
            mode != Mode::Unknown && old(self).rates_usable(low_prop@, high_prop@) ==> {
                &&& r.step == first_step(old(self).mode, mode)
                &&& final(self).low_rate@ == old(self).wanted_low(low_prop@)
                &&& final(self).high_rate@ == old(self).wanted_high(high_prop@)
                &&& old(self).wf() ==> final(self).loaded()
            },
    {
        if mode == Mode::Unknown {
            return Apply { mode, step: Step::Done(false) };
        }
        if !self.load_rates(low_prop, high_prop) {
            return Apply { mode, step: Step::Done(false) };
        }
        if self.mode == mode {
            Apply { mode, step: Step::ReadMin }
        } else {
            Apply { mode, step: Step::WriteMin }
        }
    }

    /// Begins to apply the low rate.
    pub fn set_low(&mut self, low_prop: &str, high_prop: &str) -> (r: Apply)
        ensures
            r.mode == Mode::Low,
            final(self).same_but_rates(*old(self)),
            old(self).wf() ==> final(self).wf(),
            !old(self).rates_usable(low_prop@, high_prop@) ==> {
                &&& r.step == Step::Done(false)
                &&& *final(self) == *old(self)
            },
            old(self).rates_usable(low_prop@, high_prop@) ==> {
                &&& r.step == first_step(old(self).mode, Mode::Low)
                &&& final(self).low_rate@ == old(self).wanted_low(low_prop@)
                &&& final(self).high_rate@ == old(self).wanted_high(high_prop@)
                &&& old(self).wf() ==> final(self).loaded()
            },
    {
        self.apply_mode(Mode::Low, low_prop, high_prop)
    }

    /// Begins to apply the high rate.
    pub fn set_high(&mut self, low_prop: &str, high_prop: &str) -> (r: Apply)
        ensures
            r.mode == Mode::High,
            final(self).same_but_rates(*old(self)),
            old(self).wf() ==> final(self).wf(),
            !old(self).rates_usable(low_prop@, high_prop@) ==> {
                &&& r.step == Step::Done(false)
                &&& *final(self) == *old(self)
            },
            old(self).rates_usable(low_prop@, high_prop@) ==> {
                &&& r.step == first_step(old(self).mode, Mode::High)
                &&& final(self).low_rate@ == old(self).wanted_low(low_prop@)
                &&& final(self).high_rate@ == old(self).wanted_high(high_prop@)
                &&& old(self).wf() ==> final(self).loaded()
            },
    {
        self.apply_mode(Mode::High, low_prop, high_prop)
    }

    /// The value that the floor is to have.
    pub fn min_rate(&self) -> (r: &str)
        ensures
            r@ == self.floor(),
            r@ == self.low_rate@,
    {
        self.low_rate.as_str()
    }

    /// The value that the ceiling is to have in a mode.
    pub fn peak_rate(&self, mode: Mode) -> (r: &str)
        ensures
            r@ == self.ceiling(mode),
            r@ == if mode == Mode::High {
                self.high_rate@
            } else {
                self.low_rate@
            },
    {
        if mode == Mode::High {
            self.high_rate.as_str()
        } else {
            self.low_rate.as_str()
        }
    }

    /// Goes on after a setting was read.
    pub fn setting_read(&self, apply: Apply, value: &str) -> (r: Apply)
        requires
            apply.step == Step::ReadMin || apply.step == Step::ReadPeak,
        ensures
            r.mode == apply.mode,
            r.step == step_after_read(
                apply.step,
                if apply.step == Step::ReadMin {
                    level(self.floor(), value@)
                } else {
                    level(self.ceiling(apply.mode), value@)
                },
            ),
    {
        let same: bool = match apply.step {
            Step::ReadMin => same_rate(self.min_rate(), value),
            _ => same_rate(self.peak_rate(apply.mode), value),
        };
        let step: Step = if !same {
            Step::WriteMin
        } else {
            match apply.step {
                Step::ReadMin => Step::ReadPeak,
                _ => Step::Done(true),
            }
        };
        Apply { mode: apply.mode, step }
    }

    /// Goes on after a setting was written. The mode is in force once the ceiling is written.
    pub fn setting_written(&mut self, apply: Apply, ok: bool) -> (r: Apply)
        requires
            apply.step == Step::WriteMin || apply.step == Step::WritePeak,
        ensures
            r.mode == apply.mode,
            r.step == step_after_write(apply.step, ok, apply.mode, old(self).display),
            final(self).same_but_mode(*old(self)),
            final(self).config == old(self).config,
            final(self).low_rate == old(self).low_rate,
            final(self).high_rate == old(self).high_rate,
            final(self).display == old(self).display,
            r.step matches Step::Switch(code, kind) ==> ok && old(self).display == Some(
                DisplayCtx { code },
            ) && kind == (if apply.mode == Mode::High {
                2i32
            } else {
                0i32
            }),
            final(self).mode == if ok && apply.step == Step::WritePeak {
                apply.mode
            } else {
                old(self).mode
            },
            old(self).wf() && old(self).loaded() ==> final(self).wf() && final(self).loaded(),
    {
        if !ok {
            return Apply { mode: apply.mode, step: Step::Done(false) };
        }
        match apply.step {
            Step::WriteMin => Apply { mode: apply.mode, step: Step::WritePeak },
            _ => {
                self.mode = apply.mode;
                let step: Step = match self.display {
                    Some(d) => {
                        let kind: i32 = if apply.mode == Mode::High {
                            SWITCHING_TYPE_ACROSS_AND_WITHIN_GROUPS
                        } else {
                            SWITCHING_TYPE_NONE
                        };
                        Step::Switch(d.code, kind)
                    },
                    None => Step::Done(true),
                };
                Apply { mode: apply.mode, step }
            },
        }
    }

    /// Goes on after the display was told how it may switch, whatever it answered.
    pub fn switched(&self, apply: Apply) -> (r: Apply)
        requires
            apply.step is Switch,
        ensures
            r == (Apply { mode: apply.mode, step: Step::Done(true) }),
    {
        Apply { mode: apply.mode, step: Step::Done(true) }
    }

    /// The mode to apply when the policy starts.
    pub fn on_start(&self, enabled: bool) -> (r: Option<Mode>)
        ensures
            r == if enabled {
                Some(Mode::Low)
            } else {
                None
            },
    {
        if enabled {
            Some(Mode::Low)
        } else {
            None
        }
    }

    /// The mode to apply when the idle time has passed.
    pub fn on_idle(&self) -> (r: Option<Mode>)
        ensures
            r == if self.mode == Mode::High {
                Some(Mode::Low)
            } else {
                None
            },
    {
        if self.mode == Mode::High {
            Some(Mode::Low)
        } else {
            None
        }
    }

    /// The mode to apply when a property has changed. What was in force counts no more: a mode
    /// that is applied again is written again.
    pub fn on_prop_change(&mut self, enabled: bool) -> (r: Option<Mode>)
        ensures
            final(self).same_but_mode(*old(self)),
            final(self).config == old(self).config,
            final(self).low_rate == old(self).low_rate,
            final(self).high_rate == old(self).high_rate,
            final(self).display == old(self).display,
            final(self).mode == Mode::Unknown,
            r == if !enabled {
                None
            } else if old(self).mode == Mode::Unknown {
                Some(Mode::Low)
            } else {
                Some(old(self).mode)
            },
            old(self).wf() ==> final(self).wf(),
    {
        let current: Mode = self.mode;
        self.mode = Mode::Unknown;
        if !enabled {
            None
        } else if current == Mode::Unknown {
            Some(Mode::Low)
        } else {
            Some(current)
        }
    }

    /// The mode to apply after a round of events, and the milliseconds after which to fall back.
    pub fn on_input(&self, saw_input: bool, enabled: bool) -> (r: Option<(Mode, u64)>)
        ensures
            r == if saw_input && enabled {
                Some((Mode::High, self.config.idle_ms))
            } else {
                None
            },
    {
        if saw_input && enabled {
            Some((Mode::High, self.config.idle_ms))
        } else {
            None
        }
    }
}

/// What the outside answers while a mode is applied.
pub struct Replies {
    /// The floor that is set is the one wanted.
    pub min_same: bool,
    /// The ceiling that is set is the one wanted.
    pub peak_same: bool,
    /// The floor can be written.
    pub min_ok: bool,
    /// The ceiling can be written.
    pub peak_ok: bool,
}

/// How many steps may still follow.
pub open spec fn steps_left(step: Step) -> nat {
    match step {
        Step::ReadMin => 5,
        Step::ReadPeak => 4,
        Step::WriteMin => 3,
        Step::WritePeak => 2,
        Step::Switch(_, _) => 1,
        Step::Done(_) => 0,
    }
}

/// The steps from `step` to the end, with these replies.
pub open spec fn run_of(
    step: Step,
    mode: Mode,
    display: Option<DisplayCtx>,
    replies: Replies,
) -> Seq<Step>
    decreases steps_left(step),
{
    match step {
        Step::ReadMin => seq![step] + run_of(
            step_after_read(step, replies.min_same),
            mode,
            display,
            replies,
        ),
        Step::ReadPeak => seq![step] + run_of(
            step_after_read(step, replies.peak_same),
            mode,
            display,
            replies,
        ),
        Step::WriteMin => seq![step] + run_of(
            step_after_write(step, replies.min_ok, mode, display),
            mode,
            display,
            replies,
        ),
        Step::WritePeak => seq![step] + run_of(
            step_after_write(step, replies.peak_ok, mode, display),
            mode,
            display,
            replies,
        ),
        Step::Switch(_, _) => seq![step, Step::Done(true)],
        Step::Done(_) => seq![step],
    }
}

/// The mode in force after a run of steps.
pub open spec fn mode_after(run: Seq<Step>, current: Mode, mode: Mode, replies: Replies) -> Mode {
    if run.contains(Step::WritePeak) && replies.peak_ok {
        mode
    } else {
        current
    }
}

/// The steps that look at the settings before any is written.
spec fn reads_of(current: Mode, mode: Mode, replies: Replies) -> Seq<Step> {
    if current != mode {
        Seq::empty()
    } else if replies.min_same {
        seq![Step::ReadMin, Step::ReadPeak]
    } else {
        seq![Step::ReadMin]
    }
}

proof fn lemma_run(current: Mode, mode: Mode, display: Option<DisplayCtx>, replies: Replies)
    ensures
        ({
            let run = run_of(first_step(current, mode), mode, display, replies);
            let head = reads_of(current, mode, replies);
            run == if current == mode && replies.min_same && replies.peak_same {
                seq![Step::ReadMin, Step::ReadPeak, Step::Done(true)]
            } else {
                head + run_of(Step::WriteMin, mode, display, replies)
            }
        }),
{
    let tail = run_of(Step::WriteMin, mode, display, replies);
    let second = run_of(Step::ReadPeak, mode, display, replies);
    assert(second == seq![Step::ReadPeak] + run_of(
        step_after_read(Step::ReadPeak, replies.peak_same),
        mode,
        display,
        replies,
    ));
    assert(run_of(Step::Done(true), mode, display, replies) == seq![Step::Done(true)]);
    if current == mode {
        assert(run_of(Step::ReadMin, mode, display, replies) == seq![Step::ReadMin] + run_of(
            step_after_read(Step::ReadMin, replies.min_same),
            mode,
            display,
            replies,
        ));
        if replies.min_same && replies.peak_same {
            assert(seq![Step::ReadMin] + second == seq![
                Step::ReadMin,
                Step::ReadPeak,
                Step::Done(true),
            ]);
        } else if replies.min_same {
            assert(seq![Step::ReadMin] + (seq![Step::ReadPeak] + tail) == seq![
                Step::ReadMin,
                Step::ReadPeak,
            ] + tail);
        }
    } else {
        assert(Seq::<Step>::empty() + tail == tail);
    }
}

proof fn lemma_writes(mode: Mode, display: Option<DisplayCtx>, replies: Replies)
    ensures
        ({
            let run = run_of(Step::WriteMin, mode, display, replies);
            let written = replies.min_ok && replies.peak_ok;
            &&& run.len() >= 2
            &&& run[0] == Step::WriteMin
            &&& replies.min_ok ==> run[1] == Step::WritePeak
            &&& run.last() == Step::Done(written)
            &&& display matches Some(d) ==> run.contains(Step::Switch(d.code, switching(mode)))
                == written
            &&& forall|i: int| 0 <= i < run.len() && #[trigger] run[i] == Step::WriteMin ==> i == 0
            &&& forall|i: int|
                0 <= i < run.len() && #[trigger] run[i] == Step::WritePeak ==> i == 1
                    && replies.min_ok
            &&& forall|i: int|
                0 <= i < run.len() ==> #[trigger] run[i] !is ReadMin && run[i] !is ReadPeak
        }),
{
    reveal_with_fuel(run_of, 4);
    let run = run_of(Step::WriteMin, mode, display, replies);
    if !replies.min_ok {
        assert(run == seq![Step::WriteMin, Step::Done(false)]);
    } else if !replies.peak_ok {
        assert(run == seq![Step::WriteMin, Step::WritePeak, Step::Done(false)]);
    } else {
        match display {
            Some(d) => {
                let s = Step::Switch(d.code, switching(mode));
                assert(run == seq![Step::WriteMin, Step::WritePeak, s, Step::Done(true)]);
                assert(run[2] == s);
            },
            None => {
                assert(run == seq![Step::WriteMin, Step::WritePeak, Step::Done(true)]);
            },
        }
    }
}

/// A mode that is begun with usable rates ends in force exactly when it already was and both
/// settings still hold, or both can be written; if it does not, what was in force is not
/// forgotten. The ceiling is only written after the floor, and the display is told exactly when
/// both were written.
pub proof fn law_apply_runs_to_an_end(
    current: Mode,
    mode: Mode,
    display: Option<DisplayCtx>,
    replies: Replies,
)
    ensures
        ({
            let run = run_of(first_step(current, mode), mode, display, replies);
            let holds = current == mode && replies.min_same && replies.peak_same;
            let written = !holds && replies.min_ok && replies.peak_ok;
            &&& run.last() == Step::Done(holds || written)
            &&& mode_after(run, current, mode, replies) == if holds || written {
                mode
            } else {
                current
            }
            &&& run.contains(Step::WriteMin) == !holds
            &&& run.contains(Step::WritePeak) == (!holds && replies.min_ok)
            &&& display matches Some(d) ==> run.contains(Step::Switch(d.code, switching(mode)))
                == written
            &&& forall|i: int, j: int|
                0 <= i < run.len() && 0 <= j < run.len() && run[i] == Step::WriteMin && run[j]
                    == Step::WritePeak ==> i < j
        }),
{
    let tail = run_of(Step::WriteMin, mode, display, replies);
    let run = run_of(first_step(current, mode), mode, display, replies);
    let head = reads_of(current, mode, replies);
    lemma_run(current, mode, display, replies);
    lemma_writes(mode, display, replies);
    if !(current == mode && replies.min_same && replies.peak_same) {
        let n = head.len();
        assert(forall|i: int| 0 <= i < n ==> #[trigger] run[i] == head[i]);
        assert(forall|i: int| n <= i < run.len() ==> #[trigger] run[i] == tail[i - n]);
        assert forall|step: Step| step !is ReadMin && step !is ReadPeak implies run.contains(step)
            == #[trigger] tail.contains(step) by {
            if tail.contains(step) {
                let k = choose|k: int| 0 <= k < tail.len() && tail[k] == step;
                assert(run[n + k] == step);
            }
            if run.contains(step) {
                let k = choose|k: int| 0 <= k < run.len() && run[k] == step;
                assert(k >= n);
                assert(tail[k - n] == step);
            }
        }
        assert(tail.contains(Step::WriteMin));
        assert(tail.contains(Step::WritePeak) == replies.min_ok);
    }
}

/// A property change makes the mode that was in force be written again, whatever the settings
/// hold: with nothing in force, no application of a mode is content with reading.
pub proof fn law_change_is_written_again(
    mode: Mode,
    display: Option<DisplayCtx>,
    replies: Replies,
)
    requires
        mode != Mode::Unknown,
    ensures
        ({
            let run = run_of(first_step(Mode::Unknown, mode), mode, display, replies);
            &&& run.first() == Step::WriteMin
            &&& !run.contains(Step::ReadMin)
            &&& !run.contains(Step::ReadPeak)
        }),
{
    lemma_writes(mode, display, replies);
}

/// In either mode the floor is not above the ceiling; only in the high mode they differ.
pub proof fn law_floor_below_ceiling(d: Daemon, mode: Mode)
    requires
        d.loaded(),
    ensures
        !above(d.floor(), d.ceiling(mode)),
        mode == Mode::High ==> above(d.ceiling(mode), d.floor()),
        mode != Mode::High ==> d.ceiling(mode) == d.floor(),
{
}

/// A property that is written as a rate is the rate that is wanted; for any other value it is the
/// fallback of the configuration. That goes for the low rate and for the high one.
pub proof fn law_property_or_fallback(d: Daemon, prop: Seq<char>)
    ensures
        prop.len() > 0 && (forall|i: int|
            0 <= i < prop.len() ==> '0' <= #[trigger] prop[i] <= '9' || prop[i] == '.') ==> {
            &&& d.wanted_low(prop) == prop
            &&& d.wanted_high(prop) == prop
        },
        prop.len() == 0 || (exists|i: int|
            0 <= i < prop.len() && !('0' <= #[trigger] prop[i] <= '9') && prop[i] != '.') ==> {
            &&& d.wanted_low(prop) == d.config.default_low@
            &&& d.wanted_high(prop) == d.config.default_high@
        },
{
    if exists|i: int| 0 <= i < prop.len() && !('0' <= #[trigger] prop[i] <= '9') && prop[i] != '.' {
        let i = choose|i: int|
            0 <= i < prop.len() && !('0' <= #[trigger] prop[i] <= '9') && prop[i] != '.';
        assert(!(digit(prop[i]) || prop[i] == '.'));
    }
}

/// Two properties that hold whole numbers are usable as rates exactly when the high one is the
/// greater, and they are then the rates.
pub proof fn law_whole_numbers_as_rates(d: Daemon, low: nat, high: nat)
    requires
        low <= i64::MAX,
        high <= i64::MAX,
    ensures
        d.rates_usable(decimal(low), decimal(high)) == (high > low),
        d.wanted_low(decimal(low)) == decimal(low),
        d.wanted_high(decimal(high)) == decimal(high),
{
    law_shortest_numeral(low);
    law_shortest_numeral(high);
    law_property_or_fallback(d, decimal(low));
    law_property_or_fallback(d, decimal(high));
    law_rates_compare_as_numbers(high, Seq::empty(), low, Seq::empty());
}

/// Rates that were loaded are recognised when they are read back from the settings, so a mode that
/// is in force and still holds is not written again; a ceiling of one mode is not taken for that
/// of the other.
pub proof fn law_own_settings_are_recognised(d: Daemon, mode: Mode)
    requires
        d.loaded(),
    ensures
        level(d.floor(), d.floor()),
        level(d.ceiling(mode), d.ceiling(mode)),
        !level(d.ceiling(Mode::High), d.ceiling(Mode::Low)),
        step_after_read(Step::ReadMin, level(d.floor(), d.floor())) == Step::ReadPeak,
        step_after_read(Step::ReadPeak, level(d.ceiling(mode), d.ceiling(mode))) == Step::Done(true),
{
}

/// The floor of both modes and the ceiling of the low one is the low rate; the ceiling of the high
/// one is the high rate.
pub proof fn law_floor_and_ceiling(d: Daemon)
    ensures
        d.floor() == d.low_rate@,
        d.ceiling(Mode::Low) == d.low_rate@,
        d.ceiling(Mode::High) == d.high_rate@,
{
}

/// The steps of applying a mode: settings are read only where the mode is in force already, one
/// that differs leads to writing both, and a write that fails ends it all.
pub proof fn law_steps_of_applying(
    current: Mode,
    mode: Mode,
    same: bool,
    ok: bool,
    display: Option<DisplayCtx>,
)
    ensures
        first_step(current, mode) == Step::ReadMin <==> current == mode,
        first_step(current, mode) == Step::WriteMin <==> current != mode,
        step_after_read(Step::ReadMin, same) == Step::ReadPeak <==> same,
        step_after_read(Step::ReadPeak, same) == Step::Done(true) <==> same,
        step_after_read(Step::ReadMin, false) == Step::WriteMin,
        step_after_read(Step::ReadPeak, false) == Step::WriteMin,
        step_after_write(Step::WriteMin, ok, mode, display) == Step::WritePeak <==> ok,
        step_after_write(Step::WriteMin, false, mode, display) == Step::Done(false),
        step_after_write(Step::WritePeak, false, mode, display) == Step::Done(false),
        display is None ==> step_after_write(Step::WritePeak, true, mode, display) == Step::Done(
            true,
        ),
        display matches Some(d) ==> {
            let kind: i32 = if mode == Mode::High {
                2
            } else {
                0
            };
            step_after_write(Step::WritePeak, true, mode, display) == Step::Switch(d.code, kind)
        },
{
}

} // verus!
