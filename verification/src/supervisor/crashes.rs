//! Restarting a daemon that crashes, and giving up on one that crashes too often.
//!
//! Moments and spans of time are in nanoseconds.

use vstd::prelude::*;

verus! {

/// How long crashes are counted together: ten seconds.
pub const WINDOW_NS: u128 = 10_000_000_000;

/// The number of crashes counted together at which the supervisor gives up.
pub const LIMIT: u64 = 5;

/// The milliseconds of pause for each crash that was counted.
pub const PAUSE_MS: u64 = 500;

/// What the supervisor does after the daemon ended.
#[derive(Clone, Copy, Debug, PartialEq, Eq, Structural)]
pub enum Next {
    /// It ends with this code.
    Leave(i32),
    /// It starts the daemon again after this many milliseconds.
    Restart(u64),
}

/// The crashes that are counted together.
#[derive(Clone, Copy, Debug, PartialEq, Eq, Structural)]
pub struct Crashes {
    pub count: u64,
    /// The moment from which they are counted together.
    pub window: u128,
}

impl Crashes {
    /// The supervisor has not given up.
    pub open spec fn wf(self) -> bool {
        self.count < LIMIT
    }

    /// There was no crash.
    pub fn new(now: u128) -> (r: Crashes)
        ensures
            r == (Crashes { count: 0, window: now }),
            r.wf(),
    {
        Crashes { count: 0, window: now }
    }

    /// The crashes counted together after one more: one that comes too late for the others is
    /// the first of those that follow.
    pub open spec fn crashed(self, now: u128) -> Crashes {
        if now - self.window > WINDOW_NS {
            Crashes { count: 1, window: now }
        } else {
            Crashes { count: (self.count + 1) as u64, window: self.window }
        }
    }

    /// The daemon ended, with this exit code where it has one. It was meant to end where the code
    /// is zero; anything else is a crash.
    pub fn ended(&mut self, code: Option<i32>, now: u128) -> (r: Next)
        requires
            old(self).wf(),
        ensures
            code == Some(0i32) ==> r == Next::Leave(0) && *final(self) == *old(self),
            code != Some(0i32) ==> {
                &&& *final(self) == old(self).crashed(now)
                &&& r == if final(self).count >= LIMIT {
                    Next::Leave(1)
                } else {
                    Next::Restart((PAUSE_MS * final(self).count) as u64)
                }
            },
            r is Restart ==> final(self).wf(),
            r matches Next::Restart(ms) ==> ms == 500 * final(self).count && 1 <= final(self).count
                <= 4,
            r == Next::Leave(1) <==> code != Some(0i32) && final(self).count == 5,
    {
        match code {
            Some(c) => if c == 0 {
                return Next::Leave(0);
            },
            None => {},
        }
        self.count = self.count + 1;
        if now >= self.window && now - self.window > WINDOW_NS {
            self.count = 1;
            self.window = now;
        }
        if self.count >= LIMIT {
            Next::Leave(1)
        } else {
            Next::Restart(PAUSE_MS * self.count)
        }
    }

    /// The crashes counted together after crashes at these moments.
    pub open spec fn after(self, moments: Seq<u128>) -> Crashes
        decreases moments.len(),
    {
        if moments.len() == 0 {
            self
        } else {
            self.after(moments.drop_last()).crashed(moments.last())
        }
    }
}

/// The moments come in order, none before `start`.
pub open spec fn in_order(start: u128, moments: Seq<u128>) -> bool {
    &&& forall|i: int| 0 <= i < moments.len() ==> start <= #[trigger] moments[i]
    &&& forall|i: int, j: int| 0 <= i <= j < moments.len() ==> moments[i] <= moments[j]
}

/// The supervisor has not given up before the last of the crashes at these moments.
pub open spec fn patient(start: u128, moments: Seq<u128>) -> bool {
    forall|n: int|
        0 <= n < moments.len() ==> (Crashes { count: 0, window: start }).after(
            #[trigger] moments.take(n),
        ).wf()
}

proof fn lemma_counted(start: u128, moments: Seq<u128>)
    requires
        in_order(start, moments),
        patient(start, moments),
    ensures
        ({
            let c = (Crashes { count: 0, window: start }).after(moments);
            &&& c.count <= LIMIT
            &&& c.count <= moments.len()
            &&& moments.len() > 0 ==> {
                &&& c.count > 0
                &&& c.window <= moments[moments.len() - c.count]
                &&& moments.last() - c.window <= WINDOW_NS
            }
        }),
    decreases moments.len(),
{
    if moments.len() > 0 {
        let before = moments.drop_last();
        let n = before.len() as int;
        assert(moments.take(n) == before);
        assert forall|k: int| 0 <= k < before.len() implies (Crashes {
            count: 0,
            window: start,
        }).after(#[trigger] before.take(k)).wf() by {
            assert(before.take(k) == moments.take(k));
        }
        lemma_counted(start, before);
        let c = (Crashes { count: 0, window: start }).after(before);
        assert(c.wf());
        if before.len() > 0 {
            assert(before[before.len() - c.count] == moments[before.len() - c.count]);
        }
    }
}

/// The supervisor gives up on a daemon only after five crashes within ten seconds.
pub proof fn law_gives_up_only_on_a_burst(start: u128, moments: Seq<u128>)
    requires
        in_order(start, moments),
        patient(start, moments),
        (Crashes { count: 0, window: start }).after(moments).count >= LIMIT,
    ensures
        moments.len() >= LIMIT,
        moments.last() - moments[moments.len() - LIMIT] <= WINDOW_NS,
{
    lemma_counted(start, moments);
}

/// The supervisor gives up at the fifth of the crashes that are counted together: once there were
/// that many, all within ten seconds of the moment from which they are counted.
pub proof fn law_gives_up_at_the_fifth(crashes: Crashes, moments: Seq<u128>)
    requires
        crashes.count + moments.len() <= LIMIT,
        forall|i: int|
            0 <= i < moments.len() ==> crashes.window <= #[trigger] moments[i] && moments[i]
                - crashes.window <= WINDOW_NS,
    ensures
        crashes.after(moments).count == crashes.count + moments.len(),
        crashes.after(moments).window == crashes.window,
        crashes.after(moments).count >= LIMIT <==> crashes.count + moments.len() == LIMIT,
    decreases moments.len(),
{
    if moments.len() > 0 {
        let before = moments.drop_last();
        assert forall|i: int| 0 <= i < before.len() implies crashes.window <= #[trigger] before[i]
            && before[i] - crashes.window <= WINDOW_NS by {
            assert(before[i] == moments[i]);
        }
        law_gives_up_at_the_fifth(crashes, before);
        assert(moments.last() == moments[moments.len() - 1]);
    }
}

/// A crash more than ten seconds after the moment from which crashes are counted together starts
/// the count again.
pub proof fn law_a_late_crash_counts_alone(crashes: Crashes, now: u128)
    requires
        now - crashes.window > WINDOW_NS,
    ensures
        crashes.crashed(now) == (Crashes { count: 1, window: now }),
        crashes.crashed(now).wf(),
{
}

/// A crash within ten seconds of the moment from which crashes are counted together adds one to
/// them and leaves the moment; a later one is the first again, counted from its own moment.
pub proof fn law_counted_for_ten_seconds(crashes: Crashes, now: u128)
    requires
        crashes.count < 5,
    ensures
        now <= crashes.window + 10_000_000_000 ==> {
            &&& crashes.crashed(now).count == crashes.count + 1
            &&& crashes.crashed(now).window == crashes.window
        },
        now > crashes.window + 10_000_000_000 ==> {
            &&& crashes.crashed(now).count == 1
            &&& crashes.crashed(now).window == now
        },
        crashes.crashed(now).wf() <==> crashes.crashed(now).count < 5,
{
}

} // verus!
