//! A tick: which applications have stayed in the background since the last one.

use crate::numeral::{decimal, decimal_text};
use crate::text::{same_text, text_of, texts};
use vstd::hash_set::StringHashSet;
use vstd::prelude::*;

verus! {

/// The property that shows the number of ticks.
pub const TICK_PROP: &'static str = "debug.tracing.watchdog_tick";

/// A process that was found, as the package it belongs to.
#[derive(Debug)]
pub struct Seen {
    pub package: String,
    /// The package is on the block list.
    pub blocked: bool,
}

/// A process counts as one in the background: its package is not blocked, is not the launcher
/// and is not in the foreground.
pub open spec fn counts(
    seen: Seen,
    launcher: Option<Seq<char>>,
    foreground: Option<Seq<char>>,
) -> bool {
    &&& !seen.blocked
    &&& launcher != Some(seen.package@)
    &&& foreground != Some(seen.package@)
}

/// The packages with a process in the background.
pub open spec fn live_in(
    seen: Seq<Seen>,
    launcher: Option<Seq<char>>,
    foreground: Option<Seq<char>>,
) -> Set<Seq<char>> {
    Set::new(
        |p: Seq<char>|
            exists|i: int|
                0 <= i < seen.len() && (#[trigger] seen[i]).package@ == p && counts(
                    seen[i],
                    launcher,
                    foreground,
                ),
    )
}

/// Whether a text that may be there is `b`.
fn is_text(a: Option<&str>, b: &str) -> (r: bool)
    ensures
        r == (text_of(a) == Some(b@)),
{
    match a {
        Some(text) => same_text(text, b),
        None => false,
    }
}

/// What one tick leaves for the next.
pub struct Ticks {
    /// How many there were.
    pub count: u64,
    /// The packages with a process in the background at the last one.
    pub live: StringHashSet,
}

impl Ticks {
    /// There was no tick.
    pub fn new() -> (r: Ticks)
        ensures
            r.count == 0,
            r.live@ == Set::<Seq<char>>::empty(),
    {
        Ticks { count: 0, live: StringHashSet::new() }
    }

    /// Counts a tick. What the property then shows.
    pub fn begin(&mut self) -> (r: String)
        requires
            old(self).count < u64::MAX,
        ensures
            final(self).count == old(self).count + 1,
            final(self).live@ == old(self).live@,
            r@ == decimal((old(self).count + 1) as nat),
    {
        self.count = self.count + 1;
        decimal_text(self.count)
    }

    /// Takes in the processes that were found. The packages to punish harder: each package, once,
    /// that has a process in the background and had one at the last tick.
    pub fn do_tick(
        &mut self,
        launcher: Option<&str>,
        foreground: Option<&str>,
        seen: &Vec<Seen>,
    ) -> (r: Vec<String>)
        ensures
            texts(r@).no_duplicates(),
            texts(r@).to_set() == live_in(seen@, text_of(launcher), text_of(foreground)).intersect(
                old(self).live@,
            ),
            final(self).live@ == live_in(seen@, text_of(launcher), text_of(foreground)),
            final(self).count == old(self).count,
    {
        let ghost l = text_of(launcher);
        let ghost f = text_of(foreground);
        let ghost before = self.live@;
        let mut live: StringHashSet = StringHashSet::new();
        let mut again: Vec<String> = Vec::new();
        let mut i: usize = 0;
        proof {
            assert(live@ == live_in(seen@.take(0), l, f));
            assert(texts(again@).to_set() == live@.intersect(before));
        }
        while i < seen.len()
            invariant
                i <= seen.len(),
                l == text_of(launcher),
                f == text_of(foreground),
                before == self.live@,
                live@ == live_in(seen@.take(i as int), l, f),
                texts(again@).no_duplicates(),
                texts(again@).to_set() == live@.intersect(before),
            decreases seen.len() - i,
        {
            let one: &Seen = &seen[i];
            let name: &str = one.package.as_str();
            proof {
                lemma_live_step(seen@, i as int, l, f);
            }
            if !one.blocked && !is_text(launcher, name) && !is_text(foreground, name)
                && !live.contains(name) {
                let ghost was = live@;
                let ghost had = texts(again@);
                let known: bool = self.live.contains(name);
                live.insert(name.to_string());
                if known {
                    again.push(name.to_string());
                    proof {
                        assert(texts(again@) == had.push(name@));
                        assert(had.to_set().contains(name@) == had.contains(name@));
                        assert(!had.contains(name@));
                        assert(texts(again@).no_duplicates());
                        lemma_push_to_set(had, name@);
                        assert(texts(again@).to_set() == live@.intersect(before));
                    }
                } else {
                    assert(live@.intersect(before) == was.intersect(before));
                }
            }
            i += 1;
        }
        assert(seen@.take(i as int) == seen@);
        self.live = live;
        again
    }
}

/// What came of a step of a tick.
#[derive(Clone, Copy, Debug, PartialEq, Eq, Structural)]
pub enum TickEvent {
    /// It is known whether there is a package in the foreground.
    Resolved(bool),
    /// The package in the foreground was relieved.
    Relieved,
    /// Of the packages to punish harder so many were, and there are so many.
    Escalated(usize, usize),
}

/// A step of a tick.
#[derive(Clone, Copy, Debug, PartialEq, Eq, Structural)]
pub enum TickStep {
    /// Relieve the package in the foreground.
    Relieve,
    /// Look for processes, and from them for the packages to punish harder.
    Scan,
    /// Punish the package at this place harder.
    Escalate(usize),
    /// The tick is over.
    End,
}

/// The step of a tick that follows.
pub open spec fn step_after(event: TickEvent) -> TickStep {
    match event {
        TickEvent::Resolved(there) => if there {
            TickStep::Relieve
        } else {
            TickStep::Scan
        },
        TickEvent::Relieved => TickStep::Scan,
        TickEvent::Escalated(done, count) => if done < count {
            TickStep::Escalate(done)
        } else {
            TickStep::End
        },
    }
}

/// The step of a tick that follows.
pub fn tick_next(event: TickEvent) -> (r: TickStep)
    ensures
        r == step_after(event),
{
    match event {
        TickEvent::Resolved(true) => TickStep::Relieve,
        TickEvent::Resolved(false) => TickStep::Scan,
        TickEvent::Relieved => TickStep::Scan,
        TickEvent::Escalated(done, count) => if done < count {
            TickStep::Escalate(done)
        } else {
            TickStep::End
        },
    }
}

/// The steps from where `done` of `count` packages were punished harder.
pub open spec fn escalations(done: nat, count: usize) -> Seq<TickStep>
    decreases count - done,
{
    let step = step_after(TickEvent::Escalated(done as usize, count));
    if done < count {
        seq![step] + escalations(done + 1, count)
    } else {
        seq![step]
    }
}

/// The steps of a tick, of whether there is a package in the foreground and of how many packages
/// are to be punished harder.
pub open spec fn tick_steps(foreground: bool, count: usize) -> Seq<TickStep> {
    let first = step_after(TickEvent::Resolved(foreground));
    if first == TickStep::Relieve {
        seq![first, step_after(TickEvent::Relieved)] + escalations(0, count)
    } else {
        seq![first] + escalations(0, count)
    }
}

/// Something that a tick does to a package.
pub enum Act {
    Relieve(Seq<char>),
    Escalate(Seq<char>),
}

/// What a step does to a package, of the package in the foreground and of those to punish harder.
pub open spec fn act_of(
    step: TickStep,
    foreground: Option<Seq<char>>,
    list: Seq<Seq<char>>,
) -> Option<Act> {
    match step {
        TickStep::Relieve => match foreground {
            Some(p) => Some(Act::Relieve(p)),
            None => None,
        },
        TickStep::Escalate(k) => Some(Act::Escalate(list[k as int])),
        _ => None,
    }
}

/// What a tick does to packages, in order.
pub open spec fn acts(foreground: Option<Seq<char>>, list: Seq<Seq<char>>) -> Seq<Act> {
    tick_steps(foreground is Some, list.len() as usize).filter_map(
        |step: TickStep| act_of(step, foreground, list),
    )
}

/// What is picked of a list with one more at its front.
pub proof fn lemma_filter_map_prepend<A, B>(x: A, rest: Seq<A>, pick: spec_fn(A) -> Option<B>)
    ensures
        (seq![x] + rest).filter_map(pick) == (match pick(x) {
            Some(y) => seq![y],
            None => Seq::empty(),
        }) + rest.filter_map(pick),
    decreases rest.len(),
{
    let all = seq![x] + rest;
    if rest.len() == 0 {
        Seq::lemma_filter_map_singleton(x, pick);
        assert(all == seq![x]);
    } else {
        let n = rest.len() - 1;
        lemma_filter_map_prepend(x, rest.take(n), pick);
        rest.lemma_filter_map_take_succ(pick, n);
        all.lemma_filter_map_take_succ(pick, n + 1);
        assert(rest.take(n + 1) == rest);
        assert(all.take(n + 2) == all);
        assert(all.take(n + 1) == seq![x] + rest.take(n));
    }
}

proof fn lemma_escalations(
    foreground: Option<Seq<char>>,
    list: Seq<Seq<char>>,
    done: nat,
)
    requires
        done <= list.len() <= usize::MAX,
    ensures
        escalations(done, list.len() as usize).filter_map(
            |step: TickStep| act_of(step, foreground, list),
        ) == list.skip(done as int).map_values(|p: Seq<char>| Act::Escalate(p)),
    decreases list.len() - done,
{
    let count = list.len() as usize;
    let pick = |step: TickStep| act_of(step, foreground, list);
    let hit = |p: Seq<char>| Act::Escalate(p);
    let steps = escalations(done, count);
    let first = step_after(TickEvent::Escalated(done as usize, count));
    if done < count {
        let rest = escalations(done + 1, count);
        lemma_escalations(foreground, list, done + 1);
        lemma_filter_map_prepend(first, rest, pick);
        assert(list.skip(done as int).map_values(hit) == seq![hit(list[done as int])] + list.skip(
            done as int + 1,
        ).map_values(hit));
    } else {
        Seq::lemma_filter_map_singleton(first, pick);
        assert(list.skip(done as int).map_values(hit) == Seq::<Act>::empty());
    }
}

/// A tick first relieves the package in the foreground, once, where there is one, and then
/// punishes each package harder that `do_tick` gave, once. The package that is relieved is not
/// among them.
pub proof fn law_relief_comes_first(before: Scene, now: Scene, list: Seq<Seq<char>>)
    requires
        list.len() <= usize::MAX,
        list.no_duplicates(),
        list.to_set() == escalated(before, now),
    ensures
        acts(now.foreground, list) == (match now.foreground {
            Some(p) => seq![Act::Relieve(p)],
            None => Seq::empty(),
        }) + list.map_values(|p: Seq<char>| Act::Escalate(p)),
        now.foreground matches Some(p) ==> !list.contains(p),
{
    let pick = |step: TickStep| act_of(step, now.foreground, list);
    let count = list.len() as usize;
    let tail = escalations(0, count);
    lemma_escalations(now.foreground, list, 0);
    assert(list.skip(0) == list);
    lemma_filter_map_prepend(TickStep::Scan, tail, pick);
    match now.foreground {
        Some(p) => {
            let rest = seq![TickStep::Scan] + tail;
            lemma_filter_map_prepend(TickStep::Relieve, rest, pick);
            assert(tick_steps(true, count) == seq![TickStep::Relieve] + rest);
            law_spared(before, now, p);
            assert(list.contains(p) == list.to_set().contains(p));
        },
        None => {},
    }
}

proof fn lemma_push_to_set<A>(s: Seq<A>, x: A)
    ensures
        s.push(x).to_set() == s.to_set().insert(x),
{
    assert forall|y: A| s.push(x).to_set().contains(y) == s.to_set().insert(x).contains(y) by {
        if s.contains(y) {
            let k = choose|k: int| 0 <= k < s.len() && s[k] == y;
            assert(s.push(x)[k] == y);
        }
        assert(s.push(x)[s.len() as int] == x);
    }
    assert(s.push(x).to_set() =~= s.to_set().insert(x));
}

proof fn lemma_live_step(
    seen: Seq<Seen>,
    i: int,
    launcher: Option<Seq<char>>,
    foreground: Option<Seq<char>>,
)
    requires
        0 <= i < seen.len(),
    ensures
        live_in(seen.take(i + 1), launcher, foreground) == if counts(seen[i], launcher, foreground) {
            live_in(seen.take(i), launcher, foreground).insert(seen[i].package@)
        } else {
            live_in(seen.take(i), launcher, foreground)
        },
{
    let a = seen.take(i);
    let b = seen.take(i + 1);
    assert forall|p: Seq<char>|
        live_in(b, launcher, foreground).contains(p) == (live_in(
            a,
            launcher,
            foreground,
        ).contains(p) || (counts(seen[i], launcher, foreground) && seen[i].package@ == p)) by {
        if live_in(a, launcher, foreground).contains(p) {
            let k = choose|k: int|
                0 <= k < a.len() && (#[trigger] a[k]).package@ == p && counts(
                    a[k],
                    launcher,
                    foreground,
                );
            assert(b[k].package@ == p);
        }
        if live_in(b, launcher, foreground).contains(p) {
            let k = choose|k: int|
                0 <= k < b.len() && (#[trigger] b[k]).package@ == p && counts(
                    b[k],
                    launcher,
                    foreground,
                );
            if k < i {
                assert(a[k].package@ == p);
            }
        }
        assert(b[i] == seen[i]);
    }
    if counts(seen[i], launcher, foreground) {
        assert(live_in(b, launcher, foreground) =~= live_in(a, launcher, foreground).insert(
            seen[i].package@,
        ));
    } else {
        assert(live_in(b, launcher, foreground) =~= live_in(a, launcher, foreground));
    }
}

/// What one tick looks at.
#[verifier::ext_equal]
pub struct Scene {
    pub launcher: Option<Seq<char>>,
    pub foreground: Option<Seq<char>>,
    pub seen: Seq<Seen>,
}

impl Scene {
    /// The packages with a process in the background.
    pub open spec fn live(self) -> Set<Seq<char>> {
        live_in(self.seen, self.launcher, self.foreground)
    }
}

/// The packages that a tick punishes harder, given what the tick before it looked at.
pub open spec fn escalated(before: Scene, now: Scene) -> Set<Seq<char>> {
    now.live().intersect(before.live())
}

/// The launcher, the package in the foreground and a blocked package are never punished harder;
/// neither is a package that was in the foreground, or had no process, one tick ago.
pub proof fn law_spared(before: Scene, now: Scene, p: Seq<char>)
    requires
        now.launcher == Some(p) || now.foreground == Some(p) || before.foreground == Some(p) || (
        forall|i: int|
            0 <= i < now.seen.len() && (#[trigger] now.seen[i]).package@ == p
                ==> now.seen[i].blocked) || (forall|i: int|
            0 <= i < before.seen.len() ==> (#[trigger] before.seen[i]).package@ != p),
    ensures
        !escalated(before, now).contains(p),
{
    if escalated(before, now).contains(p) {
        let i = choose|i: int|
            0 <= i < now.seen.len() && (#[trigger] now.seen[i]).package@ == p && counts(
                now.seen[i],
                now.launcher,
                now.foreground,
            );
        let j = choose|j: int|
            0 <= j < before.seen.len() && (#[trigger] before.seen[j]).package@ == p && counts(
                before.seen[j],
                before.launcher,
                before.foreground,
            );
        assert(now.seen[i].package@ == p);
        assert(before.seen[j].package@ == p);
    }
}

/// A package with a process in the background at two ticks in a row is punished harder at the
/// second.
pub proof fn law_two_ticks_in_a_row(before: Scene, now: Scene, i: int, j: int)
    requires
        0 <= i < before.seen.len(),
        0 <= j < now.seen.len(),
        before.seen[i].package@ == now.seen[j].package@,
        counts(before.seen[i], before.launcher, before.foreground),
        counts(now.seen[j], now.launcher, now.foreground),
    ensures
        escalated(before, now).contains(now.seen[j].package@),
{
}

/// A package counts as in the background exactly when some process of it was found that is not
/// blocked, and it is neither the launcher nor in the foreground.
pub proof fn law_in_the_background(
    seen: Seq<Seen>,
    launcher: Option<Seq<char>>,
    foreground: Option<Seq<char>>,
    p: Seq<char>,
)
    ensures
        live_in(seen, launcher, foreground).contains(p) <==> launcher != Some(p) && foreground
            != Some(p) && exists|i: int|
            0 <= i < seen.len() && (#[trigger] seen[i]).package@ == p && !seen[i].blocked,
{
    if exists|i: int| 0 <= i < seen.len() && (#[trigger] seen[i]).package@ == p && !seen[i].blocked {
        let i = choose|i: int|
            0 <= i < seen.len() && (#[trigger] seen[i]).package@ == p && !seen[i].blocked;
        assert(launcher != Some(p) && foreground != Some(p) ==> counts(
            seen[i],
            launcher,
            foreground,
        ));
    }
}

/// It makes no difference how the processes that were found are parted: what counts of the whole is
/// what counts of either part.
pub proof fn law_background_of_parts(
    a: Seq<Seen>,
    b: Seq<Seen>,
    launcher: Option<Seq<char>>,
    foreground: Option<Seq<char>>,
)
    ensures
        live_in(a + b, launcher, foreground) == live_in(a, launcher, foreground).union(
            live_in(b, launcher, foreground),
        ),
{
    let whole = live_in(a + b, launcher, foreground);
    let parts = live_in(a, launcher, foreground).union(live_in(b, launcher, foreground));
    assert forall|p: Seq<char>| whole.contains(p) == parts.contains(p) by {
        if live_in(a, launcher, foreground).contains(p) {
            let i = choose|i: int|
                0 <= i < a.len() && (#[trigger] a[i]).package@ == p && counts(
                    a[i],
                    launcher,
                    foreground,
                );
            assert((a + b)[i] == a[i]);
        }
        if live_in(b, launcher, foreground).contains(p) {
            let i = choose|i: int|
                0 <= i < b.len() && (#[trigger] b[i]).package@ == p && counts(
                    b[i],
                    launcher,
                    foreground,
                );
            assert((a + b)[a.len() + i] == b[i]);
        }
        if whole.contains(p) {
            let i = choose|i: int|
                0 <= i < (a + b).len() && (#[trigger] (a + b)[i]).package@ == p && counts(
                    (a + b)[i],
                    launcher,
                    foreground,
                );
            if i < a.len() {
                assert(a[i] == (a + b)[i]);
            } else {
                assert(b[i - a.len()] == (a + b)[i]);
            }
        }
    }
    assert(whole =~= parts);
}

/// A tick relieves right after the foreground is known, where there is a package in it, scans
/// then, and punishes one package after the other until all are.
pub proof fn law_steps_of_a_tick(event: TickEvent)
    ensures
        step_after(event) == TickStep::Relieve <==> event == TickEvent::Resolved(true),
        step_after(event) == TickStep::Scan <==> event == TickEvent::Resolved(false) || event
            == TickEvent::Relieved,
        step_after(event) matches TickStep::Escalate(k) ==> event matches TickEvent::Escalated(
            done,
            count,
        ) && k == done && done < count,
        step_after(event) == TickStep::End <==> (event matches TickEvent::Escalated(done, count)
            && done >= count),
{
}

} // verus!
