//! Preloading what comes to the foreground.

use crate::packages::Packages;
use crate::pids::PidSet;
use crate::readiness::{same_token, Readiness};
use coreshift_core::reactor::Token;
use vstd::hash_map::StringHashMap;
use vstd::prelude::*;

verus! {

/// The milliseconds before another attempt to reach the foreground service.
pub const CONNECT_RETRY_MS: u64 = 2000;

/// How an attempt to connect ended.
#[derive(Clone, Copy, Debug, PartialEq, Eq, Structural)]
pub enum Connect {
    /// There is a connection.
    Connected,
    /// There will be one later.
    InProgress,
    /// There is none.
    Failed,
}

/// The milliseconds to wait before another attempt, where there is to be one.
pub fn connect_again(outcome: Connect) -> (r: Option<u64>)
    ensures
        r == if outcome == Connect::Connected {
            None
        } else {
            Some(CONNECT_RETRY_MS)
        },
        outcome != Connect::Connected ==> r == Some(2000u64),
{
    match outcome {
        Connect::Connected => None,
        _ => Some(CONNECT_RETRY_MS),
    }
}

/// What an event asks for.
#[derive(Clone, Copy, Debug, PartialEq, Eq, Structural)]
pub enum Reaction {
    /// Nothing.
    Nothing,
    /// The foreground service is gone: end.
    End,
    /// Read what the foreground service sent.
    Read,
}

/// What an event asks for, of the handle of the foreground service.
pub fn on_event(event: &Readiness, foreground: Token) -> (r: Reaction)
    ensures
        r == if event.token != foreground {
            Reaction::Nothing
        } else if event.gone() {
            Reaction::End
        } else {
            Reaction::Read
        },
        r == Reaction::Nothing <==> event.token != foreground,
        r == Reaction::End <==> event.token == foreground && (event.hangup || event.error),
{
    if !same_token(event.token, foreground) {
        Reaction::Nothing
    } else if event.hangup || event.error {
        Reaction::End
    } else {
        Reaction::Read
    }
}

/// A package that comes to the foreground is to be preloaded: its processes are not those for
/// which it was preloaded last.
pub open spec fn due(
    hinted: Map<Seq<char>, Set<i32>>,
    pkg: Seq<char>,
    pids: Set<i32>,
) -> bool {
    !(hinted.contains_key(pkg) && hinted[pkg] == pids)
}

/// The processes for which each package was preloaded last.
pub struct Hinted {
    map: StringHashMap<PidSet>,
}

impl View for Hinted {
    type V = Map<Seq<char>, Set<i32>>;

    closed spec fn view(&self) -> Map<Seq<char>, Set<i32>> {
        self.map@.map_values(|set: PidSet| set@)
    }
}

impl Hinted {
    /// Nothing was preloaded.
    pub fn new() -> (r: Hinted)
        ensures
            r@ == Map::<Seq<char>, Set<i32>>::empty(),
    {
        let r = Hinted { map: StringHashMap::new() };
        assert(r@ == Map::<Seq<char>, Set<i32>>::empty());
        r
    }

    /// Whether a package is to be preloaded for these processes.
    pub fn is_due(&self, pkg: &str, pids: &PidSet) -> (r: bool)
        ensures
            r == due(self@, pkg@, pids@),
            !self@.contains_key(pkg@) ==> r,
            self@.contains_key(pkg@) ==> r == (self@[pkg@] != pids@),
    {
        match self.map.get(pkg) {
            Some(last) => !last.same(pids),
            None => true,
        }
    }

    /// Notes that a package was preloaded for these processes.
    pub fn note(&mut self, pkg: &str, pids: PidSet)
        ensures
            final(self)@ == old(self)@.insert(pkg@, pids@),
    {
        let ghost set = pids@;
        self.map.insert(pkg.to_string(), pids);
        assert(self@ == old(self)@.insert(pkg@, set));
    }
}

/// The user whose processes to look at when `pkg` comes to the foreground: none where it is no
/// third-party package.
pub fn foreground_uid(pkg: &str, packages: &Packages) -> (r: Option<u32>)
    ensures
        match r {
            Some(uid) => packages@.contains_key(pkg@) && uid == packages@[pkg@].0,
            None => !packages@.contains_key(pkg@),
        },
{
    match packages.get(pkg) {
        Some(info) => Some(info.uid),
        None => None,
    }
}

/// What comes to the foreground is `pkg`, with these processes of its user. The directory to
/// preload, where it is a third-party package and its processes are new; they are then
/// remembered.
pub fn on_foreground<'a>(
    pkg: &str,
    packages: &'a Packages,
    hinted: &mut Hinted,
    pids: PidSet,
) -> (r: Option<&'a str>)
    ensures
        r is Some <==> packages@.contains_key(pkg@) && due(old(hinted)@, pkg@, pids@),
        r matches Some(dir) ==> dir@ == packages@[pkg@].1,
        packages@.contains_key(pkg@) && !old(hinted)@.contains_key(pkg@) ==> r is Some,
        packages@.contains_key(pkg@) && old(hinted)@.contains_key(pkg@) ==> (r is Some <==> old(
            hinted,
        )@[pkg@] != pids@),
        final(hinted)@ == if r is Some {
            old(hinted)@.insert(pkg@, pids@)
        } else {
            old(hinted)@
        },
{
    match packages.get(pkg) {
        Some(info) => {
            if !hinted.is_due(pkg, &pids) {
                return None;
            }
            hinted.note(pkg, pids);
            Some(info.install_dir.as_str())
        },
        None => None,
    }
}

/// A package that was just preloaded is not due again for the same processes, is due for any
/// others, and whether other packages are due has not changed.
pub proof fn law_hint_once(
    hinted: Map<Seq<char>, Set<i32>>,
    pkg: Seq<char>,
    pids: Set<i32>,
    others: Set<i32>,
    other: Seq<char>,
)
    requires
        others != pids,
        other != pkg,
    ensures
        !due(hinted.insert(pkg, pids), pkg, pids),
        due(hinted.insert(pkg, pids), pkg, others),
        due(hinted.insert(pkg, pids), other, pids) == due(hinted, other, pids),
{
}

/// A package for which nothing was preloaded yet is due for every set of processes, the empty one
/// too. One for which it was is due for every set but that of the last time.
pub proof fn law_new_packages_are_due(
    hinted: Map<Seq<char>, Set<i32>>,
    pkg: Seq<char>,
    pids: Set<i32>,
)
    ensures
        !hinted.contains_key(pkg) ==> due(hinted, pkg, pids),
        hinted.contains_key(pkg) && pids == hinted[pkg] ==> !due(hinted, pkg, pids),
        hinted.contains_key(pkg) && pids != hinted[pkg] ==> due(hinted, pkg, pids),
        due(hinted.remove(pkg), pkg, pids),
{
}

} // verus!
