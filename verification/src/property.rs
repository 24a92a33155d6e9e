//! Watching a system property for changes.

use vstd::prelude::*;

verus! {

/// How waiting for a change ended.
#[derive(Clone, Copy, Debug, PartialEq, Eq, Structural)]
pub enum Wait {
    /// The property has this serial number now.
    Changed(u32),
    /// There was no change.
    Unchanged,
    /// Waiting failed.
    Failed,
}

/// What a watcher does next.
#[derive(Clone, Copy, Debug, PartialEq, Eq, Structural)]
pub enum Watched {
    /// Tell of the change.
    Tell,
    /// Wait again.
    Again,
    /// Wait again after this many milliseconds.
    Pause(u64),
}

/// A watcher of one property.
#[derive(Clone, Copy, Debug, PartialEq, Eq, Structural)]
pub struct PropWatch {
    /// The serial number seen last.
    pub serial: u32,
    /// The milliseconds to pause after a failure, where there is to be a pause.
    pub pause_ms: Option<u64>,
}

impl PropWatch {
    /// A watcher that starts from the property's serial number, or from 0 where that is unknown.
    pub fn new(serial: Option<u32>, pause_ms: Option<u64>) -> (r: PropWatch)
        ensures
            r.pause_ms == pause_ms,
            r.serial == (match serial {
                Some(s) => s,
                None => 0,
            }),
    {
        let start: u32 = match serial {
            Some(s) => s,
            None => 0,
        };
        PropWatch { serial: start, pause_ms }
    }

    /// Takes in how a wait ended. Only a change moves the serial number and is told of.
    pub fn waited(&mut self, wait: Wait) -> (r: Watched)
        ensures
            final(self).pause_ms == old(self).pause_ms,
            final(self).serial == (match wait {
                Wait::Changed(s) => s,
                _ => old(self).serial,
            }),
            r == (match wait {
                Wait::Changed(_) => Watched::Tell,
                Wait::Unchanged => Watched::Again,
                Wait::Failed => match old(self).pause_ms {
                    Some(ms) => Watched::Pause(ms),
                    None => Watched::Again,
                },
            }),
    {
        match wait {
            Wait::Changed(s) => {
                self.serial = s;
                Watched::Tell
            },
            Wait::Unchanged => Watched::Again,
            Wait::Failed => match self.pause_ms {
                Some(ms) => Watched::Pause(ms),
                None => Watched::Again,
            },
        }
    }
}

} // verus!
