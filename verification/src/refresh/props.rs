//! The properties of the policy, and how they are watched.

use crate::command::slices;
use vstd::prelude::*;

verus! {

/// The property that switches the policy on and off.
pub const PROP_DYNAMIC: &'static str = "persist.inoi.refresh.dynamic";

/// The property that holds the low rate.
pub const PROP_LOW: &'static str = "persist.inoi.refresh.low";

/// The property that holds the high rate.
pub const PROP_HIGH: &'static str = "persist.inoi.refresh.high";

/// The milliseconds before another attempt to find a property.
pub const FIND_RETRY_MS: u64 = 1000;

/// The milliseconds of pause after waiting for a property failed.
pub const WAIT_PAUSE_MS: u64 = 200;

/// The properties whose changes are followed.
pub fn watched_props() -> (r: [&'static str; 3])
    ensures
        slices(r@) == seq![PROP_DYNAMIC@, PROP_LOW@, PROP_HIGH@],
{
    let list: [&'static str; 3] = [PROP_DYNAMIC, PROP_LOW, PROP_HIGH];
    assert(slices(list@) == seq![PROP_DYNAMIC@, PROP_LOW@, PROP_HIGH@]);
    list
}

} // verus!
