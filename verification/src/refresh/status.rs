//! What the status command tells.

use crate::numeral::{decimal, decimal_text};
use crate::refresh::daemon::Daemon;
use crate::refresh::props::{PROP_DYNAMIC, PROP_HIGH, PROP_LOW};
use crate::text::{join, joined, label, labelled, texts};
use vstd::prelude::*;

verus! {

/// What was read of the system.
#[derive(Debug)]
pub struct Observed {
    pub dynamic: String,
    pub low: String,
    pub high: String,
    pub min_setting: String,
    pub peak_setting: String,
}

/// The lines that tell the state of `daemon` and of the system, without the rates chosen.
pub open spec fn told(daemon: Daemon, seen: Observed) -> Seq<Seq<char>> {
    seq![
        labelled("prop"@, labelled(PROP_DYNAMIC@, seen.dynamic@)),
        labelled("prop_low"@, labelled(PROP_LOW@, seen.low@)),
        labelled("prop_high"@, labelled(PROP_HIGH@, seen.high@)),
        labelled("idle_ms"@, decimal(daemon.config.idle_ms as nat)),
        labelled("input_devices"@, joined(texts(daemon.config.input_devices@), " "@)),
        labelled("current_min_refresh_rate"@, seen.min_setting@),
        labelled("current_peak_refresh_rate"@, seen.peak_setting@),
    ]
}

/// The lines that tell the rates chosen of two property values.
pub open spec fn told_rates(
    daemon: Daemon,
    low_prop: Seq<char>,
    high_prop: Seq<char>,
) -> Seq<Seq<char>> {
    if daemon.rates_usable(low_prop, high_prop) {
        seq![
            labelled("chosen_low_rate"@, daemon.wanted_low(low_prop)),
            labelled("chosen_high_rate"@, daemon.wanted_high(high_prop)),
        ]
    } else {
        seq![labelled("chosen_low_rate"@, "none"@), labelled("chosen_high_rate"@, "none"@)]
    }
}

/// The lines of the status: what was observed, then the rates that the two properties lead to.
pub fn print_status(
    daemon: &mut Daemon,
    seen: &Observed,
    low_prop: &str,
    high_prop: &str,
) -> (r: Vec<String>)
    ensures
        texts(r@) == told(*old(daemon), *seen) + told_rates(*old(daemon), low_prop@, high_prop@),
        final(daemon).same_but_rates(*old(daemon)),
        old(daemon).rates_usable(low_prop@, high_prop@) ==> final(daemon).low_rate@ == old(
            daemon,
        ).wanted_low(low_prop@) && final(daemon).high_rate@ == old(daemon).wanted_high(high_prop@),
        !old(daemon).rates_usable(low_prop@, high_prop@) ==> *final(daemon) == *old(daemon),
{
    let mut lines: Vec<String> = Vec::new();
    lines.push(label("prop", label(PROP_DYNAMIC, seen.dynamic.as_str()).as_str()));
    lines.push(label("prop_low", label(PROP_LOW, seen.low.as_str()).as_str()));
    lines.push(label("prop_high", label(PROP_HIGH, seen.high.as_str()).as_str()));
    lines.push(label("idle_ms", decimal_text(daemon.config.idle_ms).as_str()));
    lines.push(label("input_devices", join(&daemon.config.input_devices, " ").as_str()));
    lines.push(label("current_min_refresh_rate", seen.min_setting.as_str()));
    lines.push(label("current_peak_refresh_rate", seen.peak_setting.as_str()));
    assert(texts(lines@) == told(*old(daemon), *seen));
    let ghost before = lines@;
    if daemon.load_rates(low_prop, high_prop) {
        lines.push(label("chosen_low_rate", daemon.low_rate.as_str()));
        lines.push(label("chosen_high_rate", daemon.high_rate.as_str()));
    } else {
        lines.push(label("chosen_low_rate", "none"));
        lines.push(label("chosen_high_rate", "none"));
    }
    assert(texts(lines@) == texts(before) + told_rates(*old(daemon), low_prop@, high_prop@));
    lines
}

/// The status has a line for each of seven values, each under its own name and as it was read, and
/// two for the rates.
pub proof fn law_lines_of_the_status(daemon: Daemon, seen: Observed, low: Seq<char>, high: Seq<char>)
    ensures
        told(daemon, seen).len() == 7,
        told(daemon, seen)[0] == "prop"@ + "="@ + ("persist.inoi.refresh.dynamic"@ + "="@
            + seen.dynamic@),
        told(daemon, seen)[1] == "prop_low"@ + "="@ + ("persist.inoi.refresh.low"@ + "="@
            + seen.low@),
        told(daemon, seen)[2] == "prop_high"@ + "="@ + ("persist.inoi.refresh.high"@ + "="@
            + seen.high@),
        told(daemon, seen)[3] == "idle_ms"@ + "="@ + decimal(daemon.config.idle_ms as nat),
        told(daemon, seen)[4] == "input_devices"@ + "="@ + joined(
            texts(daemon.config.input_devices@),
            " "@,
        ),
        told(daemon, seen)[5] == "current_min_refresh_rate"@ + "="@ + seen.min_setting@,
        told(daemon, seen)[6] == "current_peak_refresh_rate"@ + "="@ + seen.peak_setting@,
        told_rates(daemon, low, high).len() == 2,
        daemon.rates_usable(low, high) ==> {
            &&& told_rates(daemon, low, high)[0] == "chosen_low_rate"@ + "="@ + daemon.wanted_low(
                low,
            )
            &&& told_rates(daemon, low, high)[1] == "chosen_high_rate"@ + "="@
                + daemon.wanted_high(high)
        },
        !daemon.rates_usable(low, high) ==> {
            &&& told_rates(daemon, low, high)[0] == "chosen_low_rate"@ + "="@ + "none"@
            &&& told_rates(daemon, low, high)[1] == "chosen_high_rate"@ + "="@ + "none"@
        },
{
}

} // verus!
