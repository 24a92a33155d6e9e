//! The command line of the policy.

use crate::numeral::{decimal, digit, law_shortest_numeral};
use crate::refresh::daemon::Daemon;
use crate::refresh::props::{PROP_DYNAMIC, PROP_HIGH, PROP_LOW};
use crate::refresh::rate::{
    above, law_rates_compare_as_numbers, rate_gt, switched_on, valid_rate, well_written,
};
use crate::text::{label, labelled, same_text, starts_with, texts};
use vstd::prelude::*;

verus! {

/// The name under which the policy is called.
pub const COMMAND: &'static str = "dynamic-rr";

/// What is told of a `--set` that cannot be followed.
pub const SET_USAGE: &'static str = "usage: dynamic-rr --set LOW HIGH";

/// The exit code after a property could not be set.
pub const EXIT_FAILED: i32 = 1;

/// The exit code after a `--set` that cannot be followed.
pub const EXIT_USAGE: i32 = 2;

/// A property and the value that it is to get.
#[derive(Debug)]
pub struct Assignment {
    pub name: &'static str,
    pub value: String,
}

impl Assignment {
    /// The names of the property and of its value.
    pub open spec fn pair(self) -> (Seq<char>, Seq<char>) {
        (self.name@, self.value@)
    }
}

/// The properties and values of a list of assignments.
pub open spec fn pairs(list: Seq<Assignment>) -> Seq<(Seq<char>, Seq<char>)> {
    list.map_values(|a: Assignment| a.pair())
}

/// What a command line asks for.
#[derive(Debug)]
pub enum CliPlan {
    /// Nothing of this policy.
    NotOurs,
    /// The status.
    Status,
    /// To set these properties, in this order.
    Assign(Vec<Assignment>),
    /// Rates that cannot be set.
    Usage,
}

/// What comes next while properties are set.
#[derive(Clone, Copy, Debug, PartialEq, Eq, Structural)]
pub enum CliStep {
    /// Set the property at this place.
    Put(usize),
    /// All are set: tell of them.
    Report,
    /// One could not be set: give up.
    Fail,
}

/// The policy is called: an argument after the program's name begins with its name.
pub open spec fn called(args: Seq<Seq<char>>) -> bool {
    exists|i: int| 1 <= i < args.len() && COMMAND@.is_prefix_of(#[trigger] args[i])
}

/// The argument at a place, or what stands for it where there is none.
pub open spec fn arg_or(args: Seq<Seq<char>>, place: int, fallback: Seq<char>) -> Seq<char> {
    if place < args.len() {
        args[place]
    } else {
        fallback
    }
}

/// The two rates can be set: both are written as rates are, and the high one is above the low
/// one.
pub open spec fn settable(low: Seq<char>, high: Seq<char>) -> bool {
    well_written(low) && well_written(high) && above(high, low)
}

/// The argument at `place`, or `fallback` where there is none.
fn arg<'a>(args: &'a Vec<String>, place: usize, fallback: &'a str) -> (r: &'a str)
    ensures
        r@ == arg_or(texts(args@), place as int, fallback@),
{
    if place < args.len() {
        args[place].as_str()
    } else {
        fallback
    }
}

/// What the command line asks for.
pub fn handle_cli(args: &Vec<String>) -> (r: CliPlan)
    ensures
        ({
            let words = texts(args@);
            let sub = arg_or(words, 2, "--status"@);
            let low = arg_or(words, 3, ""@);
            let high = arg_or(words, 4, ""@);
            &&& r is Status <==> called(words) && sub == "--status"@
            &&& r is Assign <==> called(words) && (sub == "--enable"@ || sub == "--disable"@ || (sub
                == "--set"@ && settable(low, high)))
            &&& r is Usage <==> called(words) && sub == "--set"@ && !settable(low, high)
            &&& r matches CliPlan::Assign(list) ==> pairs(list@) == if sub == "--enable"@ {
                seq![(PROP_DYNAMIC@, "1"@)]
            } else if sub == "--disable"@ {
                seq![(PROP_DYNAMIC@, "0"@)]
            } else {
                seq![(PROP_LOW@, low), (PROP_HIGH@, high), (PROP_DYNAMIC@, "1"@)]
            }
        }),
{
    proof {
        reveal_strlit("--status");
        reveal_strlit("--enable");
        reveal_strlit("--disable");
        reveal_strlit("--set");
        assert("--status"@[2] != "--enable"@[2]);
        assert("--status"@[2] != "--disable"@[2]);
        assert("--status"@.len() != "--set"@.len());
        assert("--enable"@[2] != "--disable"@[2]);
        assert("--enable"@[2] != "--set"@[2]);
        assert("--disable"@[2] != "--set"@[2]);
    }
    let ghost words = texts(args@);
    let mut found: bool = false;
    let mut i: usize = 1;
    while i < args.len()
        invariant
            1 <= i,
            words == texts(args@),
            found == exists|k: int|
                1 <= k < i && k < words.len() && COMMAND@.is_prefix_of(#[trigger] words[k]),
        decreases args.len() - i,
    {
        if starts_with(args[i].as_str(), COMMAND) {
            assert(COMMAND@.is_prefix_of(words[i as int]));
            found = true;
        }
        i += 1;
    }
    assert(found == called(words));
    if !found {
        return CliPlan::NotOurs;
    }
    let sub = arg(args, 2, "--status");
    if same_text(sub, "--status") {
        return CliPlan::Status;
    }
    let mut list: Vec<Assignment> = Vec::new();
    if same_text(sub, "--enable") {
        list.push(Assignment { name: PROP_DYNAMIC, value: "1".to_string() });
        assert(pairs(list@) == seq![(PROP_DYNAMIC@, "1"@)]);
        return CliPlan::Assign(list);
    }
    if same_text(sub, "--disable") {
        list.push(Assignment { name: PROP_DYNAMIC, value: "0".to_string() });
        assert(pairs(list@) == seq![(PROP_DYNAMIC@, "0"@)]);
        return CliPlan::Assign(list);
    }
    if same_text(sub, "--set") {
        let low = arg(args, 3, "");
        let high = arg(args, 4, "");
        if !valid_rate(low) || !valid_rate(high) || !rate_gt(high, low) {
            return CliPlan::Usage;
        }
        list.push(Assignment { name: PROP_LOW, value: low.to_string() });
        list.push(Assignment { name: PROP_HIGH, value: high.to_string() });
        list.push(Assignment { name: PROP_DYNAMIC, value: "1".to_string() });
        assert(pairs(list@) == seq![(PROP_LOW@, low@), (PROP_HIGH@, high@), (PROP_DYNAMIC@, "1"@)]);
        return CliPlan::Assign(list);
    }
    CliPlan::NotOurs
}

/// What comes next when `count` properties are to be set and setting the first of them gave
/// `replies`. They are set in order, up to the first that cannot be.
pub fn cli_next(count: usize, replies: &Vec<bool>) -> (r: CliStep)
    requires
        replies@.len() <= count,
    ensures
        replies@.contains(false) ==> r == CliStep::Fail,
        !replies@.contains(false) ==> r == if replies@.len() < count {
            CliStep::Put(replies@.len() as usize)
        } else {
            CliStep::Report
        },
{
    let mut i: usize = 0;
    while i < replies.len()
        invariant
            i <= replies.len(),
            forall|k: int| 0 <= k < i ==> replies@[k],
        decreases replies.len() - i,
    {
        if !replies[i] {
            assert(replies@[i as int] == false);
            return CliStep::Fail;
        }
        i += 1;
    }
    if replies.len() < count {
        CliStep::Put(replies.len())
    } else {
        CliStep::Report
    }
}

/// The lines that tell of properties that were set.
pub fn report(list: &Vec<Assignment>) -> (r: Vec<String>)
    ensures
        texts(r@) == pairs(list@).map_values(
            |p: (Seq<char>, Seq<char>)| labelled(p.0, p.1),
        ),
        r@.len() == list@.len(),
        forall|i: int|
            0 <= i < r@.len() ==> (#[trigger] r@[i])@ == list@[i].name@ + "="@ + list@[i].value@,
{
    let mut lines: Vec<String> = Vec::new();
    let mut i: usize = 0;
    while i < list.len()
        invariant
            i <= list.len(),
            lines@.len() == i,
            forall|k: int| 0 <= k < i ==> #[trigger] lines@[k]@ == labelled(
                list@[k].name@,
                list@[k].value@,
            ),
        decreases list.len() - i,
    {
        lines.push(label(list[i].name, list[i].value.as_str()));
        i += 1;
    }
    lines
}

/// Rates that the command line can set are the rates that the policy then uses, and switching on
/// and off by the command line switches the policy on and off.
pub proof fn law_set_rates_are_used(daemon: Daemon, low: Seq<char>, high: Seq<char>)
    requires
        settable(low, high),
    ensures
        daemon.rates_usable(low, high),
        daemon.wanted_low(low) == low,
        daemon.wanted_high(high) == high,
        switched_on("1"@),
        !switched_on("0"@),
{
    reveal_strlit("0");
    reveal_strlit("1");
    reveal_strlit("true");
    reveal_strlit("TRUE");
    reveal_strlit("yes");
    reveal_strlit("YES");
    reveal_strlit("on");
    reveal_strlit("ON");
    assert("0"@[0] != "1"@[0]);
}

/// Two whole numbers can be set as rates exactly when the high one is the greater.
pub proof fn law_whole_numbers_can_be_set(low: nat, high: nat)
    requires
        low <= i64::MAX,
        high <= i64::MAX,
    ensures
        settable(decimal(low), decimal(high)) == (high > low),
{
    law_shortest_numeral(low);
    law_shortest_numeral(high);
    assert forall|i: int| 0 <= i < decimal(low).len() implies digit(#[trigger] decimal(low)[i]) by {
        assert('0' <= decimal(low)[i] <= '9');
    }
    assert forall|i: int| 0 <= i < decimal(high).len() implies digit(
        #[trigger] decimal(high)[i],
    ) by {
        assert('0' <= decimal(high)[i] <= '9');
    }
    law_rates_compare_as_numbers(high, Seq::empty(), low, Seq::empty());
}

/// Rates that can be set are written with digits and dots and are in order; a text with anything
/// else in it cannot be set, on either side.
pub proof fn law_only_rates_can_be_set(low: Seq<char>, high: Seq<char>, i: int)
    requires
        settable(low, high),
    ensures
        low.len() > 0,
        high.len() > 0,
        0 <= i < low.len() ==> '0' <= low[i] <= '9' || low[i] == '.',
        0 <= i < high.len() ==> '0' <= high[i] <= '9' || high[i] == '.',
        above(high, low),
        !settable(high, low),
{
    if 0 <= i < low.len() {
        assert(digit(low[i]) || low[i] == '.');
    }
    if 0 <= i < high.len() {
        assert(digit(high[i]) || high[i] == '.');
    }
}

/// Two texts of digits and dots can be set exactly when the high one is above the low one.
pub proof fn law_rates_in_order_can_be_set(low: Seq<char>, high: Seq<char>)
    requires
        low.len() > 0,
        high.len() > 0,
        forall|i: int| 0 <= i < low.len() ==> '0' <= #[trigger] low[i] <= '9' || low[i] == '.',
        forall|i: int| 0 <= i < high.len() ==> '0' <= #[trigger] high[i] <= '9' || high[i] == '.',
    ensures
        settable(low, high) <==> above(high, low),
{
}

/// The policy is called by any argument but the first that starts with its name, and by no other
/// command line; an argument more does not change that it is called.
pub proof fn law_called_by_name(args: Seq<Seq<char>>, more: Seq<char>)
    ensures
        called(args) <==> exists|i: int|
            1 <= i < args.len() && (#[trigger] args[i]).len() >= 10 && args[i].take(10) == seq![
                'd',
                'y',
                'n',
                'a',
                'm',
                'i',
                'c',
                '-',
                'r',
                'r',
            ],
        called(args) ==> called(args.push(more)),
{
    reveal_strlit("dynamic-rr");
    let name = seq!['d', 'y', 'n', 'a', 'm', 'i', 'c', '-', 'r', 'r'];
    assert(COMMAND@ == name);
    assert forall|a: Seq<char>| #[trigger] COMMAND@.is_prefix_of(a) == (a.len() >= 10 && a.take(10)
        == name) by {
        if a.len() >= 10 {
            assert(a.subrange(0, 10) == a.take(10));
        }
    }
    if called(args) {
        let i = choose|i: int| 1 <= i < args.len() && COMMAND@.is_prefix_of(#[trigger] args[i]);
        assert(args.push(more)[i] == args[i]);
        assert(args[i].len() >= 10 && args[i].take(10) == name);
    }
    if exists|i: int|
        1 <= i < args.len() && (#[trigger] args[i]).len() >= 10 && args[i].take(10) == name {
        let i = choose|i: int|
            1 <= i < args.len() && (#[trigger] args[i]).len() >= 10 && args[i].take(10) == name;
        assert(COMMAND@.is_prefix_of(args[i]));
    }
}

/// An argument that is given is taken as it is; one that is not leaves the fallback.
pub proof fn law_given_arguments(args: Seq<Seq<char>>, place: int, fallback: Seq<char>)
    requires
        0 <= place,
    ensures
        place < args.len() ==> arg_or(args, place, fallback) == args[place],
        place >= args.len() ==> arg_or(args, place, fallback) == fallback,
{
}

/// Assignments are told as they are, one for one.
pub proof fn law_assignments_one_for_one(list: Seq<Assignment>)
    ensures
        pairs(list).len() == list.len(),
        forall|i: int|
            0 <= i < list.len() ==> #[trigger] pairs(list)[i] == (list[i].name@, list[i].value@),
        EXIT_FAILED == 1,
        EXIT_USAGE == 2,
        SET_USAGE@ == "usage: dynamic-rr --set LOW HIGH"@,
{
}

} // verus!
