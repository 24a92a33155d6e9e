//! What the environment settles: the idle time, the fallback rates and the input devices.

use crate::numeral::{
    decimal, digit, law_digits_read_as_their_number, law_shortest_numeral, parse_u64, parsed,
};
use crate::refresh::rate::{valid_rate, well_written};
use crate::text::{
    joined, lemma_pieces_clean, lemma_pieces_part, lemma_pieces_whole, pieces, split, text_of,
    texts, Separator,
};
use vstd::prelude::*;

verus! {

pub const DEFAULT_IDLE_SEC: u64 = 5;

pub const DEFAULT_LOW_RATE: &'static str = "60";

pub const DEFAULT_HIGH_RATE: &'static str = "120";

pub const DEFAULT_INPUT: &'static str = "/dev/input/event2";

/// The settings of the policy.
#[derive(Debug)]
pub struct Config {
    /// Milliseconds without input after which the rate falls.
    pub idle_ms: u64,
    /// The low rate where the property holds none.
    pub default_low: String,
    /// The high rate where the property holds none.
    pub default_high: String,
    /// The input devices to watch.
    pub input_devices: Vec<String>,
}

impl Config {
    /// Both fallback rates are written as rates are.
    pub open spec fn wf(self) -> bool {
        well_written(self.default_low@) && well_written(self.default_high@)
    }
}

/// The devices that a list names: what stands between commas and whitespace.
pub open spec fn devices_in(s: Seq<char>) -> Seq<Seq<char>> {
    pieces(s, Separator::Field.pred()).filter(|p: Seq<char>| p.len() > 0)
}

/// A name that a device list can hold.
pub open spec fn device_name(name: Seq<char>) -> bool {
    name.len() > 0 && forall|i: int|
        0 <= i < name.len() ==> !Separator::Field.divides(#[trigger] name[i])
}

/// The idle time in seconds: the variable where it is a positive numeral, else the default.
pub open spec fn idle_sec(var: Option<Seq<char>>) -> int {
    match var {
        Some(v) => match parsed(v, 0, u64::MAX as int) {
            Ok(n) => if n > 0 {
                n
            } else {
                DEFAULT_IDLE_SEC as int
            },
            Err(_) => DEFAULT_IDLE_SEC as int,
        },
        None => DEFAULT_IDLE_SEC as int,
    }
}

/// The rate that a variable gives, or the fallback where it gives none.
pub open spec fn rate_or(var: Option<Seq<char>>, fallback: Seq<char>) -> Seq<char> {
    match var {
        Some(v) => if well_written(v) {
            v
        } else {
            fallback
        },
        None => fallback,
    }
}

/// The devices that a list names, in its order.
pub fn parse_devices(s: &str) -> (r: Vec<String>)
    ensures
        texts(r@) == devices_in(s@),
{
    let all: Vec<String> = split(s, Separator::Field);
    let mut out: Vec<String> = Vec::new();
    let mut i: usize = 0;
    let ghost keep = |p: Seq<char>| p.len() > 0;
    let ghost parts = texts(all@);
    proof {
        reveal(Seq::filter);
        assert(parts.take(0).filter(keep) == texts(out@));
    }
    while i < all.len()
        invariant
            i <= all.len(),
            parts == texts(all@),
            keep == (|p: Seq<char>| p.len() > 0),
            texts(out@) == parts.take(i as int).filter(keep),
        decreases all.len() - i,
    {
        let ghost before = out@;
        proof {
            parts.take(i as int).lemma_filter_push(parts[i as int], keep);
            assert(parts.take(i + 1) == parts.take(i as int).push(parts[i as int]));
        }
        if !all[i].as_str().is_empty() {
            out.push(all[i].clone());
            assert(texts(out@) == texts(before).push(parts[i as int]));
        }
        i += 1;
    }
    assert(parts.take(i as int) == parts);
    out
}

/// The idle time in seconds that the variable asks for.
pub fn idle_seconds(var: Option<&str>) -> (r: u64)
    ensures
        r == idle_sec(text_of(var)),
{
    match var {
        Some(v) => match parse_u64(v) {
            Ok(n) => if n > 0 {
                n
            } else {
                DEFAULT_IDLE_SEC
            },
            Err(_) => DEFAULT_IDLE_SEC,
        },
        None => DEFAULT_IDLE_SEC,
    }
}

fn chosen_rate(var: Option<&str>, fallback: &str) -> (r: String)
    ensures
        r@ == rate_or(text_of(var), fallback@),
{
    match var {
        Some(v) => if valid_rate(v) {
            v.to_string()
        } else {
            fallback.to_string()
        },
        None => fallback.to_string(),
    }
}

/// The settings that four environment variables give: idle seconds, low rate, high rate and
/// device list, each `None` where it is unset.
pub fn load_config(
    idle: Option<&str>,
    low: Option<&str>,
    high: Option<&str>,
    devices: Option<&str>,
) -> (r: Config)
    requires
        idle_sec(text_of(idle)) * 1000 <= u64::MAX,
    ensures
        r.wf(),
        r.idle_ms == idle_sec(text_of(idle)) * 1000,
        r.default_low@ == rate_or(text_of(low), DEFAULT_LOW_RATE@),
        r.default_high@ == rate_or(text_of(high), DEFAULT_HIGH_RATE@),
        texts(r.input_devices@) == devices_in(
            match devices {
                Some(list) => list@,
                None => DEFAULT_INPUT@,
            },
        ),
{
    proof {
        reveal_strlit("60");
        reveal_strlit("120");
    }
    let list: &str = match devices {
        Some(list) => list,
        None => DEFAULT_INPUT,
    };
    Config {
        idle_ms: idle_seconds(idle) * 1000,
        default_low: chosen_rate(low, DEFAULT_LOW_RATE),
        default_high: chosen_rate(high, DEFAULT_HIGH_RATE),
        input_devices: parse_devices(list),
    }
}

/// Every device that a list names is a device name: not empty, and free of separators.
pub proof fn law_devices_are_names(s: Seq<char>)
    ensures
        forall|i: int| 0 <= i < devices_in(s).len() ==> device_name(#[trigger] devices_in(s)[i]),
{
    let all = pieces(s, Separator::Field.pred());
    let keep = |p: Seq<char>| p.len() > 0;
    let devices = devices_in(s);
    lemma_pieces_clean(s, Separator::Field.pred());
    assert forall|i: int| 0 <= i < devices.len() implies device_name(#[trigger] devices[i]) by {
        all.lemma_filter_pred(keep, i);
        assert(all.filter(keep).contains(devices[i]));
        all.lemma_filter_contains_rev(keep, devices[i]);
        let k = choose|k: int| 0 <= k < all.len() && all[k] == devices[i];
        assert forall|j: int| 0 <= j < devices[i].len() implies !Separator::Field.divides(
            #[trigger] devices[i][j],
        ) by {
            assert(!Separator::Field.pred()(all[k][j]));
        }
    }
}

/// Device names written with spaces between them are read back as they are.
pub proof fn law_device_list_round_trip(names: Seq<Seq<char>>)
    requires
        forall|i: int| 0 <= i < names.len() ==> device_name(#[trigger] names[i]),
    ensures
        devices_in(joined(names, " "@)) == names,
    decreases names.len(),
{
    reveal_strlit(" ");
    let sep = Separator::Field.pred();
    let keep = |p: Seq<char>| p.len() > 0;
    reveal(Seq::filter);
    if names.len() == 0 {
        let empty = Seq::<char>::empty();
        lemma_pieces_whole(empty, sep);
        let none = Seq::<Seq<char>>::empty();
        none.lemma_filter_push(empty, keep);
        assert(none.push(empty) == seq![empty]);
        assert(none.filter(keep) == none);
    } else {
        let last = names.last();
        assert(device_name(names[names.len() - 1]));
        lemma_pieces_whole(last, sep);
        if names.len() == 1 {
            let none = Seq::<Seq<char>>::empty();
            none.lemma_filter_push(last, keep);
            assert(none.push(last) == seq![last]);
            assert(none.filter(keep) == none);
        } else {
            let init = names.drop_last();
            assert forall|i: int| 0 <= i < init.len() implies device_name(#[trigger] init[i]) by {
                assert(init[i] == names[i]);
            }
            law_device_list_round_trip(init);
            let head = joined(init, " "@);
            lemma_pieces_part(head, ' ', last, sep);
            assert(joined(names, " "@) == head.push(' ') + last);
            pieces(head, sep).lemma_filter_push(last, keep);
            assert(pieces(head, sep) + seq![last] == pieces(head, sep).push(last));
            assert(init.push(last) == names);
        }
    }
}

/// The idle time is the number of seconds that the variable writes, where it writes a number above
/// zero that fits; for anything else, and without a variable, it is five seconds.
pub proof fn law_idle_time(n: nat, text: Seq<char>)
    ensures
        0 < n <= u64::MAX ==> idle_sec(Some(decimal(n))) == n,
        n == 0 || n > u64::MAX ==> idle_sec(Some(decimal(n))) == 5,
        parsed(text, 0, u64::MAX as int) is Err ==> idle_sec(Some(text)) == 5,
        parsed(text, 0, u64::MAX as int) matches Ok(v) ==> idle_sec(Some(text)) == (if v > 0 {
            v
        } else {
            5
        }),
        idle_sec(None) == 5,
{
    law_shortest_numeral(n);
    law_digits_read_as_their_number(decimal(n), 0, u64::MAX as int);
}

/// A variable that is written as a rate is the rate; any other leaves the fallback.
pub proof fn law_rate_or_fallback(var: Seq<char>, fallback: Seq<char>)
    ensures
        rate_or(None, fallback) == fallback,
        var.len() > 0 && (forall|i: int|
            0 <= i < var.len() ==> '0' <= #[trigger] var[i] <= '9' || var[i] == '.') ==> rate_or(
            Some(var),
            fallback,
        ) == var,
        (exists|i: int|
            0 <= i < var.len() && !('0' <= #[trigger] var[i] <= '9') && var[i] != '.') || var.len()
            == 0 ==> rate_or(Some(var), fallback) == fallback,
{
    if exists|i: int| 0 <= i < var.len() && !('0' <= #[trigger] var[i] <= '9') && var[i] != '.' {
        let i = choose|i: int|
            0 <= i < var.len() && !('0' <= #[trigger] var[i] <= '9') && var[i] != '.';
        assert(!(digit(var[i]) || var[i] == '.'));
    }
}

/// A device list is read from the front: what stands before the first comma or whitespace is a
/// device, unless it is empty, and the rest is read in the same way.
pub proof fn law_device_by_device(name: Seq<char>, c: char, rest: Seq<char>)
    requires
        forall|i: int|
            0 <= i < name.len() ==> !([',', ' ', '\t', '\n', '\u{c}', '\r']@.contains(
                #[trigger] name[i],
            )),
        [',', ' ', '\t', '\n', '\u{c}', '\r']@.contains(c),
    ensures
        devices_in(name) == if name.len() > 0 {
            seq![name]
        } else {
            Seq::empty()
        },
        devices_in(name.push(c) + rest) == devices_in(name) + devices_in(rest),
{
    let sep = Separator::Field.pred();
    let keep = |p: Seq<char>| p.len() > 0;
    let dividers = [',', ' ', '\t', '\n', '\u{c}', '\r']@;
    assert(dividers[0] == ',' && dividers[1] == ' ' && dividers[2] == '\t' && dividers[3] == '\n'
        && dividers[4] == '\u{c}' && dividers[5] == '\r');
    assert forall|x: char| sep(x) == dividers.contains(x) by {
        if sep(x) {
            assert(dividers.contains(dividers[0]) && dividers.contains(dividers[1])
                && dividers.contains(dividers[2]) && dividers.contains(dividers[3])
                && dividers.contains(dividers[4]) && dividers.contains(dividers[5]));
        }
    }
    lemma_pieces_whole(name, sep);
    lemma_pieces_part(name, c, rest, sep);
    reveal(Seq::filter);
    let none = Seq::<Seq<char>>::empty();
    none.lemma_filter_push(name, keep);
    assert(none.push(name) == seq![name]);
    assert(none.filter(keep) == none);
    Seq::filter_distributes_over_add(pieces(name, sep), pieces(rest, sep), keep);
}

} // verus!
