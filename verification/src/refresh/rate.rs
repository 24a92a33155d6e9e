//! Refresh rates as the settings hold them: texts such as `60` or `59.94`.

use crate::numeral::{
    decimal, digit, law_digits_read_as_their_number, law_shortest_numeral, parse_i64, parsed,
    value_of, IntError,
};
use crate::text::{chars_of, find, first_place, lemma_first_place, same_text};
use vstd::prelude::*;

verus! {

/// A rate is written with digits and dots.
pub open spec fn well_written(v: Seq<char>) -> bool {
    v.len() > 0 && forall|i: int| 0 <= i < v.len() ==> digit(#[trigger] v[i]) || v[i] == '.'
}

/// What stands before the first dot.
pub open spec fn whole_part(v: Seq<char>) -> Seq<char> {
    v.take(first_place(v, '.'))
}

/// The whole number of hertz that a rate names.
pub open spec fn hertz(v: Seq<char>) -> Option<int> {
    match parsed(whole_part(v), i64::MIN as int, i64::MAX as int) {
        Ok(n) => Some(n),
        Err(_) => None,
    }
}

/// `a` is the higher rate of the two, by whole hertz.
pub open spec fn above(a: Seq<char>, b: Seq<char>) -> bool {
    hertz(a) is Some && hertz(b) is Some && hertz(a)->0 > hertz(b)->0
}

/// The two rates are the same, by whole hertz.
pub open spec fn level(a: Seq<char>, b: Seq<char>) -> bool {
    hertz(a) is Some && hertz(b) is Some && hertz(a)->0 == hertz(b)->0
}

/// The values of the switch property that turn the policy on.
pub open spec fn switched_on(value: Seq<char>) -> bool {
    ||| value == "1"@
    ||| value == "true"@
    ||| value == "TRUE"@
    ||| value == "yes"@
    ||| value == "YES"@
    ||| value == "on"@
    ||| value == "ON"@
}

/// Whether `v` can be a rate: not empty, digits and dots only.
pub fn valid_rate(v: &str) -> (r: bool)
    ensures
        r == well_written(v@),
{
    let chars: Vec<char> = chars_of(v);
    if chars.len() == 0 {
        return false;
    }
    let mut i: usize = 0;
    while i < chars.len()
        invariant
            i <= chars.len(),
            chars@ == v@,
            forall|j: int| 0 <= j < i ==> digit(#[trigger] v@[j]) || v@[j] == '.',
        decreases chars.len() - i,
    {
        let c: char = chars[i];
        if !(('0' <= c && c <= '9') || c == '.') {
            assert(!(digit(v@[i as int]) || v@[i as int] == '.'));
            return false;
        }
        i += 1;
    }
    true
}

/// The whole hertz of a rate: what stands before the first dot, where that is a numeral.
pub fn rate_int(v: &str) -> (r: Option<i64>)
    ensures
        match r {
            Some(n) => hertz(v@) == Some(n as int),
            None => hertz(v@) is None,
        },
{
    proof {
        lemma_first_place(v@, '.');
    }
    let end: usize = match find(v, '.') {
        Some(i) => i,
        None => v.unicode_len(),
    };
    let whole = v.substring_char(0, end);
    assert(whole@ == whole_part(v@));
    match parse_i64(whole) {
        Ok(n) => Some(n),
        Err(_) => None,
    }
}

/// Whether both rates can be read and `a` is the higher one.
pub fn rate_gt(a: &str, b: &str) -> (r: bool)
    ensures
        r == above(a@, b@),
        r <==> hertz(a@) is Some && hertz(b@) is Some && hertz(a@)->0 > hertz(b@)->0,
{
    match (rate_int(a), rate_int(b)) {
        (Some(x), Some(y)) => x > y,
        _ => false,
    }
}

/// Whether both rates can be read and name the same whole hertz.
pub fn same_rate(a: &str, b: &str) -> (r: bool)
    ensures
        r == level(a@, b@),
        r <==> hertz(a@) is Some && hertz(a@) == hertz(b@),
{
    match (rate_int(a), rate_int(b)) {
        (Some(x), Some(y)) => x == y,
        _ => false,
    }
}

/// Whether the value of the switch property turns the policy on.
pub fn dynamic_enabled(value: &str) -> (r: bool)
    ensures
        r == switched_on(value@),
{
    same_text(value, "1") || same_text(value, "true") || same_text(value, "TRUE") || same_text(
        value,
        "yes",
    ) || same_text(value, "YES") || same_text(value, "on") || same_text(value, "ON")
}

/// Of two rates that can be read, exactly one holds: the first is higher, the second is higher,
/// or they are the same.
pub proof fn law_rates_compare(a: Seq<char>, b: Seq<char>)
    requires
        hertz(a) is Some,
        hertz(b) is Some,
    ensures
        above(a, b) || above(b, a) || level(a, b),
        !(above(a, b) && above(b, a)),
        !(above(a, b) && level(a, b)),
        level(a, b) == level(b, a),
{
}

/// The order of rates is transitive, and rates that are the same stand at the same place in it.
pub proof fn law_rates_ordered(a: Seq<char>, b: Seq<char>, c: Seq<char>)
    ensures
        above(a, b) && above(b, c) ==> above(a, c),
        level(a, b) && level(b, c) ==> level(a, c),
        above(a, b) && level(b, c) ==> above(a, c),
        level(a, b) && above(b, c) ==> above(a, c),
{
}

/// A rate of digits, whatever follows a dot behind them, names the number that they write, where
/// that is in range; past the range it names none.
pub proof fn law_digits_name_the_hertz(digits: Seq<char>, rest: Seq<char>)
    requires
        digits.len() > 0,
        forall|i: int| 0 <= i < digits.len() ==> '0' <= #[trigger] digits[i] <= '9',
    ensures
        value_of(digits) <= i64::MAX ==> hertz(digits) == Some(value_of(digits)),
        value_of(digits) > i64::MAX ==> hertz(digits) is None,
        hertz(digits.push('.') + rest) == hertz(digits),
{
    law_digits_read_as_their_number(digits, i64::MIN as int, i64::MAX as int);
    law_hertz_before_the_dot(digits, rest);
}

/// Only what stands before the first dot counts, and it counts as the numeral that it is: what is
/// no numeral names no rate.
pub proof fn law_hertz_before_the_dot(whole: Seq<char>, rest: Seq<char>)
    requires
        !whole.contains('.'),
    ensures
        hertz(whole.push('.') + rest) == hertz(whole),
        hertz(whole) is None <==> parsed(whole, i64::MIN as int, i64::MAX as int) is Err,
        hertz(whole) matches Some(n) ==> parsed(whole, i64::MIN as int, i64::MAX as int) == Ok::<
            int,
            IntError,
        >(n),
{
    let long = whole.push('.') + rest;
    lemma_first_place(whole, '.');
    lemma_first_place(long, '.');
    let k = first_place(whole, '.');
    if k < whole.len() {
        assert(whole.contains(whole[k]));
    }
    let j = first_place(long, '.');
    if j < whole.len() {
        assert(whole[j] == long[j]);
    }
    assert(long[whole.len() as int] == '.');
    assert(long.take(whole.len() as int) == whole);
    assert(whole.take(whole.len() as int) == whole);
}

/// Numbers compare as rates as they do as numbers, whatever fractions are written behind them.
pub proof fn law_rates_compare_as_numbers(a: nat, x: Seq<char>, b: nat, y: Seq<char>)
    requires
        a <= i64::MAX,
        b <= i64::MAX,
    ensures
        above(decimal(a), decimal(b)) == (a > b),
        level(decimal(a), decimal(b)) == (a == b),
        above(decimal(a).push('.') + x, decimal(b).push('.') + y) == (a > b),
        level(decimal(a).push('.') + x, decimal(b)) == (a == b),
{
    law_shortest_numeral(a);
    law_shortest_numeral(b);
    law_digits_name_the_hertz(decimal(a), x);
    law_digits_name_the_hertz(decimal(b), y);
}

/// A text that names no rate is neither above nor level with any.
pub proof fn law_no_rate_compares(a: Seq<char>, b: Seq<char>)
    requires
        parsed(a, i64::MIN as int, i64::MAX as int) is Err,
        !a.contains('.'),
    ensures
        !above(a, b),
        !above(b, a),
        !level(a, b),
        !level(b, a),
{
    law_hertz_before_the_dot(a, Seq::empty());
}

/// A rate is written with at least one character, each a digit or a dot: one more such character
/// makes a rate of a rate, and any other does not.
pub proof fn law_rates_are_digits_and_dots(v: Seq<char>, c: char)
    ensures
        !well_written(Seq::<char>::empty()),
        well_written(seq![c]) <==> c == '.' || 48 <= c as int <= 57,
        v.len() > 0 ==> (well_written(v.push(c)) <==> well_written(v) && well_written(seq![c])),
{
    let w = v.push(c);
    assert(w[v.len() as int] == c);
    assert(seq![c][0] == c);
    if well_written(w) {
        assert forall|i: int| 0 <= i < v.len() implies digit(#[trigger] v[i]) || v[i] == '.' by {
            assert(w[i] == v[i]);
        }
    }
}

/// The policy is on for seven values of its property and off for all others.
pub proof fn law_seven_values_switch_on(value: Seq<char>)
    ensures
        switched_on(value) <==> seq![
            seq!['1'],
            seq!['t', 'r', 'u', 'e'],
            seq!['T', 'R', 'U', 'E'],
            seq!['y', 'e', 's'],
            seq!['Y', 'E', 'S'],
            seq!['o', 'n'],
            seq!['O', 'N'],
        ].contains(value),
{
    reveal_strlit("1");
    reveal_strlit("true");
    reveal_strlit("TRUE");
    reveal_strlit("yes");
    reveal_strlit("YES");
    reveal_strlit("on");
    reveal_strlit("ON");
    assert("1"@ == seq!['1']);
    assert("true"@ == seq!['t', 'r', 'u', 'e']);
    assert("TRUE"@ == seq!['T', 'R', 'U', 'E']);
    assert("yes"@ == seq!['y', 'e', 's']);
    assert("YES"@ == seq!['Y', 'E', 'S']);
    assert("on"@ == seq!['o', 'n']);
    assert("ON"@ == seq!['O', 'N']);
    let all = seq![
        seq!['1'],
        seq!['t', 'r', 'u', 'e'],
        seq!['T', 'R', 'U', 'E'],
        seq!['y', 'e', 's'],
        seq!['Y', 'E', 'S'],
        seq!['o', 'n'],
        seq!['O', 'N'],
    ];
    assert(all[0] == "1"@ && all[1] == "true"@ && all[2] == "TRUE"@ && all[3] == "yes"@ && all[4]
        == "YES"@ && all[5] == "on"@ && all[6] == "ON"@);
}

} // verus!
