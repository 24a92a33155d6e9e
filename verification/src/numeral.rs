//! Decimal numerals: reading them into bounded integers and writing them out.

use crate::text::{chars_of, trimmed};
use vstd::prelude::*;

verus! {

/// Why a text is not the numeral of an integer in range.
#[derive(Clone, Copy, Debug, PartialEq, Eq, Structural)]
pub enum IntError {
    /// There is no character at all.
    Empty,
    /// A character stands where a digit is needed, or a sign stands alone.
    InvalidDigit,
    /// The digits go past the upper bound.
    PosOverflow,
    /// The digits go past the lower bound.
    NegOverflow,
}

pub open spec fn digit(c: char) -> bool {
    '0' <= c <= '9'
}

pub open spec fn digit_value(c: char) -> int {
    c as int - '0' as int
}

pub open spec fn all_digits(s: Seq<char>) -> bool {
    forall|i: int| 0 <= i < s.len() ==> digit(#[trigger] s[i])
}

/// The number that a run of digits writes in base ten.
pub open spec fn value_of(s: Seq<char>) -> int
    decreases s.len(),
{
    if s.len() == 0 {
        0
    } else {
        value_of(s.drop_last()) * 10 + digit_value(s.last())
    }
}

/// Reads digits from left to right within `lo..=hi`. The first place at which a character is no
/// digit, or at which the number so far leaves the range, decides the error.
pub open spec fn scanned(s: Seq<char>, negative: bool, lo: int, hi: int) -> Result<int, IntError>
    decreases s.len(),
{
    if s.len() == 0 {
        Ok(0)
    } else {
        match scanned(s.drop_last(), negative, lo, hi) {
            Err(e) => Err(e),
            Ok(v) => {
                let d = digit_value(s.last());
                if !digit(s.last()) {
                    Err(IntError::InvalidDigit)
                } else if negative && v * 10 - d < lo {
                    Err(IntError::NegOverflow)
                } else if negative {
                    Ok(v * 10 - d)
                } else if v * 10 + d > hi {
                    Err(IntError::PosOverflow)
                } else {
                    Ok(v * 10 + d)
                }
            },
        }
    }
}

/// Reads a numeral of an integer in `lo..=hi`: an optional `+`, or `-` where negative numbers are
/// in range, then digits.
pub open spec fn parsed(s: Seq<char>, lo: int, hi: int) -> Result<int, IntError> {
    if s.len() == 0 {
        Err(IntError::Empty)
    } else if s.len() == 1 && (s[0] == '+' || s[0] == '-') {
        Err(IntError::InvalidDigit)
    } else if s[0] == '+' {
        scanned(s.skip(1), false, lo, hi)
    } else if s[0] == '-' && lo < 0 {
        scanned(s.skip(1), true, lo, hi)
    } else {
        scanned(s, false, lo, hi)
    }
}

/// The digits of a numeral, without its sign.
pub open spec fn unsigned_part(s: Seq<char>, signed: bool) -> Seq<char> {
    if s.len() > 0 && (s[0] == '+' || (s[0] == '-' && signed)) {
        s.skip(1)
    } else {
        s
    }
}

/// The integer that a numeral denotes, whatever its size.
pub open spec fn denoted(s: Seq<char>, signed: bool) -> Option<int> {
    let digits = unsigned_part(s, signed);
    if digits.len() == 0 || !all_digits(digits) {
        None
    } else if s[0] == '-' {
        Some(-value_of(digits))
    } else {
        Some(value_of(digits))
    }
}

pub open spec fn digit_char(d: int) -> char {
    ('0' as int + d) as char
}

/// The shortest numeral of `n`.
pub open spec fn decimal(n: nat) -> Seq<char>
    decreases n,
{
    if n < 10 {
        seq![digit_char(n as int)]
    } else {
        decimal(n / 10).push(digit_char((n % 10) as int))
    }
}

/// The shortest numeral of `v`, with a `-` before it where `v` is negative.
pub open spec fn signed_decimal(v: int) -> Seq<char> {
    if v < 0 {
        seq!['-'] + decimal((-v) as nat)
    } else {
        decimal(v as nat)
    }
}

proof fn lemma_value_nonnegative(s: Seq<char>)
    requires
        all_digits(s),
    ensures
        0 <= value_of(s),
    decreases s.len(),
{
    if s.len() > 0 {
        assert(all_digits(s.drop_last()));
        lemma_value_nonnegative(s.drop_last());
        assert(digit(s[s.len() - 1]));
    }
}

proof fn lemma_scanned(s: Seq<char>, negative: bool, lo: int, hi: int)
    requires
        lo <= 0 <= hi,
    ensures
        scanned(s, negative, lo, hi) matches Ok(v) ==> all_digits(s) && lo <= v <= hi && v == if negative {
            -value_of(s)
        } else {
            value_of(s)
        },
        (all_digits(s) && (if negative {
            lo <= -value_of(s)
        } else {
            value_of(s) <= hi
        })) ==> scanned(s, negative, lo, hi) is Ok,
    decreases s.len(),
{
    if s.len() > 0 {
        let init = s.drop_last();
        lemma_scanned(init, negative, lo, hi);
        if scanned(s, negative, lo, hi) is Ok {
            assert forall|i: int| 0 <= i < s.len() implies digit(#[trigger] s[i]) by {
                if i < init.len() {
                    assert(digit(init[i]));
                }
            }
            lemma_value_nonnegative(s);
        }
        if all_digits(s) {
            assert(all_digits(init));
            assert(digit(s[s.len() - 1]));
            lemma_value_nonnegative(init);
        }
    }
}

/// A text reads as `v` exactly when it is a numeral that denotes `v` and `v` is in range.
pub proof fn law_parsed_is_denoted(s: Seq<char>, lo: int, hi: int, v: int)
    requires
        lo <= 0 <= hi,
    ensures
        parsed(s, lo, hi) == Ok::<int, IntError>(v) <==> denoted(s, lo < 0) == Some(v) && lo <= v
            <= hi,
{
    let digits = unsigned_part(s, lo < 0);
    lemma_scanned(digits, false, lo, hi);
    lemma_scanned(digits, true, lo, hi);
    if all_digits(digits) {
        lemma_value_nonnegative(digits);
    }
    if s.len() == 1 && s[0] == '-' && lo == 0 {
        assert(!digit(digits[0]));
    }
    if s.len() > 1 && s[0] == '-' && lo == 0 {
        assert(!digit(digits[0]));
    }
}

/// The numeral of a number is made of digits and has its value.
pub proof fn lemma_decimal(n: nat)
    ensures
        decimal(n).len() > 0,
        all_digits(decimal(n)),
        value_of(decimal(n)) == n,
    decreases n,
{
    if n < 10 {
        let s = decimal(n);
        assert(s.drop_last() == Seq::<char>::empty());
        assert(value_of(s.drop_last()) == 0);
    } else {
        lemma_decimal(n / 10);
        let s = decimal(n);
        assert(s.drop_last() == decimal(n / 10));
        assert forall|i: int| 0 <= i < s.len() implies digit(#[trigger] s[i]) by {
            if i < s.len() - 1 {
                assert(digit(decimal(n / 10)[i]));
            }
        }
    }
}

/// What is written of an integer reads back as that integer, wherever it is in range.
pub proof fn law_numeral_round_trip(v: int, lo: int, hi: int)
    requires
        lo <= v <= hi,
        lo <= 0 <= hi,
    ensures
        parsed(signed_decimal(v), lo, hi) == Ok::<int, IntError>(v),
{
    let s = signed_decimal(v);
    let n: nat = if v < 0 { (-v) as nat } else { v as nat };
    lemma_decimal(n);
    assert(digit(decimal(n)[0]));
    if v < 0 {
        assert(s.skip(1) == decimal(n));
    }
    law_parsed_is_denoted(s, lo, hi, v);
}

/// There is no whitespace around what is written of an integer.
pub proof fn lemma_trimmed_numeral(v: int)
    ensures
        trimmed(signed_decimal(v)) == signed_decimal(v),
{
    let n: nat = if v < 0 { (-v) as nat } else { v as nat };
    let s = decimal(n);
    lemma_decimal(n);
    assert(digit(s[0]));
    assert(digit(s[s.len() - 1]));
}

/// Reads the digits of `chars` from `from` on.
fn scan(chars: &Vec<char>, from: usize, negative: bool, lo: i128, hi: i128) -> (r: Result<
    i128,
    IntError,
>)
    requires
        from <= chars.len(),
        -0x1_0000_0000_0000_0000 <= lo <= 0,
        0 <= hi <= 0x1_0000_0000_0000_0000,
    ensures
        match r {
            Ok(v) => scanned(chars@.skip(from as int), negative, lo as int, hi as int) == Ok::<
                int,
                IntError,
            >(v as int),
            Err(e) => scanned(chars@.skip(from as int), negative, lo as int, hi as int) == Err::<
                int,
                IntError,
            >(e),
        },
{
    let ghost all = chars@.skip(from as int);
    let mut value: i128 = 0;
    let mut i: usize = from;
    assert(all.take(0) == Seq::<char>::empty());
    while i < chars.len()
        invariant
            from <= i <= chars.len(),
            all == chars@.skip(from as int),
            -0x1_0000_0000_0000_0000 <= lo <= 0,
            0 <= hi <= 0x1_0000_0000_0000_0000,
            lo <= value <= hi,
            negative ==> value <= 0,
            !negative ==> 0 <= value,
            scanned(all.take(i - from), negative, lo as int, hi as int) == Ok::<int, IntError>(
                value as int,
            ),
        decreases chars.len() - i,
    {
        let c: char = chars[i];
        proof {
            let read = all.take(i - from + 1);
            assert(read.drop_last() == all.take(i - from));
            assert(read.last() == c);
            lemma_scanned_error(all, i - from + 1, negative, lo as int, hi as int);
        }
        if !('0' <= c && c <= '9') {
            return Err(IntError::InvalidDigit);
        }
        let d: i128 = (c as u32 - '0' as u32) as i128;
        if negative {
            if value * 10 - d < lo {
                return Err(IntError::NegOverflow);
            }
            value = value * 10 - d;
        } else {
            if value * 10 + d > hi {
                return Err(IntError::PosOverflow);
            }
            value = value * 10 + d;
        }
        i += 1;
    }
    assert(all.take(i - from) == all);
    Ok(value)
}

/// An error that the first `n` characters give is the error of the whole.
proof fn lemma_scanned_error(s: Seq<char>, n: int, negative: bool, lo: int, hi: int)
    requires
        0 <= n <= s.len(),
    ensures
        scanned(s.take(n), negative, lo, hi) is Err ==> scanned(s, negative, lo, hi) == scanned(
            s.take(n),
            negative,
            lo,
            hi,
        ),
    decreases s.len() - n,
{
    if n < s.len() {
        lemma_scanned_error(s, n + 1, negative, lo, hi);
        assert(s.take(n + 1).drop_last() == s.take(n));
    } else {
        assert(s.take(n) == s);
    }
}

/// Reads a numeral of an integer in `lo..=hi`.
pub fn parse_int(s: &str, lo: i128, hi: i128) -> (r: Result<i128, IntError>)
    requires
        -0x1_0000_0000_0000_0000 <= lo <= 0,
        0 <= hi <= 0x1_0000_0000_0000_0000,
    ensures
        match r {
            Ok(v) => lo <= v <= hi && parsed(s@, lo as int, hi as int) == Ok::<int, IntError>(
                v as int,
            ),
            Err(e) => parsed(s@, lo as int, hi as int) == Err::<int, IntError>(e),
        },
{
    let chars: Vec<char> = chars_of(s);
    proof {
        lemma_scanned(s@, false, lo as int, hi as int);
        if s@.len() > 0 {
            lemma_scanned(s@.skip(1), false, lo as int, hi as int);
            lemma_scanned(s@.skip(1), true, lo as int, hi as int);
        }
        assert(s@.skip(0) == s@);
    }
    if chars.len() == 0 {
        return Err(IntError::Empty);
    }
    if chars.len() == 1 && (chars[0] == '+' || chars[0] == '-') {
        return Err(IntError::InvalidDigit);
    }
    if chars[0] == '+' {
        scan(&chars, 1, false, lo, hi)
    } else if chars[0] == '-' && lo < 0 {
        scan(&chars, 1, true, lo, hi)
    } else {
        scan(&chars, 0, false, lo, hi)
    }
}

/// Reads a numeral of an `i32`.
pub fn parse_i32(s: &str) -> (r: Result<i32, IntError>)
    ensures
        match r {
            Ok(v) => parsed(s@, i32::MIN as int, i32::MAX as int) == Ok::<int, IntError>(v as int),
            Err(e) => parsed(s@, i32::MIN as int, i32::MAX as int) == Err::<int, IntError>(e),
        },
{
    match parse_int(s, i32::MIN as i128, i32::MAX as i128) {
        Ok(v) => Ok(v as i32),
        Err(e) => Err(e),
    }
}

/// Reads a numeral of an `i64`.
pub fn parse_i64(s: &str) -> (r: Result<i64, IntError>)
    ensures
        match r {
            Ok(v) => parsed(s@, i64::MIN as int, i64::MAX as int) == Ok::<int, IntError>(v as int),
            Err(e) => parsed(s@, i64::MIN as int, i64::MAX as int) == Err::<int, IntError>(e),
        },
{
    match parse_int(s, i64::MIN as i128, i64::MAX as i128) {
        Ok(v) => Ok(v as i64),
        Err(e) => Err(e),
    }
}

/// Reads a numeral of a `u32`.
pub fn parse_u32(s: &str) -> (r: Result<u32, IntError>)
    ensures
        match r {
            Ok(v) => parsed(s@, 0, u32::MAX as int) == Ok::<int, IntError>(v as int),
            Err(e) => parsed(s@, 0, u32::MAX as int) == Err::<int, IntError>(e),
        },
{
    match parse_int(s, 0, u32::MAX as i128) {
        Ok(v) => Ok(v as u32),
        Err(e) => Err(e),
    }
}

/// Reads a numeral of a `u64`.
pub fn parse_u64(s: &str) -> (r: Result<u64, IntError>)
    ensures
        match r {
            Ok(v) => parsed(s@, 0, u64::MAX as int) == Ok::<int, IntError>(v as int),
            Err(e) => parsed(s@, 0, u64::MAX as int) == Err::<int, IntError>(e),
        },
{
    match parse_int(s, 0, u64::MAX as i128) {
        Ok(v) => Ok(v as u64),
        Err(e) => Err(e),
    }
}

impl IntError {
    /// What is told of the error.
    pub open spec fn told(self) -> Seq<char> {
        match self {
            IntError::Empty => "cannot parse integer from empty string"@,
            IntError::InvalidDigit => "invalid digit found in string"@,
            IntError::PosOverflow => "number too large to fit in target type"@,
            IntError::NegOverflow => "number too small to fit in target type"@,
        }
    }

    /// The error in words.
    pub fn message(&self) -> (r: &'static str)
        ensures
            r@ == self.told(),
    {
        match self {
            IntError::Empty => "cannot parse integer from empty string",
            IntError::InvalidDigit => "invalid digit found in string",
            IntError::PosOverflow => "number too large to fit in target type",
            IntError::NegOverflow => "number too small to fit in target type",
        }
    }
}

/// One digit as text.
fn digit_text(d: u64) -> (r: &'static str)
    requires
        d < 10,
    ensures
        r@ == seq![digit_char(d as int)],
{
    proof {
        reveal_strlit("0");
        reveal_strlit("1");
        reveal_strlit("2");
        reveal_strlit("3");
        reveal_strlit("4");
        reveal_strlit("5");
        reveal_strlit("6");
        reveal_strlit("7");
        reveal_strlit("8");
        reveal_strlit("9");
    }
    match d {
        0 => "0",
        1 => "1",
        2 => "2",
        3 => "3",
        4 => "4",
        5 => "5",
        6 => "6",
        7 => "7",
        8 => "8",
        _ => "9",
    }
}

/// Writes `n` in base ten.
pub fn decimal_text(n: u64) -> (r: String)
    ensures
        r@ == decimal(n as nat),
    decreases n,
{
    let mut text: String = if n < 10 {
        String::new()
    } else {
        decimal_text(n / 10)
    };
    text.append(digit_text(n % 10));
    text
}

/// Writes `v` in base ten, with its sign where it is negative.
pub fn signed_decimal_text(v: i32) -> (r: String)
    ensures
        r@ == signed_decimal(v as int),
{
    proof {
        reveal_strlit("-");
    }
    let wide: i64 = v as i64;
    if wide < 0 {
        let mut text: String = String::new();
        text.append("-");
        let size: u64 = (-wide) as u64;
        text.append(decimal_text(size).as_str());
        text
    } else {
        decimal_text(wide as u64)
    }
}

/// A run of digits counts in tens: one more digit makes ten times the number, and the digit.
pub proof fn law_value_by_digits(s: Seq<char>, c: char)
    ensures
        value_of(Seq::<char>::empty()) == 0,
        value_of(s.push(c)) == 10 * value_of(s) + (c as int - 48),
{
    assert(s.push(c).drop_last() == s);
}

proof fn lemma_scanned_digits(s: Seq<char>, negative: bool, lo: int, hi: int)
    requires
        lo <= 0 <= hi,
        all_digits(s),
    ensures
        scanned(s, negative, lo, hi) == if negative {
            if lo <= -value_of(s) {
                Ok::<int, IntError>(-value_of(s))
            } else {
                Err::<int, IntError>(IntError::NegOverflow)
            }
        } else {
            if value_of(s) <= hi {
                Ok::<int, IntError>(value_of(s))
            } else {
                Err::<int, IntError>(IntError::PosOverflow)
            }
        },
    decreases s.len(),
{
    lemma_scanned(s, negative, lo, hi);
    if s.len() > 0 {
        assert(all_digits(s.drop_last()));
        assert(digit(s[s.len() - 1]));
        lemma_scanned_digits(s.drop_last(), negative, lo, hi);
        lemma_value_nonnegative(s.drop_last());
    }
}

/// Digits, with a plus sign or none, read as the number they write where that is not past the
/// upper bound; with a minus sign, as its negative where that is not past the lower bound. Where
/// nothing below zero is in range, no minus sign is read.
pub proof fn law_digits_read_as_their_number(s: Seq<char>, lo: int, hi: int)
    requires
        s.len() > 0,
        forall|i: int| 0 <= i < s.len() ==> '0' <= #[trigger] s[i] <= '9',
        lo <= 0 <= hi,
    ensures
        value_of(s) >= 0,
        value_of(s) <= hi ==> parsed(s, lo, hi) == Ok::<int, IntError>(value_of(s)),
        value_of(s) > hi ==> parsed(s, lo, hi) == Err::<int, IntError>(IntError::PosOverflow),
        parsed(seq!['+'] + s, lo, hi) == parsed(s, lo, hi),
        lo < 0 && -value_of(s) >= lo ==> parsed(seq!['-'] + s, lo, hi) == Ok::<int, IntError>(
            -value_of(s),
        ),
        lo < 0 && -value_of(s) < lo ==> parsed(seq!['-'] + s, lo, hi) == Err::<int, IntError>(
            IntError::NegOverflow,
        ),
        lo == 0 ==> parsed(seq!['-'] + s, lo, hi) == Err::<int, IntError>(IntError::InvalidDigit),
{
    assert(all_digits(s));
    assert('0' <= s[0] <= '9');
    lemma_value_nonnegative(s);
    lemma_scanned_digits(s, false, lo, hi);
    lemma_scanned_digits(s, true, lo, hi);
    assert((seq!['+'] + s).skip(1) == s);
    assert((seq!['-'] + s).skip(1) == s);
    if lo == 0 {
        let t = seq!['-'] + s;
        assert(t.take(1) == seq!['-']);
        assert(t.take(1).drop_last() == Seq::<char>::empty());
        assert(scanned(t.take(1).drop_last(), false, lo, hi) == Ok::<int, IntError>(0));
        lemma_scanned_error(t, 1, false, lo, hi);
    }
}

/// A character that is no digit makes a text no numeral, wherever it stands but as a sign at the
/// front; so does a sign alone, and no character at all.
pub proof fn law_not_a_numeral(digits: Seq<char>, c: char, rest: Seq<char>, lo: int, hi: int)
    requires
        forall|i: int| 0 <= i < digits.len() ==> '0' <= #[trigger] digits[i] <= '9',
        !('0' <= c <= '9'),
        digits.len() == 0 ==> c != '+' && c != '-',
        lo <= 0 <= hi,
    ensures
        parsed(Seq::<char>::empty(), lo, hi) == Err::<int, IntError>(IntError::Empty),
        parsed(seq!['+'], lo, hi) == Err::<int, IntError>(IntError::InvalidDigit),
        parsed(seq!['-'], lo, hi) == Err::<int, IntError>(IntError::InvalidDigit),
        parsed(digits.push(c) + rest, lo, hi) is Err,
        value_of(digits) <= hi ==> parsed(digits.push(c) + rest, lo, hi) == Err::<int, IntError>(
            IntError::InvalidDigit,
        ),
{
    let s = digits.push(c) + rest;
    let n = digits.len() as int;
    assert(all_digits(digits));
    if n > 0 {
        assert('0' <= digits[0] <= '9');
        assert(s[0] == digits[0]);
    } else {
        assert(s[0] == c);
    }
    lemma_scanned_digits(digits, false, lo, hi);
    assert(s.take(n + 1) == digits.push(c));
    assert(digits.push(c).drop_last() == digits);
    lemma_scanned_error(s, n + 1, false, lo, hi);
}

/// A number is written without needless digits: no zero at the front but for zero itself. Written
/// it reads as itself, and a sign stands before the negative ones only.
pub proof fn law_shortest_numeral(n: nat)
    ensures
        value_of(decimal(n)) == n,
        forall|i: int| 0 <= i < decimal(n).len() ==> '0' <= #[trigger] decimal(n)[i] <= '9',
        decimal(n).len() > 0,
        decimal(n)[0] == '0' <==> n == 0,
        n == 0 ==> decimal(n).len() == 1,
        signed_decimal(n as int) == decimal(n),
        n > 0 ==> signed_decimal(-n) == seq!['-'] + decimal(n),
    decreases n,
{
    lemma_decimal(n);
    assert(all_digits(decimal(n)));
    assert forall|i: int| 0 <= i < decimal(n).len() implies '0' <= #[trigger] decimal(n)[i]
        <= '9' by {
        assert(digit(decimal(n)[i]));
    }
    if n >= 10 {
        law_shortest_numeral(n / 10);
        assert(decimal(n)[0] == decimal(n / 10)[0]);
    }
}

/// Behind a sign, too, a character that is no digit makes a text no numeral; that goes for a second
/// sign.
pub proof fn law_not_a_signed_numeral(
    sign: char,
    digits: Seq<char>,
    c: char,
    rest: Seq<char>,
    lo: int,
    hi: int,
)
    requires
        sign == '+' || sign == '-',
        forall|i: int| 0 <= i < digits.len() ==> '0' <= #[trigger] digits[i] <= '9',
        !('0' <= c <= '9'),
        lo <= 0 <= hi,
    ensures
        parsed(seq![sign] + (digits.push(c) + rest), lo, hi) is Err,
        value_of(digits) <= hi && -value_of(digits) >= lo ==> parsed(
            seq![sign] + (digits.push(c) + rest),
            lo,
            hi,
        ) == Err::<int, IntError>(IntError::InvalidDigit),
{
    let s = digits.push(c) + rest;
    let n = digits.len() as int;
    let t = seq![sign] + s;
    assert(all_digits(digits));
    assert(t.skip(1) == s);
    lemma_scanned_digits(digits, false, lo, hi);
    lemma_scanned_digits(digits, true, lo, hi);
    assert(s.take(n + 1) == digits.push(c));
    assert(digits.push(c).drop_last() == digits);
    lemma_scanned_error(s, n + 1, false, lo, hi);
    lemma_scanned_error(s, n + 1, true, lo, hi);
    assert(t.take(1) == seq![sign]);
    assert(t.take(1).drop_last() == Seq::<char>::empty());
    assert(scanned(t.take(1).drop_last(), false, lo, hi) == Ok::<int, IntError>(0));
    lemma_scanned_error(t, 1, false, lo, hi);
}

} // verus!
