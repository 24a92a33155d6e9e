use utensil::numeral::{
    decimal_text, parse_i32, parse_i64, parse_int, parse_u32, parse_u64, signed_decimal_text,
    IntError,
};

fn samples() -> Vec<String> {
    let mut all: Vec<String> = vec![String::new()];
    let alphabet = ['0', '1', '9', '+', '-', ' ', 'x'];
    let mut longest = all.clone();
    for _ in 0..4 {
        let mut next = Vec::new();
        for s in &longest {
            for c in alphabet {
                next.push(format!("{s}{c}"));
            }
        }
        all.extend(next.iter().cloned());
        longest = next;
    }
    for s in [
        "2147483647",
        "2147483648",
        "-2147483648",
        "-2147483649",
        "4294967295",
        "4294967296",
        "9223372036854775807",
        "9223372036854775808",
        "-9223372036854775808",
        "-9223372036854775809",
        "18446744073709551615",
        "18446744073709551616",
        "99999999999999999999999x",
        "-99999999999999999999999",
        "000000000000000000000000000000012",
        "+0000000000000000000000000000000",
        "٣",
    ] {
        all.push(s.to_string());
    }
    all
}

#[test]
fn parsing_agrees_with_std() {
    for s in samples() {
        assert_eq!(parse_i32(&s).ok(), s.parse::<i32>().ok(), "{s:?}");
        assert_eq!(parse_i64(&s).ok(), s.parse::<i64>().ok(), "{s:?}");
        assert_eq!(parse_u32(&s).ok(), s.parse::<u32>().ok(), "{s:?}");
        assert_eq!(parse_u64(&s).ok(), s.parse::<u64>().ok(), "{s:?}");
    }
}

#[test]
fn error_messages_agree_with_std() {
    for s in samples() {
        if let Err(e) = s.parse::<i32>() {
            assert_eq!(parse_i32(&s).unwrap_err().message(), e.to_string(), "{s:?}");
        }
        if let Err(e) = s.parse::<u32>() {
            assert_eq!(parse_u32(&s).unwrap_err().message(), e.to_string(), "{s:?}");
        }
    }
}

#[test]
fn each_parse_error() {
    assert_eq!(parse_i32(""), Err(IntError::Empty));
    assert_eq!(parse_i32("-"), Err(IntError::InvalidDigit));
    assert_eq!(parse_i32("12a"), Err(IntError::InvalidDigit));
    assert_eq!(parse_i32("2147483648"), Err(IntError::PosOverflow));
    assert_eq!(parse_i32("-2147483649"), Err(IntError::NegOverflow));
    assert_eq!(parse_u32("-1"), Err(IntError::InvalidDigit));
    assert_eq!(parse_int("11", -10, 10), Err(IntError::PosOverflow));
    assert_eq!(parse_int("-10", -10, 10), Ok(-10));
}

#[test]
fn numerals_round_trip() {
    for v in [i32::MIN, -10, -1, 0, 1, 9, 10, 4321, i32::MAX] {
        let text = signed_decimal_text(v);
        assert_eq!(text, v.to_string());
        assert_eq!(parse_i32(&text), Ok(v));
    }
    for n in [0, 7, 10, 900, u64::MAX] {
        let text = decimal_text(n);
        assert_eq!(text, n.to_string());
        assert_eq!(parse_u64(&text), Ok(n));
    }
}
