use utensil::lines::LineBuffer;
use utensil::paths::parent;
use utensil::text::{
    chars_of, ends_with, find, is_whitespace, join, label, rfind, same_text, split, starts_with,
    strip_prefix, trim, Separator,
};

fn owned(list: &[&str]) -> Vec<String> {
    list.iter().map(|s| s.to_string()).collect()
}

/// All texts of at most `len` characters out of `alphabet`.
fn all_texts(alphabet: &[char], len: usize) -> Vec<String> {
    let mut all = vec![String::new()];
    let mut longest = all.clone();
    for _ in 0..len {
        let mut next = Vec::new();
        for s in &longest {
            for c in alphabet {
                let mut t = s.clone();
                t.push(*c);
                next.push(t);
            }
        }
        all.extend(next.iter().cloned());
        longest = next;
    }
    all
}

#[test]
fn whitespace_is_unicode_white_space() {
    for n in 0..=0x10ffffu32 {
        if let Some(c) = char::from_u32(n) {
            assert_eq!(is_whitespace(c), c.is_whitespace(), "{n:x}");
        }
    }
}

#[test]
fn trim_agrees_with_std() {
    for s in all_texts(&[' ', '\n', '\u{2003}', 'a', 'é'], 5) {
        assert_eq!(trim(&s), s.trim());
    }
}

#[test]
fn trim_cuts_both_ends() {
    assert_eq!(trim("\t deep\r\n"), "deep");
    assert_eq!(trim(" a b "), "a b");
    assert_eq!(trim("   "), "");
}

#[test]
fn searches_agree_with_std() {
    for s in all_texts(&['=', 'a', 'é'], 5) {
        let chars: Vec<char> = s.chars().collect();
        assert_eq!(chars_of(&s), chars);
        assert_eq!(find(&s, '='), chars.iter().position(|c| *c == '='));
        assert_eq!(rfind(&s, '='), chars.iter().rposition(|c| *c == '='));
        assert_eq!(starts_with(&s, "é="), s.starts_with("é="));
        assert_eq!(ends_with(&s, "é="), s.ends_with("é="));
        assert_eq!(strip_prefix(&s, "a="), s.strip_prefix("a="));
        assert_eq!(same_text(&s, "=é"), s == "=é");
    }
}

#[test]
fn split_agrees_with_std() {
    for s in all_texts(&[',', ' ', '\n', 'a'], 5) {
        let lines: Vec<&str> = s.split('\n').collect();
        assert_eq!(split(&s, Separator::Line), lines);
        let fields: Vec<&str> = s.split(|c: char| c == ',' || c.is_ascii_whitespace()).collect();
        assert_eq!(split(&s, Separator::Field), fields);
    }
}

#[test]
fn separators_agree_with_std() {
    for n in 0..=0x10ffffu32 {
        if let Some(c) = char::from_u32(n) {
            assert_eq!(Separator::Line.is(c), c == '\n');
            assert_eq!(Separator::Field.is(c), c == ',' || c.is_ascii_whitespace());
        }
    }
}

#[test]
fn join_puts_the_separator_between() {
    assert_eq!(join(&owned(&[]), " "), "");
    assert_eq!(join(&owned(&["a"]), " "), "a");
    assert_eq!(join(&owned(&["a", "", "b"]), ", "), "a, , b");
}

#[test]
fn label_puts_an_equals_sign() {
    assert_eq!(label("idle_ms", "5000"), "idle_ms=5000");
}

#[test]
fn parent_agrees_with_std() {
    for s in all_texts(&['/', '.', 'a'], 8) {
        let expected = std::path::Path::new(&s).parent().map(|p| p.to_str().unwrap());
        assert_eq!(parent(&s), expected, "{s:?}");
    }
}

#[test]
fn parent_of_an_apk() {
    assert_eq!(parent("/data/app/x-1/base.apk"), Some("/data/app/x-1"));
    assert_eq!(parent("/data/app//x-1//"), Some("/data/app"));
    assert_eq!(parent("base.apk"), Some(""));
    assert_eq!(parent("/"), None);
    assert_eq!(parent(""), None);
}

#[test]
fn names_come_out_of_complete_lines() {
    let mut lines = LineBuffer::new();
    lines.push_bytes(b"com.a\n  com.b \r\n\n \ncom");
    assert_eq!(lines.take_names(), vec!["com.a", "com.b"]);
    assert_eq!(lines.rest, "com");
    assert!(lines.take_names().is_empty());
    lines.push_text(".c\n");
    assert_eq!(lines.take_names(), vec!["com.c"]);
    assert_eq!(lines.rest, "");
}

#[test]
fn chunks_make_no_difference_to_names() {
    let text = "a.b\n\n c \nd\ne";
    for cut in 0..=text.len() {
        let mut lines = LineBuffer::new();
        lines.push_text(&text[..cut]);
        let mut names = lines.take_names();
        lines.push_text(&text[cut..]);
        names.extend(lines.take_names());
        assert_eq!(names, vec!["a.b", "c", "d"]);
        assert_eq!(lines.rest, "e");
    }
}

#[test]
fn what_is_left_can_be_forgotten() {
    let mut lines = LineBuffer::new();
    lines.push_text("com.");
    lines.clear();
    lines.push_text("a\n");
    assert_eq!(lines.take_names(), vec!["a"]);
}

#[test]
fn bytes_that_are_not_utf8_are_replaced() {
    let mut lines = LineBuffer::new();
    lines.push_bytes(b"a\xffb\n");
    assert_eq!(lines.take_names(), vec!["a\u{fffd}b"]);
}
