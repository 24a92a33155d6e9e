//! Text as a sequence of characters: whitespace, trimming, searching and splitting.

use vstd::prelude::*;

verus! {

/// The characters with the Unicode `White_Space` property.
pub open spec fn whitespace(c: char) -> bool {
    ||| '\u{9}' <= c <= '\u{d}'
    ||| c == ' '
    ||| c == '\u{85}'
    ||| c == '\u{a0}'
    ||| c == '\u{1680}'
    ||| '\u{2000}' <= c <= '\u{200a}'
    ||| c == '\u{2028}'
    ||| c == '\u{2029}'
    ||| c == '\u{202f}'
    ||| c == '\u{205f}'
    ||| c == '\u{3000}'
}

/// The text without the whitespace at its two ends.
pub open spec fn trimmed(s: Seq<char>) -> Seq<char>
    decreases s.len(),
{
    if s.len() == 0 {
        s
    } else if whitespace(s.first()) {
        trimmed(s.drop_first())
    } else if whitespace(s.last()) {
        trimmed(s.drop_last())
    } else {
        s
    }
}

/// The place of the first `c`, or the length of the text where there is none.
pub open spec fn first_place(s: Seq<char>, c: char) -> int
    decreases s.len(),
{
    if s.len() == 0 || s.first() == c {
        0
    } else {
        1 + first_place(s.drop_first(), c)
    }
}

/// The place of the last `c`, or -1 where there is none.
pub open spec fn last_place(s: Seq<char>, c: char) -> int
    decreases s.len(),
{
    if s.len() == 0 {
        -1
    } else if s.last() == c {
        s.len() - 1
    } else {
        last_place(s.drop_last(), c)
    }
}

/// The pieces of `s` between the characters that `sep` picks out, empty pieces included.
/// There is always one piece more than there are separators.
pub open spec fn pieces(s: Seq<char>, sep: spec_fn(char) -> bool) -> Seq<Seq<char>>
    decreases s.len(),
{
    if s.len() == 0 {
        seq![Seq::<char>::empty()]
    } else {
        let before = pieces(s.drop_last(), sep);
        if sep(s.last()) {
            before.push(Seq::<char>::empty())
        } else {
            before.drop_last().push(before.last().push(s.last()))
        }
    }
}

/// `first_place` is the place of a `c` that no `c` precedes.
pub proof fn lemma_first_place(s: Seq<char>, c: char)
    ensures
        0 <= first_place(s, c) <= s.len(),
        first_place(s, c) < s.len() ==> s[first_place(s, c)] == c,
        forall|i: int| 0 <= i < first_place(s, c) ==> s[i] != c,
    decreases s.len(),
{
    if s.len() > 0 && s.first() != c {
        let rest = s.drop_first();
        lemma_first_place(rest, c);
        assert forall|i: int| 0 <= i < first_place(s, c) implies s[i] != c by {
            if i > 0 {
                assert(s[i] == rest[i - 1]);
            }
        }
    }
}

/// `last_place` is the place of a `c` that no `c` follows.
pub proof fn lemma_last_place(s: Seq<char>, c: char)
    ensures
        -1 <= last_place(s, c) < s.len(),
        last_place(s, c) >= 0 ==> s[last_place(s, c)] == c,
        forall|i: int| last_place(s, c) < i < s.len() ==> s[i] != c,
    decreases s.len(),
{
    if s.len() > 0 && s.last() != c {
        lemma_last_place(s.drop_last(), c);
        assert forall|i: int| last_place(s, c) < i < s.len() implies s[i] != c by {
            if i < s.len() - 1 {
                assert(s[i] == s.drop_last()[i]);
            }
        }
    }
}

/// Whether `c` is whitespace.
pub fn is_whitespace(c: char) -> (r: bool)
    ensures
        r == whitespace(c),
{
    ('\u{9}' <= c && c <= '\u{d}') || c == ' ' || c == '\u{85}' || c == '\u{a0}' || c == '\u{1680}'
        || ('\u{2000}' <= c && c <= '\u{200a}') || c == '\u{2028}' || c == '\u{2029}' || c
        == '\u{202f}' || c == '\u{205f}' || c == '\u{3000}'
}

/// The characters of a text, in order.
pub fn chars_of(s: &str) -> (out: Vec<char>)
    ensures
        out@ == s@,
{
    let mut out: Vec<char> = Vec::new();
    for c in it: s.chars()
        invariant
            out@ == s@.take(it.index() as int),
            it.seq() == s@,
    {
        out.push(c);
    }
    out
}

/// Whether two texts hold the same characters.
pub fn same_text(a: &str, b: &str) -> (r: bool)
    ensures
        r == (a@ == b@),
{
    let xs: Vec<char> = chars_of(a);
    let ys: Vec<char> = chars_of(b);
    if xs.len() != ys.len() {
        return false;
    }
    let mut i: usize = 0;
    while i < xs.len()
        invariant
            i <= xs.len(),
            xs.len() == ys.len(),
            xs@ == a@,
            ys@ == b@,
            xs@.take(i as int) == ys@.take(i as int),
        decreases xs.len() - i,
    {
        if xs[i] != ys[i] {
            assert(a@[i as int] != b@[i as int]);
            return false;
        }
        assert(xs@.take(i + 1) == xs@.take(i as int).push(xs@[i as int]));
        assert(ys@.take(i + 1) == ys@.take(i as int).push(ys@[i as int]));
        i += 1;
    }
    assert(xs@ == xs@.take(i as int));
    assert(ys@ == ys@.take(i as int));
    true
}

/// Strips the whitespace at both ends of a text.
#[verifier::spinoff_prover]
pub fn trim(s: &str) -> (r: &str)
    ensures
        r@ == trimmed(s@),
{
    let chars: Vec<char> = chars_of(s);
    let mut from: usize = 0;
    let mut to: usize = chars.len();
    proof {
        assert(s@.subrange(0, s@.len() as int) == s@);
    }
    while from < to && is_whitespace(chars[from])
        invariant
            chars@ == s@,
            from <= to,
            to == chars.len(),
            trimmed(s@.subrange(from as int, to as int)) == trimmed(s@),
        decreases to - from,
    {
        proof {
            let rest = s@.subrange(from as int, to as int);
            assert(rest.drop_first() == s@.subrange(from + 1, to as int));
        }
        from += 1;
    }
    while from < to && is_whitespace(chars[to - 1])
        invariant
            chars@ == s@,
            from <= to <= chars.len(),
            from < to ==> !whitespace(s@[from as int]),
            trimmed(s@.subrange(from as int, to as int)) == trimmed(s@),
        decreases to - from,
    {
        proof {
            let rest = s@.subrange(from as int, to as int);
            assert(rest.drop_last() == s@.subrange(from as int, to - 1));
        }
        to -= 1;
    }
    s.substring_char(from, to)
}

/// Whether `s` begins with `prefix`.
pub fn starts_with(s: &str, prefix: &str) -> (r: bool)
    ensures
        r == prefix@.is_prefix_of(s@),
{
    let n: usize = prefix.unicode_len();
    if s.unicode_len() < n {
        return false;
    }
    same_text(s.substring_char(0, n), prefix)
}

/// Whether `s` ends with `suffix`.
pub fn ends_with(s: &str, suffix: &str) -> (r: bool)
    ensures
        r == suffix@.is_suffix_of(s@),
{
    let n: usize = suffix.unicode_len();
    let m: usize = s.unicode_len();
    if m < n {
        return false;
    }
    same_text(s.substring_char(m - n, m), suffix)
}

/// What follows `prefix` in `s`, where `s` begins with it.
pub fn strip_prefix<'a>(s: &'a str, prefix: &str) -> (r: Option<&'a str>)
    ensures
        match r {
            Some(rest) => s@ == prefix@ + rest@,
            None => !prefix@.is_prefix_of(s@),
        },
{
    if starts_with(s, prefix) {
        let n: usize = prefix.unicode_len();
        let m: usize = s.unicode_len();
        let rest = s.substring_char(n, m);
        assert(s@ == prefix@ + rest@);
        Some(rest)
    } else {
        None
    }
}

/// The place of the first `c` in a text.
pub fn find(s: &str, c: char) -> (r: Option<usize>)
    ensures
        match r {
            Some(i) => i < s@.len() && i == first_place(s@, c),
            None => first_place(s@, c) == s@.len(),
        },
{
    let chars: Vec<char> = chars_of(s);
    let mut i: usize = 0;
    assert(s@.skip(0) == s@);
    while i < chars.len()
        invariant
            i <= chars.len(),
            chars@ == s@,
            first_place(s@, c) == i + first_place(s@.skip(i as int), c),
        decreases chars.len() - i,
    {
        if chars[i] == c {
            return Some(i);
        }
        assert(s@.skip(i as int).drop_first() == s@.skip(i + 1));
        i += 1;
    }
    None
}

/// The place of the last `c` in a text.
pub fn rfind(s: &str, c: char) -> (r: Option<usize>)
    ensures
        match r {
            Some(i) => i == last_place(s@, c),
            None => last_place(s@, c) == -1,
        },
{
    let chars: Vec<char> = chars_of(s);
    let mut i: usize = chars.len();
    assert(s@.take(s@.len() as int) == s@);
    while i > 0
        invariant
            i <= chars.len(),
            chars@ == s@,
            last_place(s@, c) == last_place(s@.take(i as int), c),
        decreases i,
    {
        assert(s@.take(i as int).drop_last() == s@.take(i - 1));
        i -= 1;
        if chars[i] == c {
            return Some(i);
        }
    }
    None
}

/// The texts that a list of strings holds.
pub open spec fn texts(list: Seq<String>) -> Seq<Seq<char>> {
    list.map_values(|t: String| t@)
}

/// The characters that divide a text into pieces.
#[derive(Clone, Copy, Debug, PartialEq, Eq, Structural)]
pub enum Separator {
    /// A line feed.
    Line,
    /// A comma or ASCII whitespace.
    Field,
}

impl Separator {
    /// Whether `c` divides.
    pub open spec fn divides(self, c: char) -> bool {
        match self {
            Separator::Line => c == '\n',
            Separator::Field => {
                c == ',' || c == ' ' || c == '\t' || c == '\n' || c == '\u{c}' || c == '\r'
            },
        }
    }

    /// The dividing characters as a predicate.
    pub open spec fn pred(self) -> spec_fn(char) -> bool {
        |c: char| self.divides(c)
    }

    /// Whether `c` divides.
    pub fn is(self, c: char) -> (r: bool)
        ensures
            r == self.divides(c),
    {
        match self {
            Separator::Line => c == '\n',
            Separator::Field => {
                c == ',' || c == ' ' || c == '\t' || c == '\n' || c == '\u{c}' || c == '\r'
            },
        }
    }
}

/// Divides a text into its pieces.
pub fn split(s: &str, sep: Separator) -> (r: Vec<String>)
    ensures
        texts(r@) == pieces(s@, sep.pred()),
{
    let chars: Vec<char> = chars_of(s);
    let mut out: Vec<String> = Vec::new();
    let mut start: usize = 0;
    let mut i: usize = 0;
    proof {
        assert(s@.take(0) == Seq::<char>::empty());
        assert(s@.subrange(0, 0) == Seq::<char>::empty());
        assert(texts(out@).push(s@.subrange(0, 0)) == pieces(s@.take(0), sep.pred()));
    }
    while i < chars.len()
        invariant
            start <= i <= chars.len(),
            chars@ == s@,
            texts(out@).push(s@.subrange(start as int, i as int)) == pieces(
                s@.take(i as int),
                sep.pred(),
            ),
        decreases chars.len() - i,
    {
        let ghost before = out@;
        let ghost piece = s@.subrange(start as int, i as int);
        proof {
            let next = s@.take(i + 1);
            assert(next.drop_last() == s@.take(i as int));
            assert(next.last() == chars@[i as int]);
        }
        if sep.is(chars[i]) {
            out.push(s.substring_char(start, i).to_string());
            start = i + 1;
            proof {
                assert(texts(out@) == texts(before).push(piece));
                assert(s@.subrange(start as int, i + 1) == Seq::<char>::empty());
            }
        } else {
            proof {
                let all = texts(out@).push(piece);
                assert(all.drop_last() == texts(out@));
                assert(s@.subrange(start as int, i + 1) == piece.push(s@[i as int]));
            }
        }
        i += 1;
    }
    let ghost before = out@;
    let ghost piece = s@.subrange(start as int, i as int);
    out.push(s.substring_char(start, i).to_string());
    proof {
        assert(texts(out@) == texts(before).push(piece));
        assert(s@.take(i as int) == s@);
    }
    out
}

/// The texts of a list, one after the other, with `sep` between them.
pub open spec fn joined(list: Seq<Seq<char>>, sep: Seq<char>) -> Seq<char>
    decreases list.len(),
{
    if list.len() == 0 {
        Seq::empty()
    } else if list.len() == 1 {
        list[0]
    } else {
        joined(list.drop_last(), sep) + sep + list.last()
    }
}

/// Joins texts, with `sep` between them.
pub fn join(list: &Vec<String>, sep: &str) -> (r: String)
    ensures
        r@ == joined(texts(list@), sep@),
{
    let mut out: String = String::new();
    let mut i: usize = 0;
    let ghost all = texts(list@);
    while i < list.len()
        invariant
            i <= list.len(),
            all == texts(list@),
            out@ == joined(all.take(i as int), sep@),
        decreases list.len() - i,
    {
        proof {
            assert(all.take(i + 1).drop_last() == all.take(i as int));
            assert(all.take(i + 1).last() == list@[i as int]@);
        }
        if i > 0 {
            out.append(sep);
        }
        out.append(list[i].as_str());
        i += 1;
    }
    assert(all.take(i as int) == all);
    out
}

/// The text that may be there.
pub open spec fn text_of(t: Option<&str>) -> Option<Seq<char>> {
    match t {
        Some(text) => Some(text@),
        None => None,
    }
}

/// A value with its label before it.
pub open spec fn labelled(name: Seq<char>, value: Seq<char>) -> Seq<char> {
    name + "="@ + value
}

/// The label, an equals sign and the value.
pub fn label(name: &str, value: &str) -> (r: String)
    ensures
        r@ == labelled(name@, value@),
        r@ == name@ + "="@ + value@,
{
    let mut line: String = name.to_string();
    line.append("=");
    line.append(value);
    line
}

/// A text without separators is one piece.
pub proof fn lemma_pieces_whole(s: Seq<char>, sep: spec_fn(char) -> bool)
    requires
        forall|i: int| 0 <= i < s.len() ==> !sep(#[trigger] s[i]),
    ensures
        pieces(s, sep) == seq![s],
    decreases s.len(),
{
    if s.len() > 0 {
        let init = s.drop_last();
        assert forall|i: int| 0 <= i < init.len() implies !sep(#[trigger] init[i]) by {
            assert(init[i] == s[i]);
        }
        lemma_pieces_whole(init, sep);
        assert(!sep(s[s.len() - 1]));
        assert(init.push(s.last()) == s);
        assert(seq![init].drop_last() == Seq::<Seq<char>>::empty());
        assert(pieces(s, sep) == seq![s]);
    } else {
        assert(s == Seq::<char>::empty());
    }
}

/// A separator parts the pieces of what stands before it from those of what follows it.
pub proof fn lemma_pieces_part(a: Seq<char>, c: char, b: Seq<char>, sep: spec_fn(char) -> bool)
    requires
        sep(c),
    ensures
        pieces(a.push(c) + b, sep) == pieces(a, sep) + pieces(b, sep),
    decreases b.len(),
{
    let s = a.push(c) + b;
    lemma_pieces_nonempty(a, sep);
    if b.len() == 0 {
        assert(s == a.push(c));
        assert(s.drop_last() == a);
        assert(pieces(a, sep).push(Seq::<char>::empty()) == pieces(a, sep) + pieces(b, sep));
    } else {
        let init = b.drop_last();
        lemma_pieces_part(a, c, init, sep);
        lemma_pieces_nonempty(init, sep);
        assert(s.drop_last() == a.push(c) + init);
        assert(s.last() == b.last());
        let before = pieces(a, sep) + pieces(init, sep);
        assert(before.last() == pieces(init, sep).last());
        assert(before.drop_last() == pieces(a, sep) + pieces(init, sep).drop_last());
        assert(pieces(s, sep) == pieces(a, sep) + pieces(b, sep));
    }
}

/// There is always a piece.
pub proof fn lemma_pieces_nonempty(s: Seq<char>, sep: spec_fn(char) -> bool)
    ensures
        pieces(s, sep).len() > 0,
    decreases s.len(),
{
    if s.len() > 0 {
        lemma_pieces_nonempty(s.drop_last(), sep);
    }
}

/// No piece holds a separator.
pub proof fn lemma_pieces_clean(s: Seq<char>, sep: spec_fn(char) -> bool)
    ensures
        forall|i: int, j: int|
            0 <= i < pieces(s, sep).len() && 0 <= j < pieces(s, sep)[i].len() ==> !sep(
                #[trigger] pieces(s, sep)[i][j],
            ),
    decreases s.len(),
{
    if s.len() > 0 {
        lemma_pieces_clean(s.drop_last(), sep);
        lemma_pieces_nonempty(s.drop_last(), sep);
        let before = pieces(s.drop_last(), sep);
        let all = pieces(s, sep);
        assert forall|i: int, j: int| 0 <= i < all.len() && 0 <= j < all[i].len() implies !sep(
            #[trigger] all[i][j],
        ) by {
            if i < before.len() && j < before[i].len() {
                assert(!sep(before[i][j]));
            }
        }
    }
}

/// Trimming takes off the whitespace before and after a text, all of it and nothing else: what is
/// left of a core with whitespace around it is the core, where it has none at its ends.
pub proof fn law_trim_leaves_the_core(before: Seq<char>, core: Seq<char>, after: Seq<char>)
    requires
        forall|i: int| 0 <= i < before.len() ==> whitespace(#[trigger] before[i]),
        forall|i: int| 0 <= i < after.len() ==> whitespace(#[trigger] after[i]),
        core.len() > 0 ==> !whitespace(core[0]) && !whitespace(core[core.len() - 1]),
    ensures
        trimmed(before + core + after) == core,
    decreases before.len() + after.len(),
{
    let s = before + core + after;
    if before.len() > 0 {
        let rest = before.drop_first();
        assert(whitespace(before[0]));
        assert(s.first() == before[0]);
        assert forall|i: int| 0 <= i < rest.len() implies whitespace(#[trigger] rest[i]) by {
            assert(rest[i] == before[i + 1]);
        }
        assert(s.drop_first() == rest + core + after);
        law_trim_leaves_the_core(rest, core, after);
    } else if core.len() == 0 {
        assert(s == after);
        if after.len() > 0 {
            let rest = after.drop_first();
            assert(whitespace(after[0]));
            assert forall|i: int| 0 <= i < rest.len() implies whitespace(#[trigger] rest[i]) by {
                assert(rest[i] == after[i + 1]);
            }
            assert(s.drop_first() == before + core + rest);
            law_trim_leaves_the_core(before, core, rest);
        } else {
            assert(s == core);
        }
    } else {
        assert(s.first() == core[0]);
        if after.len() > 0 {
            let rest = after.drop_last();
            assert(whitespace(after[after.len() - 1]));
            assert(s.last() == after[after.len() - 1]);
            assert forall|i: int| 0 <= i < rest.len() implies whitespace(#[trigger] rest[i]) by {
                assert(rest[i] == after[i]);
            }
            assert(s.drop_last() == before + core + rest);
            law_trim_leaves_the_core(before, core, rest);
        } else {
            assert(s == core);
        }
    }
}

/// The texts of strings are theirs, one for one.
pub proof fn law_texts_one_for_one(list: Seq<String>)
    ensures
        texts(list).len() == list.len(),
        forall|i: int| 0 <= i < list.len() ==> #[trigger] texts(list)[i] == list[i]@,
{
}

/// Joining puts the separator between two lists of texts that are joined, and nothing around one
/// text or none.
pub proof fn law_joined_parts(a: Seq<Seq<char>>, b: Seq<Seq<char>>, sep: Seq<char>)
    ensures
        a.len() > 0 && b.len() > 0 ==> joined(a + b, sep) == joined(a, sep) + sep + joined(b, sep),
        a.len() == 1 ==> joined(a, sep) == a[0],
        joined(Seq::<Seq<char>>::empty(), sep).len() == 0,
    decreases b.len(),
{
    if a.len() > 0 && b.len() > 0 {
        assert((a + b).drop_last() == a + b.drop_last());
        assert((a + b).last() == b.last());
        if b.len() == 1 {
            assert(a + b.drop_last() == a);
        } else {
            law_joined_parts(a, b.drop_last(), sep);
            assert(joined(a, sep) + sep + joined(b.drop_last(), sep) + sep + b.last() == joined(
                a,
                sep,
            ) + sep + (joined(b.drop_last(), sep) + sep + b.last()));
        }
    }
}

/// The pieces of a text, joined by the character that divides them, are the text.
pub proof fn law_pieces_make_the_text(s: Seq<char>, c: char)
    ensures
        joined(pieces(s, |x: char| x == c), seq![c]) == s,
    decreases s.len(),
{
    let sep = |x: char| x == c;
    if s.len() > 0 {
        let init = s.drop_last();
        let before = pieces(init, sep);
        law_pieces_make_the_text(init, c);
        lemma_pieces_nonempty(init, sep);
        let now = pieces(s, sep);
        if s.last() == c {
            assert(now.drop_last() == before);
            assert(joined(now, seq![c]) == init + seq![c] + Seq::<char>::empty());
        } else {
            assert(now.drop_last() == before.drop_last());
            assert(now.last() == before.last().push(s.last()));
            if before.len() == 1 {
                assert(joined(now, seq![c]) == before[0].push(s.last()));
            } else {
                let head = joined(before.drop_last(), seq![c]) + seq![c];
                assert(head + before.last().push(s.last()) == (head + before.last()).push(s.last()));
            }
        }
        assert(joined(now, seq![c]) == init.push(s.last()));
        assert(init.push(s.last()) == s);
    } else {
        assert(joined(pieces(s, sep), seq![c]) == Seq::<char>::empty());
    }
}

/// A line feed divides lines; commas and ASCII whitespace divide fields; nothing else divides.
pub proof fn law_dividers(c: char)
    ensures
        Separator::Line.pred()(c) <==> c as int == 10,
        Separator::Field.pred()(c) <==> c as int == 44 || c as int == 32 || 9 <= c as int <= 10
            || 12 <= c as int <= 13,
{
}

/// Texts without the character that joins them are the pieces of what they are joined to.
pub proof fn law_joined_texts_are_the_pieces(list: Seq<Seq<char>>, c: char)
    requires
        list.len() > 0,
        forall|i: int| 0 <= i < list.len() ==> !(#[trigger] list[i]).contains(c),
    ensures
        pieces(joined(list, seq![c]), |x: char| x == c) == list,
    decreases list.len(),
{
    let sep = |x: char| x == c;
    let last = list.last();
    assert(!list[list.len() - 1].contains(c));
    assert forall|i: int| 0 <= i < last.len() implies !sep(#[trigger] last[i]) by {
        assert(last.contains(last[i]));
    }
    lemma_pieces_whole(last, sep);
    if list.len() == 1 {
        assert(list == seq![last]);
    } else {
        let init = list.drop_last();
        assert forall|i: int| 0 <= i < init.len() implies !(#[trigger] init[i]).contains(c) by {
            assert(init[i] == list[i]);
        }
        law_joined_texts_are_the_pieces(init, c);
        let head = joined(init, seq![c]);
        lemma_pieces_part(head, c, last, sep);
        assert(head + seq![c] + last == head.push(c) + last);
        assert(init + seq![last] == list);
    }
}

/// A text that is there is itself, and one that is not is none.
pub proof fn law_text_that_may_be_there(text: &str)
    ensures
        text_of(Some(text)) == Some(text@),
        text_of(None) is None,
{
}

} // verus!
