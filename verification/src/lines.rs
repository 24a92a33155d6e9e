//! Names that come line by line over a stream.

use crate::lossy::{decode_lossy, read_text};
use crate::text::{lemma_pieces_nonempty, pieces, split, texts, trim, trimmed, Separator};
use vstd::prelude::*;

verus! {

/// The lines of a text that are complete, and what is left after the last of them.
pub open spec fn line_pieces(s: Seq<char>) -> Seq<Seq<char>> {
    pieces(s, Separator::Line.pred())
}

/// The names on these lines: each without the whitespace around it, empty ones left out.
pub open spec fn names_on(lines: Seq<Seq<char>>) -> Seq<Seq<char>> {
    lines.map_values(|l: Seq<char>| trimmed(l)).filter(|n: Seq<char>| n.len() > 0)
}

/// The names on the complete lines of a text.
pub open spec fn names_in(s: Seq<char>) -> Seq<Seq<char>> {
    names_on(line_pieces(s).drop_last())
}

/// What follows the last complete line.
pub open spec fn rest_of(s: Seq<char>) -> Seq<char> {
    line_pieces(s).last()
}

/// What has come of a stream and is not yet a complete line.
#[derive(Debug)]
pub struct LineBuffer {
    pub rest: String,
}

impl LineBuffer {
    pub fn new() -> (r: LineBuffer)
        ensures
            r.rest@ == Seq::<char>::empty(),
    {
        LineBuffer { rest: String::new() }
    }

    /// Forgets what has come.
    pub fn clear(&mut self)
        ensures
            final(self).rest@ == Seq::<char>::empty(),
    {
        self.rest = String::new();
    }

    /// Takes in text.
    pub fn push_text(&mut self, chunk: &str)
        ensures
            final(self).rest@ == old(self).rest@ + chunk@,
    {
        self.rest.append(chunk);
    }

    /// Takes in bytes, as the text that they are read as.
    pub fn push_bytes(&mut self, chunk: &[u8])
        ensures
            final(self).rest@ == old(self).rest@ + read_text(chunk@),
    {
        let text: String = decode_lossy(chunk);
        self.push_text(text.as_str());
    }

    /// Takes out the names on the lines that are complete.
    pub fn take_names(&mut self) -> (r: Vec<String>)
        ensures
            texts(r@) == names_in(old(self).rest@),
            final(self).rest@ == rest_of(old(self).rest@),
    {
        proof {
            lemma_pieces_nonempty(self.rest@, Separator::Line.pred());
        }
        let mut all: Vec<String> = split(self.rest.as_str(), Separator::Line);
        let ghost parts = texts(all@);
        let rest: String = match all.pop() {
            Some(last) => last,
            None => String::new(),
        };
        assert(texts(all@) == parts.drop_last());
        let mut names: Vec<String> = Vec::new();
        let mut i: usize = 0;
        let ghost lines = texts(all@);
        let ghost keep = |n: Seq<char>| n.len() > 0;
        let ghost cut = |l: Seq<char>| trimmed(l);
        proof {
            reveal(Seq::filter);
            assert(lines.take(0).map_values(cut) == Seq::<Seq<char>>::empty());
            assert(texts(names@) == lines.take(0).map_values(cut).filter(keep));
        }
        while i < all.len()
            invariant
                i <= all.len(),
                lines == texts(all@),
                keep == (|n: Seq<char>| n.len() > 0),
                cut == (|l: Seq<char>| trimmed(l)),
                texts(names@) == lines.take(i as int).map_values(cut).filter(keep),
            decreases all.len() - i,
        {
            let ghost before = names@;
            let name = trim(all[i].as_str());
            proof {
                let mapped = lines.take(i as int).map_values(cut);
                mapped.lemma_filter_push(name@, keep);
                assert(lines.take(i + 1).map_values(cut) == mapped.push(name@));
            }
            if !name.is_empty() {
                names.push(name.to_string());
                assert(texts(names@) == texts(before).push(name@));
            }
            i += 1;
        }
        assert(lines.take(i as int) == lines);
        self.rest = rest;
        names
    }
}

proof fn lemma_pieces_continue(a: Seq<char>, b: Seq<char>, sep: spec_fn(char) -> bool)
    ensures
        pieces(a + b, sep) == pieces(a, sep).drop_last() + pieces(pieces(a, sep).last() + b, sep),
    decreases b.len(),
{
    lemma_pieces_nonempty(a, sep);
    let head = pieces(a, sep).drop_last();
    let tail = pieces(a, sep).last();
    if b.len() == 0 {
        lemma_tail_whole(a, sep);
        assert(a + b == a);
        assert(tail + b == tail);
        assert(head + seq![tail] == pieces(a, sep));
    } else {
        let init = b.drop_last();
        lemma_pieces_continue(a, init, sep);
        lemma_pieces_nonempty(tail + init, sep);
        assert((a + b).drop_last() == a + init);
        assert((a + b).last() == b.last());
        assert((tail + b).drop_last() == tail + init);
        assert((tail + b).last() == b.last());
        let inner = pieces(tail + init, sep);
        let before = head + inner;
        assert(before.last() == inner.last());
        assert(before.drop_last() == head + inner.drop_last());
        assert(pieces(a + b, sep) == head + pieces(tail + b, sep));
    }
}

proof fn lemma_tail_whole(a: Seq<char>, sep: spec_fn(char) -> bool)
    ensures
        pieces(pieces(a, sep).last(), sep) == seq![pieces(a, sep).last()],
{
    lemma_pieces_nonempty(a, sep);
    crate::text::lemma_pieces_clean(a, sep);
    let all = pieces(a, sep);
    let tail = all.last();
    assert forall|i: int| 0 <= i < tail.len() implies !sep(#[trigger] tail[i]) by {
        assert(!sep(all[all.len() - 1][i]));
    }
    crate::text::lemma_pieces_whole(tail, sep);
}

/// It makes no difference how a text is cut into chunks: taking names out after the first part
/// and again after the second gives the names of the whole, and leaves what the whole leaves.
pub proof fn law_chunks_make_no_difference(a: Seq<char>, b: Seq<char>)
    ensures
        names_in(a) + names_in(rest_of(a) + b) == names_in(a + b),
        rest_of(rest_of(a) + b) == rest_of(a + b),
{
    let sep = Separator::Line.pred();
    let keep = |n: Seq<char>| n.len() > 0;
    let cut = |l: Seq<char>| trimmed(l);
    lemma_pieces_continue(a, b, sep);
    lemma_pieces_nonempty(rest_of(a) + b, sep);
    let first = line_pieces(a).drop_last();
    let second = line_pieces(rest_of(a) + b);
    assert((first + second).drop_last() == first + second.drop_last());
    assert((first + second.drop_last()).map_values(cut) == first.map_values(cut)
        + second.drop_last().map_values(cut));
    Seq::filter_distributes_over_add(
        first.map_values(cut),
        second.drop_last().map_values(cut),
        keep,
    );
}

/// What is left after the names are taken out holds no complete line.
pub proof fn law_rest_is_no_line(s: Seq<char>)
    ensures
        !rest_of(s).contains('\n'),
        names_in(rest_of(s)) == Seq::<Seq<char>>::empty(),
        rest_of(rest_of(s)) == rest_of(s),
{
    let sep = Separator::Line.pred();
    lemma_pieces_nonempty(s, sep);
    crate::text::lemma_pieces_clean(s, sep);
    let all = pieces(s, sep);
    assert forall|i: int| 0 <= i < rest_of(s).len() implies rest_of(s)[i] != '\n' by {
        assert(!sep(all[all.len() - 1][i]));
    }
    lemma_tail_whole(s, sep);
    let none = Seq::<Seq<char>>::empty();
    assert(seq![rest_of(s)].drop_last() == none);
    assert(none.map_values(|l: Seq<char>| trimmed(l)) == none);
    reveal(Seq::filter);
}

/// Names come line by line: a line feed ends a line, whose name is what is between the whitespace
/// around it, and a line without a name gives none. What has no line feed behind it gives none
/// either, and is left.
pub proof fn law_line_by_line(line: Seq<char>, rest: Seq<char>)
    requires
        !line.contains('\n'),
    ensures
        names_in(line) == Seq::<Seq<char>>::empty(),
        rest_of(line) == line,
        rest_of(line.push('\n') + rest) == rest_of(rest),
        names_in(line.push('\n') + rest) == (if trimmed(line).len() > 0 {
            seq![trimmed(line)]
        } else {
            Seq::empty()
        }) + names_in(rest),
{
    let sep = Separator::Line.pred();
    let keep = |n: Seq<char>| n.len() > 0;
    let cut = |l: Seq<char>| trimmed(l);
    let none = Seq::<Seq<char>>::empty();
    assert forall|i: int| 0 <= i < line.len() implies !sep(#[trigger] line[i]) by {
        assert(line.contains(line[i]));
    }
    crate::text::lemma_pieces_whole(line, sep);
    crate::text::lemma_pieces_part(line, '\n', rest, sep);
    lemma_pieces_nonempty(rest, sep);
    reveal(Seq::filter);
    assert(seq![line].drop_last() == none);
    assert(none.map_values(cut) == none);
    assert(none.filter(keep) == none);
    let tail = pieces(rest, sep);
    let all = seq![line] + tail;
    assert(all.last() == tail.last());
    assert(all.drop_last() == seq![line] + tail.drop_last());
    assert(all.drop_last().map_values(cut) == seq![trimmed(line)] + tail.drop_last().map_values(cut));
    Seq::filter_distributes_over_add(seq![trimmed(line)], tail.drop_last().map_values(cut), keep);
    none.lemma_filter_push(trimmed(line), keep);
    assert(none.push(trimmed(line)) == seq![trimmed(line)]);
}

} // verus!
