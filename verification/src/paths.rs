//! Paths whose components stand between slashes.

use crate::text::{
    chars_of, last_place, lemma_last_place, lemma_pieces_nonempty, lemma_pieces_part,
    lemma_pieces_whole, pieces,
};
use vstd::prelude::*;

verus! {

/// A path without what names nothing at its end: slashes, and a dot after a slash. A slash that
/// is the whole path is the root and stays.
pub open spec fn settled(path: Seq<char>) -> Seq<char>
    decreases path.len(),
{
    let n = path.len() as int;
    if n >= 2 && (path[n - 1] == '/' || (path[n - 1] == '.' && path[n - 2] == '/')) {
        settled(path.drop_last())
    } else {
        path
    }
}

/// The path of what holds the last component: nothing holds the root or the empty path.
pub open spec fn parent_of(path: Seq<char>) -> Option<Seq<char>> {
    let own = settled(path);
    if own.len() == 0 || (own.len() == 1 && own[0] == '/') {
        None
    } else {
        Some(settled(own.take(last_place(own, '/') + 1)))
    }
}

/// The length of the settled part of the first `end` characters.
fn settled_len(chars: &Vec<char>, end: usize) -> (r: usize)
    requires
        end <= chars.len(),
    ensures
        r <= end,
        chars@.take(r as int) == settled(chars@.take(end as int)),
{
    let mut n: usize = end;
    while n >= 2 && (chars[n - 1] == '/' || (chars[n - 1] == '.' && chars[n - 2] == '/'))
        invariant
            n <= end <= chars.len(),
            settled(chars@.take(n as int)) == settled(chars@.take(end as int)),
        decreases n,
    {
        assert(chars@.take(n as int).drop_last() == chars@.take(n - 1));
        n -= 1;
    }
    n
}

/// The path of what holds the last component of `path`.
pub fn parent(path: &str) -> (r: Option<&str>)
    ensures
        match r {
            Some(dir) => parent_of(path@) == Some(dir@),
            None => parent_of(path@) is None,
        },
{
    let chars: Vec<char> = chars_of(path);
    assert(chars@.take(chars@.len() as int) == path@);
    let own: usize = settled_len(&chars, chars.len());
    if own == 0 || (own == 1 && chars[0] == '/') {
        return None;
    }
    let ghost named = chars@.take(own as int);
    let mut cut: usize = own;
    assert(named.take(own as int) == named);
    while cut > 0 && chars[cut - 1] != '/'
        invariant
            cut <= own <= chars.len(),
            named == chars@.take(own as int),
            last_place(named, '/') == last_place(named.take(cut as int), '/'),
        decreases cut,
    {
        assert(named.take(cut as int).drop_last() == named.take(cut - 1));
        cut -= 1;
    }
    assert(cut == last_place(named, '/') + 1);
    assert(named.take(cut as int) == chars@.take(cut as int));
    let end: usize = settled_len(&chars, cut);
    let dir = path.substring_char(0, end);
    assert(dir@ == chars@.take(end as int));
    Some(dir)
}

/// Of the pieces of a path between slashes, those that name something: not the empty ones, and a
/// dot only where it is the first.
pub open spec fn naming(parts: Seq<Seq<char>>) -> Seq<Seq<char>>
    decreases parts.len(),
{
    if parts.len() == 0 {
        Seq::empty()
    } else {
        let before = naming(parts.drop_last());
        if parts.last().len() == 0 || (parts.last() == seq!['.'] && parts.len() > 1) {
            before
        } else {
            before.push(parts.last())
        }
    }
}

/// What a path is, however it is written: whether it starts at the root, and its components.
pub open spec fn components(path: Seq<char>) -> (bool, Seq<Seq<char>>) {
    (path.len() > 0 && path[0] == '/', naming(pieces(path, |c: char| c == '/')))
}

/// A settled path is the same path.
pub proof fn law_settled_is_the_same_path(path: Seq<char>)
    ensures
        components(settled(path)) == components(path),
    decreases path.len(),
{
    let n = path.len() as int;
    let slash = |c: char| c == '/';
    let empty = Seq::<char>::empty();
    if n >= 2 && path[n - 1] == '/' {
        let a = path.drop_last();
        law_settled_is_the_same_path(a);
        assert(path == a.push('/') + empty);
        lemma_pieces_part(a, '/', empty, slash);
        lemma_pieces_whole(empty, slash);
        lemma_naming_end(pieces(a, slash), empty);
    } else if n >= 2 && path[n - 1] == '.' && path[n - 2] == '/' {
        let b = path.drop_last();
        let a = b.drop_last();
        let dot = seq!['.'];
        law_settled_is_the_same_path(b);
        assert(path == a.push('/') + dot);
        assert(b == a.push('/') + empty);
        lemma_pieces_part(a, '/', dot, slash);
        lemma_pieces_part(a, '/', empty, slash);
        lemma_pieces_whole(dot, slash);
        lemma_pieces_whole(empty, slash);
        lemma_pieces_nonempty(a, slash);
        lemma_naming_end(pieces(a, slash), dot);
        lemma_naming_end(pieces(a, slash), empty);
    }
}

proof fn lemma_naming_end(parts: Seq<Seq<char>>, end: Seq<char>)
    requires
        end.len() == 0 || (end == seq!['.'] && parts.len() > 0),
    ensures
        naming(parts + seq![end]) == naming(parts),
{
    assert((parts + seq![end]).drop_last() == parts);
}

/// What lies directly in a directory is held by it: of its path, a slash and a name, the parent is
/// that path, settled.
pub proof fn law_parent_of_entry(dir: Seq<char>, name: Seq<char>)
    requires
        dir.len() > 0,
        name.len() > 0,
        !name.contains('/'),
        name != seq!['.'],
    ensures
        parent_of(dir.push('/') + name) == Some(settled(dir)),
{
    let path = dir.push('/') + name;
    let n = path.len() as int;
    assert(path[n - 1] == name.last());
    assert(name.contains(name.last()));
    if name.len() == 1 {
        assert(name == seq![name[0]]);
        assert(path[n - 1] == name[0]);
    } else {
        assert(path[n - 2] == name[name.len() - 2]);
        assert(name.contains(name[name.len() - 2]));
    }
    assert(settled(path) == path);
    lemma_last_place(path, '/');
    let cut = last_place(path, '/');
    assert(path[dir.len() as int] == '/');
    assert(cut == dir.len()) by {
        if cut > dir.len() {
            assert(path[cut] == name[cut - dir.len() - 1]);
            assert(name.contains(path[cut]));
        }
    }
    assert(path.take(cut + 1) == dir.push('/'));
    assert(dir.push('/').drop_last() == dir);
    assert(settled(dir.push('/')) == settled(dir));
}

/// A settled path ends in nothing that can be left off: no slash but that of the root, and no dot
/// behind a slash. Settling it again changes nothing, and it is how the path begins.
pub proof fn law_settled_for_good(path: Seq<char>)
    ensures
        settled(settled(path)) == settled(path),
        settled(path).is_prefix_of(path),
        settled(path).len() >= 2 ==> settled(path).last() != '/',
        settled(path).len() >= 2 && settled(path).last() == '.' ==> settled(path)[settled(
            path,
        ).len() - 2] != '/',
        path.len() > 0 ==> settled(path).len() > 0,
    decreases path.len(),
{
    let n = path.len() as int;
    if n >= 2 && (path[n - 1] == '/' || (path[n - 1] == '.' && path[n - 2] == '/')) {
        let init = path.drop_last();
        law_settled_for_good(init);
        let own = settled(init);
        assert(path.subrange(0, own.len() as int) == init.subrange(0, own.len() as int));
    } else {
        assert(path.subrange(0, n) == path);
    }
}

/// A name alone lies in no directory that is named, and one behind a single slash lies in the root.
/// Nothing holds the root or the empty path, and every other path has a parent. What can be left
/// off at the end of a path does not change its parent.
pub proof fn law_parents_without_a_directory(name: Seq<char>, path: Seq<char>)
    requires
        name.len() > 0,
        !name.contains('/'),
    ensures
        parent_of(name) == Some(Seq::<char>::empty()),
        name != seq!['.'] ==> parent_of(seq!['/'] + name) == Some(seq!['/']),
        parent_of(path) is None <==> settled(path).len() == 0 || settled(path) == seq!['/'],
        parent_of(settled(path)) == parent_of(path),
{
    law_settled_for_good(path);
    let n = name.len() as int;
    assert(name.contains(name[n - 1]));
    if n >= 2 {
        assert(name.contains(name[n - 2]));
    }
    assert(settled(name) == name);
    lemma_last_place(name, '/');
    let k = last_place(name, '/');
    if k >= 0 {
        assert(name.contains(name[k]));
    }
    assert(name.contains(name[0]));
    assert(name.take(0) == Seq::<char>::empty());
    if name != seq!['.'] {
        let rooted = seq!['/'] + name;
        assert(rooted[n] == name[n - 1]);
        if n == 1 {
            assert(name == seq![name[0]]);
        } else {
            assert(rooted[n - 1] == name[n - 2]);
        }
        assert(settled(rooted) == rooted);
        lemma_last_place(rooted, '/');
        let j = last_place(rooted, '/');
        assert(rooted[0] == '/');
        if j > 0 {
            assert(name.contains(name[j - 1]));
        }
        assert(rooted.take(1) == seq!['/']);
    }
    let own = settled(path);
    if own.len() == 1 && own[0] == '/' {
        assert(own == seq!['/']);
    }
}

} // verus!
