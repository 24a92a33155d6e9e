//! Which files of an installed package to read ahead, and how.

use crate::lossy::{decode_lossy, read_text};
use crate::text::ends_with;
use vstd::prelude::*;

verus! {

/// How a file is read ahead.
#[derive(Clone, Copy, Debug, PartialEq, Eq, Structural)]
pub enum Method {
    /// Advice that the file will be needed: for files that are read in order.
    Fadvise,
    /// Reading ahead: for files that are mapped when they are loaded.
    Readahead,
}

/// The kinds of directories of a package.
#[derive(Clone, Copy, Debug, PartialEq, Eq, Structural)]
pub enum Place {
    /// The directory of the package itself.
    Root,
    /// The native libraries of an instruction set.
    Lib,
    /// The compiled code of an instruction set.
    Oat,
}

/// A directory to look at: its kind, and its path below the directory of the package.
#[derive(Debug)]
pub struct ScanDir {
    pub place: Place,
    pub sub: String,
}

/// What is known of a directory entry, without following links.
#[derive(Clone, Copy, Debug, PartialEq, Eq, Structural)]
pub struct FileMeta {
    pub is_file: bool,
    pub is_symlink: bool,
}

/// A directory entry.
#[derive(Debug)]
pub struct Entry<P> {
    pub path: P,
    /// The bytes of its name.
    pub name: Vec<u8>,
    /// `None` where nothing could be learnt of it.
    pub meta: Option<FileMeta>,
}

/// A directory of a kind, with its entries.
#[derive(Debug)]
pub struct Listing<P> {
    pub place: Place,
    pub entries: Vec<Entry<P>>,
}

/// A file to read ahead.
#[derive(Debug)]
pub struct Target<'a, P> {
    pub path: &'a P,
    pub method: Method,
}

/// The instruction sets, as directories name them.
pub open spec fn isas() -> Seq<Seq<char>> {
    seq!["arm64"@, "arm"@, "x86_64"@, "x86"@]
}

/// An entry is a file of its own, no link.
pub open spec fn own_file(meta: Option<FileMeta>) -> bool {
    meta matches Some(m) && m.is_file && !m.is_symlink
}

/// How a file of this name is read ahead in the directory of a package, if at all.
pub open spec fn package_method(name: Seq<char>) -> Option<Method> {
    if ".apk"@.is_suffix_of(name) || ".dm"@.is_suffix_of(name) {
        Some(Method::Fadvise)
    } else {
        None
    }
}

/// How a file of this name is read ahead among compiled code, if at all.
pub open spec fn code_method(name: Seq<char>) -> Option<Method> {
    if ".art"@.is_suffix_of(name) {
        Some(Method::Fadvise)
    } else if ".odex"@.is_suffix_of(name) || ".vdex"@.is_suffix_of(name) {
        Some(Method::Readahead)
    } else {
        None
    }
}

/// The name has the extension `so`; one that is nothing but `.so` has none.
pub open spec fn shared_object(name: Seq<u8>) -> bool {
    name.len() > 3 && seq![46u8, 115u8, 111u8].is_suffix_of(name)
}

/// How a file of this name is read ahead in a directory of this kind, if at all.
pub open spec fn method_of(place: Place, name: Seq<u8>) -> Option<Method> {
    match place {
        Place::Root => package_method(read_text(name)),
        Place::Lib => if shared_object(name) {
            Some(Method::Readahead)
        } else {
            None
        },
        Place::Oat => code_method(read_text(name)),
    }
}

/// How an entry is read ahead in a directory of this kind, if at all.
pub open spec fn wanted<P>(place: Place, entry: Entry<P>) -> Option<(P, Method)> {
    if own_file(entry.meta) {
        match method_of(place, entry.name@) {
            Some(method) => Some((entry.path, method)),
            None => None,
        }
    } else {
        None
    }
}

/// The files of a directory to read ahead, in its order.
pub open spec fn wanted_in<P>(listing: Listing<P>) -> Seq<(P, Method)> {
    listing.entries@.filter_map(|e: Entry<P>| wanted(listing.place, e))
}

/// The files of directories to read ahead, directory by directory.
pub open spec fn wanted_of<P>(listings: Seq<Listing<P>>) -> Seq<(P, Method)> {
    listings.flat_map(|l: Listing<P>| wanted_in(l))
}

/// The paths and methods of targets.
pub open spec fn chosen<P>(targets: Seq<Target<P>>) -> Seq<(P, Method)> {
    targets.map_values(|t: Target<P>| (*t.path, t.method))
}

/// Whether an entry is a file of its own, no link.
pub fn real_file(meta: Option<FileMeta>) -> (r: bool)
    ensures
        r == own_file(meta),
        meta is None ==> !r,
        meta matches Some(m) ==> r == (m.is_file && !m.is_symlink),
{
    match meta {
        Some(m) => m.is_file && !m.is_symlink,
        None => false,
    }
}

/// How a file of this name is read ahead in the directory of a package, if at all.
pub fn method_in_package(name: &str) -> (r: Option<Method>)
    ensures
        r == package_method(name@),
{
    if ends_with(name, ".apk") || ends_with(name, ".dm") {
        Some(Method::Fadvise)
    } else {
        None
    }
}

/// How a file of this name is read ahead among compiled code, if at all.
pub fn method_in_code(name: &str) -> (r: Option<Method>)
    ensures
        r == code_method(name@),
{
    if ends_with(name, ".art") {
        Some(Method::Fadvise)
    } else if ends_with(name, ".odex") || ends_with(name, ".vdex") {
        Some(Method::Readahead)
    } else {
        None
    }
}

/// Whether the name has the extension `so`.
pub fn is_shared_object(name: &[u8]) -> (r: bool)
    ensures
        r == shared_object(name@),
{
    let n: usize = name.len();
    let r: bool = n > 3 && name[n - 3] == 46 && name[n - 2] == 115 && name[n - 1] == 111;
    proof {
        if n > 3 {
            let tail = name@.subrange(n - 3, n as int);
            assert(tail[0] == name[n - 3] && tail[1] == name[n - 2] && tail[2] == name[n - 1]);
            assert(r ==> tail == seq![46u8, 115u8, 111u8]);
        }
    }
    r
}

/// How a file of this name is read ahead in a directory of this kind, if at all.
pub fn method_for(place: Place, name: &[u8]) -> (r: Option<Method>)
    ensures
        r == method_of(place, name@),
{
    match place {
        Place::Root => method_in_package(decode_lossy(name).as_str()),
        Place::Lib => if is_shared_object(name) {
            Some(Method::Readahead)
        } else {
            None
        },
        Place::Oat => method_in_code(decode_lossy(name).as_str()),
    }
}

fn below(head: &str, isa: &str) -> (r: String)
    ensures
        r@ == head@ + "/"@ + isa@,
{
    let mut path: String = head.to_string();
    path.append("/");
    path.append(isa);
    path
}

/// The directories of a package to look at, in order: its own (with an empty path below it), the
/// native libraries and then the compiled code of each instruction set.
pub open spec fn scan_order() -> Seq<(Place, Seq<char>)> {
    seq![(Place::Root, ""@)] + isas().map_values(
        |isa: Seq<char>| (Place::Lib, "lib"@ + "/"@ + isa),
    ) + isas().map_values(|isa: Seq<char>| (Place::Oat, "oat"@ + "/"@ + isa))
}

/// The kinds and paths of directories.
pub open spec fn dirs(list: Seq<ScanDir>) -> Seq<(Place, Seq<char>)> {
    list.map_values(|d: ScanDir| (d.place, d.sub@))
}

/// The directories of a package to look at.
pub fn scan_dirs() -> (r: Vec<ScanDir>)
    ensures
        dirs(r@) == scan_order(),
{
    let mut list: Vec<ScanDir> = Vec::new();
    list.push(ScanDir { place: Place::Root, sub: "".to_string() });
    list.push(ScanDir { place: Place::Lib, sub: below("lib", "arm64") });
    list.push(ScanDir { place: Place::Lib, sub: below("lib", "arm") });
    list.push(ScanDir { place: Place::Lib, sub: below("lib", "x86_64") });
    list.push(ScanDir { place: Place::Lib, sub: below("lib", "x86") });
    list.push(ScanDir { place: Place::Oat, sub: below("oat", "arm64") });
    list.push(ScanDir { place: Place::Oat, sub: below("oat", "arm") });
    list.push(ScanDir { place: Place::Oat, sub: below("oat", "x86_64") });
    list.push(ScanDir { place: Place::Oat, sub: below("oat", "x86") });
    assert(dirs(list@) == scan_order());
    list
}

/// The files to read ahead of directories that were looked at.
pub fn discover<P>(listings: &Vec<Listing<P>>) -> (r: Vec<Target<P>>)
    ensures
        chosen(r@) == wanted_of(listings@),
        r@.len() == wanted_of(listings@).len(),
        forall|i: int|
            0 <= i < r@.len() ==> (*(#[trigger] r@[i]).path, r@[i].method) == wanted_of(
                listings@,
            )[i],
{
    let mut out: Vec<Target<P>> = Vec::new();
    let mut i: usize = 0;
    let ghost per_dir = |l: Listing<P>| wanted_in(l);
    proof {
        assert(listings@.take(0) == Seq::<Listing<P>>::empty());
        assert(listings@.take(0).map_values(per_dir) == Seq::<Seq<(P, Method)>>::empty());
        assert(chosen(out@) == listings@.take(0).flat_map(per_dir));
    }
    while i < listings.len()
        invariant
            i <= listings.len(),
            per_dir == (|l: Listing<P>| wanted_in(l)),
            chosen(out@) == listings@.take(i as int).flat_map(per_dir),
        decreases listings.len() - i,
    {
        let listing: &Listing<P> = &listings[i];
        let ghost start = chosen(out@);
        let ghost pick = |e: Entry<P>| wanted(listing.place, e);
        let mut j: usize = 0;
        proof {
            assert(listing.entries@.take(0).filter_map(pick) == Seq::<(P, Method)>::empty());
            assert(start + Seq::<(P, Method)>::empty() == start);
        }
        while j < listing.entries.len()
            invariant
                j <= listing.entries.len(),
                pick == (|e: Entry<P>| wanted(listing.place, e)),
                chosen(out@) == start + listing.entries@.take(j as int).filter_map(pick),
            decreases listing.entries.len() - j,
        {
            let entry: &Entry<P> = &listing.entries[j];
            let ghost before = out@;
            proof {
                listing.entries@.lemma_filter_map_take_succ(pick, j as int);
            }
            if real_file(entry.meta) {
                match method_for(listing.place, entry.name.as_slice()) {
                    Some(method) => {
                        out.push(Target { path: &entry.path, method });
                        proof {
                            assert(chosen(out@) == chosen(before).push((entry.path, method)));
                        }
                    },
                    None => {},
                }
            }
            assert(chosen(out@) == start + listing.entries@.take(j + 1).filter_map(pick));
            j += 1;
        }
        proof {
            assert(listing.entries@.take(j as int) == listing.entries@);
            listings@.lemma_flat_map_take_append(per_dir, i as int);
        }
        i += 1;
    }
    assert(listings@.take(i as int) == listings@);
    proof {
        let ghost list = chosen(out@);
        assert(list.len() == out@.len());
        assert forall|k: int| 0 <= k < out@.len() implies (
            *(#[trigger] out@[k]).path,
            out@[k].method,
        ) == wanted_of(listings@)[k] by {
            assert(list[k] == (*out@[k].path, out@[k].method));
        }
    }
    out
}

/// The entry at these places is to be read ahead in this way.
pub open spec fn relevant<P>(listings: Seq<Listing<P>>, i: int, j: int, path: P, method: Method)
    -> bool {
    &&& 0 <= i < listings.len()
    &&& 0 <= j < listings[i].entries@.len()
    &&& listings[i].entries@[j].path == path
    &&& own_file(listings[i].entries@[j].meta)
    &&& method_of(listings[i].place, listings[i].entries@[j].name@) == Some(method)
}

/// What is read ahead is each relevant file of the directories, in the way that goes with its
/// name, and nothing else: no link and no directory.
pub proof fn law_every_relevant_file<P>(listings: Seq<Listing<P>>, path: P, method: Method)
    ensures
        wanted_of(listings).contains((path, method)) <==> exists|i: int, j: int|
            relevant(listings, i, j, path, method),
    decreases listings.len(),
{
    let per_dir = |l: Listing<P>| wanted_in(l);
    let x = (path, method);
    if listings.len() == 0 {
        assert(listings.map_values(per_dir) == Seq::<Seq<(P, Method)>>::empty());
    } else {
        let rest = listings.drop_last();
        let last = listings.last();
        assert(listings == rest.push(last));
        rest.lemma_flat_map_push(per_dir, last);
        let a = wanted_of(rest);
        let b = wanted_in(last);
        assert(wanted_of(listings) == a + b);
        law_every_relevant_file(rest, path, method);
        lemma_wanted_in(last, path, method);
        if wanted_of(listings).contains(x) {
            let k = choose|k: int| 0 <= k < (a + b).len() && (a + b)[k] == x;
            if k < a.len() {
                assert(a[k] == x);
                let (i, j) = choose|i: int, j: int| relevant(rest, i, j, path, method);
                assert(relevant(listings, i, j, path, method));
            } else {
                assert(b[k - a.len()] == x);
                let j = choose|j: int| relevant(seq![last], 0, j, path, method);
                assert(relevant(listings, listings.len() - 1, j, path, method));
            }
        }
        if exists|i: int, j: int| relevant(listings, i, j, path, method) {
            let (i, j) = choose|i: int, j: int| relevant(listings, i, j, path, method);
            if i < rest.len() {
                assert(relevant(rest, i, j, path, method));
                let k = choose|k: int| 0 <= k < a.len() && a[k] == x;
                assert((a + b)[k] == x);
            } else {
                assert(relevant(seq![last], 0, j, path, method));
                let k = choose|k: int| 0 <= k < b.len() && b[k] == x;
                assert((a + b)[a.len() + k] == x);
            }
        }
    }
}

proof fn lemma_wanted_in<P>(listing: Listing<P>, path: P, method: Method)
    ensures
        wanted_in(listing).contains((path, method)) <==> exists|j: int|
            relevant(seq![listing], 0, j, path, method),
{
    let pick = |e: Entry<P>| wanted(listing.place, e);
    let x = (path, method);
    let all = listing.entries@;
    if all.filter_map(pick).contains(x) {
        all.lemma_filter_map_contains(pick, x);
        let e = choose|e: Entry<P>| #[trigger] all.contains(e) && pick(e) == Some(x);
        let j = choose|j: int| 0 <= j < all.len() && all[j] == e;
        assert(relevant(seq![listing], 0, j, path, method));
    }
    if exists|j: int| relevant(seq![listing], 0, j, path, method) {
        let j = choose|j: int| relevant(seq![listing], 0, j, path, method);
        lemma_picked(all, pick, j);
    }
}

proof fn lemma_picked<A, B>(all: Seq<A>, pick: spec_fn(A) -> Option<B>, j: int)
    requires
        0 <= j < all.len(),
        pick(all[j]) is Some,
    ensures
        all.filter_map(pick).contains(pick(all[j]).unwrap()),
    decreases all.len(),
{
    let x = pick(all[j]).unwrap();
    let n = all.len() - 1;
    all.lemma_filter_map_take_succ(pick, n);
    assert(all.take(n + 1) == all);
    let head = all.take(n).filter_map(pick);
    if j < n {
        lemma_picked(all.take(n), pick, j);
        let k = choose|k: int| 0 <= k < head.len() && head[k] == x;
        assert(all.filter_map(pick)[k] == x);
    } else {
        assert(all.filter_map(pick)[head.len() as int] == x);
    }
}

/// What to ask of the system for a file.
#[derive(Clone, Copy, Debug, PartialEq, Eq, Structural)]
pub enum HintCall {
    /// Nothing: the file is empty.
    Nothing,
    /// Advice on this many bytes from the start.
    Fadvise(usize),
    /// Reading ahead this many bytes from the start.
    Readahead(usize),
}

/// What to ask of the system for a file of `len` bytes: the whole of it, in the given way.
pub open spec fn call_for(len: usize, method: Method) -> HintCall {
    if len == 0 {
        HintCall::Nothing
    } else if method == Method::Fadvise {
        HintCall::Fadvise(len)
    } else {
        HintCall::Readahead(len)
    }
}

/// What to ask of the system for a file of `len` bytes.
pub fn apply(len: usize, method: Method) -> (r: HintCall)
    ensures
        r == call_for(len, method),
        r == HintCall::Nothing <==> len == 0,
        r matches HintCall::Fadvise(n) ==> n == len && method == Method::Fadvise,
        r matches HintCall::Readahead(n) ==> n == len && method == Method::Readahead,
{
    if len == 0 {
        return HintCall::Nothing;
    }
    match method {
        Method::Fadvise => HintCall::Fadvise(len),
        Method::Readahead => HintCall::Readahead(len),
    }
}

/// What comes next while the files of a package are read ahead.
#[derive(Clone, Copy, Debug, PartialEq, Eq, Structural)]
pub enum HintStep {
    /// Read ahead the file at this place.
    Hint(usize),
    /// All were tried: tell of them.
    Tell,
    /// There is no file: tell that.
    NoTargets,
}

/// What comes next when `count` files are to be read ahead and the first of them came to
/// `outcomes`.
pub open spec fn step_after(count: usize, outcomes: Seq<Option<usize>>) -> HintStep {
    if outcomes.len() < count {
        HintStep::Hint(outcomes.len() as usize)
    } else if count == 0 {
        HintStep::NoTargets
    } else {
        HintStep::Tell
    }
}

/// What comes next when `count` files are to be read ahead and the first of them came to
/// `outcomes`. They are tried in order, also after one that failed.
pub fn hint_next(count: usize, outcomes: &Vec<Option<usize>>) -> (r: HintStep)
    requires
        outcomes@.len() <= count,
    ensures
        r == step_after(count, outcomes@),
        outcomes@.len() < count ==> r == HintStep::Hint(outcomes@.len() as usize),
        outcomes@.len() == count ==> r == if count == 0 {
            HintStep::NoTargets
        } else {
            HintStep::Tell
        },
{
    if outcomes.len() < count {
        HintStep::Hint(outcomes.len())
    } else if count == 0 {
        HintStep::NoTargets
    } else {
        HintStep::Tell
    }
}

/// The steps from where the first `done` of the files came to their outcomes.
pub open spec fn steps_from(count: usize, outcomes: Seq<Option<usize>>, done: nat) -> Seq<HintStep>
    decreases count - done,
{
    let step = step_after(count, outcomes.take(done as int));
    if done < count {
        seq![step] + steps_from(count, outcomes, done + 1)
    } else {
        seq![step]
    }
}

/// What a step asks of the system, of the files to read ahead and the length of each that can be
/// opened.
pub open spec fn asked<P>(
    step: HintStep,
    targets: Seq<(P, Method)>,
    lens: Seq<Option<usize>>,
) -> Option<(P, HintCall)> {
    match step {
        HintStep::Hint(k) => match lens[k as int] {
            Some(len) => Some((targets[k as int].0, call_for(len, targets[k as int].1))),
            None => None,
        },
        _ => None,
    }
}

proof fn lemma_steps(count: usize, outcomes: Seq<Option<usize>>, done: nat)
    requires
        outcomes.len() == count,
        done <= count,
    ensures
        ({
            let steps = steps_from(count, outcomes, done);
            &&& steps.len() == count - done + 1
            &&& forall|k: int|
                0 <= k < count - done ==> #[trigger] steps[k] == HintStep::Hint((done + k) as usize)
            &&& steps.last() == if count == 0 {
                HintStep::NoTargets
            } else {
                HintStep::Tell
            }
        }),
    decreases count - done,
{
    if done < count {
        lemma_steps(count, outcomes, done + 1);
        let steps = steps_from(count, outcomes, done);
        let rest = steps_from(count, outcomes, done + 1);
        assert(steps == seq![HintStep::Hint(done as usize)] + rest);
        assert forall|k: int| 0 <= k < count - done implies #[trigger] steps[k] == HintStep::Hint(
            (done + k) as usize,
        ) by {
            if k > 0 {
                assert(steps[k] == rest[k - 1]);
            }
        }
    }
}

/// Each file that is to be read ahead is tried once, in order, whatever comes of the others. One
/// that can be opened and is not empty is asked for over its whole length in its own way; nothing
/// else is asked for, and without files nothing is.
pub proof fn law_every_target_is_hinted<P>(
    listings: Seq<Listing<P>>,
    lens: Seq<Option<usize>>,
    outcomes: Seq<Option<usize>>,
)
    requires
        wanted_of(listings).len() <= usize::MAX,
        lens.len() == wanted_of(listings).len(),
        outcomes.len() == wanted_of(listings).len(),
    ensures
        ({
            let targets = wanted_of(listings);
            let count = targets.len() as usize;
            let steps = steps_from(count, outcomes, 0);
            &&& steps.len() == count + 1
            &&& forall|k: int|
                0 <= k < count ==> #[trigger] steps[k] == HintStep::Hint(k as usize) && asked(
                    steps[k],
                    targets,
                    lens,
                ) == (match lens[k] {
                    Some(len) => Some((targets[k].0, call_for(len, targets[k].1))),
                    None => None,
                })
            &&& steps.last() == if count == 0 {
                HintStep::NoTargets
            } else {
                HintStep::Tell
            }
            &&& asked(steps.last(), targets, lens) is None
        }),
{
    lemma_steps(wanted_of(listings).len() as usize, outcomes, 0);
}

/// What was read ahead of a package.
#[derive(Clone, Copy, Debug, PartialEq, Eq, Structural)]
pub struct Tally {
    pub bytes: u64,
    pub files: usize,
}

/// The bytes of the files that could be read ahead.
pub open spec fn bytes_of(outcomes: Seq<Option<usize>>) -> int
    decreases outcomes.len(),
{
    if outcomes.len() == 0 {
        0
    } else {
        bytes_of(outcomes.drop_last()) + (match outcomes.last() {
            Some(n) => n as int,
            None => 0,
        })
    }
}

/// The number of the files that could be read ahead.
pub open spec fn files_of(outcomes: Seq<Option<usize>>) -> int {
    outcomes.filter(|o: Option<usize>| o is Some).len() as int
}

impl Tally {
    pub fn new() -> (r: Tally)
        ensures
            r == (Tally { bytes: 0, files: 0 }),
    {
        Tally { bytes: 0, files: 0 }
    }

    /// Takes in the outcome of one file: its bytes, or `None` where it failed.
    pub fn note(&mut self, outcome: Option<usize>)
        requires
            outcome matches Some(n) ==> old(self).bytes + n <= u64::MAX && old(self).files
                < usize::MAX,
        ensures
            final(self).bytes == old(self).bytes + (match outcome {
                Some(n) => n as int,
                None => 0,
            }),
            final(self).files == old(self).files + (if outcome is Some {
                1int
            } else {
                0
            }),
    {
        match outcome {
            Some(n) => {
                self.bytes = self.bytes + n as u64;
                self.files = self.files + 1;
            },
            None => {},
        }
    }
}

/// The tally of the outcomes for the files of a package.
pub fn hint_package(outcomes: &Vec<Option<usize>>) -> (r: Tally)
    requires
        bytes_of(outcomes@) <= u64::MAX,
    ensures
        r.bytes == bytes_of(outcomes@),
        r.files == files_of(outcomes@),
{
    let mut tally: Tally = Tally::new();
    let mut i: usize = 0;
    let ghost all = outcomes@;
    let ghost good = |o: Option<usize>| o is Some;
    proof {
        reveal(Seq::filter);
        assert(all.take(0) == Seq::<Option<usize>>::empty());
    }
    while i < outcomes.len()
        invariant
            i <= outcomes.len(),
            all == outcomes@,
            good == (|o: Option<usize>| o is Some),
            bytes_of(all) <= u64::MAX,
            tally.bytes == bytes_of(all.take(i as int)),
            tally.files == all.take(i as int).filter(good).len(),
        decreases outcomes.len() - i,
    {
        proof {
            assert(all.take(i + 1).drop_last() == all.take(i as int));
            assert(all.take(i + 1) == all.take(i as int).push(all[i as int]));
            all.take(i as int).lemma_filter_push(all[i as int], good);
            all.take(i as int).lemma_filter_len(good);
            lemma_bytes_grow(all, i + 1);
        }
        tally.note(outcomes[i]);
        i += 1;
    }
    assert(all.take(i as int) == all);
    tally
}

proof fn lemma_bytes_grow(outcomes: Seq<Option<usize>>, n: int)
    requires
        0 <= n <= outcomes.len(),
    ensures
        bytes_of(outcomes.take(n)) <= bytes_of(outcomes),
    decreases outcomes.len() - n,
{
    if n < outcomes.len() {
        lemma_bytes_grow(outcomes, n + 1);
        assert(outcomes.take(n + 1).drop_last() == outcomes.take(n));
    } else {
        assert(outcomes.take(n) == outcomes);
    }
}

/// A file that is not empty is asked for from its first byte to its last, in the way that was
/// chosen for it; an empty one is not asked for.
pub proof fn law_whole_files(len: usize, method: Method)
    ensures
        call_for(len, method) matches HintCall::Fadvise(n) ==> n == len && method
            == Method::Fadvise,
        call_for(len, method) matches HintCall::Readahead(n) ==> n == len && method
            == Method::Readahead,
        call_for(len, method) is Nothing <==> len == 0,
{
}

/// In the directory of a package just the names count that end in `.apk` or `.dm`, whatever stands
/// before; advice is given on those files.
pub proof fn law_files_of_the_package(stem: Seq<char>, name: Seq<char>)
    ensures
        package_method(stem + ".apk"@) == Some(Method::Fadvise),
        package_method(stem + ".dm"@) == Some(Method::Fadvise),
        package_method(name) is Some ==> exists|s: Seq<char>|
            name == #[trigger] (s + ".apk"@) || name == s + ".dm"@,
        package_method(name) != Some(Method::Readahead),
{
    lemma_suffix(stem, ".apk"@);
    lemma_suffix(stem, ".dm"@);
    if package_method(name) is Some {
        if ".apk"@.is_suffix_of(name) {
            let s = name.take(name.len() - ".apk"@.len());
            assert(name == s + ".apk"@);
        } else {
            let s = name.take(name.len() - ".dm"@.len());
            assert(name == s + ".dm"@);
            assert(s + ".apk"@ == s + ".apk"@);
        }
    }
}

/// Among compiled code advice is given on the names that end in `.art`; those that end in `.odex`
/// or `.vdex` are read ahead; no other name counts.
pub proof fn law_files_of_compiled_code(stem: Seq<char>, name: Seq<char>)
    ensures
        code_method(stem + ".art"@) == Some(Method::Fadvise),
        code_method(stem + ".odex"@) == Some(Method::Readahead),
        code_method(stem + ".vdex"@) == Some(Method::Readahead),
        code_method(name) == Some(Method::Fadvise) ==> exists|s: Seq<char>|
            name == #[trigger] (s + ".art"@),
        code_method(name) == Some(Method::Readahead) ==> exists|s: Seq<char>|
            name == #[trigger] (s + ".odex"@) || name == s + ".vdex"@,
{
    reveal_strlit(".art");
    reveal_strlit(".odex");
    reveal_strlit(".vdex");
    lemma_suffix(stem, ".art"@);
    lemma_suffix(stem, ".odex"@);
    lemma_suffix(stem, ".vdex"@);
    assert((stem + ".odex"@).last() == 'x');
    assert((stem + ".vdex"@).last() == 'x');
    let odex = stem + ".odex"@;
    let vdex = stem + ".vdex"@;
    if ".art"@.is_suffix_of(odex) {
        assert(odex.subrange(odex.len() - 4, odex.len() as int)[3] == odex[odex.len() - 1]);
    }
    if ".art"@.is_suffix_of(vdex) {
        assert(vdex.subrange(vdex.len() - 4, vdex.len() as int)[3] == vdex[vdex.len() - 1]);
    }
    if code_method(name) == Some(Method::Fadvise) {
        let s = name.take(name.len() - ".art"@.len());
        assert(name == s + ".art"@);
    }
    if code_method(name) == Some(Method::Readahead) {
        if ".odex"@.is_suffix_of(name) {
            let s = name.take(name.len() - ".odex"@.len());
            assert(name == s + ".odex"@);
        } else {
            let s = name.take(name.len() - ".vdex"@.len());
            assert(name == s + ".vdex"@);
            assert(s + ".odex"@ == s + ".odex"@);
        }
    }
}

proof fn lemma_suffix(stem: Seq<char>, end: Seq<char>)
    ensures
        end.is_suffix_of(stem + end),
{
    let all = stem + end;
    assert(all.subrange(all.len() - end.len(), all.len() as int) == end);
}

/// A name is that of a shared object exactly when something stands before a final `.so`.
pub proof fn law_shared_objects(stem: Seq<u8>, name: Seq<u8>)
    ensures
        stem.len() > 0 ==> shared_object(stem + seq![46u8, 115u8, 111u8]),
        shared_object(name) ==> exists|s: Seq<u8>|
            #[trigger] s.len() > 0 && name == s + seq![46u8, 115u8, 111u8],
{
    let end = seq![46u8, 115u8, 111u8];
    let all = stem + end;
    assert(all.subrange(all.len() - end.len(), all.len() as int) == end);
    if shared_object(name) {
        let s = name.take(name.len() - 3);
        assert(s.len() > 0);
        assert(name == s + end);
    }
}

/// Names are read as text in the directory of a package and among compiled code, and as bytes among
/// native libraries, each by its own rule.
pub proof fn law_rule_by_place(name: Seq<u8>)
    ensures
        method_of(Place::Root, name) == package_method(read_text(name)),
        method_of(Place::Oat, name) == code_method(read_text(name)),
        method_of(Place::Lib, name) == Some(Method::Readahead) <==> shared_object(name),
        method_of(Place::Lib, name) is None <==> !shared_object(name),
{
}

/// Directories are taken one after the other: what is wanted of them is what is wanted of the first
/// ones, then of the others.
pub proof fn law_directory_by_directory<P>(a: Seq<Listing<P>>, b: Seq<Listing<P>>)
    ensures
        wanted_of(a + b) == wanted_of(a) + wanted_of(b),
        wanted_of(Seq::<Listing<P>>::empty()).len() == 0,
        a.len() == 1 ==> wanted_of(a) == wanted_in(a[0]),
    decreases b.len(),
{
    let per_dir = |l: Listing<P>| wanted_in(l);
    let none = Seq::<Listing<P>>::empty();
    assert(none.map_values(per_dir) == Seq::<Seq<(P, Method)>>::empty());
    if a.len() == 1 {
        none.lemma_flat_map_push(per_dir, a[0]);
        assert(none.push(a[0]) == a);
    }
    if b.len() == 0 {
        assert(a + b == a);
        assert(b == none);
    } else {
        law_directory_by_directory(a, b.drop_last());
        (a + b.drop_last()).lemma_flat_map_push(per_dir, b.last());
        b.drop_last().lemma_flat_map_push(per_dir, b.last());
        assert((a + b.drop_last()).push(b.last()) == a + b);
        assert(b.drop_last().push(b.last()) == b);
    }
}

/// Entries of a directory are taken in order: one more entry adds itself at the end, where it is a
/// file, no link, and its name goes with a way to read it ahead; else it adds nothing.
pub proof fn law_entry_by_entry<P>(before: Listing<P>, entry: Entry<P>, after: Listing<P>)
    requires
        after.place == before.place,
        after.entries@ == before.entries@.push(entry),
    ensures
        wanted_in(after) == wanted_in(before) + (if (entry.meta matches Some(m) && m.is_file
            && !m.is_symlink) && method_of(before.place, entry.name@) is Some {
            seq![(entry.path, method_of(before.place, entry.name@)->0)]
        } else {
            Seq::empty()
        }),
        before.entries@.len() == 0 ==> wanted_in(before).len() == 0,
{
    let pick = |e: Entry<P>| wanted(before.place, e);
    let n = before.entries@.len() as int;
    after.entries@.lemma_filter_map_take_succ(pick, n);
    assert(after.entries@.take(n + 1) == after.entries@);
    assert(after.entries@.take(n) == before.entries@);
}

/// The bytes and files of two lists of outcomes add up; one that failed adds nothing, and one that
/// did not adds its bytes and one file.
pub proof fn law_tallies_add_up(a: Seq<Option<usize>>, b: Seq<Option<usize>>, n: usize)
    ensures
        bytes_of(a + b) == bytes_of(a) + bytes_of(b),
        files_of(a + b) == files_of(a) + files_of(b),
        bytes_of(seq![Some(n)]) == n,
        files_of(seq![Some(n)]) == 1,
        bytes_of(seq![None::<usize>]) == 0,
        files_of(seq![None::<usize>]) == 0,
        bytes_of(Seq::<Option<usize>>::empty()) == 0,
        files_of(Seq::<Option<usize>>::empty()) == 0,
    decreases b.len(),
{
    let good = |o: Option<usize>| o is Some;
    let none = Seq::<Option<usize>>::empty();
    reveal(Seq::filter);
    assert(none.filter(good) == none);
    none.lemma_filter_push(Some(n), good);
    none.lemma_filter_push(None, good);
    assert(none.push(Some(n)) == seq![Some(n)]);
    assert(none.push(None) == seq![None::<usize>]);
    assert(seq![Some(n)].drop_last() == none);
    assert(seq![None::<usize>].drop_last() == none);
    assert(bytes_of(none) == 0);
    Seq::filter_distributes_over_add(a, b, good);
    if b.len() > 0 {
        law_tallies_add_up(a, b.drop_last(), n);
        assert((a + b).drop_last() == a + b.drop_last());
        assert((a + b).last() == b.last());
    } else {
        assert(a + b == a);
    }
}

} // verus!
