//! The third-party packages that the package manager lists.

use crate::command::slices;
use crate::lossy::{decode_lossy, read_text};
use crate::numeral::{
    decimal, digit, law_numeral_round_trip, lemma_decimal, lemma_trimmed_numeral, parse_u32,
    parsed,
};
use crate::paths::{
    components, law_parent_of_entry, law_settled_is_the_same_path, parent, parent_of, settled,
};
use crate::text::{
    find, first_place, joined, last_place, law_joined_texts_are_the_pieces, lemma_first_place,
    lemma_last_place, pieces, rfind, split, strip_prefix, texts, trim, trimmed, Separator,
};
use vstd::hash_map::StringHashMap;
use vstd::prelude::*;

verus! {

/// The program that lists packages.
pub const LIST_PROGRAM: &'static str = "cmd";

/// The arguments with which the third-party packages are listed, with their files and users.
pub fn list_args() -> (r: [&'static str; 6])
    ensures
        slices(r@) == seq!["package"@, "list"@, "packages"@, "-f"@, "-U"@, "-3"@],
{
    let args: [&'static str; 6] = ["package", "list", "packages", "-f", "-U", "-3"];
    assert(slices(args@) == seq!["package"@, "list"@, "packages"@, "-f"@, "-U"@, "-3"@]);
    args
}

/// Where a package is installed, and for which user.
#[derive(Debug)]
pub struct PkgInfo {
    pub uid: u32,
    pub install_dir: String,
}

impl PkgInfo {
    /// The user and the directory.
    pub open spec fn shown(self) -> (int, Seq<char>) {
        (self.uid as int, self.install_dir@)
    }
}

/// What a line `package:<apk path>=<package> uid:<uid>` tells: the package, the user and the
/// directory that holds the file.
pub open spec fn package_on(line: Seq<char>) -> Option<(Seq<char>, (int, Seq<char>))> {
    let gap = first_place(line, ' ');
    let head = line.take(gap);
    let tail = line.skip(gap + 1);
    let named = head.skip("package:"@.len() as int);
    let owner = tail.skip("uid:"@.len() as int);
    let eq = last_place(named, '=');
    if gap == line.len() || !"package:"@.is_prefix_of(head) || !"uid:"@.is_prefix_of(tail) || eq
        == -1 {
        None
    } else {
        match (parsed(trimmed(owner), 0, u32::MAX as int), parent_of(named.take(eq))) {
            (Ok(uid), Some(dir)) => Some((named.skip(eq + 1), (uid, dir))),
            _ => None,
        }
    }
}

/// Reads a line of the package manager.
pub fn parse_package_line(line: &str) -> (r: Option<(String, PkgInfo)>)
    ensures
        match r {
            Some((pkg, info)) => package_on(line@) == Some((pkg@, info.shown())),
            None => package_on(line@) is None,
        },
{
    proof {
        lemma_first_place(line@, ' ');
    }
    let gap: usize = match find(line, ' ') {
        Some(i) => i,
        None => {
            return None;
        },
    };
    let head = line.substring_char(0, gap);
    let end: usize = line.unicode_len();
    let tail = line.substring_char(gap + 1, end);
    assert(head@ == line@.take(gap as int));
    assert(tail@ == line@.skip(gap + 1));
    let named = match strip_prefix(head, "package:") {
        Some(rest) => rest,
        None => {
            return None;
        },
    };
    let owner = match strip_prefix(tail, "uid:") {
        Some(rest) => rest,
        None => {
            return None;
        },
    };
    assert(named@ == head@.skip("package:"@.len() as int));
    assert(owner@ == tail@.skip("uid:"@.len() as int));
    assert("package:"@.is_prefix_of(head@));
    assert("uid:"@.is_prefix_of(tail@));
    let uid: u32 = match parse_u32(trim(owner)) {
        Ok(uid) => uid,
        Err(_) => {
            return None;
        },
    };
    proof {
        lemma_last_place(named@, '=');
    }
    let eq: usize = match rfind(named, '=') {
        Some(i) => i,
        None => {
            return None;
        },
    };
    let apk = named.substring_char(0, eq);
    let end: usize = named.unicode_len();
    let pkg = named.substring_char(eq + 1, end);
    assert(apk@ == named@.take(eq as int));
    assert(pkg@ == named@.skip(eq + 1));
    match parent(apk) {
        Some(dir) => Some((pkg.to_string(), PkgInfo { uid, install_dir: dir.to_string() })),
        None => None,
    }
}

/// The packages that lines name. A line takes the place of an earlier one of the same package.
pub open spec fn packages_on(lines: Seq<Seq<char>>) -> Map<Seq<char>, (int, Seq<char>)>
    decreases lines.len(),
{
    if lines.len() == 0 {
        Map::empty()
    } else {
        let before = packages_on(lines.drop_last());
        match package_on(trimmed(lines.last())) {
            Some((pkg, info)) => before.insert(pkg, info),
            None => before,
        }
    }
}

/// The packages that a text names.
pub open spec fn packages_in(text: Seq<char>) -> Map<Seq<char>, (int, Seq<char>)> {
    packages_on(pieces(text, Separator::Line.pred()))
}

/// The packages by name.
pub struct Packages {
    map: StringHashMap<PkgInfo>,
}

impl View for Packages {
    type V = Map<Seq<char>, (int, Seq<char>)>;

    closed spec fn view(&self) -> Map<Seq<char>, (int, Seq<char>)> {
        self.map@.map_values(|info: PkgInfo| info.shown())
    }
}

impl Packages {
    /// No packages.
    pub fn new() -> (r: Packages)
        ensures
            r@ == Map::<Seq<char>, (int, Seq<char>)>::empty(),
    {
        let r = Packages { map: StringHashMap::new() };
        assert(r@ == Map::<Seq<char>, (int, Seq<char>)>::empty());
        r
    }

    /// Lists a package, in the place of one of the same name.
    pub fn insert(&mut self, pkg: String, info: PkgInfo)
        ensures
            final(self)@ == old(self)@.insert(pkg@, info.shown()),
    {
        let ghost name = pkg@;
        let ghost shown = info.shown();
        self.map.insert(pkg, info);
        assert(self@ == old(self)@.insert(name, shown));
    }

    /// What is known of a package.
    pub fn get(&self, pkg: &str) -> (r: Option<&PkgInfo>)
        ensures
            match r {
                Some(info) => self@.contains_key(pkg@) && info.shown() == self@[pkg@],
                None => !self@.contains_key(pkg@),
            },
    {
        self.map.get(pkg)
    }

    /// How many packages are listed.
    pub fn len(&self) -> (r: usize)
        ensures
            r == self@.len(),
    {
        proof {
            assert(self@.dom() == self.map@.dom());
        }
        self.map.len()
    }
}

/// The packages that a text of the package manager names.
pub fn packages_from_text(text: &str) -> (r: Packages)
    ensures
        r@ == packages_in(text@),
{
    let all: Vec<String> = split(text, Separator::Line);
    let mut packages: Packages = Packages::new();
    let mut i: usize = 0;
    let ghost lines = texts(all@);
    assert(lines.take(0) == Seq::<Seq<char>>::empty());
    while i < all.len()
        invariant
            i <= all.len(),
            lines == texts(all@),
            packages@ == packages_on(lines.take(i as int)),
        decreases all.len() - i,
    {
        proof {
            assert(lines.take(i + 1).drop_last() == lines.take(i as int));
            assert(lines.take(i + 1).last() == all@[i as int]@);
        }
        match parse_package_line(trim(all[i].as_str())) {
            Some((pkg, info)) => {
                packages.insert(pkg, info);
            },
            None => {},
        }
        i += 1;
    }
    assert(lines.take(i as int) == lines);
    packages
}

/// The packages that the package manager printed, or none where it could not be run.
pub fn load_third_party_packages(stdout: Option<&[u8]>) -> (r: Packages)
    ensures
        match stdout {
            Some(bytes) => r@ == packages_in(read_text(bytes@)),
            None => r@ == Map::<Seq<char>, (int, Seq<char>)>::empty(),
        },
{
    match stdout {
        Some(bytes) => packages_from_text(decode_lossy(bytes).as_str()),
        None => Packages::new(),
    }
}

/// The line that the package manager prints of a package.
pub open spec fn package_line(apk: Seq<char>, pkg: Seq<char>, uid: nat) -> Seq<char> {
    "package:"@ + apk + "="@ + pkg + " uid:"@ + decimal(uid)
}

/// The first `c` of a text that is known to have none before it.
proof fn lemma_first_place_after(a: Seq<char>, c: char, b: Seq<char>)
    requires
        !a.contains(c),
    ensures
        first_place(a.push(c) + b, c) == a.len(),
        (a.push(c) + b).take(a.len() as int) == a,
        (a.push(c) + b).skip(a.len() as int + 1) == b,
{
    let s = a.push(c) + b;
    lemma_first_place(s, c);
    assert(s[a.len() as int] == c);
    let k = first_place(s, c);
    if k < a.len() {
        assert(a[k] == s[k]);
    }
}

/// The last `c` of a text that is known to have none after it.
proof fn lemma_last_place_before(a: Seq<char>, c: char, b: Seq<char>)
    requires
        !b.contains(c),
    ensures
        last_place(a.push(c) + b, c) == a.len(),
        (a.push(c) + b).take(a.len() as int) == a,
        (a.push(c) + b).skip(a.len() as int + 1) == b,
{
    let s = a.push(c) + b;
    lemma_last_place(s, c);
    assert(s[a.len() as int] == c);
    let k = last_place(s, c);
    if k > a.len() {
        assert(b[k - a.len() - 1] == s[k]);
    }
}

/// A text that begins with `a` and goes on with `b`.
proof fn lemma_prefix(a: Seq<char>, b: Seq<char>)
    ensures
        a.is_prefix_of(a + b),
        (a + b).skip(a.len() as int) == b,
{
}

proof fn lemma_no_space(apk: Seq<char>, pkg: Seq<char>)
    requires
        !apk.contains(' '),
        !pkg.contains(' '),
    ensures
        !("package:"@ + (apk.push('=') + pkg)).contains(' '),
{
    reveal_strlit("package:");
    let label = "package:"@;
    let named = apk.push('=') + pkg;
    let head = label + named;
    assert forall|i: int| 0 <= i < head.len() implies head[i] != ' ' by {
        if i >= label.len() {
            let k = i - label.len();
            assert(head[i] == named[k]);
            if k < apk.len() {
                assert(named[k] == apk[k]);
            } else if k > apk.len() {
                assert(named[k] == pkg[k - apk.len() - 1]);
            }
        }
    }
}

proof fn lemma_package_line(apk: Seq<char>, pkg: Seq<char>, uid: nat)
    ensures
        package_line(apk, pkg, uid) == ("package:"@ + (apk.push('=') + pkg)).push(' ') + ("uid:"@
            + decimal(uid)),
{
    reveal_strlit("=");
    reveal_strlit(" uid:");
    reveal_strlit("uid:");
    assert("="@ == seq!['=']);
    assert(" uid:"@ == seq![' '] + "uid:"@);
    let left = package_line(apk, pkg, uid);
    let right = ("package:"@ + (apk.push('=') + pkg)).push(' ') + ("uid:"@ + decimal(uid));
    assert(left =~= right);
}

/// A line of the package manager is read as what it was printed of: for every path without a
/// space, whatever equals signs it holds, and every package name without a space or an equals
/// sign.
pub proof fn law_package_line_round_trip(apk: Seq<char>, pkg: Seq<char>, uid: nat)
    requires
        !apk.contains(' '),
        !pkg.contains(' '),
        !pkg.contains('='),
        uid <= u32::MAX,
    ensures
        package_on(package_line(apk, pkg, uid)) == (match parent_of(apk) {
            Some(dir) => Some((pkg, (uid as int, dir))),
            None => None,
        }),
{
    let named = apk.push('=') + pkg;
    let head = "package:"@ + named;
    let tail = "uid:"@ + decimal(uid);
    lemma_package_line(apk, pkg, uid);
    lemma_no_space(apk, pkg);
    lemma_first_place_after(head, ' ', tail);
    lemma_prefix("package:"@, named);
    lemma_prefix("uid:"@, decimal(uid));
    lemma_last_place_before(apk, '=', pkg);
    law_numeral_round_trip(uid as int, 0, u32::MAX as int);
    lemma_trimmed_numeral(uid as int);
}

/// A line of the right form is read by its parts, whatever stands where the user is named: it tells
/// of the package exactly when a user can be read there, with whitespace around it or none, and
/// something holds the file.
pub proof fn law_package_line_by_its_parts(apk: Seq<char>, pkg: Seq<char>, owner: Seq<char>)
    requires
        !apk.contains(' '),
        !pkg.contains(' '),
        !pkg.contains('='),
    ensures
        ({
            let line = "package:"@ + apk + "="@ + pkg + " uid:"@ + owner;
            let uid = parsed(trimmed(owner), 0, u32::MAX as int);
            &&& uid is Err || parent_of(apk) is None ==> package_on(line) is None
            &&& uid is Ok && parent_of(apk) is Some ==> package_on(line) == Some(
                (pkg, (uid->Ok_0, parent_of(apk)->0)),
            )
        }),
{
    reveal_strlit("=");
    reveal_strlit(" uid:");
    reveal_strlit("uid:");
    assert("="@ == seq!['=']);
    assert(" uid:"@ == seq![' '] + "uid:"@);
    let line = "package:"@ + apk + "="@ + pkg + " uid:"@ + owner;
    let named = apk.push('=') + pkg;
    let head = "package:"@ + named;
    let tail = "uid:"@ + owner;
    assert(line =~= head.push(' ') + tail);
    lemma_no_space(apk, pkg);
    lemma_first_place_after(head, ' ', tail);
    lemma_prefix("package:"@, named);
    lemma_prefix("uid:"@, owner);
    lemma_last_place_before(apk, '=', pkg);
}

/// A line that names the file, the package and the user in their places.
pub open spec fn line_of(apk: Seq<char>, pkg: Seq<char>, owner: Seq<char>) -> Seq<char> {
    "package:"@ + apk + "="@ + pkg + " uid:"@ + owner
}

/// The parts of a line whose head and tail have their labels.
proof fn lemma_parts(line: Seq<char>, head: Seq<char>, tail: Seq<char>, named: Seq<char>, eq: int)
    requires
        line == head.push(' ') + tail,
        "package:"@.is_prefix_of(head),
        "uid:"@.is_prefix_of(tail),
        named == head.skip("package:"@.len() as int),
        0 <= eq < named.len(),
        named[eq] == '=',
    ensures
        line == line_of(named.take(eq), named.skip(eq + 1), tail.skip("uid:"@.len() as int)),
{
    reveal_strlit("=");
    reveal_strlit(" uid:");
    reveal_strlit("uid:");
    let label = "package:"@;
    let apk = named.take(eq);
    let pkg = named.skip(eq + 1);
    let owner = tail.skip("uid:"@.len() as int);
    assert("="@ == seq!['=']);
    assert(" uid:"@ == seq![' '] + "uid:"@);
    assert(head.subrange(0, label.len() as int) == label);
    assert(head =~= label + named);
    assert(tail.subrange(0, "uid:"@.len() as int) == "uid:"@);
    assert(tail =~= "uid:"@ + owner);
    assert(named =~= apk + "="@ + pkg);
    assert(line =~= line_of(apk, pkg, owner));
}

/// Only lines of the right form tell of a package: the label, a path without a space, an equals
/// sign, the package without a space or an equals sign, a space, and the user behind its label.
pub proof fn law_only_package_lines_tell(line: Seq<char>)
    requires
        package_on(line) is Some,
    ensures
        exists|apk: Seq<char>, pkg: Seq<char>, owner: Seq<char>|
            {
                &&& line == #[trigger] line_of(apk, pkg, owner)
                &&& pkg == package_on(line).unwrap().0
                &&& !apk.contains(' ')
                &&& !pkg.contains(' ')
                &&& !pkg.contains('=')
            },
{
    let gap = first_place(line, ' ');
    let head = line.take(gap);
    let tail = line.skip(gap + 1);
    let label = "package:"@;
    let named = head.skip(label.len() as int);
    let owner = tail.skip("uid:"@.len() as int);
    let eq = last_place(named, '=');
    lemma_first_place(line, ' ');
    lemma_last_place(named, '=');
    let apk = named.take(eq);
    let pkg = named.skip(eq + 1);
    assert(line =~= head.push(' ') + tail);
    lemma_parts(line, head, tail, named, eq);
    assert forall|i: int| 0 <= i < named.len() implies named[i] != ' ' by {
        assert(named[i] == line[i + label.len()]);
    }
    assert forall|i: int| 0 <= i < apk.len() implies apk[i] != ' ' by {
        assert(apk[i] == named[i]);
    }
    assert forall|i: int| 0 <= i < pkg.len() implies pkg[i] != ' ' && pkg[i] != '=' by {
        assert(pkg[i] == named[eq + 1 + i]);
    }
    assert(line == line_of(apk, pkg, owner));
}

/// The packages of a text are those of its lines: of lines that a line feed joins, what the lines
/// tell one after the other.
pub proof fn law_packages_line_by_line(lines: Seq<Seq<char>>)
    requires
        lines.len() > 0,
        forall|i: int| 0 <= i < lines.len() ==> !(#[trigger] lines[i]).contains('\n'),
    ensures
        packages_in(joined(lines, seq!['\n'])) == packages_on(lines),
{
    law_joined_texts_are_the_pieces(lines, '\n');
    assert(Separator::Line.pred() =~= (|x: char| x == '\n'));
}

/// There is no whitespace around the line that is printed of a package.
proof fn lemma_trimmed_line(apk: Seq<char>, pkg: Seq<char>, uid: nat)
    ensures
        trimmed(package_line(apk, pkg, uid)) == package_line(apk, pkg, uid),
{
    reveal_strlit("package:");
    let line = package_line(apk, pkg, uid);
    let number = decimal(uid);
    lemma_decimal(uid);
    assert(digit(number[number.len() - 1]));
    assert(line[0] == "package:"@[0]);
    assert(line.last() == number.last());
}

/// Of the line that is printed of a package whose file lies in `dir`, the package is listed with
/// its user and with that directory: for every directory, the same path, and the same text where
/// `dir` does not end in a slash or in a dot after one.
pub proof fn law_listed_with_its_directory(
    dir: Seq<char>,
    file: Seq<char>,
    pkg: Seq<char>,
    uid: nat,
)
    requires
        dir.len() > 0,
        !dir.contains(' '),
        file.len() > 0,
        !file.contains('/'),
        !file.contains(' '),
        file != seq!['.'],
        !pkg.contains(' '),
        !pkg.contains('='),
        uid <= u32::MAX,
    ensures
        ({
            let told = package_on(trimmed(package_line(dir.push('/') + file, pkg, uid)));
            &&& told matches Some((name, (owner, place))) && name == pkg && owner == uid
                && components(place) == components(dir) && (settled(dir) == dir ==> place == dir)
        }),
{
    let apk = dir.push('/') + file;
    assert forall|i: int| 0 <= i < apk.len() implies apk[i] != ' ' by {
        if i < dir.len() {
            assert(apk[i] == dir[i]);
        } else if i > dir.len() {
            assert(apk[i] == file[i - dir.len() - 1]);
        }
    }
    lemma_trimmed_line(apk, pkg, uid);
    law_package_line_round_trip(apk, pkg, uid);
    law_parent_of_entry(dir, file);
    law_settled_is_the_same_path(dir);
}

/// A package is listed exactly when a line names it, and with what the last such line tells.
pub proof fn law_last_line_counts(lines: Seq<Seq<char>>, pkg: Seq<char>)
    ensures
        packages_on(lines).contains_key(pkg) <==> exists|i: int|
            0 <= i < lines.len() && #[trigger] names(lines[i], pkg),
        forall|i: int|
            0 <= i < lines.len() && #[trigger] names(lines[i], pkg) && (forall|j: int|
                i < j < lines.len() ==> !#[trigger] names(lines[j], pkg)) ==> packages_on(
                lines,
            )[pkg] == package_on(trimmed(lines[i])).unwrap().1,
    decreases lines.len(),
{
    if lines.len() > 0 {
        let init = lines.drop_last();
        let last = lines.last();
        law_last_line_counts(init, pkg);
        if names(last, pkg) {
            assert(names(lines[lines.len() - 1], pkg));
        } else {
            assert forall|i: int|
                0 <= i < lines.len() && #[trigger] names(lines[i], pkg) && (forall|j: int|
                    i < j < lines.len() ==> !#[trigger] names(lines[j], pkg)) implies packages_on(
                lines,
            )[pkg] == package_on(trimmed(lines[i])).unwrap().1 by {
                assert(names(init[i], pkg));
                assert forall|j: int| i < j < init.len() implies !#[trigger] names(init[j], pkg) by {
                    assert(!names(lines[j], pkg));
                }
            }
            if packages_on(init).contains_key(pkg) {
                let i = choose|i: int| 0 <= i < init.len() && #[trigger] names(init[i], pkg);
                assert(names(lines[i], pkg));
            }
            if exists|i: int| 0 <= i < lines.len() && #[trigger] names(lines[i], pkg) {
                let i = choose|i: int| 0 <= i < lines.len() && #[trigger] names(lines[i], pkg);
                assert(names(init[i], pkg));
            }
        }
    }
}

/// A line names a package.
pub open spec fn names(line: Seq<char>, pkg: Seq<char>) -> bool {
    package_on(trimmed(line)) matches Some(told) && told.0 == pkg
}

/// A line that tells of a package lists it with what it tells, in the place of what was told before,
/// and leaves all others; a line that tells of none changes nothing; without lines nothing is
/// listed.
pub proof fn law_one_line_more(lines: Seq<Seq<char>>, line: Seq<char>, other: Seq<char>)
    ensures
        packages_on(Seq::<Seq<char>>::empty()).dom().is_empty(),
        package_on(trimmed(line)) is None ==> packages_on(lines.push(line)) == packages_on(lines),
        package_on(trimmed(line)) matches Some(told) ==> {
            let now = packages_on(lines.push(line));
            &&& now.contains_key(told.0)
            &&& now[told.0] == told.1
            &&& other != told.0 ==> (now.contains_key(other) <==> packages_on(lines).contains_key(
                other,
            ))
            &&& other != told.0 && now.contains_key(other) ==> now[other] == packages_on(
                lines,
            )[other]
        },
{
    assert(lines.push(line).drop_last() == lines);
}

} // verus!
