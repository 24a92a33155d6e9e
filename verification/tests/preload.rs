use coreshift_core::reactor::{Fd, Reactor, Token};
use utensil::packages::{
    list_args, load_third_party_packages, packages_from_text, parse_package_line, LIST_PROGRAM,
};
use utensil::pids::{listed_pids, top_app_pids_for_uid, PidSet};
use utensil::pm::{
    connect_again, foreground_uid, on_event, on_foreground, Connect, Hinted, Reaction,
};
use utensil::preload::{
    apply, discover, hint_next, hint_package, is_shared_object, method_for, method_in_code,
    method_in_package, real_file, scan_dirs, Entry, FileMeta, HintCall, HintStep, Listing, Method,
    Place, Tally,
};
use utensil::readiness::Readiness;

fn tokens(n: usize) -> Vec<Token> {
    let mut reactor = Reactor::new().unwrap();
    let mut fds = Vec::new();
    let mut list = Vec::new();
    for _ in 0..n {
        let fd = Fd::eventfd(0).unwrap();
        list.push(reactor.add(&fd, true, false).unwrap());
        fds.push(fd);
    }
    list
}

fn pids(list: &[i32]) -> PidSet {
    let mut set = PidSet::new();
    for p in list {
        set = set.with(*p);
    }
    set
}

#[test]
fn package_line_is_read() {
    let (pkg, info) = parse_package_line("package:/data/app/x/base.apk=com.pkg uid:10234").unwrap();
    assert_eq!(pkg, "com.pkg");
    assert_eq!(info.uid, 10234);
    assert_eq!(info.install_dir, "/data/app/x");
}

#[test]
fn package_line_splits_at_the_last_equals_sign() {
    let (pkg, info) =
        parse_package_line("package:/data/app/~~q==/com.a-1==/base.apk=com.a uid: 7 ").unwrap();
    assert_eq!(pkg, "com.a");
    assert_eq!(info.uid, 7);
    assert_eq!(info.install_dir, "/data/app/~~q==/com.a-1==");
}

#[test]
fn packages_are_listed_with_their_directory() {
    for dir in ["/a", "/a/", "/a/.", "/a//", "/", ".", "./x/", "x"] {
        let line = format!("package:{dir}/base.apk=com.a uid:1");
        let (_, info) = parse_package_line(&line).unwrap();
        assert_eq!(std::path::Path::new(&info.install_dir), std::path::Path::new(dir));
    }
}

#[test]
fn package_listing_command() {
    assert_eq!(LIST_PROGRAM, "cmd");
    assert_eq!(list_args(), ["package", "list", "packages", "-f", "-U", "-3"]);
}

#[test]
fn package_lines_that_tell_nothing() {
    for line in [
        "",
        "package:/a/base.apk=com.a",
        "pkg:/a/base.apk=com.a uid:1",
        "package:/a/base.apk=com.a gid:1",
        "package:/a/base.apk=com.a uid:x",
        "package:/a/base.apk=com.a uid:4294967296",
        "package:/a/base.apk=com.a uid:1 2",
        "package:/a/base.apk uid:1",
        "package:=com.a uid:1",
        "package:/=com.a uid:1",
        "package:/a/base.apk=com.a  uid:1",
    ] {
        assert!(parse_package_line(line).is_none(), "{line:?}");
    }
}

#[test]
fn package_list_keeps_the_last_line_of_a_package() {
    let text = "package:/a/1/base.apk=com.a uid:1\r\n\nnoise\n  package:/b/base.apk=com.b uid:2\n\
                package:/a/2/base.apk=com.a uid:3";
    let list = packages_from_text(text);
    assert_eq!(list.len(), 2);
    assert_eq!(list.get("com.a").unwrap().uid, 3);
    assert_eq!(list.get("com.a").unwrap().install_dir, "/a/2");
    assert_eq!(list.get("com.b").unwrap().install_dir, "/b");
    assert!(list.get("com.c").is_none());
}

#[test]
fn package_list_of_command_output() {
    assert_eq!(load_third_party_packages(None).len(), 0);
    let list = load_third_party_packages(Some(b"package:/a\xff/base.apk=com.a uid:1\n"));
    assert_eq!(list.get("com.a").unwrap().install_dir, "/a\u{fffd}");
}

#[test]
fn pid_list_passes_over_other_lines() {
    assert_eq!(listed_pids("12\n 34 \n\nx\n-5\r\n99999999999\n7"), vec![12, 34, -5, 7]);
    assert!(listed_pids("").is_empty());
}

#[test]
fn pids_of_one_user() {
    let owned = vec![(1, Some(10)), (2, None), (3, Some(11)), (4, Some(10)), (1, Some(10))];
    let set = top_app_pids_for_uid(&owned, 10);
    assert_eq!(set.len(), 2);
    assert!(set.contains(1) && set.contains(4));
    assert!(!set.contains(2) && !set.contains(3));
    assert!(set.same(&pids(&[4, 1])));
    assert!(!set.same(&pids(&[4])));
    assert!(!pids(&[4]).same(&set));
}

#[test]
fn foreground_is_hinted_once_for_the_same_pids() {
    let list = packages_from_text("package:/a/base.apk=com.a uid:1\npackage:/b/base.apk=com.b uid:2");
    let mut hinted = Hinted::new();
    assert_eq!(foreground_uid("com.a", &list), Some(1));
    assert_eq!(foreground_uid("com.x", &list), None);
    assert_eq!(on_foreground("com.x", &list, &mut hinted, pids(&[1])), None);
    assert_eq!(on_foreground("com.a", &list, &mut hinted, pids(&[1, 2])), Some("/a"));
    assert_eq!(on_foreground("com.a", &list, &mut hinted, pids(&[2, 1])), None);
    assert_eq!(on_foreground("com.b", &list, &mut hinted, pids(&[1, 2])), Some("/b"));
    assert_eq!(on_foreground("com.a", &list, &mut hinted, pids(&[2])), Some("/a"));
    assert_eq!(on_foreground("com.a", &list, &mut hinted, pids(&[1, 2])), Some("/a"));
    assert_eq!(on_foreground("com.b", &list, &mut hinted, pids(&[])), Some("/b"));
    assert_eq!(on_foreground("com.b", &list, &mut hinted, pids(&[])), None);
}

#[test]
fn preloader_connects_again_after_two_seconds() {
    assert_eq!(connect_again(Connect::Connected), None);
    assert_eq!(connect_again(Connect::InProgress), Some(2000));
    assert_eq!(connect_again(Connect::Failed), Some(2000));
}

#[test]
fn preloader_events() {
    let t = tokens(2);
    let event = |token, error, hangup| Readiness { token, readable: true, error, hangup };
    assert_eq!(on_event(&event(t[0], false, false), t[0]), Reaction::Read);
    assert_eq!(on_event(&event(t[0], true, false), t[0]), Reaction::End);
    assert_eq!(on_event(&event(t[0], false, true), t[0]), Reaction::End);
    assert_eq!(on_event(&event(t[1], true, true), t[0]), Reaction::Nothing);
}

#[test]
fn package_directories_in_order() {
    let dirs: Vec<(Place, String)> =
        scan_dirs().into_iter().map(|d| (d.place, d.sub)).collect();
    let expected: Vec<(Place, String)> = [
        (Place::Root, ""),
        (Place::Lib, "lib/arm64"),
        (Place::Lib, "lib/arm"),
        (Place::Lib, "lib/x86_64"),
        (Place::Lib, "lib/x86"),
        (Place::Oat, "oat/arm64"),
        (Place::Oat, "oat/arm"),
        (Place::Oat, "oat/x86_64"),
        (Place::Oat, "oat/x86"),
    ]
    .iter()
    .map(|(p, s)| (*p, s.to_string()))
    .collect();
    assert_eq!(dirs, expected);
}

#[test]
fn real_files_are_no_links() {
    assert!(real_file(Some(FileMeta { is_file: true, is_symlink: false })));
    assert!(!real_file(Some(FileMeta { is_file: true, is_symlink: true })));
    assert!(!real_file(Some(FileMeta { is_file: false, is_symlink: false })));
    assert!(!real_file(None));
}

#[test]
fn methods_by_name() {
    assert_eq!(method_in_package("base.apk"), Some(Method::Fadvise));
    assert_eq!(method_in_package(".dm"), Some(Method::Fadvise));
    assert_eq!(method_in_package("base.apk.idsig"), None);
    assert_eq!(method_in_code("base.art"), Some(Method::Fadvise));
    assert_eq!(method_in_code("base.odex"), Some(Method::Readahead));
    assert_eq!(method_in_code("base.vdex"), Some(Method::Readahead));
    assert_eq!(method_in_code("base.dex"), None);
    assert_eq!(method_for(Place::Lib, b"libx.so"), Some(Method::Readahead));
    assert_eq!(method_for(Place::Lib, b"base.apk"), None);
    assert_eq!(method_for(Place::Root, b"libx.so"), None);
    assert_eq!(method_for(Place::Root, b"x\xff.apk"), Some(Method::Fadvise));
    assert_eq!(method_for(Place::Root, b"\xe2\x82.dm"), Some(Method::Fadvise));
    assert_eq!(method_for(Place::Oat, b"\xffbase.vdex"), Some(Method::Readahead));
}

#[test]
fn shared_objects_agree_with_std() {
    for name in ["libx.so", ".so", "a.so", "..so", "x.so.1", "so", "xso", "", ".x.so", "a.SO", "é.so"] {
        let expected = std::path::Path::new(name).extension().map(|x| x == "so").unwrap_or(false);
        assert_eq!(is_shared_object(name.as_bytes()), expected, "{name:?}");
    }
}

fn entry(path: u32, name: &str, is_file: bool, is_symlink: bool) -> Entry<u32> {
    Entry { path, name: name.as_bytes().to_vec(), meta: Some(FileMeta { is_file, is_symlink }) }
}

#[test]
fn discover_takes_every_relevant_file() {
    let listings = vec![
        Listing {
            place: Place::Root,
            entries: vec![
                entry(1, "base.apk", true, false),
                entry(2, "split.apk", false, true),
                entry(3, "lib", false, false),
                entry(4, "base.dm", true, false),
                Entry { path: 5, name: b"gone.apk".to_vec(), meta: None },
            ],
        },
        Listing { place: Place::Lib, entries: vec![] },
        Listing {
            place: Place::Lib,
            entries: vec![entry(6, "libx.so", true, false), entry(7, "x.txt", true, false)],
        },
        Listing {
            place: Place::Oat,
            entries: vec![
                entry(8, "base.odex", true, false),
                entry(9, "base.art", true, false),
                entry(10, "base.vdex", true, false),
                entry(11, "dir.vdex", false, false),
            ],
        },
    ];
    let targets: Vec<(u32, Method)> =
        discover(&listings).iter().map(|t| (*t.path, t.method)).collect();
    assert_eq!(
        targets,
        vec![
            (1, Method::Fadvise),
            (4, Method::Fadvise),
            (6, Method::Readahead),
            (8, Method::Readahead),
            (9, Method::Fadvise),
            (10, Method::Readahead),
        ]
    );
}

#[test]
fn discover_finds_nothing_in_nothing() {
    let listings: Vec<Listing<u32>> = vec![];
    assert!(discover(&listings).is_empty());
}

#[test]
fn empty_files_are_not_hinted() {
    assert_eq!(apply(0, Method::Fadvise), HintCall::Nothing);
    assert_eq!(apply(0, Method::Readahead), HintCall::Nothing);
    assert_eq!(apply(7, Method::Fadvise), HintCall::Fadvise(7));
    assert_eq!(apply(8, Method::Readahead), HintCall::Readahead(8));
}

#[test]
fn tally_counts_what_succeeded() {
    let outcomes = vec![Some(10), None, Some(0), Some(5)];
    assert_eq!(hint_package(&outcomes), Tally { bytes: 15, files: 3 });
    assert_eq!(hint_package(&vec![]), Tally { bytes: 0, files: 0 });
    let mut tally = Tally::new();
    tally.note(Some(3));
    tally.note(None);
    assert_eq!(tally, Tally { bytes: 3, files: 1 });
}

#[test]
fn every_target_is_tried_whatever_comes_of_the_others() {
    assert_eq!(hint_next(0, &vec![]), HintStep::NoTargets);
    assert_eq!(hint_next(3, &vec![]), HintStep::Hint(0));
    assert_eq!(hint_next(3, &vec![None]), HintStep::Hint(1));
    assert_eq!(hint_next(3, &vec![None, Some(0)]), HintStep::Hint(2));
    assert_eq!(hint_next(3, &vec![None, Some(0), None]), HintStep::Tell);
}
