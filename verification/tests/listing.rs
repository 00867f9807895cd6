use lslite::config::{parse_args, Params, ShowType, SortType};
use lslite::entry::Entry;
use lslite::format::{format_entry, parse_permissions, u64_to_string};
use lslite::listing::{ls, ls_dir, ls_file, ls_recurse, DirTree, FsTree};
use lslite::sort::sort_entries;

fn strings(args: &[&str]) -> Vec<String> {
    args.iter().map(|s| s.to_string()).collect()
}

fn file(name: &str, size: u64, readonly: bool) -> Entry {
    Entry {
        name: name.to_string(),
        is_dir: false,
        is_file: true,
        size,
        readonly,
        modified: 0,
        created: 0,
    }
}

fn dir(name: &str) -> Entry {
    Entry {
        name: name.to_string(),
        is_dir: true,
        is_file: false,
        size: 0,
        readonly: false,
        modified: 0,
        created: 0,
    }
}

fn names(lines: &[String]) -> Vec<String> {
    lines.iter().map(|l| l.split('\t').next().unwrap().to_string()).collect()
}

#[test]
fn new_params_has_everything_off() {
    let p = Params::_new();
    assert!(!p.perms);
    assert!(!p.long);
    assert!(!p.recurse);
    assert!(matches!(p.show, ShowType::All));
    assert!(matches!(p.sort, SortType::Name));
    assert_eq!(p.path, "");
}

#[test]
fn parse_no_tokens_defaults() {
    let p = parse_args(&strings(&[]));
    assert_eq!(p.path, ".");
    assert!(!p.perms && !p.long && !p.recurse);
    assert!(matches!(p.show, ShowType::All));
    assert!(matches!(p.sort, SortType::Name));
}

#[test]
fn parse_flags_and_path() {
    let p = parse_args(&strings(&["-p", "-l", "-s", "/tmp/d"]));
    assert!(p.perms);
    assert!(p.long);
    assert!(matches!(p.sort, SortType::Size));
    assert_eq!(p.path, "/tmp/d");
}

#[test]
fn parse_flag_as_last_token_defaults_path() {
    let p = parse_args(&strings(&["-r"]));
    assert!(p.recurse);
    assert_eq!(p.path, ".");
}

#[test]
fn parse_empty_last_token_defaults_path() {
    let p = parse_args(&strings(&["-l", ""]));
    assert!(p.long);
    assert_eq!(p.path, ".");
}

#[test]
fn parse_unknown_tokens_are_ignored() {
    let p = parse_args(&strings(&["-z", "--long", "q"]));
    assert!(!p.perms && !p.long && !p.recurse);
    assert!(matches!(p.show, ShowType::All));
    assert!(matches!(p.sort, SortType::Name));
    assert_eq!(p.path, "q");
}

#[test]
fn parse_last_matching_flag_wins() {
    let p = parse_args(&strings(&["-d", "-f"]));
    assert!(matches!(p.show, ShowType::File));
    let q = parse_args(&strings(&["-c", "-m"]));
    assert!(matches!(q.sort, SortType::LastModified));
    let r = parse_args(&strings(&["-s", "-c"]));
    assert!(matches!(r.sort, SortType::Created));
}

#[test]
fn decimal_rendering() {
    assert_eq!(u64_to_string(0), "0");
    assert_eq!(u64_to_string(7), "7");
    assert_eq!(u64_to_string(105), "105");
    assert_eq!(u64_to_string(u64::MAX), "18446744073709551615");
}

#[test]
fn permission_classification() {
    assert_eq!(parse_permissions(true), Some("Readonly".to_string()));
    assert_eq!(parse_permissions(false), None);
}

#[test]
fn format_name_only() {
    let p = Params::_new();
    assert_eq!(format_entry(&file("a.txt", 10, false), &p), "a.txt");
}

#[test]
fn format_with_permissions_and_size() {
    let mut p = Params::_new();
    p.perms = true;
    p.long = true;
    assert_eq!(format_entry(&file("a.txt", 10, true), &p), "a.txt\tReadonly\t10");
    assert_eq!(format_entry(&file("b", 5, false), &p), "b\tWriteable\t5");
}

#[test]
fn format_appends_sorting_timestamp() {
    let mut e = file("a", 1, false);
    e.modified = 111;
    e.created = 222;
    let mut p = Params::_new();
    p.sort = SortType::LastModified;
    assert_eq!(format_entry(&e, &p), "a\t111");
    p.sort = SortType::Created;
    assert_eq!(format_entry(&e, &p), "a\t222");
    p.sort = SortType::Size;
    assert_eq!(format_entry(&e, &p), "a");
}

#[test]
fn name_sort_keeps_enumeration_order() {
    let entries = vec![file("zebra", 3, false), file("apple", 1, false), file("mango", 2, false)];
    let sorted = sort_entries(entries, &SortType::Name);
    let got: Vec<&str> = sorted.iter().map(|e| e.name.as_str()).collect();
    assert_eq!(got, vec!["zebra", "apple", "mango"]);
}

#[test]
fn size_sort_is_non_decreasing_and_stable() {
    let entries = vec![
        file("c", 5, false),
        file("a", 10, false),
        file("b", 5, false),
        file("d", 1, false),
    ];
    let sorted = sort_entries(entries, &SortType::Size);
    let got: Vec<&str> = sorted.iter().map(|e| e.name.as_str()).collect();
    // "c" and "b" share a size and keep their relative order
    assert_eq!(got, vec!["d", "c", "b", "a"]);
    for w in sorted.windows(2) {
        assert!(w[0].size <= w[1].size);
    }
}

#[test]
fn timestamp_sorts_use_their_key() {
    let mut e1 = file("one", 0, false);
    e1.modified = 30;
    e1.created = 1;
    let mut e2 = file("two", 0, false);
    e2.modified = 10;
    e2.created = 2;
    let by_mod = sort_entries(vec![e1, e2], &SortType::LastModified);
    assert_eq!(by_mod[0].name, "two");
    let mut e3 = file("one", 0, false);
    e3.modified = 30;
    e3.created = 9;
    let mut e4 = file("two", 0, false);
    e4.modified = 10;
    e4.created = 5;
    let by_created = sort_entries(vec![e3, e4], &SortType::Created);
    assert_eq!(by_created[0].name, "two");
}

#[test]
fn single_file_is_one_line_without_header() {
    let mut p = Params::_new();
    p.perms = true;
    let out = ls_file(&file("notes.txt", 9, false), &p);
    assert_eq!(out, vec!["notes.txt\tWriteable".to_string()]);
    let out2 = ls(&FsTree::File(file("notes.txt", 9, false)), &p);
    assert_eq!(out2, vec!["notes.txt\tWriteable".to_string()]);
}

#[test]
fn empty_directory_prints_header_and_no_entries() {
    let d = DirTree { header: "/tmp/empty".to_string(), entries: vec![], subdirs: vec![] };
    let out = ls_dir(&d, &Params::_new());
    assert_eq!(out, vec!["".to_string(), "/tmp/empty".to_string(), "".to_string()]);
}

#[test]
fn two_files_with_perm_long_size_flags() {
    let d = DirTree {
        header: "/tmp/d".to_string(),
        entries: vec![file("a.txt", 10, false), file("b.txt", 5, true)],
        subdirs: vec![],
    };
    let p = parse_args(&strings(&["-p", "-l", "-s", "/tmp/d"]));
    let out = ls_dir(&d, &p);
    assert_eq!(
        out,
        vec![
            "".to_string(),
            "/tmp/d".to_string(),
            "".to_string(),
            "b.txt\tReadonly\t5".to_string(),
            "a.txt\tWriteable\t10".to_string(),
        ]
    );
}

#[test]
fn dirs_only_filter_prints_only_directories() {
    let d = DirTree {
        header: "/top".to_string(),
        entries: vec![file("f1", 1, false), dir("sub"), file("f2", 2, false)],
        subdirs: vec![],
    };
    let p = parse_args(&strings(&["-d"]));
    let out = ls_dir(&d, &p);
    assert_eq!(
        out,
        vec!["".to_string(), "/top".to_string(), "".to_string(), "sub".to_string()]
    );
}

#[test]
fn files_only_filter_prints_only_files() {
    let d = DirTree {
        header: "/top".to_string(),
        entries: vec![file("f1", 1, false), dir("sub"), file("f2", 2, false)],
        subdirs: vec![],
    };
    let p = parse_args(&strings(&["-f"]));
    let out = ls_dir(&d, &p);
    assert_eq!(
        out,
        vec![
            "".to_string(),
            "/top".to_string(),
            "".to_string(),
            "f1".to_string(),
            "f2".to_string(),
        ]
    );
}

#[test]
fn recursion_is_depth_first_pre_order() {
    let tree = DirTree {
        header: "/r".to_string(),
        entries: vec![dir("a"), dir("b")],
        subdirs: vec![
            DirTree {
                header: "/r/a".to_string(),
                entries: vec![dir("x")],
                subdirs: vec![DirTree {
                    header: "/r/a/x".to_string(),
                    entries: vec![],
                    subdirs: vec![],
                }],
            },
            DirTree { header: "/r/b".to_string(), entries: vec![], subdirs: vec![] },
        ],
    };
    let out = ls_recurse(&tree, &Params::_new());
    let headers: Vec<&String> = out.iter().filter(|l| l.starts_with("/")).collect();
    // every directory appears exactly once, depth-first, pre-order
    assert_eq!(headers, vec!["/r", "/r/a", "/r/a/x", "/r/b"]);
}

#[test]
fn recursive_dirs_only_headers_and_no_file_lines() {
    let tree = DirTree {
        header: "/r".to_string(),
        entries: vec![file("f", 1, false), dir("a")],
        subdirs: vec![DirTree {
            header: "/r/a".to_string(),
            entries: vec![file("g", 2, false)],
            subdirs: vec![],
        }],
    };
    let p = parse_args(&strings(&["-d", "-r"]));
    assert!(p.recurse);
    let out = ls_recurse(&tree, &p);
    assert_eq!(
        out,
        vec![
            "".to_string(),
            "/r".to_string(),
            "".to_string(),
            "a".to_string(),
            "".to_string(),
            "/r/a".to_string(),
            "".to_string(),
        ]
    );
}

#[test]
fn display_flags_do_not_change_entry_order() {
    let entries = || vec![file("zz", 4, true), file("aa", 9, false), dir("mm")];
    let d1 = DirTree { header: "/d".to_string(), entries: entries(), subdirs: vec![] };
    let plain = ls_dir(&d1, &parse_args(&strings(&[])));
    let d2 = DirTree { header: "/d".to_string(), entries: entries(), subdirs: vec![] };
    let decorated = ls_dir(&d2, &parse_args(&strings(&["-p", "-l"])));
    assert_eq!(names(&plain[3..]), names(&decorated[3..]));
    assert_eq!(names(&plain[3..]), vec!["zz", "aa", "mm"]);
}
