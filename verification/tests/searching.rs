use unearth::ignore::{add_ignore_content, ignore_file_names, is_ignored_name, IgnoreRules};
use unearth::ledger::{choose_fish_pid, parse_parent_pid, raw_cache_paths, RawLedger};
use unearth::matcher::compile_matcher;
use unearth::mounts::{
    detect_mount_info_from, is_ntfs_fs_type, ntfs_rel_names, path_starts_with, unescape_proc_mount_field,
    EntryFilter, EntryOffer, NtfsScan,
};
use unearth::options::{parse_args, ArgsOutcome, Options};
use unearth::pattern::TypeFlag;
use unearth::results::SearchResult;
use unearth::search::{
    contains_finish, contains_prepare, full_finish, full_prepare, make_root_absolute, order_terms,
    standard_finish, standard_prepare, FullPrepared, SearchRoot,
};
use unearth::walk::{is_catch_all, report_path, walk_entry_action, EntryFacts, WalkRules};

fn opts(v: &[&str]) -> Options {
    let a: Vec<String> = v.iter().map(|s| s.to_string()).collect();
    match parse_args(&a) {
        Ok(ArgsOutcome::Run(o)) => o,
        _ => panic!("expected a search"),
    }
}

fn strings(v: &[&str]) -> Vec<String> {
    v.iter().map(|s| s.to_string()).collect()
}

fn file(path: &str) -> SearchResult {
    SearchResult { path: path.to_string(), is_dir: false, is_symlink: false, meta: None }
}

fn dir(path: &str) -> SearchResult {
    SearchResult { path: path.to_string(), is_dir: true, is_symlink: false, meta: None }
}

fn paths(v: &[SearchResult]) -> Vec<String> {
    v.iter().map(|r| r.path.clone()).collect()
}

#[test]
fn terms_most_selective_first() {
    let t = strings(&["*", "ab", "/exact/", "abcd"]);
    assert_eq!(order_terms(&t, false), strings(&["^exact$", "abcd", "ab", ".*"]));
}

#[test]
fn terms_tie_break_by_length_then_text() {
    let t = strings(&["bb", "aa"]);
    assert_eq!(order_terms(&t, false), strings(&["aa", "bb"]));
}

#[test]
fn contains_all_prepare_and_finish() {
    let o = opts(&["alpha", "beta"]);
    let cs = contains_prepare(&o.settings, &strings(&["alpha", "beta"]), ".".to_string(), "/w").unwrap().unwrap();
    assert_eq!(cs.regexes, strings(&["alpha", "beta"]));
    assert_eq!(cs.root, ".");
    assert!(!cs.full_path_match);
    assert_eq!(cs.type_flag, None);
    let rows = vec![file("./x/alpha_beta"), file("./alpha/beta"), file("./b/betalpha")];
    let (out, h) = contains_finish(&cs, &o.settings, rows).unwrap();
    assert_eq!(paths(&out), strings(&["./alpha/beta", "./b/betalpha", "./x/alpha_beta"]));
    assert!(h.is_none());
}

#[test]
fn contains_all_dir_term_restricts_type() {
    let o = opts(&["alpha", "beta/"]);
    let cs = contains_prepare(&o.settings, &strings(&["alpha", "beta/"]), ".".to_string(), "/w").unwrap().unwrap();
    assert_eq!(cs.type_flag, Some(TypeFlag::Dir));
}

#[test]
fn contains_all_full_paths_prune_and_absolute_root() {
    let o = opts(&["--full", "src", "main"]);
    let cs = contains_prepare(&o.settings, &strings(&["src", "main"]), ".".to_string(), "/w").unwrap().unwrap();
    assert_eq!(cs.root, "/w");
    assert!(cs.full_path_match);
    let rows = vec![dir("/w/src/main/"), file("/w/src/main/x.rs"), file("/w/src/main.rs"), file("/w/main/other")];
    let (out, _) = contains_finish(&cs, &o.settings, rows).unwrap();
    assert_eq!(paths(&out), strings(&["/w/src/main.rs", "/w/src/main/"]));
}

#[test]
fn contains_all_bad_regex() {
    let o = opts(&["-r", "--contains-all", "(ab", "("]);
    let e = contains_prepare(&o.settings, &strings(&["(ab", "("]), ".".to_string(), "/w").err().unwrap();
    assert!(e.starts_with("Invalid regex: "));
}

#[test]
fn full_mode_root_and_patterns() {
    let o = opts(&["--full", "test", "/data"]);
    match full_prepare(&o, true, "/w") {
        FullPrepared::Search(fs) => {
            assert_eq!(fs.root, "/data");
            assert_eq!(fs.patterns, vec![("test".to_string(), false)]);
            let rows = vec![dir("/data/test/"), file("/data/test/file"), file("/data/a/test.txt")];
            let (out, _) = full_finish(&fs, &o.settings, rows).unwrap();
            assert_eq!(paths(&out), strings(&["/data/a/test.txt", "/data/test/"]));
        }
        _ => panic!("expected a search"),
    }
    match full_prepare(&o, false, "/w") {
        FullPrepared::Search(fs) => {
            assert_eq!(fs.root, "/w");
            assert_eq!(fs.patterns.len(), 2);
            assert!(fs.patterns[1].1);
        }
        _ => panic!("expected a search"),
    }
}

#[test]
fn full_mode_bad_first_pattern() {
    let o = opts(&["--full", "-r", "a("]);
    assert!(matches!(full_prepare(&o, false, "/w"), FullPrepared::BadFirst(_)));
}

#[test]
fn standard_prepare_forms() {
    let o = opts(&["/abc/"]);
    let ss = standard_prepare(&o, false, None, None).unwrap();
    assert_eq!(ss.regex, "^abc$");
    assert_eq!(ss.type_flag, Some(TypeFlag::Dir));
    assert!(matches!(ss.root, SearchRoot::Dir(ref d) if d == "."));
    assert!(ss.stream_direct);
    let o = opts(&["-f", "/abc/", "*src*"]);
    let ss = standard_prepare(&o, false, None, None).unwrap();
    assert_eq!(ss.type_flag, Some(TypeFlag::File));
    assert!(matches!(ss.root, SearchRoot::Dirs(_)));
    let o = opts(&["x", "here"]);
    let ss = standard_prepare(&o, true, Some("/w/here".to_string()), None).unwrap();
    assert!(matches!(ss.root, SearchRoot::Dir(ref d) if d == "/w/here"));
    assert!(!ss.stream_direct);
    let o = opts(&["-r", "a("]);
    assert!(standard_prepare(&o, false, None, None).err().unwrap().starts_with("Invalid regex: "));
    let o = opts(&["--highlight-match", "x"]);
    let ss = standard_prepare(&o, false, None, None).unwrap();
    let h = standard_finish(&ss, &o.settings).unwrap().unwrap();
    assert_eq!(h.leaf_rules.len(), 1);
    assert_eq!(h.prefix_rules.len(), 0);
}

#[test]
fn absolute_roots() {
    assert_eq!(make_root_absolute(".", "/w"), "/w");
    assert_eq!(make_root_absolute("./a", "/w"), "/w/a");
    assert_eq!(make_root_absolute("/x", "/w"), "/x");
}

#[test]
fn walk_entry_actions() {
    let re = compile_matcher("abc", true).unwrap();
    let rules = WalkRules {
        visible_only: true,
        no_recurse: false,
        follow_links: false,
        type_flag: None,
        is_catch_all: false,
        full_path_match: false,
        prune_matched_dirs: false,
        parent_is_root: true,
    };
    let e = EntryFacts { name: "xABCx".to_string(), path: "/xABCx".to_string(), is_dir: true, is_symlink: false };
    let a = walk_entry_action(&e, &rules, None, &re);
    assert_eq!(a.emit, Some("/xABCx/".to_string()));
    assert!(a.descend);
    let hidden = EntryFacts { name: ".abc".to_string(), path: "/.abc".to_string(), is_dir: false, is_symlink: false };
    let a = walk_entry_action(&hidden, &rules, None, &re);
    assert!(a.emit.is_none() && !a.descend);
    let proc_dir = EntryFacts { name: "proc".to_string(), path: "/proc".to_string(), is_dir: true, is_symlink: false };
    assert!(!walk_entry_action(&proc_dir, &rules, None, &re).descend);
    let link = EntryFacts { name: "abc".to_string(), path: "/abc".to_string(), is_dir: true, is_symlink: true };
    let a = walk_entry_action(&link, &rules, None, &re);
    assert!(a.emit.is_some() && !a.descend);
    assert!(is_catch_all(".*"));
    assert!(is_catch_all("^.*$"));
    assert!(!is_catch_all("a.*"));
    assert_eq!(report_path("./d", true), "./d/");
    assert_eq!(report_path("./f", false), "./f");
}

#[test]
fn ignore_rules() {
    let mut r = IgnoreRules::new();
    add_ignore_content(&mut r, "# comment\ntarget/\n/node_modules\n*.log\n!keep.log\nbuild\n");
    assert!(is_ignored_name("target", true, &r));
    assert!(!is_ignored_name("target", false, &r));
    assert!(is_ignored_name("build", false, &r));
    assert!(is_ignored_name("node_modules", true, &r));
    assert!(is_ignored_name("x.log", false, &r));
    assert!(!is_ignored_name("keep.log", false, &r));
    assert!(!is_ignored_name("x.txt", false, &r));
    assert!(!is_ignored_name("comment", false, &r));
    assert_eq!(ignore_file_names(), strings(&[".gitignore", ".ignore", ".fdignore"]));
}

#[test]
fn ignore_globs() {
    let mut r = IgnoreRules::new();
    add_ignore_content(&mut r, "file?.txt\n[abc]*.o\n[!x]z\nnum[0-9]\n\\#lit\n**/deep\nsub/inner\n");
    assert!(is_ignored_name("file1.txt", false, &r));
    assert!(!is_ignored_name("file12.txt", false, &r));
    assert!(is_ignored_name("b.o", false, &r));
    assert!(is_ignored_name("apple.o", false, &r));
    assert!(!is_ignored_name("d.o", false, &r));
    assert!(is_ignored_name("yz", false, &r));
    assert!(!is_ignored_name("xz", false, &r));
    assert!(is_ignored_name("num7", false, &r));
    assert!(!is_ignored_name("numa", false, &r));
    assert!(is_ignored_name("#lit", false, &r));
    assert!(is_ignored_name("deep", true, &r));
    assert!(!is_ignored_name("inner", false, &r));
    assert!(!is_ignored_name("sub", true, &r));
}

#[test]
fn ignore_last_rule_decides() {
    let mut r = IgnoreRules::new();
    add_ignore_content(&mut r, "*.log\n");
    add_ignore_content(&mut r, "!important.log\n");
    assert!(!is_ignored_name("important.log", false, &r));
    assert!(is_ignored_name("other.log", false, &r));
    add_ignore_content(&mut r, "*\n");
    assert!(is_ignored_name("important.log", false, &r));
}

#[test]
fn mount_fields_and_detection() {
    assert_eq!(unescape_proc_mount_field("/mnt/my\\040disk"), "/mnt/my disk");
    assert_eq!(unescape_proc_mount_field("a\\09"), "a\\09");
    let table = "sysfs /sys sysfs rw 0 0\n/dev/sda1 / ext4 rw 0 0\n/dev/sdb1 /mnt/c ntfs3 rw 0 0\nbroken\n";
    let m = detect_mount_info_from(table, "/mnt/c/Users").unwrap();
    assert_eq!(m.device, "/dev/sdb1");
    assert_eq!(m.mount_point, "/mnt/c");
    assert_eq!(m.fs_type, "ntfs3");
    let m = detect_mount_info_from(table, "/mnt/cd").unwrap();
    assert_eq!(m.mount_point, "/");
    assert!(detect_mount_info_from("", "/x").is_none());
    assert!(is_ntfs_fs_type("fuseblk"));
    assert!(!is_ntfs_fs_type("ext4"));
}

#[test]
fn path_prefixes_by_component() {
    assert!(path_starts_with("/mnt/c/x", "/mnt/c"));
    assert!(path_starts_with("/mnt/c", "/mnt/c/"));
    assert!(!path_starts_with("/mnt/cd", "/mnt/c"));
    assert!(path_starts_with("/a//b/./c", "/a/b"));
    assert_eq!(ntfs_rel_names("/mnt/c/Users/me", "/mnt/c"), strings(&["Users", "me"]));
    assert!(ntfs_rel_names("/mnt/c", "/mnt/c").is_empty());
}

#[test]
fn entry_filter_offers() {
    let mut f = EntryFilter::new();
    assert!(matches!(f.offer(".", 5, "x"), EntryOffer::Skip));
    assert!(matches!(f.offer("a", 7, "x"), EntryOffer::Other));
    assert!(matches!(f.offer("x", 7, "x"), EntryOffer::Skip));
    assert!(matches!(f.offer("x", 8, "x"), EntryOffer::Found));
}

#[test]
fn ntfs_scan_bookkeeping() {
    let mut s = NtfsScan::new(5, true);
    assert_eq!(s.next_dir(), Some(5));
    s.add_child(6, true, false, 0);
    s.add_child(7, false, false, 100);
    s.add_child(8, false, true, 1000);
    s.add_child(5, true, false, 0);
    assert_eq!(s.next_dir(), Some(6));
    s.add_child(9, false, false, u64::MAX);
    assert_eq!(s.next_dir(), None);
    assert_eq!(s.totals(), (u64::MAX, 2));
}

#[test]
fn raw_ledger_writes_each_line_once() {
    let mut l = RawLedger::new();
    let (d, f) = l.record("./a/b.txt", false);
    assert_eq!(d, strings(&["./a/"]));
    assert_eq!(f, strings(&["./a/b.txt"]));
    let (d, f) = l.record("./a", true);
    assert_eq!(d, strings(&["./"]));
    assert!(f.is_empty());
    let (d, f) = l.record("./a/", true);
    assert!(d.is_empty() && f.is_empty());
    let (d, _) = l.record("/top", false);
    assert_eq!(d, strings(&["/"]));
    let (d, _) = l.record("plain", false);
    assert!(d.is_empty());
}

#[test]
fn raw_cache_locations() {
    let (dir, dirs, files) = raw_cache_paths(Some("me".to_string()), "42");
    assert_eq!(dir, "/tmp/fzf-history-me");
    assert_eq!(dirs, "/tmp/fzf-history-me/universal-last-dirs-42");
    assert_eq!(files, "/tmp/fzf-history-me/universal-last-files-42");
    let (dir, _, _) = raw_cache_paths(None, "1");
    assert_eq!(dir, "/tmp/fzf-history-unknown");
}

#[test]
fn fish_pid_choice() {
    assert_eq!(choose_fish_pid(Some("123".to_string()), Some("9".to_string()), Some(7), 1), "123");
    assert_eq!(choose_fish_pid(Some("12a".to_string()), Some("9".to_string()), Some(7), 1), "9");
    assert_eq!(choose_fish_pid(Some(String::new()), None, Some(7), 1), "7");
    assert_eq!(choose_fish_pid(None, None, None, 31), "31");
}

#[test]
fn parent_pid_parsing() {
    assert_eq!(parse_parent_pid("1234 (my (odd) prog) S 77 1234 1234"), Some(77));
    assert_eq!(parse_parent_pid("1 (init) S x"), None);
    assert_eq!(parse_parent_pid("garbage"), None);
}

#[test]
fn walk_skips_entries_an_ignore_glob_names() {
    let re = compile_matcher("x", true).unwrap();
    let rules = WalkRules {
        visible_only: false,
        no_recurse: false,
        follow_links: false,
        type_flag: None,
        is_catch_all: false,
        full_path_match: false,
        prune_matched_dirs: false,
        parent_is_root: false,
    };
    let mut ig = IgnoreRules::new();
    add_ignore_content(&mut ig, "*.log\n");
    let log = EntryFacts { name: "x.log".to_string(), path: "./d/x.log".to_string(), is_dir: false, is_symlink: false };
    let a = walk_entry_action(&log, &rules, Some(&ig), &re);
    assert!(a.emit.is_none() && !a.descend);
    let txt = EntryFacts { name: "x.txt".to_string(), path: "./d/x.txt".to_string(), is_dir: false, is_symlink: false };
    assert_eq!(walk_entry_action(&txt, &rules, Some(&ig), &re).emit, Some("./d/x.txt".to_string()));
    assert_eq!(walk_entry_action(&log, &rules, None, &re).emit, Some("./d/x.log".to_string()));
}

#[test]
fn mount_field_escapes_of_utf8_text() {
    assert_eq!(unescape_proc_mount_field("/mnt/caf\\303\\251"), "/mnt/café");
}

#[test]
fn ntfs_scan_reads_every_queued_directory() {
    let mut s = NtfsScan::new(1, true);
    assert_eq!(s.next_dir(), Some(1));
    s.add_child(2, true, false, 0);
    s.add_child(3, true, false, 0);
    s.add_child(1, true, false, 0);
    assert_eq!(s.next_dir(), Some(3));
    s.add_child(4, false, false, 10);
    assert_eq!(s.next_dir(), Some(2));
    s.add_child(5, false, false, 20);
    assert_eq!(s.next_dir(), None);
    assert_eq!(s.totals(), (30, 2));
}

#[test]
fn contains_all_words_in_any_order() {
    let orders = [
        ["*", "ab", "/exact/", "abcd"],
        ["abcd", "/exact/", "ab", "*"],
        ["ab", "*", "abcd", "/exact/"],
    ];
    for t in orders.iter() {
        assert_eq!(order_terms(&strings(t), false), strings(&["^exact$", "abcd", "ab", ".*"]));
    }
    let o = opts(&["alpha", "beta/"]);
    let a = contains_prepare(&o.settings, &strings(&["alpha", "beta/"]), ".".to_string(), "/w").unwrap().unwrap();
    let b = contains_prepare(&o.settings, &strings(&["beta/", "alpha"]), ".".to_string(), "/w").unwrap().unwrap();
    assert_eq!(a.regexes, b.regexes);
    assert_eq!(a.type_flag, b.type_flag);
}
