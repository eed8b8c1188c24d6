use unearth::matcher::compile_matcher;
use unearth::options::{Options, SortField, SortOrder};
use unearth::results::{
    absolute_paths_transform, counts_summary_transform, filter_rows, filter_rows_base_any,
    parent_folder_of, prune_nested_results, sort_rows_by_path, EntryMeta, SearchResult,
};
use unearth::sizes::{
    compact_decimals, compact_unit, dirs_needing_sizes, iec_decimals, iec_unit, normalize_dir_key,
    should_use_recursive_dirsize, size_bytes_for_result, size_hidden, size_unit_index, sort_results,
    DirTotals,
};
use unearth::output::{long_line, long_size_source, output_kind, sizes_line, LongSize, OutputKind};
use unearth::text::{chars_of, string_of};

fn meta(len: u64, mtime: u64, mode: u32, is_dir: bool) -> EntryMeta {
    EntryMeta {
        len,
        mtime_secs: mtime,
        mtime_text: "2024-01-01 00:00:00".to_string(),
        mode,
        is_dir,
        is_fifo: false,
        is_socket: false,
    }
}

fn file(path: &str) -> SearchResult {
    SearchResult { path: path.to_string(), is_dir: false, is_symlink: false, meta: None }
}

fn file_m(path: &str, len: u64, mtime: u64) -> SearchResult {
    SearchResult { path: path.to_string(), is_dir: false, is_symlink: false, meta: Some(meta(len, mtime, 0o644, false)) }
}

fn dir(path: &str) -> SearchResult {
    SearchResult { path: path.to_string(), is_dir: true, is_symlink: false, meta: None }
}

fn paths(v: &[SearchResult]) -> Vec<String> {
    v.iter().map(|r| r.path.clone()).collect()
}

#[test]
fn rows_sorted_by_path() {
    let rows = vec![file("./b"), file("./a/z"), file("./a")];
    assert_eq!(paths(&sort_rows_by_path(rows)), vec!["./a", "./a/z", "./b"]);
}

#[test]
fn pruning_hides_children_of_matched_dirs() {
    let rows = vec![dir("/p/test/"), file("/p/test/file"), file("/p/other"), dir("/p/test/sub/")];
    assert_eq!(paths(&prune_nested_results(rows)), vec!["/p/test/", "/p/other"]);
}

#[test]
fn pruning_keeps_siblings_sharing_a_prefix() {
    let rows = vec![dir("/p/test/"), file("/p/testing")];
    assert_eq!(paths(&prune_nested_results(rows)), vec!["/p/test/", "/p/testing"]);
}

#[test]
fn further_pattern_on_base_or_path() {
    let re = compile_matcher("main", true).unwrap();
    let rows = vec![file("./src/main.rs"), file("./main/lib.rs"), file("./x")];
    assert_eq!(paths(&filter_rows(rows, &re, false)), vec!["./src/main.rs"]);
    let rows = vec![file("./src/main.rs"), file("./main/lib.rs"), file("./x")];
    assert_eq!(paths(&filter_rows(rows, &re, true)), vec!["./src/main.rs", "./main/lib.rs"]);
}

#[test]
fn any_pattern_on_base() {
    let ms = vec![compile_matcher("^a", true).unwrap(), compile_matcher("z$", true).unwrap()];
    let rows = vec![file("./q/abc"), file("./a/q"), file("./q/xyz")];
    assert_eq!(paths(&filter_rows_base_any(rows, &ms)), vec!["./q/abc", "./q/xyz"]);
}

#[test]
fn absolute_display_paths() {
    let rows = vec![file("./x/y"), file("/abs"), file("rel")];
    assert_eq!(paths(&absolute_paths_transform(rows, "/home/u")), vec!["/home/u/x/y", "/abs", "/home/u/rel"]);
}

#[test]
fn parent_folders() {
    let f = |p: &str| string_of(parent_folder_of(chars_of(p).as_slice()).as_slice());
    assert_eq!(f("./a/b.txt"), "./a");
    assert_eq!(f("/top"), "/");
    assert_eq!(f("plain"), ".");
    assert_eq!(f("./a/dir/"), "./a");
}

#[test]
fn counts_summary_ascending() {
    let rows = vec![file("./b/1"), file("./a/1"), file("./b/2"), dir("./c/"), file("./a/2"), file("./b/3")];
    assert_eq!(
        counts_summary_transform(rows, true),
        vec![
            "  COUNT  FOLDER".to_string(),
            "      1  .".to_string(),
            "      2  ./a".to_string(),
            "      3  ./b".to_string(),
        ]
    );
    let rows = vec![file("./z/1"), file("./y/1")];
    assert_eq!(counts_summary_transform(rows, false), vec!["      1  ./y".to_string(), "      1  ./z".to_string()]);
}

#[test]
fn size_units() {
    assert_eq!(size_unit_index(0), 0);
    assert_eq!(size_unit_index(1023), 0);
    assert_eq!(size_unit_index(1024), 1);
    assert_eq!(size_unit_index(1048576), 2);
    assert_eq!(size_unit_index(1099511627776 * 5000), 4);
    assert_eq!(iec_unit(2), "MiB");
    assert_eq!(compact_unit(3), "G");
    assert_eq!(iec_decimals(1536, 1), 2);
    assert_eq!(iec_decimals(10 * 1024, 1), 1);
    assert_eq!(iec_decimals(100 * 1024, 1), 0);
    assert_eq!(compact_decimals(1000 * 1024, 1), 0);
    assert_eq!(compact_decimals(999 * 1024, 1), 1);
    assert_eq!(compact_decimals(5 * 1024, 1), 3);
    assert_eq!(compact_decimals(5, 0), 0);
}

#[test]
fn dir_keys() {
    assert_eq!(normalize_dir_key("/"), "/");
    assert_eq!(normalize_dir_key("./a/"), "./a");
    assert_eq!(normalize_dir_key("./a//"), "./a");
}

#[test]
fn recursive_sizes_and_system_trees() {
    let o = Options::defaults();
    let mut s = o.settings;
    let d = dir("./a/");
    assert!(should_use_recursive_dirsize(&d, &s));
    assert_eq!(size_bytes_for_result(&d, &s, Some(42)), 42);
    assert_eq!(size_bytes_for_result(&file_m("./f", 7, 0), &s, Some(42)), 7);
    s.no_recurse = true;
    assert!(!should_use_recursive_dirsize(&d, &s));
    assert!(size_hidden(&dir("/proc/")));
    assert!(size_hidden(&dir("/mnt")));
    assert!(!size_hidden(&dir("/mnt/c/")));
    assert!(!size_hidden(&file("/proc")));
}

#[test]
fn dirs_needing_totals_sorted_unique() {
    let o = Options::defaults();
    let mut s = o.settings;
    s.sizes = true;
    let rows = vec![dir("./b/"), dir("./a"), dir("./b"), file("./c"), dir("/dev/")];
    assert_eq!(dirs_needing_sizes(&rows, &s), vec!["./a".to_string(), "./b".to_string()]);
    s.sizes = false;
    s.no_recurse = true;
    assert!(dirs_needing_sizes(&rows, &s).is_empty());
}

#[test]
fn totals_cache_read_after_write() {
    let mut c = DirTotals::new();
    assert_eq!(c.cached_bytes("./a"), None);
    c.store_bytes("./a/", 10);
    assert_eq!(c.cached_bytes("./a"), Some(10));
    assert_eq!(c.cached_stats("./a"), None);
    c.store_stats("./b", 20, 3);
    assert_eq!(c.cached_stats("./b/"), Some((20, 3)));
    assert_eq!(c.cached_bytes("./b"), Some(20));
    c.store_bytes("./a", 11);
    assert_eq!(c.cached_bytes("./a/"), Some(11));
}

#[test]
fn sorting_by_each_field() {
    let o = Options::defaults();
    let mut s = o.settings;
    let rows = || vec![file_m("./B", 30, 2), file_m("./a", 10, 3), file_m("./c", 20, 1)];
    let none = vec![None, None, None];
    assert_eq!(paths(&sort_results(rows(), &s, &none)), vec!["./B", "./a", "./c"]);
    s.sort_field = Some(SortField::Date);
    assert_eq!(paths(&sort_results(rows(), &s, &none)), vec!["./c", "./B", "./a"]);
    s.sort_field = Some(SortField::Size);
    s.sort_order = Some(SortOrder::Desc);
    assert_eq!(paths(&sort_results(rows(), &s, &none)), vec!["./B", "./c", "./a"]);
    s.sort_field = Some(SortField::Name);
    s.sort_order = Some(SortOrder::Asc);
    assert_eq!(paths(&sort_results(rows(), &s, &none)), vec!["./a", "./B", "./c"]);
}

#[test]
fn sorting_is_stable_for_equal_keys() {
    let o = Options::defaults();
    let mut s = o.settings;
    s.sort_field = Some(SortField::Size);
    s.sort_order = Some(SortOrder::Desc);
    let rows = vec![file_m("./x", 5, 0), file_m("./y", 5, 0), file_m("./z", 9, 0)];
    assert_eq!(paths(&sort_results(rows, &s, &vec![None, None, None])), vec!["./z", "./x", "./y"]);
}

#[test]
fn output_shapes_and_lines() {
    let o = Options::defaults();
    let mut s = o.settings;
    assert_eq!(output_kind(&s), OutputKind::Paths);
    s.long_format = true;
    assert_eq!(output_kind(&s), OutputKind::Long);
    s.sizes = true;
    assert_eq!(output_kind(&s), OutputKind::Sizes);
    s.counts = true;
    assert_eq!(output_kind(&s), OutputKind::Summary);
    assert_eq!(sizes_line(&file("./f"), "1.5K", "./f"), "1.5K\t./f");
    assert_eq!(sizes_line(&dir("/proc/"), "9G", "/proc/"), "-\t/proc/");
    let f = file_m("./f", 1, 0);
    assert_eq!(long_line(&f, "2024-01-01 00:00:00", "1 B", None, "./f"), "2024-01-01 00:00:00 1 B ./f");
    assert_eq!(long_line(&f, "D", "4 KiB", Some(12), "./d/"), "D 4 KiB 12 ./d/");
    assert_eq!(long_line(&file("./g"), "D", "x", None, "styled"), "./g");
    let mut e = o.settings;
    e.long_extended = true;
    assert_eq!(long_size_source(&dir("./d/"), &e, false), LongSize::DirTotal);
    let link = SearchResult { path: "./l".to_string(), is_dir: false, is_symlink: true, meta: None };
    assert_eq!(long_size_source(&link, &e, true), LongSize::LinkToDir);
    assert_eq!(long_size_source(&dir("./d/"), &o.settings, false), LongSize::Own);
}
