use unearth::matcher::compile_matcher;
use unearth::options::Options;
use unearth::ranges::merge_match_ranges;
use unearth::render::{
    color_code_for_path, colorize_segment_with_highlights, compile_highlight_spec, decorator_for_res,
    default_color_spec, parse_ls_colors, render_styled_path,
};
use unearth::results::{EntryMeta, SearchResult};

fn meta(mode: u32, is_dir: bool, fifo: bool) -> EntryMeta {
    EntryMeta {
        len: 1,
        mtime_secs: 0,
        mtime_text: String::new(),
        mode,
        is_dir,
        is_fifo: fifo,
        is_socket: false,
    }
}

fn res(path: &str, is_dir: bool, is_symlink: bool, m: Option<EntryMeta>) -> SearchResult {
    SearchResult { path: path.to_string(), is_dir, is_symlink, meta: m }
}

#[test]
fn merging_ranges() {
    assert_eq!(merge_match_ranges(vec![]), vec![]);
    assert_eq!(merge_match_ranges(vec![(5, 7), (0, 2), (1, 3)]), vec![(0, 3), (5, 7)]);
    assert_eq!(merge_match_ranges(vec![(0, 2), (2, 4)]), vec![(0, 4)]);
    assert_eq!(merge_match_ranges(vec![(0, 10), (2, 4)]), vec![(0, 10)]);
}

#[test]
fn decorators() {
    assert_eq!(decorator_for_res(&res("./l", false, true, None)), Some('@'));
    assert_eq!(decorator_for_res(&res("./d", true, false, None)), Some('/'));
    assert_eq!(decorator_for_res(&res("./d/", true, false, None)), None);
    assert_eq!(decorator_for_res(&res("./p", false, false, Some(meta(0o644, false, true)))), Some('|'));
    assert_eq!(decorator_for_res(&res("./x", false, false, Some(meta(0o755, false, false)))), Some('*'));
    assert_eq!(decorator_for_res(&res("./f", false, false, Some(meta(0o644, false, false)))), None);
}

#[test]
fn ls_colors_parsing_and_lookup() {
    let c = parse_ls_colors(Some("di=01;35:ln=target:*.rs=38;5;1:bogus:ex=01;33".to_string()));
    assert_eq!(c.color_dir, "01;35");
    assert_eq!(c.color_link, "target");
    assert_eq!(c.color_exec, "01;33");
    assert_eq!(c.globs.len(), 1);
    assert_eq!(color_code_for_path(&res("./src/main.rs", false, false, None), &c), "38;5;1");
    assert_eq!(color_code_for_path(&res("./d/", true, false, None), &c), "01;35");
    // a link in target mode is colored as what it points to
    assert_eq!(color_code_for_path(&res("./l", false, true, Some(meta(0, true, false))), &c), "01;35");
    assert_eq!(color_code_for_path(&res("./x", false, false, Some(meta(0o700, false, false))), &c), "01;33");
    assert_eq!(color_code_for_path(&res("./y", false, false, None), &c), "");
}

#[test]
fn default_colors() {
    let c = default_color_spec();
    assert_eq!(c.color_dir, "01;34");
    assert_eq!(c.color_link, "01;36");
    assert_eq!(c.color_prefix_dir, "38;2;255;255;255");
    assert_eq!(color_code_for_path(&res("./l", false, true, None), &c), "01;36");
    let d = parse_ls_colors(None);
    assert_eq!(d.color_exec, "01;32");
}

#[test]
fn glob_question_mark_and_escapes() {
    let c = parse_ls_colors(Some("*.?z=1".to_string()));
    assert_eq!(color_code_for_path(&res("./a.gz", false, false, None), &c), "1");
    assert_eq!(color_code_for_path(&res("./agz", false, false, None), &c), "");
}

#[test]
fn highlight_segments() {
    let rules = vec![compile_matcher("b", true).unwrap()];
    assert_eq!(colorize_segment_with_highlights("abc", None, &rules), "a\x1b[1;91mb\x1b[0mc\x1b[0m");
    assert_eq!(
        colorize_segment_with_highlights("abc", Some("34"), &rules),
        "\x1b[34ma\x1b[1;91mb\x1b[0m\x1b[34mc\x1b[0m"
    );
    assert_eq!(colorize_segment_with_highlights("xyz", Some("34"), &rules), "\x1b[34mxyz\x1b[0m");
    assert_eq!(colorize_segment_with_highlights("", Some("34"), &rules), "");
}

#[test]
fn highlight_spec_errors() {
    let bad = vec![("a(".to_string(), false)];
    let e = compile_highlight_spec(&bad).err().unwrap();
    assert!(e.starts_with("Invalid regex: "));
    let ok = vec![("a".to_string(), true), ("b".to_string(), false)];
    let h = compile_highlight_spec(&ok).unwrap();
    assert_eq!(h.leaf_rules.len(), 2);
    assert_eq!(h.prefix_rules.len(), 1);
}

#[test]
fn plain_rendering() {
    let o = Options::defaults();
    let c = default_color_spec();
    let r = res("./a/b", true, false, None);
    assert_eq!(render_styled_path(&r, false, true, &c, &o.settings, None, None), "./a/b/");
    assert_eq!(render_styled_path(&r, false, false, &c, &o.settings, None, None), "./a/b");
}

#[test]
fn styled_rendering() {
    let o = Options::defaults();
    let c = default_color_spec();
    let r = res("./a/b/", true, false, None);
    assert_eq!(
        render_styled_path(&r, true, false, &c, &o.settings, None, None),
        "\x1b[38;2;255;255;255m./a/\x1b[0m\x1b[01;34mb/\x1b[0m"
    );
    let f = res("name", false, false, None);
    assert_eq!(render_styled_path(&f, true, false, &c, &o.settings, None, None), "name");
}

#[test]
fn hyperlinked_rendering() {
    let o = Options::defaults();
    let mut s = o.settings;
    s.hyperlinks = true;
    let c = default_color_spec();
    let f = res("./f", false, false, None);
    assert_eq!(
        render_styled_path(&f, true, false, &c, &s, Some("/w".to_string()), None),
        "\x1b]8;;file:///w/\x1b\\\x1b[38;2;255;255;255m./\x1b[0m\x1b]8;;\x1b\\\x1b]8;;file:///w/f\x1b\\f\x1b]8;;\x1b\\"
    );
}

#[test]
fn highlighted_plain_rendering() {
    let o = Options::defaults();
    let c = default_color_spec();
    let h = compile_highlight_spec(&vec![("b".to_string(), false)]).unwrap();
    let r = res("./b/b", false, false, None);
    assert_eq!(
        render_styled_path(&r, false, false, &c, &o.settings, None, Some(&h)),
        "./b/\x1b[1;91mb\x1b[0m\x1b[0m"
    );
}

fn strip_sgr(s: &str) -> String {
    let mut out = String::new();
    let mut chars = s.chars().peekable();
    while let Some(c) = chars.next() {
        if c == '\x1b' && chars.peek() == Some(&'[') {
            for d in chars.by_ref() {
                if d == 'm' {
                    break;
                }
            }
        } else {
            out.push(c);
        }
    }
    out
}

#[test]
fn highlighting_keeps_the_text() {
    let rules = vec![compile_matcher("a", true).unwrap(), compile_matcher("an", true).unwrap(), compile_matcher("x*", true).unwrap()];
    for t in ["banana", "xxA", "plain", "aaaa"] {
        let out = colorize_segment_with_highlights(t, Some("34"), &rules);
        assert_eq!(strip_sgr(&out), t);
    }
}

#[test]
fn merged_ranges_cover_the_same_positions() {
    let input = vec![(4, 6), (0, 1), (1, 2), (5, 9), (12, 12)];
    let merged = merge_match_ranges(input.clone());
    assert_eq!(merged, vec![(0, 2), (4, 9), (12, 12)]);
    for x in 0..15 {
        let a = input.iter().any(|&(s, e)| s <= x && x < e);
        let b = merged.iter().any(|&(s, e)| s <= x && x < e);
        assert_eq!(a, b);
    }
    for w in merged.windows(2) {
        assert!(w[0].1 < w[1].0);
    }
}

#[test]
fn prefix_rules_highlight_the_directory_part() {
    let o = Options::defaults();
    let c = default_color_spec();
    let h = compile_highlight_spec(&vec![("a".to_string(), true)]).unwrap();
    let r = res("a/b", false, false, None);
    assert_eq!(
        render_styled_path(&r, false, false, &c, &o.settings, None, Some(&h)),
        "\x1b[1;91ma\x1b[0m/\x1b[0mb"
    );
}

#[test]
fn highlight_positions_count_characters_not_bytes() {
    let rules = vec![compile_matcher("b", true).unwrap()];
    assert_eq!(colorize_segment_with_highlights("éb€c", None, &rules), "é\x1b[1;91mb\x1b[0m€c\x1b[0m");
    let greek = vec![compile_matcher("β+", false).unwrap()];
    assert_eq!(colorize_segment_with_highlights("αββγ", None, &greek), "α\x1b[1;91mββ\x1b[0mγ\x1b[0m");
}
