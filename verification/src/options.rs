//! The command line: the option grammar, timeouts, colour modes, and the
//! choice between the search modes.
use vstd::prelude::*;
use crate::text::{has_prefix, strip_prefix_all, chars_of, string_of, eq_chars, starts_with,
    strip_prefix_all_chars, chars_of_all, concat};
use crate::number::{IntErrorKind, parse_unsigned_spec, parse_unsigned};
use crate::matcher::{regex_build_error, regex_captures, build_matcher, matcher_captures};
use crate::pattern::opt_view;

verus! {

/// The version this program reports.
pub const VERSION: &'static str = "0.8.6";

/// The help text.
pub const USAGE_TEXT: &'static str = r#"A parallel recursive file searcher

Usage:
  unearth <filename/dirname> [<search_dir>]
  unearth (--full|-F) <pattern1>  [<pattern2> <pattern3>...]
                       [--dir|-d] [--file|-f] [--regex|-r] [--bypass|-b]
                       [--classify|-C]
                       [--absolute-paths|-A]
                       [--counts]
                       [--long|-l] [--long-true-dirsize|-L]
                       [--sizes]
                       [--contains-all]
                       [--highlight-match|--match-red]
                       [--path DIR]
                       [--timeout N] [--sort date|size|name asc|desc]
                       [--no-recurse|-R] [--follow-links]
                       [--ignore] [--hidden|-H] [--threads N] [--cache-raw]
                       [--color=auto|always|never] [--hyperlink]
  unearth (--version|-V)

Arguments:
   <filename/dirname>:
      The file or directory name to search for. Supports exact and partial
      matching by default; use --regex/-r for regex matching.

   SEARCH MATRIX:

   Goal           | Shorthand      | Wildcard Format | Regex Format
   ---------------|----------------|-----------------|------------------
   Contains (All) | abc            | "*abc*"         | -r "abc"
   Contains (File)| abc -f         | "*abc*" -f      | -r "abc" -f
   Contains (Dir) | abc -d         | "*abc*" -d      | -r "abc" -d
   Exact (All)    | -              | -               | -r "^abc$"
   Exact (File)   | -              | -               | -r "^abc$" -f
   Exact (Dir)    | /abc/          | -               | -r "^abc$" -d
   Starts (All)   | /abc           | "abc*"          | -r "^abc"
   Starts (File)  | /abc -f        | "abc*" -f       | -r "^abc" -f
   Starts (Dir)   | /abc -d        | "abc*" -d       | -r "^abc" -d
   Ends (All)     | -              | "*abc"          | -r "abc$"
   Ends (File)    | -              | "*abc" -f       | -r "abc$" -f
   Ends (Dir)     | abc/           | "*abc" -d       | -r "abc$" -d

   <search_dir>:
      Location to search. Defaults to '.' (the current directory).
      Behavior follows this priority:
      1. Local/Absolute Path: If the path exists on disk (e.g., '.', '/',
      or a specific path), the search is limited to that directory and
      will not fallback to a global search.
      2. Global Pattern Match: If the path does not exist, the script
      searches the ENTIRE disk for all directories matching the pattern
      (see matrix below) and searches inside them.

   SEARCH DIR MATRIX:

   Goal           | Shorthand | Wildcard Format | Regex Format
   ---------------|-----------|-----------------|------------------
   Contains       | abc       | "*abc*"         | -r "abc"
   Exact          | /abc/     | -               | -r "^abc$"
   Starts         | /abc      | "abc*"          | -r "^abc"
   Ends           | abc/      | "*abc"          | -r "abc$"

   The --full flag matches against the full absolute path instead of just
   the basename.
   It supports multiple patterns (implicit AND) and prunes redundant
   child results.

   Example: unearth --full "src" "main"   # Matches BOTH (hides children)
   Example: unearth --full "test"         # Returns /path/to/test, but hides
   /path/to/test/file

Notes:
  - Use quotes around patterns containing $ or * to prevent shell expansion.
  - Regex mode is only enabled with --regex/-r.
  - Name contains-all mode is implicit when 2+ plain positional terms are
    provided (legacy name+search_dir selector forms still use search_dir mode),
    or enabled with --contains-all:
    `unearth WORD1 WORD2 [WORD3 ...] [PATH]`
    It finds filenames/paths containing all words in any order.
    PATH is implicit only if last arg is absolute (`/x`), explicit relative
    (`./x`, `../x`, `~/x`), or contains a slash (`a/b`).
    A bare token like `folder1` is treated as a search term unless
    `--path folder1` is used.
  - Plain patterns are contains. For exact matches use regex anchors
    (e.g., --regex "^word$"), or /word/ for exact-directory shorthand.

Options:
  --dir, -d
      Limit results to directories.
  --file, -f
      Limit results to files.
  --counts
      Show a summary of matches by parent folder (folder path + count), instead
      of listing every matching file. If a directory itself matches, it counts
      as 1 match for its parent folder. Note: --long does not change --counts
      output.
  --full, -F
      Match against the full absolute path instead of just the basename.
  --classify, -C
      Force classifier decorators in output (`/`, `@`, `|`, `=`, `*`) even
      when stdout is not a TTY.
  --absolute-paths, -A
      Print absolute paths in output (display only). Does not change matching
      behavior.
  --highlight-match, --match-red
      Show matched text in red inside output paths.
  --regex, -r
      Treat filename/dirname and search_dir patterns as regular expressions.
  --long, -l
      Show the date and time of last modification and size
      (B, KiB, MiB, GiB, TiB) at the start of each line.
  --sizes
      Show compact sizes for matching files and recursively computed sizes
      for matching directories as: SIZE<TAB>PATH.
      Units are B/K/M/G/T, capped to 6 characters including the unit
      (for example 1.111M, 111.1M).
      For top-level system trees under `/` (`/mnt`, `/media`, `/dev`,
      `/proc`, `/sys`, `/run`), size is shown as `-` to avoid expensive
      recursive traversal.
      Recursive directory totals prefer an NTFS MFT fast path on ntfs/ntfs3/
      fuseblk and fall back to jwalk automatically when unavailable.
      Set UNEARTH_NTFS_DEBUG=1 to print fast-path status.
      Symlinked directories are not traversed.
  --contains-all
      Force name contains-all mode even with fewer than 3 positional words.
      Positional args are treated as required name/path terms, with an optional
      trailing PATH (implicit only for `/x`, `./x`, `../x`, `~/x`, or `a/b`).
  --path DIR
      Set a literal search root for contains-all name matching mode.
      This allows bare relative directories like `folder1` to be treated as
      path roots instead of search terms.
  -L, --long-true-dirsize
      Extended long output for directories:
      YYYY-MM-DD HH:MM:SS REALDIRSIZE FILECOUNT PATH
      Symlinked directories are not traversed (shown as link size, count 0).
  --sort FIELD ORDER
      Sort listed results by metadata. Supported:
      --sort date asc|desc, --sort size asc|desc, --sort name asc|desc
      For directories, size sort uses real allocated directory size.
      With --no-recurse/-R, size sort uses direct entry size for speed.
      Note: --counts output is always sorted ascending by count, then folder,
      and ignores --sort.
  --no-recurse, -R
      Search only the immediate entries in each search root (no recursion).
  --follow-links
      Follow symlinked directories while searching.
  --ignore
      Respect ignore rules (.gitignore/.ignore/.fdignore). By default, unearth
      bypasses ignore rules.
  --visible-only
      Exclude hidden files/directories (dotfiles). By default, unearth includes
      hidden entries.
  --threads N
      Set worker thread count for unearth and directory size calculations.
      Must be a positive integer. Default: 8.
  --cache-raw
      Save matched directories to:
      /tmp/fzf-history-$USER/universal-last-dirs-<fish pid>
      and files to:
      /tmp/fzf-history-$USER/universal-last-files-<fish pid>
      For every match, also save its parent directory to the dirs file.
  --timeout N
      Per-invocation timeout for each unearth call. Default: 6s
      Examples: --timeout 10, --timeout 10s, --timeout 2m
  --bypass, -b
      Force treating the search_dir as a pattern, even if it exists as
      a directory.
  --version, -V
      Show version and exit.
"#;

/// The help text.
pub fn usage() -> (r: String)
    ensures
        r@ == USAGE_TEXT@,
{
    String::from_str(USAGE_TEXT)
}

/// The line printed for `--version`.
pub fn version_line() -> (r: String)
    ensures
        r@ == "unearth "@ + VERSION@,
{
    let a = chars_of("unearth ");
    let b = chars_of(VERSION);
    string_of(concat(a.as_slice(), b.as_slice()).as_slice())
}

/// The field results are ordered by.
#[derive(Clone, Copy, Debug, PartialEq, Eq, Structural)]
pub enum SortField {
    Date,
    Size,
    Name,
}

/// Ascending or descending order.
#[derive(Clone, Copy, Debug, PartialEq, Eq, Structural)]
pub enum SortOrder {
    Asc,
    Desc,
}

/// When output is styled with colours.
#[derive(Clone, Copy, Debug, PartialEq, Eq, Structural)]
pub enum ColorWhen {
    Auto,
    Always,
    Never,
}

/// The scalar settings of the command line.
#[derive(Clone, Copy, Debug)]
pub struct Settings {
    pub timeout_secs: u64,
    pub force_pattern_mode: bool,
    pub long_format: bool,
    pub long_extended: bool,
    pub sizes: bool,
    pub counts: bool,
    pub regex_mode: bool,
    pub sort_field: Option<SortField>,
    pub sort_order: Option<SortOrder>,
    pub no_recurse: bool,
    pub follow_links: bool,
    pub respect_ignore: bool,
    pub visible_only: bool,
    pub threads_override: usize,
    pub cache_output: bool,
    pub absolute_paths: bool,
    pub force_dir: bool,
    pub force_file: bool,
    pub force_full: bool,
    pub classify: bool,
    pub color_when: ColorWhen,
    pub hyperlinks: bool,
    pub highlight_match: bool,
    pub contains_all: bool,
}

/// Everything the command line sets.
#[derive(Clone, Debug)]
pub struct Options {
    pub settings: Settings,
    pub path_override: Option<String>,
    pub positional: Vec<String>,
}

/// The options as values.
pub struct OptionsView {
    pub settings: Settings,
    pub path_override: Option<Seq<char>>,
    pub positional: Seq<Seq<char>>,
}

/// The views of a list of strings.
#[verifier::opaque]
pub open spec fn strings_view(v: Seq<String>) -> Seq<Seq<char>> {
    v.map_values(|s: String| s@)
}

/// The views of a list of strings, one by one.
pub proof fn lemma_strings_view(v: Seq<String>)
    ensures
        strings_view(v).len() == v.len(),
        forall|i: int| 0 <= i < v.len() ==> #[trigger] strings_view(v)[i] == v[i]@,
{
    reveal(strings_view);
}

/// Adding a string to a list adds its view to the views.
pub proof fn lemma_strings_view_push(v: Seq<String>, x: String)
    ensures
        strings_view(v.push(x)) == strings_view(v).push(x@),
{
    reveal(strings_view);
    assert(strings_view(v.push(x)) =~= strings_view(v).push(x@));
}

impl View for Options {
    type V = OptionsView;

    open spec fn view(&self) -> OptionsView {
        OptionsView {
            settings: self.settings,
            path_override: opt_view(self.path_override),
            positional: strings_view(self.positional@),
        }
    }
}

/// The options with other settings.
pub open spec fn with_settings(o: OptionsView, st: Settings) -> OptionsView {
    OptionsView { settings: st, ..o }
}

/// The settings before any argument is read: a 6 s timeout, 8 threads,
/// colours when stdout is a terminal, hidden entries included, and every
/// switch off.
pub open spec fn default_settings() -> Settings {
    Settings {
        timeout_secs: 6,
        force_pattern_mode: false,
        long_format: false,
        long_extended: false,
        sizes: false,
        counts: false,
        regex_mode: false,
        sort_field: None,
        sort_order: None,
        no_recurse: false,
        follow_links: false,
        respect_ignore: false,
        visible_only: false,
        threads_override: 8,
        cache_output: false,
        absolute_paths: false,
        force_dir: false,
        force_file: false,
        force_full: false,
        classify: false,
        color_when: ColorWhen::Auto,
        hyperlinks: false,
        highlight_match: false,
        contains_all: false,
    }
}

/// The options before any argument is read.
pub open spec fn default_options() -> OptionsView {
    OptionsView { settings: default_settings(), path_override: None, positional: seq![] }
}

impl Options {
    /// The options before any argument is read.
    pub fn defaults() -> (r: Options)
        ensures
            r@ == default_options(),
    {
        let st = Settings {
            timeout_secs: 6,
            force_pattern_mode: false,
            long_format: false,
            long_extended: false,
            sizes: false,
            counts: false,
            regex_mode: false,
            sort_field: None,
            sort_order: None,
            no_recurse: false,
            follow_links: false,
            respect_ignore: false,
            visible_only: false,
            threads_override: 8,
            cache_output: false,
            absolute_paths: false,
            force_dir: false,
            force_file: false,
            force_full: false,
            classify: false,
            color_when: ColorWhen::Auto,
            hyperlinks: false,
            highlight_match: false,
            contains_all: false,
        };
        let r = Options { settings: st, path_override: None, positional: Vec::new() };
        assert(r@.positional =~= seq![]) by {
            reveal(strings_view);
        }
        r
    }
}

/// The text of a failed integer parse, as the standard library words it.
pub open spec fn int_error_text(k: IntErrorKind) -> Seq<char> {
    match k {
        IntErrorKind::Empty => "cannot parse integer from empty string"@,
        IntErrorKind::InvalidDigit => "invalid digit found in string"@,
        IntErrorKind::PosOverflow => "number too large to fit in target type"@,
    }
}

/// The text of a failed integer parse.
pub fn int_error_message(k: IntErrorKind) -> (r: String)
    ensures
        r@ == int_error_text(k),
{
    match k {
        IntErrorKind::Empty => String::from_str("cannot parse integer from empty string"),
        IntErrorKind::InvalidDigit => String::from_str("invalid digit found in string"),
        IntErrorKind::PosOverflow => String::from_str("number too large to fit in target type"),
    }
}

/// The timeout syntax: digits, then optionally `s` or `m`.
pub const DURATION_PATTERN: &'static str = "^(\\d+)([sm])?$";

/// A timeout, in seconds, from the capture groups `caps` of
/// `DURATION_PATTERN` on `t`: the number, times 60 for `m` (wrapping past
/// `u64::MAX`, as the optimised build does); no match is an invalid
/// format, and digits that do not read as a `u64` give that error's text.
pub open spec fn duration_from_captures_spec(t: Seq<char>, caps: Option<Seq<Option<Seq<char>>>>) -> Result<u64, Seq<char>> {
    match caps {
        Some(g) => if g.len() >= 2 && g[1] is Some {
            match parse_unsigned_spec(g[1]->0, u64::MAX as nat) {
                Err(k) => Err(int_error_text(k)),
                Ok(n) => if g.len() >= 3 && g[2] == Some("m"@) {
                    Ok(((n * 60) % 0x1_0000_0000_0000_0000nat) as u64)
                } else {
                    Ok(n as u64)
                },
            }
        } else {
            Err("Invalid timeout format: "@ + t)
        },
        None => Err("Invalid timeout format: "@ + t),
    }
}

/// What `parse_duration` gives for `t`.
pub open spec fn duration_spec(t: Seq<char>) -> Result<u64, Seq<char>> {
    match regex_build_error(DURATION_PATTERN@, false) {
        Some(e) => Err(e),
        None => duration_from_captures_spec(t, regex_captures(DURATION_PATTERN@, false, t)),
    }
}

pub open spec fn result_view<T>(r: Result<T, String>) -> Result<T, Seq<char>> {
    match r {
        Ok(v) => Ok(v),
        Err(e) => Err(e@),
    }
}

pub open spec fn opt_groups_view(c: Option<Vec<Option<String>>>) -> Option<Seq<Option<Seq<char>>>> {
    match c {
        Some(g) => Some(crate::matcher::groups_view(g@)),
        None => None,
    }
}

/// A timeout, in seconds, from the capture groups of the timeout syntax on
/// `t` (see `duration_from_captures_spec`).
pub fn duration_from_captures(t: &str, caps: Option<Vec<Option<String>>>) -> (r: Result<u64, String>)
    ensures
        result_view(r) == duration_from_captures_spec(t@, opt_groups_view(caps)),
{
    let bad = concat(chars_of("Invalid timeout format: ").as_slice(), chars_of(t).as_slice());
    match caps {
        Some(g) => {
            if g.len() >= 2 && g[1].is_some() {
                let digits = match &g[1] {
                    Some(d) => chars_of(d.as_str()),
                    None => Vec::new(),
                };
                assert(digits@ == crate::matcher::groups_view(g@)[1]->0);
                match parse_unsigned(digits.as_slice(), u64::MAX) {
                    Err(k) => Err(int_error_message(k)),
                    Ok(n) => {
                        let is_minutes = if g.len() >= 3 {
                            match &g[2] {
                                Some(u) => eq_chars(chars_of(u.as_str()).as_slice(), chars_of("m").as_slice()),
                                None => false,
                            }
                        } else {
                            false
                        };
                        if is_minutes {
                            Ok(n.wrapping_mul(60))
                        } else {
                            Ok(n)
                        }
                    },
                }
            } else {
                Err(string_of(bad.as_slice()))
            }
        },
        None => Err(string_of(bad.as_slice())),
    }
}

/// A timeout such as `10`, `10s` or `2m`, in seconds.
pub fn parse_duration(t: &str) -> (r: Result<u64, String>)
    ensures
        result_view(r) == duration_spec(t@),
{
    match build_matcher(DURATION_PATTERN, false) {
        Err(e) => Err(e),
        Ok(m) => duration_from_captures(t, matcher_captures(&m, t)),
    }
}

/// The colour mode an argument names.
pub open spec fn color_when_spec(v: Seq<char>) -> Result<ColorWhen, Seq<char>> {
    if v == "auto"@ {
        Ok(ColorWhen::Auto)
    } else if v == "always"@ {
        Ok(ColorWhen::Always)
    } else if v == "never"@ {
        Ok(ColorWhen::Never)
    } else {
        Err("Unsupported --color value '"@ + v + "'"@)
    }
}

fn lit_eq(a: &[char], lit: &str) -> (r: bool)
    ensures
        r == (a@ == lit@),
{
    eq_chars(a, chars_of(lit).as_slice())
}

fn quoted_error(pre: &str, v: &[char], post: &str) -> (r: String)
    ensures
        r@ == pre@ + v@ + post@,
{
    let a = concat(chars_of(pre).as_slice(), v);
    string_of(concat(a.as_slice(), chars_of(post).as_slice()).as_slice())
}

/// The colour mode an argument names: `auto`, `always` or `never`.
pub fn parse_color_when(v: &str) -> (r: Result<ColorWhen, String>)
    ensures
        result_view(r) == color_when_spec(v@),
{
    let vc = chars_of(v);
    if lit_eq(vc.as_slice(), "auto") {
        Ok(ColorWhen::Auto)
    } else if lit_eq(vc.as_slice(), "always") {
        Ok(ColorWhen::Always)
    } else if lit_eq(vc.as_slice(), "never") {
        Ok(ColorWhen::Never)
    } else {
        Err(quoted_error("Unsupported --color value '", vc.as_slice(), "'"))
    }
}

/// A switch argument (one that takes no value) and the options it sets.
pub open spec fn switch_spec(a: Seq<char>, o: Settings) -> Option<Settings> {
    if a == "--hyperlink"@ {
        Some(Settings { hyperlinks: true, ..o })
    } else if a == "--highlight-match"@ || a == "--match-red"@ {
        Some(Settings { highlight_match: true, ..o })
    } else if a == "--contains-all"@ {
        Some(Settings { contains_all: true, ..o })
    } else if a == "--counts"@ {
        Some(Settings { counts: true, ..o })
    } else if a == "--visible-only"@ {
        Some(Settings { visible_only: true, ..o })
    } else if a == "--dir"@ || a == "-d"@ {
        Some(Settings { force_dir: true, ..o })
    } else if a == "--file"@ || a == "-f"@ {
        Some(Settings { force_file: true, ..o })
    } else if a == "--full"@ || a == "-F"@ {
        Some(Settings { force_full: true, ..o })
    } else if a == "--classify"@ || a == "-C"@ {
        Some(Settings { classify: true, ..o })
    } else if a == "--absolute-paths"@ || a == "-A"@ {
        Some(Settings { absolute_paths: true, ..o })
    } else if a == "--regex"@ || a == "-r"@ {
        Some(Settings { regex_mode: true, ..o })
    } else if a == "--no-recurse"@ || a == "-R"@ {
        Some(Settings { no_recurse: true, ..o })
    } else if a == "--follow-links"@ {
        Some(Settings { follow_links: true, ..o })
    } else if a == "--ignore"@ {
        Some(Settings { respect_ignore: true, ..o })
    } else if a == "--hidden"@ || a == "-H"@ {
        Some(Settings { visible_only: false, ..o })
    } else if a == "--cache-raw"@ {
        Some(Settings { cache_output: true, ..o })
    } else if a == "--bypass"@ || a == "-b"@ {
        Some(Settings { force_pattern_mode: true, ..o })
    } else if a == "--long"@ || a == "-l"@ {
        Some(Settings { long_format: true, ..o })
    } else if a == "--sizes"@ {
        Some(Settings { sizes: true, ..o })
    } else if a == "-L"@ || a == "--long-true-dirsize"@ {
        Some(Settings { long_format: true, long_extended: true, ..o })
    } else {
        None
    }
}

/// A letter of a bundled short-flag argument (such as `-dfr`) and the
/// options it sets.
pub open spec fn cluster_flag(c: char, o: Settings) -> Option<Settings> {
    if c == 'd' {
        Some(Settings { force_dir: true, ..o })
    } else if c == 'f' {
        Some(Settings { force_file: true, ..o })
    } else if c == 'F' {
        Some(Settings { force_full: true, ..o })
    } else if c == 'C' {
        Some(Settings { classify: true, ..o })
    } else if c == 'A' {
        Some(Settings { absolute_paths: true, ..o })
    } else if c == 'r' {
        Some(Settings { regex_mode: true, ..o })
    } else if c == 'R' {
        Some(Settings { no_recurse: true, ..o })
    } else if c == 'H' {
        Some(Settings { visible_only: false, ..o })
    } else if c == 'b' {
        Some(Settings { force_pattern_mode: true, ..o })
    } else if c == 'l' {
        Some(Settings { long_format: true, ..o })
    } else if c == 'L' {
        Some(Settings { long_format: true, long_extended: true, ..o })
    } else {
        None
    }
}

fn apply_switch(a: &[char], o: Settings) -> (r: Option<Settings>)
    ensures
        r == switch_spec(a@, o),
{
    if lit_eq(a, "--hyperlink") {
        Some(Settings { hyperlinks: true, ..o })
    } else if lit_eq(a, "--highlight-match") || lit_eq(a, "--match-red") {
        Some(Settings { highlight_match: true, ..o })
    } else if lit_eq(a, "--contains-all") {
        Some(Settings { contains_all: true, ..o })
    } else if lit_eq(a, "--counts") {
        Some(Settings { counts: true, ..o })
    } else if lit_eq(a, "--visible-only") {
        Some(Settings { visible_only: true, ..o })
    } else if lit_eq(a, "--dir") || lit_eq(a, "-d") {
        Some(Settings { force_dir: true, ..o })
    } else if lit_eq(a, "--file") || lit_eq(a, "-f") {
        Some(Settings { force_file: true, ..o })
    } else if lit_eq(a, "--full") || lit_eq(a, "-F") {
        Some(Settings { force_full: true, ..o })
    } else if lit_eq(a, "--classify") || lit_eq(a, "-C") {
        Some(Settings { classify: true, ..o })
    } else if lit_eq(a, "--absolute-paths") || lit_eq(a, "-A") {
        Some(Settings { absolute_paths: true, ..o })
    } else if lit_eq(a, "--regex") || lit_eq(a, "-r") {
        Some(Settings { regex_mode: true, ..o })
    } else if lit_eq(a, "--no-recurse") || lit_eq(a, "-R") {
        Some(Settings { no_recurse: true, ..o })
    } else if lit_eq(a, "--follow-links") {
        Some(Settings { follow_links: true, ..o })
    } else if lit_eq(a, "--ignore") {
        Some(Settings { respect_ignore: true, ..o })
    } else if lit_eq(a, "--hidden") || lit_eq(a, "-H") {
        Some(Settings { visible_only: false, ..o })
    } else if lit_eq(a, "--cache-raw") {
        Some(Settings { cache_output: true, ..o })
    } else if lit_eq(a, "--bypass") || lit_eq(a, "-b") {
        Some(Settings { force_pattern_mode: true, ..o })
    } else if lit_eq(a, "--long") || lit_eq(a, "-l") {
        Some(Settings { long_format: true, ..o })
    } else if lit_eq(a, "--sizes") {
        Some(Settings { sizes: true, ..o })
    } else if lit_eq(a, "-L") || lit_eq(a, "--long-true-dirsize") {
        Some(Settings { long_format: true, long_extended: true, ..o })
    } else {
        None
    }
}

fn apply_cluster_flag(c: char, o: Settings) -> (r: Option<Settings>)
    ensures
        r == cluster_flag(c, o),
{
    if c == 'd' {
        Some(Settings { force_dir: true, ..o })
    } else if c == 'f' {
        Some(Settings { force_file: true, ..o })
    } else if c == 'F' {
        Some(Settings { force_full: true, ..o })
    } else if c == 'C' {
        Some(Settings { classify: true, ..o })
    } else if c == 'A' {
        Some(Settings { absolute_paths: true, ..o })
    } else if c == 'r' {
        Some(Settings { regex_mode: true, ..o })
    } else if c == 'R' {
        Some(Settings { no_recurse: true, ..o })
    } else if c == 'H' {
        Some(Settings { visible_only: false, ..o })
    } else if c == 'b' {
        Some(Settings { force_pattern_mode: true, ..o })
    } else if c == 'l' {
        Some(Settings { long_format: true, ..o })
    } else if c == 'L' {
        Some(Settings { long_format: true, long_extended: true, ..o })
    } else {
        None
    }
}

/// How reading a bundle of short flags ended.
#[derive(Clone, Copy, Debug, PartialEq, Eq, Structural)]
pub enum ClusterStatus {
    AllKnown,
    Unknown,
    Help,
    Version,
}

/// Reads the letters of a short-flag bundle from left to right: `h` and
/// `V` stop with help or the version, an unknown letter stops the bundle
/// (the letters before it keep their effect).
pub open spec fn cluster_spec(cs: Seq<char>, o: Settings) -> (ClusterStatus, Settings)
    decreases cs.len(),
{
    if cs.len() == 0 {
        (ClusterStatus::AllKnown, o)
    } else if cs[0] == 'h' {
        (ClusterStatus::Help, o)
    } else if cs[0] == 'V' {
        (ClusterStatus::Version, o)
    } else {
        match cluster_flag(cs[0], o) {
            Some(o2) => cluster_spec(cs.drop_first(), o2),
            None => (ClusterStatus::Unknown, o),
        }
    }
}

/// An argument is read as a bundle of short flags when it starts with one
/// dash, not two, and has more than one letter.
pub open spec fn cluster_candidate(a: Seq<char>) -> bool {
    has_prefix(a, "-"@) && !has_prefix(a, "--"@) && a.len() > 2
}

/// What the command line asks for.
pub enum ParseView {
    Run(OptionsView),
    Help,
    Version,
    Fail(Seq<char>),
}

/// One step of reading the command line: go on at argument `j` with new
/// options, or stop with a result.
pub enum StepView {
    Next(int, OptionsView),
    Done(ParseView),
}

/// The end of the command line: the options, or the help text as an error
/// when no positional argument was given.
pub open spec fn finish_spec(o: OptionsView) -> ParseView {
    if o.positional.len() == 0 {
        ParseView::Fail(USAGE_TEXT@)
    } else {
        ParseView::Run(o)
    }
}

/// `--threads N`: a positive integer.
pub open spec fn threads_step(v: Seq<char>, next: int, o: OptionsView) -> StepView {
    match parse_unsigned_spec(v, usize::MAX as nat) {
        Err(_) => StepView::Done(ParseView::Fail("Invalid threads count"@)),
        Ok(t) => if t == 0 {
            StepView::Done(ParseView::Fail("--threads requires a positive integer"@))
        } else {
            StepView::Next(next, with_settings(o, Settings { threads_override: t as usize, ..o.settings }))
        },
    }
}

/// `--timeout T`.
pub open spec fn timeout_step(v: Seq<char>, next: int, o: OptionsView) -> StepView {
    match duration_spec(v) {
        Err(e) => StepView::Done(ParseView::Fail(e)),
        Ok(t) => StepView::Next(next, with_settings(o, Settings { timeout_secs: t, ..o.settings })),
    }
}

/// `--color WHEN`.
pub open spec fn color_step(v: Seq<char>, next: int, o: OptionsView) -> StepView {
    match color_when_spec(v) {
        Err(e) => StepView::Done(ParseView::Fail(e)),
        Ok(c) => StepView::Next(next, with_settings(o, Settings { color_when: c, ..o.settings })),
    }
}

/// The sort field an argument names.
pub open spec fn sort_field_spec(f: Seq<char>) -> Option<SortField> {
    if f == "date"@ {
        Some(SortField::Date)
    } else if f == "size"@ {
        Some(SortField::Size)
    } else if f == "name"@ {
        Some(SortField::Name)
    } else {
        None
    }
}

/// The sort order an argument names.
pub open spec fn sort_order_spec(d: Seq<char>) -> Option<SortOrder> {
    if d == "asc"@ {
        Some(SortOrder::Asc)
    } else if d == "desc"@ {
        Some(SortOrder::Desc)
    } else {
        None
    }
}

/// `--sort FIELD ORDER`.
pub open spec fn sort_step(f: Seq<char>, d: Seq<char>, next: int, o: OptionsView) -> StepView {
    match sort_field_spec(f) {
        None => StepView::Done(ParseView::Fail("Unsupported sort field '"@ + f + "'"@)),
        Some(field) => match sort_order_spec(d) {
            None => StepView::Done(ParseView::Fail("Unsupported sort order '"@ + d + "'"@)),
            Some(order) => StepView::Next(
                next,
                with_settings(o, Settings { sort_field: Some(field), sort_order: Some(order), ..o.settings }),
            ),
        },
    }
}

/// The argument at `i`, read as a long option, a single short option, a
/// value-taking option, or a positional argument.
#[verifier::opaque]
pub open spec fn long_step(args: Seq<Seq<char>>, i: int, o: OptionsView) -> StepView {
    let a = args[i];
    let n = args.len();
    if a == "--timeout"@ {
        if i + 1 < n {
            timeout_step(args[i + 1], i + 2, o)
        } else {
            StepView::Next(n as int, o)
        }
    } else if has_prefix(a, "--timeout="@) {
        timeout_step(strip_prefix_all(a, "--timeout="@), i + 1, o)
    } else if a == "--threads"@ {
        if i + 1 < n {
            threads_step(args[i + 1], i + 2, o)
        } else {
            StepView::Next(n as int, o)
        }
    } else if has_prefix(a, "--threads="@) {
        threads_step(strip_prefix_all(a, "--threads="@), i + 1, o)
    } else if a == "--color"@ {
        if i + 1 < n {
            color_step(args[i + 1], i + 2, o)
        } else {
            StepView::Next(n as int, o)
        }
    } else if has_prefix(a, "--color="@) {
        color_step(strip_prefix_all(a, "--color="@), i + 1, o)
    } else if a == "--path"@ {
        if i + 1 < n {
            StepView::Next(i + 2, OptionsView { path_override: Some(args[i + 1]), ..o })
        } else {
            StepView::Done(ParseView::Fail("--path requires a directory argument"@))
        }
    } else if has_prefix(a, "--path="@) {
        let v = strip_prefix_all(a, "--path="@);
        if v.len() == 0 {
            StepView::Done(ParseView::Fail("--path requires a non-empty directory argument"@))
        } else {
            StepView::Next(i + 1, OptionsView { path_override: Some(v), ..o })
        }
    } else if a == "--sort"@ {
        if i + 2 < n {
            sort_step(args[i + 1], args[i + 2], i + 3, o)
        } else {
            StepView::Next(i + 1, o)
        }
    } else if switch_spec(a, o.settings) is Some {
        StepView::Next(i + 1, with_settings(o, switch_spec(a, o.settings)->0))
    } else if a == "--cache"@ {
        StepView::Done(ParseView::Fail("--cache was renamed to --cache-raw"@))
    } else if a == "--info"@ || a == "-i"@ {
        StepView::Done(ParseView::Fail("--info/-i was renamed to --long/-l"@))
    } else if a == "--version"@ || a == "-V"@ {
        StepView::Done(ParseView::Version)
    } else if a == "-h"@ || a == "--help"@ {
        StepView::Done(ParseView::Help)
    } else if a == "--"@ {
        StepView::Done(finish_spec(OptionsView { positional: o.positional + args.skip(i + 1), ..o }))
    } else {
        StepView::Next(i + 1, OptionsView { positional: o.positional.push(a), ..o })
    }
}

/// One step of reading the command line at argument `i`.
pub open spec fn arg_step(args: Seq<Seq<char>>, i: int, o: OptionsView) -> StepView {
    let a = args[i];
    let (st, s1) = if cluster_candidate(a) {
        cluster_spec(a.drop_first(), o.settings)
    } else {
        (ClusterStatus::Unknown, o.settings)
    };
    let o1 = with_settings(o, s1);
    match st {
        ClusterStatus::Help => StepView::Done(ParseView::Help),
        ClusterStatus::Version => StepView::Done(ParseView::Version),
        ClusterStatus::AllKnown => StepView::Next(i + 1, o1),
        ClusterStatus::Unknown => long_step(args, i, o1),
    }
}

/// Reading the command line from argument `i` on, with options `o` so far.
pub open spec fn args_from(args: Seq<Seq<char>>, i: int, o: OptionsView) -> ParseView
    decreases args.len() - i,
{
    if i < 0 || i >= args.len() {
        finish_spec(o)
    } else {
        match arg_step(args, i, o) {
            StepView::Next(j, o2) => if i < j < args.len() {
                args_from(args, j, o2)
            } else {
                finish_spec(o2)
            },
            StepView::Done(p) => p,
        }
    }
}

/// What the command line (without the program name) asks for.
pub open spec fn parse_args_spec(args: Seq<Seq<char>>) -> ParseView {
    args_from(args, 0, default_options())
}

/// What the command line asks for: a search with these options, the help
/// text, or the version.
pub enum ArgsOutcome {
    Run(Options),
    Help,
    Version,
}

pub open spec fn outcome_view(r: Result<ArgsOutcome, String>) -> ParseView {
    match r {
        Ok(ArgsOutcome::Run(o)) => ParseView::Run(o@),
        Ok(ArgsOutcome::Help) => ParseView::Help,
        Ok(ArgsOutcome::Version) => ParseView::Version,
        Err(e) => ParseView::Fail(e@),
    }
}

fn apply_cluster(cs: &[char], o: Settings) -> (r: (ClusterStatus, Settings))
    ensures
        r == cluster_spec(cs@, o),
{
    let mut cur = o;
    let mut k: usize = 0;
    assert(cs@.skip(0) =~= cs@);
    while k < cs.len()
        invariant
            k <= cs.len(),
            cluster_spec(cs@, o) == cluster_spec(cs@.skip(k as int), cur),
        decreases cs.len() - k,
    {
        let c = cs[k];
        assert(cs@.skip(k as int)[0] == c);
        assert(cs@.skip(k as int).drop_first() =~= cs@.skip(k + 1));
        if c == 'h' {
            return (ClusterStatus::Help, cur);
        }
        if c == 'V' {
            return (ClusterStatus::Version, cur);
        }
        match apply_cluster_flag(c, cur) {
            Some(n) => {
                cur = n;
            },
            None => {
                return (ClusterStatus::Unknown, cur);
            },
        }
        k = k + 1;
    }
    (ClusterStatus::AllKnown, cur)
}

/// The exec form of a step.
enum Step {
    Next(usize, Options),
    Done(Result<ArgsOutcome, String>),
}

spec fn step_matches(s: Step, v: StepView) -> bool {
    match s {
        Step::Next(j, o) => v == StepView::Next(j as int, o@),
        Step::Done(r) => v == StepView::Done(outcome_view(r)),
    }
}

fn finish(o: Options) -> (r: Result<ArgsOutcome, String>)
    ensures
        outcome_view(r) == finish_spec(o@),
{
    proof {
        lemma_strings_view(o.positional@);
    }
    if o.positional.len() == 0 {
        Err(usage())
    } else {
        Ok(ArgsOutcome::Run(o))
    }
}

fn timeout_exec(v: &str, next: usize, o: Options) -> (r: Step)
    ensures
        step_matches(r, timeout_step(v@, next as int, o@)),
{
    match parse_duration(v) {
        Err(e) => Step::Done(Err(e)),
        Ok(t) => {
            let st = Settings { timeout_secs: t, ..o.settings };
            Step::Next(next, Options { settings: st, ..o })
        },
    }
}

fn threads_exec(v: &[char], next: usize, o: Options) -> (r: Step)
    ensures
        step_matches(r, threads_step(v@, next as int, o@)),
{
    match parse_unsigned(v, usize::MAX as u64) {
        Err(_) => Step::Done(Err(String::from_str("Invalid threads count"))),
        Ok(t) => {
            if t == 0 {
                Step::Done(Err(String::from_str("--threads requires a positive integer")))
            } else {
                let st = Settings { threads_override: t as usize, ..o.settings };
                Step::Next(next, Options { settings: st, ..o })
            }
        },
    }
}

fn color_exec(v: &str, next: usize, o: Options) -> (r: Step)
    ensures
        step_matches(r, color_step(v@, next as int, o@)),
{
    match parse_color_when(v) {
        Err(e) => Step::Done(Err(e)),
        Ok(c) => {
            let st = Settings { color_when: c, ..o.settings };
            Step::Next(next, Options { settings: st, ..o })
        },
    }
}

fn sort_exec(f: &[char], d: &[char], next: usize, o: Options) -> (r: Step)
    ensures
        step_matches(r, sort_step(f@, d@, next as int, o@)),
{
    let field = if lit_eq(f, "date") {
        SortField::Date
    } else if lit_eq(f, "size") {
        SortField::Size
    } else if lit_eq(f, "name") {
        SortField::Name
    } else {
        return Step::Done(Err(quoted_error("Unsupported sort field '", f, "'")));
    };
    let order = if lit_eq(d, "asc") {
        SortOrder::Asc
    } else if lit_eq(d, "desc") {
        SortOrder::Desc
    } else {
        return Step::Done(Err(quoted_error("Unsupported sort order '", d, "'")));
    };
    let st = Settings { sort_field: Some(field), sort_order: Some(order), ..o.settings };
    Step::Next(next, Options { settings: st, ..o })
}

fn stripped_text(a: &[char], lit: &str) -> (r: String)
    ensures
        r@ == strip_prefix_all(a@, lit@),
{
    string_of(strip_prefix_all_chars(a, chars_of(lit).as_slice()).as_slice())
}

fn long_step_exec(args: &Vec<String>, ac: &Vec<Vec<char>>, i: usize, o: Options) -> (r: Step)
    requires
        i < args.len(),
        ac.len() == args.len(),
        forall|k: int| 0 <= k < args.len() ==> #[trigger] ac[k]@ == args[k]@,
    ensures
        step_matches(r, long_step(strings_view(args@), i as int, o@)),
        r matches Step::Next(j, _) ==> j > i,
{
    let a = ac[i].as_slice();
    let n = args.len();
    let ghost av = strings_view(args@);
    proof {
        lemma_strings_view(args@);
        reveal(long_step);
    }
    assert(av[i as int] == a@);
    if lit_eq(a, "--timeout") {
        if i + 1 < n {
            assert(av[i + 1] == args[i + 1]@);
            timeout_exec(args[i + 1].as_str(), i + 2, o)
        } else {
            Step::Next(n, o)
        }
    } else if starts_with(a, chars_of("--timeout=").as_slice()) {
        let v = stripped_text(a, "--timeout=");
        timeout_exec(v.as_str(), i + 1, o)
    } else if lit_eq(a, "--threads") {
        if i + 1 < n {
            assert(av[i + 1] == ac[i + 1]@);
            threads_exec(ac[i + 1].as_slice(), i + 2, o)
        } else {
            Step::Next(n, o)
        }
    } else if starts_with(a, chars_of("--threads=").as_slice()) {
        let v = strip_prefix_all_chars(a, chars_of("--threads=").as_slice());
        threads_exec(v.as_slice(), i + 1, o)
    } else if lit_eq(a, "--color") {
        if i + 1 < n {
            assert(av[i + 1] == args[i + 1]@);
            color_exec(args[i + 1].as_str(), i + 2, o)
        } else {
            Step::Next(n, o)
        }
    } else if starts_with(a, chars_of("--color=").as_slice()) {
        let v = stripped_text(a, "--color=");
        color_exec(v.as_str(), i + 1, o)
    } else if lit_eq(a, "--path") {
        if i + 1 < n {
            assert(av[i + 1] == args[i + 1]@);
            Step::Next(i + 2, Options { path_override: Some(args[i + 1].clone()), ..o })
        } else {
            Step::Done(Err(String::from_str("--path requires a directory argument")))
        }
    } else if starts_with(a, chars_of("--path=").as_slice()) {
        let v = strip_prefix_all_chars(a, chars_of("--path=").as_slice());
        if v.len() == 0 {
            Step::Done(Err(String::from_str("--path requires a non-empty directory argument")))
        } else {
            Step::Next(i + 1, Options { path_override: Some(string_of(v.as_slice())), ..o })
        }
    } else if lit_eq(a, "--sort") {
        if n - i > 2 {
            assert(av[i + 1] == ac[i + 1]@);
            assert(av[i + 2] == ac[i + 2]@);
            sort_exec(ac[i + 1].as_slice(), ac[i + 2].as_slice(), i + 3, o)
        } else {
            Step::Next(i + 1, o)
        }
    } else if let Some(st) = apply_switch(a, o.settings) {
        Step::Next(i + 1, Options { settings: st, ..o })
    } else if lit_eq(a, "--cache") {
        Step::Done(Err(String::from_str("--cache was renamed to --cache-raw")))
    } else if lit_eq(a, "--info") || lit_eq(a, "-i") {
        Step::Done(Err(String::from_str("--info/-i was renamed to --long/-l")))
    } else if lit_eq(a, "--version") || lit_eq(a, "-V") {
        Step::Done(Ok(ArgsOutcome::Version))
    } else if lit_eq(a, "-h") || lit_eq(a, "--help") {
        Step::Done(Ok(ArgsOutcome::Help))
    } else if lit_eq(a, "--") {
        let mut pos = o.positional;
        let ghost before = strings_view(pos@);
        let mut k = i + 1;
        while k < n
            invariant
                i + 1 <= k <= n,
                n == args.len(),
                strings_view(pos@) == before + av.subrange(i + 1, k as int),
                av == strings_view(args@),
                av.len() == args.len(),
                forall|j: int| 0 <= j < args.len() ==> #[trigger] av[j] == args[j]@,
            decreases n - k,
        {
            let ghost prev = pos@;
            pos.push(args[k].clone());
            proof {
                lemma_strings_view_push(prev, args[k as int]);
                assert(before + av.subrange(i + 1, k + 1) =~= (before + av.subrange(i + 1, k as int)).push(args[k as int]@));
            }
            k = k + 1;
        }
        assert(av.subrange(i + 1, n as int) =~= av.skip(i + 1));
        let o2 = Options { positional: pos, path_override: o.path_override, settings: o.settings };
        Step::Done(finish(o2))
    } else {
        let mut pos = o.positional;
        let ghost prev = pos@;
        pos.push(args[i].clone());
        proof {
            lemma_strings_view_push(prev, args[i as int]);
        }
        Step::Next(i + 1, Options { positional: pos, path_override: o.path_override, settings: o.settings })
    }
}

/// What the command line (without the program name) asks for: a search
/// with the options it sets, the help text, or the version; or an error
/// message (the help text itself when no name argument is given).
pub fn parse_args(args: &Vec<String>) -> (r: Result<ArgsOutcome, String>)
    ensures
        outcome_view(r) == parse_args_spec(strings_view(args@)),
{
    let ac = chars_of_all(args);
    let mut o = Options::defaults();
    let mut i: usize = 0;
    let ghost av = strings_view(args@);
    proof {
        lemma_strings_view(args@);
    }
    while i < args.len()
        invariant
            ac.len() == args.len(),
            forall|k: int| 0 <= k < args.len() ==> #[trigger] ac[k]@ == args[k]@,
            av == strings_view(args@),
            av.len() == args.len(),
            forall|k: int| 0 <= k < args.len() ==> #[trigger] av[k] == args[k]@,
            parse_args_spec(av) == args_from(av, i as int, o@),
        decreases args.len() - i,
    {
        let a = ac[i].as_slice();
        assert(av[i as int] == a@);
        let ghost o0 = o@;
        let candidate = starts_with(a, chars_of("-").as_slice()) && !starts_with(a, chars_of("--").as_slice()) && a.len() > 2;
        let (st, s1) = if candidate {
            assert(a@.drop_first() =~= a@.subrange(1, a@.len() as int));
            apply_cluster(slice_chars_local(a, 1).as_slice(), o.settings)
        } else {
            (ClusterStatus::Unknown, o.settings)
        };
        let o1 = Options { settings: s1, ..o };
        let step = match st {
            ClusterStatus::Help => Step::Done(Ok(ArgsOutcome::Help)),
            ClusterStatus::Version => Step::Done(Ok(ArgsOutcome::Version)),
            ClusterStatus::AllKnown => Step::Next(i + 1, o1),
            ClusterStatus::Unknown => long_step_exec(args, &ac, i, o1),
        };
        assert(step_matches(step, arg_step(av, i as int, o0)));
        match step {
            Step::Next(j, o2) => {
                if j >= args.len() {
                    return finish(o2);
                }
                o = o2;
                i = j;
            },
            Step::Done(r) => {
                return r;
            },
        }
    }
    finish(o)
}

fn slice_chars_local(a: &[char], from: usize) -> (r: Vec<char>)
    requires
        from <= a.len(),
    ensures
        r@ == a@.subrange(from as int, a@.len() as int),
{
    crate::text::slice_chars(a, from, a.len())
}

proof fn lemma_cluster_threads(cs: Seq<char>, o: Settings)
    ensures
        cluster_spec(cs, o).1.threads_override == o.threads_override,
    decreases cs.len(),
{
    if cs.len() > 0 && cs[0] != 'h' && cs[0] != 'V' {
        if let Some(o2) = cluster_flag(cs[0], o) {
            lemma_cluster_threads(cs.drop_first(), o2);
        }
    }
}

proof fn lemma_switch_threads(a: Seq<char>, s: Settings)
    ensures
        switch_spec(a, s) matches Some(s2) ==> s2.threads_override == s.threads_override,
{
}

#[verifier::spinoff_prover]
#[verifier::rlimit(60)]
proof fn lemma_long_threads(args: Seq<Seq<char>>, i: int, o: OptionsView)
    requires
        0 <= i < args.len(),
        o.settings.threads_override > 0,
    ensures
        long_step(args, i, o) matches StepView::Next(j, o2) ==> o2.settings.threads_override > 0,
        long_step(args, i, o) matches StepView::Done(ParseView::Run(o2)) ==> o2.settings.threads_override > 0
            && o2.positional.len() > 0,
{
    reveal(long_step);
    lemma_switch_threads(args[i], o.settings);
}

proof fn lemma_step_threads(args: Seq<Seq<char>>, i: int, o: OptionsView)
    requires
        0 <= i < args.len(),
        o.settings.threads_override > 0,
    ensures
        arg_step(args, i, o) matches StepView::Next(j, o2) ==> o2.settings.threads_override > 0,
        arg_step(args, i, o) matches StepView::Done(ParseView::Run(o2)) ==> o2.settings.threads_override > 0
            && o2.positional.len() > 0,
{
    let a = args[i];
    let s1 = if cluster_candidate(a) {
        cluster_spec(a.drop_first(), o.settings).1
    } else {
        o.settings
    };
    if cluster_candidate(a) {
        lemma_cluster_threads(a.drop_first(), o.settings);
    }
    lemma_long_threads(args, i, with_settings(o, s1));
}

proof fn lemma_args_from(args: Seq<Seq<char>>, i: int, o: OptionsView)
    requires
        o.settings.threads_override > 0,
    ensures
        args_from(args, i, o) matches ParseView::Run(r) ==> r.settings.threads_override > 0 && r.positional.len() > 0,
    decreases args.len() - i,
{
    if 0 <= i < args.len() {
        lemma_step_threads(args, i, o);
        match arg_step(args, i, o) {
            StepView::Next(j, o2) => {
                if i < j < args.len() {
                    lemma_args_from(args, j, o2);
                }
            },
            StepView::Done(p) => {},
        }
    }
}

/// Every search the command line asks for has at least one positional
/// argument and a positive number of threads.
pub proof fn law_run_has_pattern_and_threads(args: Seq<Seq<char>>)
    ensures
        parse_args_spec(args) matches ParseView::Run(o) ==> o.positional.len() >= 1 && o.settings.threads_override >= 1,
{
    lemma_args_from(args, 0, default_options());
}


proof fn lemma_cluster_norec(cs: Seq<char>, o: Settings)
    requires
        o.no_recurse,
    ensures
        cluster_spec(cs, o).1.no_recurse,
    decreases cs.len(),
{
    if cs.len() > 0 && cs[0] != 'h' && cs[0] != 'V' {
        if let Some(o2) = cluster_flag(cs[0], o) {
            lemma_cluster_norec(cs.drop_first(), o2);
        }
    }
}

#[verifier::spinoff_prover]
#[verifier::rlimit(60)]
proof fn lemma_long_norec(args: Seq<Seq<char>>, i: int, o: OptionsView)
    requires
        0 <= i < args.len(),
        o.settings.no_recurse,
    ensures
        long_step(args, i, o) matches StepView::Next(j, o2) ==> o2.settings.no_recurse,
        long_step(args, i, o) matches StepView::Done(ParseView::Run(o2)) ==> o2.settings.no_recurse,
{
    reveal(long_step);
}

proof fn lemma_step_norec(args: Seq<Seq<char>>, i: int, o: OptionsView)
    requires
        0 <= i < args.len(),
        o.settings.no_recurse,
    ensures
        arg_step(args, i, o) matches StepView::Next(j, o2) ==> o2.settings.no_recurse,
        arg_step(args, i, o) matches StepView::Done(ParseView::Run(o2)) ==> o2.settings.no_recurse,
{
    let a = args[i];
    let s1 = if cluster_candidate(a) {
        cluster_spec(a.drop_first(), o.settings).1
    } else {
        o.settings
    };
    if cluster_candidate(a) {
        lemma_cluster_norec(a.drop_first(), o.settings);
    }
    lemma_long_norec(args, i, with_settings(o, s1));
}

proof fn lemma_args_from_norec(args: Seq<Seq<char>>, i: int, o: OptionsView)
    requires
        o.settings.no_recurse,
    ensures
        args_from(args, i, o) matches ParseView::Run(r) ==> r.settings.no_recurse,
    decreases args.len() - i,
{
    if 0 <= i < args.len() {
        lemma_step_norec(args, i, o);
        match arg_step(args, i, o) {
            StepView::Next(j, o2) => {
                if i < j < args.len() {
                    lemma_args_from_norec(args, j, o2);
                }
            },
            StepView::Done(p) => {},
        }
    }
}

/// Reading a plain switch as the first argument: the search goes on at
/// the next argument with the settings the switch gives.
#[verifier::spinoff_prover]
#[verifier::rlimit(100)]
proof fn lemma_first_switch(args: Seq<Seq<char>>)
    requires
        args.len() > 0,
        args[0] == "-R"@ || args[0] == "--no-recurse"@,
    ensures
        arg_step(args, 0, default_options()) == StepView::Next(
            1,
            with_settings(default_options(), Settings { no_recurse: true, ..default_settings() }),
        ),
{
    reveal_strlit("-R");
    reveal_strlit("--no-recurse");
    reveal_strlit("--timeout");
    reveal_strlit("--timeout=");
    reveal_strlit("--threads");
    reveal_strlit("--threads=");
    reveal_strlit("--color");
    reveal_strlit("--color=");
    reveal_strlit("--path");
    reveal_strlit("--path=");
    reveal_strlit("--sort");
    reveal_strlit("-");
    reveal_strlit("--");
    let a = args[0];
    assert(!cluster_candidate(a)) by {
        if a == "--no-recurse"@ {
            assert(a.subrange(0, 2) =~= "--"@);
        }
    }
    law_switches_set_their_settings(default_settings());
    reveal(long_step);
    assert(a != "--timeout"@ && a != "--threads"@ && a != "--color"@ && a != "--path"@ && a != "--sort"@);
    assert(!has_prefix(a, "--timeout="@)) by {
        if a == "--no-recurse"@ {
            assert(a.subrange(0, 10)[2] != "--timeout="@[2]);
        }
    }
    assert(!has_prefix(a, "--threads="@)) by {
        if a == "--no-recurse"@ {
            assert(a.subrange(0, 10)[2] != "--threads="@[2]);
        }
    }
    assert(!has_prefix(a, "--color="@)) by {
        if a == "--no-recurse"@ {
            assert(a.subrange(0, 8)[2] != "--color="@[2]);
        }
    }
    assert(!has_prefix(a, "--path="@)) by {
        if a == "--no-recurse"@ {
            assert(a.subrange(0, 7)[2] != "--path="@[2]);
        }
    }
}

/// `-R` (or `--no-recurse`) given first turns recursion off for the
/// search, whatever follows it: nothing later turns it back on.
pub proof fn law_no_recurse_switch(rest: Seq<Seq<char>>)
    ensures
        parse_args_spec(seq!["-R"@] + rest) matches ParseView::Run(o) ==> o.settings.no_recurse,
        parse_args_spec(seq!["--no-recurse"@] + rest) matches ParseView::Run(o) ==> o.settings.no_recurse,
{
    let a1 = seq!["-R"@] + rest;
    let a2 = seq!["--no-recurse"@] + rest;
    let o1 = with_settings(default_options(), Settings { no_recurse: true, ..default_settings() });
    assert(a1[0] == "-R"@);
    assert(a2[0] == "--no-recurse"@);
    lemma_first_switch(a1);
    lemma_first_switch(a2);
    lemma_args_from_norec(a1, 1, o1);
    lemma_args_from_norec(a2, 1, o1);
}

#[verifier::spinoff_prover]
proof fn lemma_switch_literal_1(a: Seq<char>)
    requires
        a == "--hyperlink"@,
    ensures
        true,
{
    reveal_strlit("--hyperlink");
}

#[verifier::spinoff_prover]
proof fn lemma_switch_literal_2(a: Seq<char>)
    requires
        a == "--highlight-match"@,
    ensures
        a != "--hyperlink"@,
{
    reveal_strlit("--highlight-match");
    assert(a != "--hyperlink"@) by { reveal_strlit("--hyperlink"); assert(a.len() != "--hyperlink"@.len()); }
}

#[verifier::spinoff_prover]
proof fn lemma_switch_literal_3(a: Seq<char>)
    requires
        a == "--match-red"@,
    ensures
        a != "--hyperlink"@,
{
    reveal_strlit("--match-red");
    assert(a != "--hyperlink"@) by { reveal_strlit("--hyperlink"); assert(a[2] != "--hyperlink"@[2]); }
}

#[verifier::spinoff_prover]
proof fn lemma_switch_literal_4(a: Seq<char>)
    requires
        a == "--contains-all"@,
    ensures
        a != "--hyperlink"@,
        a != "--highlight-match"@,
        a != "--match-red"@,
{
    reveal_strlit("--contains-all");
    assert(a != "--hyperlink"@) by { reveal_strlit("--hyperlink"); assert(a.len() != "--hyperlink"@.len()); }
    assert(a != "--highlight-match"@) by { reveal_strlit("--highlight-match"); assert(a.len() != "--highlight-match"@.len()); }
    assert(a != "--match-red"@) by { reveal_strlit("--match-red"); assert(a.len() != "--match-red"@.len()); }
}

#[verifier::spinoff_prover]
proof fn lemma_switch_literal_5(a: Seq<char>)
    requires
        a == "--counts"@,
    ensures
        a != "--hyperlink"@,
        a != "--highlight-match"@,
        a != "--match-red"@,
        a != "--contains-all"@,
{
    reveal_strlit("--counts");
    assert(a != "--hyperlink"@) by { reveal_strlit("--hyperlink"); assert(a.len() != "--hyperlink"@.len()); }
    assert(a != "--highlight-match"@) by { reveal_strlit("--highlight-match"); assert(a.len() != "--highlight-match"@.len()); }
    assert(a != "--match-red"@) by { reveal_strlit("--match-red"); assert(a.len() != "--match-red"@.len()); }
    assert(a != "--contains-all"@) by { reveal_strlit("--contains-all"); assert(a.len() != "--contains-all"@.len()); }
}

#[verifier::spinoff_prover]
proof fn lemma_switch_literal_6(a: Seq<char>)
    requires
        a == "--visible-only"@,
    ensures
        a != "--hyperlink"@,
        a != "--highlight-match"@,
        a != "--match-red"@,
        a != "--contains-all"@,
        a != "--counts"@,
{
    reveal_strlit("--visible-only");
    assert(a != "--hyperlink"@) by { reveal_strlit("--hyperlink"); assert(a.len() != "--hyperlink"@.len()); }
    assert(a != "--highlight-match"@) by { reveal_strlit("--highlight-match"); assert(a.len() != "--highlight-match"@.len()); }
    assert(a != "--match-red"@) by { reveal_strlit("--match-red"); assert(a.len() != "--match-red"@.len()); }
    assert(a != "--contains-all"@) by { reveal_strlit("--contains-all"); assert(a[2] != "--contains-all"@[2]); }
    assert(a != "--counts"@) by { reveal_strlit("--counts"); assert(a.len() != "--counts"@.len()); }
}

#[verifier::spinoff_prover]
proof fn lemma_switch_literal_7(a: Seq<char>)
    requires
        a == "--dir"@,
    ensures
        a != "--hyperlink"@,
        a != "--highlight-match"@,
        a != "--match-red"@,
        a != "--contains-all"@,
        a != "--counts"@,
        a != "--visible-only"@,
{
    reveal_strlit("--dir");
    assert(a != "--hyperlink"@) by { reveal_strlit("--hyperlink"); assert(a.len() != "--hyperlink"@.len()); }
    assert(a != "--highlight-match"@) by { reveal_strlit("--highlight-match"); assert(a.len() != "--highlight-match"@.len()); }
    assert(a != "--match-red"@) by { reveal_strlit("--match-red"); assert(a.len() != "--match-red"@.len()); }
    assert(a != "--contains-all"@) by { reveal_strlit("--contains-all"); assert(a.len() != "--contains-all"@.len()); }
    assert(a != "--counts"@) by { reveal_strlit("--counts"); assert(a.len() != "--counts"@.len()); }
    assert(a != "--visible-only"@) by { reveal_strlit("--visible-only"); assert(a.len() != "--visible-only"@.len()); }
}

#[verifier::spinoff_prover]
proof fn lemma_switch_literal_8(a: Seq<char>)
    requires
        a == "-d"@,
    ensures
        a != "--hyperlink"@,
        a != "--highlight-match"@,
        a != "--match-red"@,
        a != "--contains-all"@,
        a != "--counts"@,
        a != "--visible-only"@,
{
    reveal_strlit("-d");
    assert(a != "--hyperlink"@) by { reveal_strlit("--hyperlink"); assert(a.len() != "--hyperlink"@.len()); }
    assert(a != "--highlight-match"@) by { reveal_strlit("--highlight-match"); assert(a.len() != "--highlight-match"@.len()); }
    assert(a != "--match-red"@) by { reveal_strlit("--match-red"); assert(a.len() != "--match-red"@.len()); }
    assert(a != "--contains-all"@) by { reveal_strlit("--contains-all"); assert(a.len() != "--contains-all"@.len()); }
    assert(a != "--counts"@) by { reveal_strlit("--counts"); assert(a.len() != "--counts"@.len()); }
    assert(a != "--visible-only"@) by { reveal_strlit("--visible-only"); assert(a.len() != "--visible-only"@.len()); }
}

#[verifier::spinoff_prover]
proof fn lemma_switch_literal_9(a: Seq<char>)
    requires
        a == "--file"@,
    ensures
        a != "--hyperlink"@,
        a != "--highlight-match"@,
        a != "--match-red"@,
        a != "--contains-all"@,
        a != "--counts"@,
        a != "--visible-only"@,
        a != "--dir"@,
        a != "-d"@,
{
    reveal_strlit("--file");
    assert(a != "--hyperlink"@) by { reveal_strlit("--hyperlink"); assert(a.len() != "--hyperlink"@.len()); }
    assert(a != "--highlight-match"@) by { reveal_strlit("--highlight-match"); assert(a.len() != "--highlight-match"@.len()); }
    assert(a != "--match-red"@) by { reveal_strlit("--match-red"); assert(a.len() != "--match-red"@.len()); }
    assert(a != "--contains-all"@) by { reveal_strlit("--contains-all"); assert(a.len() != "--contains-all"@.len()); }
    assert(a != "--counts"@) by { reveal_strlit("--counts"); assert(a.len() != "--counts"@.len()); }
    assert(a != "--visible-only"@) by { reveal_strlit("--visible-only"); assert(a.len() != "--visible-only"@.len()); }
    assert(a != "--dir"@) by { reveal_strlit("--dir"); assert(a.len() != "--dir"@.len()); }
    assert(a != "-d"@) by { reveal_strlit("-d"); assert(a.len() != "-d"@.len()); }
}

#[verifier::spinoff_prover]
proof fn lemma_switch_literal_10(a: Seq<char>)
    requires
        a == "-f"@,
    ensures
        a != "--hyperlink"@,
        a != "--highlight-match"@,
        a != "--match-red"@,
        a != "--contains-all"@,
        a != "--counts"@,
        a != "--visible-only"@,
        a != "--dir"@,
        a != "-d"@,
{
    reveal_strlit("-f");
    assert(a != "--hyperlink"@) by { reveal_strlit("--hyperlink"); assert(a.len() != "--hyperlink"@.len()); }
    assert(a != "--highlight-match"@) by { reveal_strlit("--highlight-match"); assert(a.len() != "--highlight-match"@.len()); }
    assert(a != "--match-red"@) by { reveal_strlit("--match-red"); assert(a.len() != "--match-red"@.len()); }
    assert(a != "--contains-all"@) by { reveal_strlit("--contains-all"); assert(a.len() != "--contains-all"@.len()); }
    assert(a != "--counts"@) by { reveal_strlit("--counts"); assert(a.len() != "--counts"@.len()); }
    assert(a != "--visible-only"@) by { reveal_strlit("--visible-only"); assert(a.len() != "--visible-only"@.len()); }
    assert(a != "--dir"@) by { reveal_strlit("--dir"); assert(a.len() != "--dir"@.len()); }
    assert(a != "-d"@) by { reveal_strlit("-d"); assert(a[1] != "-d"@[1]); }
}

#[verifier::spinoff_prover]
proof fn lemma_switch_literal_11(a: Seq<char>)
    requires
        a == "--full"@,
    ensures
        a != "--hyperlink"@,
        a != "--highlight-match"@,
        a != "--match-red"@,
        a != "--contains-all"@,
        a != "--counts"@,
        a != "--visible-only"@,
        a != "--dir"@,
        a != "-d"@,
        a != "--file"@,
        a != "-f"@,
{
    reveal_strlit("--full");
    assert(a != "--hyperlink"@) by { reveal_strlit("--hyperlink"); assert(a.len() != "--hyperlink"@.len()); }
    assert(a != "--highlight-match"@) by { reveal_strlit("--highlight-match"); assert(a.len() != "--highlight-match"@.len()); }
    assert(a != "--match-red"@) by { reveal_strlit("--match-red"); assert(a.len() != "--match-red"@.len()); }
    assert(a != "--contains-all"@) by { reveal_strlit("--contains-all"); assert(a.len() != "--contains-all"@.len()); }
    assert(a != "--counts"@) by { reveal_strlit("--counts"); assert(a.len() != "--counts"@.len()); }
    assert(a != "--visible-only"@) by { reveal_strlit("--visible-only"); assert(a.len() != "--visible-only"@.len()); }
    assert(a != "--dir"@) by { reveal_strlit("--dir"); assert(a.len() != "--dir"@.len()); }
    assert(a != "-d"@) by { reveal_strlit("-d"); assert(a.len() != "-d"@.len()); }
    assert(a != "--file"@) by { reveal_strlit("--file"); assert(a[3] != "--file"@[3]); }
    assert(a != "-f"@) by { reveal_strlit("-f"); assert(a.len() != "-f"@.len()); }
}

#[verifier::spinoff_prover]
proof fn lemma_switch_literal_12(a: Seq<char>)
    requires
        a == "-F"@,
    ensures
        a != "--hyperlink"@,
        a != "--highlight-match"@,
        a != "--match-red"@,
        a != "--contains-all"@,
        a != "--counts"@,
        a != "--visible-only"@,
        a != "--dir"@,
        a != "-d"@,
        a != "--file"@,
        a != "-f"@,
{
    reveal_strlit("-F");
    assert(a != "--hyperlink"@) by { reveal_strlit("--hyperlink"); assert(a.len() != "--hyperlink"@.len()); }
    assert(a != "--highlight-match"@) by { reveal_strlit("--highlight-match"); assert(a.len() != "--highlight-match"@.len()); }
    assert(a != "--match-red"@) by { reveal_strlit("--match-red"); assert(a.len() != "--match-red"@.len()); }
    assert(a != "--contains-all"@) by { reveal_strlit("--contains-all"); assert(a.len() != "--contains-all"@.len()); }
    assert(a != "--counts"@) by { reveal_strlit("--counts"); assert(a.len() != "--counts"@.len()); }
    assert(a != "--visible-only"@) by { reveal_strlit("--visible-only"); assert(a.len() != "--visible-only"@.len()); }
    assert(a != "--dir"@) by { reveal_strlit("--dir"); assert(a.len() != "--dir"@.len()); }
    assert(a != "-d"@) by { reveal_strlit("-d"); assert(a[1] != "-d"@[1]); }
    assert(a != "--file"@) by { reveal_strlit("--file"); assert(a.len() != "--file"@.len()); }
    assert(a != "-f"@) by { reveal_strlit("-f"); assert(a[1] != "-f"@[1]); }
}

#[verifier::spinoff_prover]
proof fn lemma_switch_literal_13(a: Seq<char>)
    requires
        a == "--classify"@,
    ensures
        a != "--hyperlink"@,
        a != "--highlight-match"@,
        a != "--match-red"@,
        a != "--contains-all"@,
        a != "--counts"@,
        a != "--visible-only"@,
        a != "--dir"@,
        a != "-d"@,
        a != "--file"@,
        a != "-f"@,
        a != "--full"@,
        a != "-F"@,
{
    reveal_strlit("--classify");
    assert(a != "--hyperlink"@) by { reveal_strlit("--hyperlink"); assert(a.len() != "--hyperlink"@.len()); }
    assert(a != "--highlight-match"@) by { reveal_strlit("--highlight-match"); assert(a.len() != "--highlight-match"@.len()); }
    assert(a != "--match-red"@) by { reveal_strlit("--match-red"); assert(a.len() != "--match-red"@.len()); }
    assert(a != "--contains-all"@) by { reveal_strlit("--contains-all"); assert(a.len() != "--contains-all"@.len()); }
    assert(a != "--counts"@) by { reveal_strlit("--counts"); assert(a.len() != "--counts"@.len()); }
    assert(a != "--visible-only"@) by { reveal_strlit("--visible-only"); assert(a.len() != "--visible-only"@.len()); }
    assert(a != "--dir"@) by { reveal_strlit("--dir"); assert(a.len() != "--dir"@.len()); }
    assert(a != "-d"@) by { reveal_strlit("-d"); assert(a.len() != "-d"@.len()); }
    assert(a != "--file"@) by { reveal_strlit("--file"); assert(a.len() != "--file"@.len()); }
    assert(a != "-f"@) by { reveal_strlit("-f"); assert(a.len() != "-f"@.len()); }
    assert(a != "--full"@) by { reveal_strlit("--full"); assert(a.len() != "--full"@.len()); }
    assert(a != "-F"@) by { reveal_strlit("-F"); assert(a.len() != "-F"@.len()); }
}

#[verifier::spinoff_prover]
proof fn lemma_switch_literal_14(a: Seq<char>)
    requires
        a == "-C"@,
    ensures
        a != "--hyperlink"@,
        a != "--highlight-match"@,
        a != "--match-red"@,
        a != "--contains-all"@,
        a != "--counts"@,
        a != "--visible-only"@,
        a != "--dir"@,
        a != "-d"@,
        a != "--file"@,
        a != "-f"@,
        a != "--full"@,
        a != "-F"@,
{
    reveal_strlit("-C");
    assert(a != "--hyperlink"@) by { reveal_strlit("--hyperlink"); assert(a.len() != "--hyperlink"@.len()); }
    assert(a != "--highlight-match"@) by { reveal_strlit("--highlight-match"); assert(a.len() != "--highlight-match"@.len()); }
    assert(a != "--match-red"@) by { reveal_strlit("--match-red"); assert(a.len() != "--match-red"@.len()); }
    assert(a != "--contains-all"@) by { reveal_strlit("--contains-all"); assert(a.len() != "--contains-all"@.len()); }
    assert(a != "--counts"@) by { reveal_strlit("--counts"); assert(a.len() != "--counts"@.len()); }
    assert(a != "--visible-only"@) by { reveal_strlit("--visible-only"); assert(a.len() != "--visible-only"@.len()); }
    assert(a != "--dir"@) by { reveal_strlit("--dir"); assert(a.len() != "--dir"@.len()); }
    assert(a != "-d"@) by { reveal_strlit("-d"); assert(a[1] != "-d"@[1]); }
    assert(a != "--file"@) by { reveal_strlit("--file"); assert(a.len() != "--file"@.len()); }
    assert(a != "-f"@) by { reveal_strlit("-f"); assert(a[1] != "-f"@[1]); }
    assert(a != "--full"@) by { reveal_strlit("--full"); assert(a.len() != "--full"@.len()); }
    assert(a != "-F"@) by { reveal_strlit("-F"); assert(a[1] != "-F"@[1]); }
}

#[verifier::spinoff_prover]
proof fn lemma_switch_literal_15(a: Seq<char>)
    requires
        a == "--absolute-paths"@,
    ensures
        a != "--hyperlink"@,
        a != "--highlight-match"@,
        a != "--match-red"@,
        a != "--contains-all"@,
        a != "--counts"@,
        a != "--visible-only"@,
        a != "--dir"@,
        a != "-d"@,
        a != "--file"@,
        a != "-f"@,
        a != "--full"@,
        a != "-F"@,
        a != "--classify"@,
        a != "-C"@,
{
    reveal_strlit("--absolute-paths");
    assert(a != "--hyperlink"@) by { reveal_strlit("--hyperlink"); assert(a.len() != "--hyperlink"@.len()); }
    assert(a != "--highlight-match"@) by { reveal_strlit("--highlight-match"); assert(a.len() != "--highlight-match"@.len()); }
    assert(a != "--match-red"@) by { reveal_strlit("--match-red"); assert(a.len() != "--match-red"@.len()); }
    assert(a != "--contains-all"@) by { reveal_strlit("--contains-all"); assert(a.len() != "--contains-all"@.len()); }
    assert(a != "--counts"@) by { reveal_strlit("--counts"); assert(a.len() != "--counts"@.len()); }
    assert(a != "--visible-only"@) by { reveal_strlit("--visible-only"); assert(a.len() != "--visible-only"@.len()); }
    assert(a != "--dir"@) by { reveal_strlit("--dir"); assert(a.len() != "--dir"@.len()); }
    assert(a != "-d"@) by { reveal_strlit("-d"); assert(a.len() != "-d"@.len()); }
    assert(a != "--file"@) by { reveal_strlit("--file"); assert(a.len() != "--file"@.len()); }
    assert(a != "-f"@) by { reveal_strlit("-f"); assert(a.len() != "-f"@.len()); }
    assert(a != "--full"@) by { reveal_strlit("--full"); assert(a.len() != "--full"@.len()); }
    assert(a != "-F"@) by { reveal_strlit("-F"); assert(a.len() != "-F"@.len()); }
    assert(a != "--classify"@) by { reveal_strlit("--classify"); assert(a.len() != "--classify"@.len()); }
    assert(a != "-C"@) by { reveal_strlit("-C"); assert(a.len() != "-C"@.len()); }
}

#[verifier::spinoff_prover]
proof fn lemma_switch_literal_16(a: Seq<char>)
    requires
        a == "-A"@,
    ensures
        a != "--hyperlink"@,
        a != "--highlight-match"@,
        a != "--match-red"@,
        a != "--contains-all"@,
        a != "--counts"@,
        a != "--visible-only"@,
        a != "--dir"@,
        a != "-d"@,
        a != "--file"@,
        a != "-f"@,
        a != "--full"@,
        a != "-F"@,
        a != "--classify"@,
        a != "-C"@,
{
    reveal_strlit("-A");
    assert(a != "--hyperlink"@) by { reveal_strlit("--hyperlink"); assert(a.len() != "--hyperlink"@.len()); }
    assert(a != "--highlight-match"@) by { reveal_strlit("--highlight-match"); assert(a.len() != "--highlight-match"@.len()); }
    assert(a != "--match-red"@) by { reveal_strlit("--match-red"); assert(a.len() != "--match-red"@.len()); }
    assert(a != "--contains-all"@) by { reveal_strlit("--contains-all"); assert(a.len() != "--contains-all"@.len()); }
    assert(a != "--counts"@) by { reveal_strlit("--counts"); assert(a.len() != "--counts"@.len()); }
    assert(a != "--visible-only"@) by { reveal_strlit("--visible-only"); assert(a.len() != "--visible-only"@.len()); }
    assert(a != "--dir"@) by { reveal_strlit("--dir"); assert(a.len() != "--dir"@.len()); }
    assert(a != "-d"@) by { reveal_strlit("-d"); assert(a[1] != "-d"@[1]); }
    assert(a != "--file"@) by { reveal_strlit("--file"); assert(a.len() != "--file"@.len()); }
    assert(a != "-f"@) by { reveal_strlit("-f"); assert(a[1] != "-f"@[1]); }
    assert(a != "--full"@) by { reveal_strlit("--full"); assert(a.len() != "--full"@.len()); }
    assert(a != "-F"@) by { reveal_strlit("-F"); assert(a[1] != "-F"@[1]); }
    assert(a != "--classify"@) by { reveal_strlit("--classify"); assert(a.len() != "--classify"@.len()); }
    assert(a != "-C"@) by { reveal_strlit("-C"); assert(a[1] != "-C"@[1]); }
}

#[verifier::spinoff_prover]
proof fn lemma_switch_literal_17(a: Seq<char>)
    requires
        a == "--regex"@,
    ensures
        a != "--hyperlink"@,
        a != "--highlight-match"@,
        a != "--match-red"@,
        a != "--contains-all"@,
        a != "--counts"@,
        a != "--visible-only"@,
        a != "--dir"@,
        a != "-d"@,
        a != "--file"@,
        a != "-f"@,
        a != "--full"@,
        a != "-F"@,
        a != "--classify"@,
        a != "-C"@,
        a != "--absolute-paths"@,
        a != "-A"@,
{
    reveal_strlit("--regex");
    assert(a != "--hyperlink"@) by { reveal_strlit("--hyperlink"); assert(a.len() != "--hyperlink"@.len()); }
    assert(a != "--highlight-match"@) by { reveal_strlit("--highlight-match"); assert(a.len() != "--highlight-match"@.len()); }
    assert(a != "--match-red"@) by { reveal_strlit("--match-red"); assert(a.len() != "--match-red"@.len()); }
    assert(a != "--contains-all"@) by { reveal_strlit("--contains-all"); assert(a.len() != "--contains-all"@.len()); }
    assert(a != "--counts"@) by { reveal_strlit("--counts"); assert(a.len() != "--counts"@.len()); }
    assert(a != "--visible-only"@) by { reveal_strlit("--visible-only"); assert(a.len() != "--visible-only"@.len()); }
    assert(a != "--dir"@) by { reveal_strlit("--dir"); assert(a.len() != "--dir"@.len()); }
    assert(a != "-d"@) by { reveal_strlit("-d"); assert(a.len() != "-d"@.len()); }
    assert(a != "--file"@) by { reveal_strlit("--file"); assert(a.len() != "--file"@.len()); }
    assert(a != "-f"@) by { reveal_strlit("-f"); assert(a.len() != "-f"@.len()); }
    assert(a != "--full"@) by { reveal_strlit("--full"); assert(a.len() != "--full"@.len()); }
    assert(a != "-F"@) by { reveal_strlit("-F"); assert(a.len() != "-F"@.len()); }
    assert(a != "--classify"@) by { reveal_strlit("--classify"); assert(a.len() != "--classify"@.len()); }
    assert(a != "-C"@) by { reveal_strlit("-C"); assert(a.len() != "-C"@.len()); }
    assert(a != "--absolute-paths"@) by { reveal_strlit("--absolute-paths"); assert(a.len() != "--absolute-paths"@.len()); }
    assert(a != "-A"@) by { reveal_strlit("-A"); assert(a.len() != "-A"@.len()); }
}

#[verifier::spinoff_prover]
proof fn lemma_switch_literal_18(a: Seq<char>)
    requires
        a == "-r"@,
    ensures
        a != "--hyperlink"@,
        a != "--highlight-match"@,
        a != "--match-red"@,
        a != "--contains-all"@,
        a != "--counts"@,
        a != "--visible-only"@,
        a != "--dir"@,
        a != "-d"@,
        a != "--file"@,
        a != "-f"@,
        a != "--full"@,
        a != "-F"@,
        a != "--classify"@,
        a != "-C"@,
        a != "--absolute-paths"@,
        a != "-A"@,
{
    reveal_strlit("-r");
    assert(a != "--hyperlink"@) by { reveal_strlit("--hyperlink"); assert(a.len() != "--hyperlink"@.len()); }
    assert(a != "--highlight-match"@) by { reveal_strlit("--highlight-match"); assert(a.len() != "--highlight-match"@.len()); }
    assert(a != "--match-red"@) by { reveal_strlit("--match-red"); assert(a.len() != "--match-red"@.len()); }
    assert(a != "--contains-all"@) by { reveal_strlit("--contains-all"); assert(a.len() != "--contains-all"@.len()); }
    assert(a != "--counts"@) by { reveal_strlit("--counts"); assert(a.len() != "--counts"@.len()); }
    assert(a != "--visible-only"@) by { reveal_strlit("--visible-only"); assert(a.len() != "--visible-only"@.len()); }
    assert(a != "--dir"@) by { reveal_strlit("--dir"); assert(a.len() != "--dir"@.len()); }
    assert(a != "-d"@) by { reveal_strlit("-d"); assert(a[1] != "-d"@[1]); }
    assert(a != "--file"@) by { reveal_strlit("--file"); assert(a.len() != "--file"@.len()); }
    assert(a != "-f"@) by { reveal_strlit("-f"); assert(a[1] != "-f"@[1]); }
    assert(a != "--full"@) by { reveal_strlit("--full"); assert(a.len() != "--full"@.len()); }
    assert(a != "-F"@) by { reveal_strlit("-F"); assert(a[1] != "-F"@[1]); }
    assert(a != "--classify"@) by { reveal_strlit("--classify"); assert(a.len() != "--classify"@.len()); }
    assert(a != "-C"@) by { reveal_strlit("-C"); assert(a[1] != "-C"@[1]); }
    assert(a != "--absolute-paths"@) by { reveal_strlit("--absolute-paths"); assert(a.len() != "--absolute-paths"@.len()); }
    assert(a != "-A"@) by { reveal_strlit("-A"); assert(a[1] != "-A"@[1]); }
}

#[verifier::spinoff_prover]
proof fn lemma_switch_literal_19(a: Seq<char>)
    requires
        a == "--no-recurse"@,
    ensures
        a != "--hyperlink"@,
        a != "--highlight-match"@,
        a != "--match-red"@,
        a != "--contains-all"@,
        a != "--counts"@,
        a != "--visible-only"@,
        a != "--dir"@,
        a != "-d"@,
        a != "--file"@,
        a != "-f"@,
        a != "--full"@,
        a != "-F"@,
        a != "--classify"@,
        a != "-C"@,
        a != "--absolute-paths"@,
        a != "-A"@,
        a != "--regex"@,
        a != "-r"@,
{
    reveal_strlit("--no-recurse");
    assert(a != "--hyperlink"@) by { reveal_strlit("--hyperlink"); assert(a.len() != "--hyperlink"@.len()); }
    assert(a != "--highlight-match"@) by { reveal_strlit("--highlight-match"); assert(a.len() != "--highlight-match"@.len()); }
    assert(a != "--match-red"@) by { reveal_strlit("--match-red"); assert(a.len() != "--match-red"@.len()); }
    assert(a != "--contains-all"@) by { reveal_strlit("--contains-all"); assert(a.len() != "--contains-all"@.len()); }
    assert(a != "--counts"@) by { reveal_strlit("--counts"); assert(a.len() != "--counts"@.len()); }
    assert(a != "--visible-only"@) by { reveal_strlit("--visible-only"); assert(a.len() != "--visible-only"@.len()); }
    assert(a != "--dir"@) by { reveal_strlit("--dir"); assert(a.len() != "--dir"@.len()); }
    assert(a != "-d"@) by { reveal_strlit("-d"); assert(a.len() != "-d"@.len()); }
    assert(a != "--file"@) by { reveal_strlit("--file"); assert(a.len() != "--file"@.len()); }
    assert(a != "-f"@) by { reveal_strlit("-f"); assert(a.len() != "-f"@.len()); }
    assert(a != "--full"@) by { reveal_strlit("--full"); assert(a.len() != "--full"@.len()); }
    assert(a != "-F"@) by { reveal_strlit("-F"); assert(a.len() != "-F"@.len()); }
    assert(a != "--classify"@) by { reveal_strlit("--classify"); assert(a.len() != "--classify"@.len()); }
    assert(a != "-C"@) by { reveal_strlit("-C"); assert(a.len() != "-C"@.len()); }
    assert(a != "--absolute-paths"@) by { reveal_strlit("--absolute-paths"); assert(a.len() != "--absolute-paths"@.len()); }
    assert(a != "-A"@) by { reveal_strlit("-A"); assert(a.len() != "-A"@.len()); }
    assert(a != "--regex"@) by { reveal_strlit("--regex"); assert(a.len() != "--regex"@.len()); }
    assert(a != "-r"@) by { reveal_strlit("-r"); assert(a.len() != "-r"@.len()); }
}

#[verifier::spinoff_prover]
proof fn lemma_switch_literal_20(a: Seq<char>)
    requires
        a == "-R"@,
    ensures
        a != "--hyperlink"@,
        a != "--highlight-match"@,
        a != "--match-red"@,
        a != "--contains-all"@,
        a != "--counts"@,
        a != "--visible-only"@,
        a != "--dir"@,
        a != "-d"@,
        a != "--file"@,
        a != "-f"@,
        a != "--full"@,
        a != "-F"@,
        a != "--classify"@,
        a != "-C"@,
        a != "--absolute-paths"@,
        a != "-A"@,
        a != "--regex"@,
        a != "-r"@,
{
    reveal_strlit("-R");
    assert(a != "--hyperlink"@) by { reveal_strlit("--hyperlink"); assert(a.len() != "--hyperlink"@.len()); }
    assert(a != "--highlight-match"@) by { reveal_strlit("--highlight-match"); assert(a.len() != "--highlight-match"@.len()); }
    assert(a != "--match-red"@) by { reveal_strlit("--match-red"); assert(a.len() != "--match-red"@.len()); }
    assert(a != "--contains-all"@) by { reveal_strlit("--contains-all"); assert(a.len() != "--contains-all"@.len()); }
    assert(a != "--counts"@) by { reveal_strlit("--counts"); assert(a.len() != "--counts"@.len()); }
    assert(a != "--visible-only"@) by { reveal_strlit("--visible-only"); assert(a.len() != "--visible-only"@.len()); }
    assert(a != "--dir"@) by { reveal_strlit("--dir"); assert(a.len() != "--dir"@.len()); }
    assert(a != "-d"@) by { reveal_strlit("-d"); assert(a[1] != "-d"@[1]); }
    assert(a != "--file"@) by { reveal_strlit("--file"); assert(a.len() != "--file"@.len()); }
    assert(a != "-f"@) by { reveal_strlit("-f"); assert(a[1] != "-f"@[1]); }
    assert(a != "--full"@) by { reveal_strlit("--full"); assert(a.len() != "--full"@.len()); }
    assert(a != "-F"@) by { reveal_strlit("-F"); assert(a[1] != "-F"@[1]); }
    assert(a != "--classify"@) by { reveal_strlit("--classify"); assert(a.len() != "--classify"@.len()); }
    assert(a != "-C"@) by { reveal_strlit("-C"); assert(a[1] != "-C"@[1]); }
    assert(a != "--absolute-paths"@) by { reveal_strlit("--absolute-paths"); assert(a.len() != "--absolute-paths"@.len()); }
    assert(a != "-A"@) by { reveal_strlit("-A"); assert(a[1] != "-A"@[1]); }
    assert(a != "--regex"@) by { reveal_strlit("--regex"); assert(a.len() != "--regex"@.len()); }
    assert(a != "-r"@) by { reveal_strlit("-r"); assert(a[1] != "-r"@[1]); }
}

#[verifier::spinoff_prover]
proof fn lemma_switch_literal_21(a: Seq<char>)
    requires
        a == "--follow-links"@,
    ensures
        a != "--hyperlink"@,
        a != "--highlight-match"@,
        a != "--match-red"@,
        a != "--contains-all"@,
        a != "--counts"@,
        a != "--visible-only"@,
        a != "--dir"@,
        a != "-d"@,
        a != "--file"@,
        a != "-f"@,
        a != "--full"@,
        a != "-F"@,
        a != "--classify"@,
        a != "-C"@,
        a != "--absolute-paths"@,
        a != "-A"@,
        a != "--regex"@,
        a != "-r"@,
        a != "--no-recurse"@,
        a != "-R"@,
{
    reveal_strlit("--follow-links");
    assert(a != "--hyperlink"@) by { reveal_strlit("--hyperlink"); assert(a.len() != "--hyperlink"@.len()); }
    assert(a != "--highlight-match"@) by { reveal_strlit("--highlight-match"); assert(a.len() != "--highlight-match"@.len()); }
    assert(a != "--match-red"@) by { reveal_strlit("--match-red"); assert(a.len() != "--match-red"@.len()); }
    assert(a != "--contains-all"@) by { reveal_strlit("--contains-all"); assert(a[2] != "--contains-all"@[2]); }
    assert(a != "--counts"@) by { reveal_strlit("--counts"); assert(a.len() != "--counts"@.len()); }
    assert(a != "--visible-only"@) by { reveal_strlit("--visible-only"); assert(a[2] != "--visible-only"@[2]); }
    assert(a != "--dir"@) by { reveal_strlit("--dir"); assert(a.len() != "--dir"@.len()); }
    assert(a != "-d"@) by { reveal_strlit("-d"); assert(a.len() != "-d"@.len()); }
    assert(a != "--file"@) by { reveal_strlit("--file"); assert(a.len() != "--file"@.len()); }
    assert(a != "-f"@) by { reveal_strlit("-f"); assert(a.len() != "-f"@.len()); }
    assert(a != "--full"@) by { reveal_strlit("--full"); assert(a.len() != "--full"@.len()); }
    assert(a != "-F"@) by { reveal_strlit("-F"); assert(a.len() != "-F"@.len()); }
    assert(a != "--classify"@) by { reveal_strlit("--classify"); assert(a.len() != "--classify"@.len()); }
    assert(a != "-C"@) by { reveal_strlit("-C"); assert(a.len() != "-C"@.len()); }
    assert(a != "--absolute-paths"@) by { reveal_strlit("--absolute-paths"); assert(a.len() != "--absolute-paths"@.len()); }
    assert(a != "-A"@) by { reveal_strlit("-A"); assert(a.len() != "-A"@.len()); }
    assert(a != "--regex"@) by { reveal_strlit("--regex"); assert(a.len() != "--regex"@.len()); }
    assert(a != "-r"@) by { reveal_strlit("-r"); assert(a.len() != "-r"@.len()); }
    assert(a != "--no-recurse"@) by { reveal_strlit("--no-recurse"); assert(a.len() != "--no-recurse"@.len()); }
    assert(a != "-R"@) by { reveal_strlit("-R"); assert(a.len() != "-R"@.len()); }
}

#[verifier::spinoff_prover]
proof fn lemma_switch_literal_22(a: Seq<char>)
    requires
        a == "--ignore"@,
    ensures
        a != "--hyperlink"@,
        a != "--highlight-match"@,
        a != "--match-red"@,
        a != "--contains-all"@,
        a != "--counts"@,
        a != "--visible-only"@,
        a != "--dir"@,
        a != "-d"@,
        a != "--file"@,
        a != "-f"@,
        a != "--full"@,
        a != "-F"@,
        a != "--classify"@,
        a != "-C"@,
        a != "--absolute-paths"@,
        a != "-A"@,
        a != "--regex"@,
        a != "-r"@,
        a != "--no-recurse"@,
        a != "-R"@,
        a != "--follow-links"@,
{
    reveal_strlit("--ignore");
    assert(a != "--hyperlink"@) by { reveal_strlit("--hyperlink"); assert(a.len() != "--hyperlink"@.len()); }
    assert(a != "--highlight-match"@) by { reveal_strlit("--highlight-match"); assert(a.len() != "--highlight-match"@.len()); }
    assert(a != "--match-red"@) by { reveal_strlit("--match-red"); assert(a.len() != "--match-red"@.len()); }
    assert(a != "--contains-all"@) by { reveal_strlit("--contains-all"); assert(a.len() != "--contains-all"@.len()); }
    assert(a != "--counts"@) by { reveal_strlit("--counts"); assert(a[2] != "--counts"@[2]); }
    assert(a != "--visible-only"@) by { reveal_strlit("--visible-only"); assert(a.len() != "--visible-only"@.len()); }
    assert(a != "--dir"@) by { reveal_strlit("--dir"); assert(a.len() != "--dir"@.len()); }
    assert(a != "-d"@) by { reveal_strlit("-d"); assert(a.len() != "-d"@.len()); }
    assert(a != "--file"@) by { reveal_strlit("--file"); assert(a.len() != "--file"@.len()); }
    assert(a != "-f"@) by { reveal_strlit("-f"); assert(a.len() != "-f"@.len()); }
    assert(a != "--full"@) by { reveal_strlit("--full"); assert(a.len() != "--full"@.len()); }
    assert(a != "-F"@) by { reveal_strlit("-F"); assert(a.len() != "-F"@.len()); }
    assert(a != "--classify"@) by { reveal_strlit("--classify"); assert(a.len() != "--classify"@.len()); }
    assert(a != "-C"@) by { reveal_strlit("-C"); assert(a.len() != "-C"@.len()); }
    assert(a != "--absolute-paths"@) by { reveal_strlit("--absolute-paths"); assert(a.len() != "--absolute-paths"@.len()); }
    assert(a != "-A"@) by { reveal_strlit("-A"); assert(a.len() != "-A"@.len()); }
    assert(a != "--regex"@) by { reveal_strlit("--regex"); assert(a.len() != "--regex"@.len()); }
    assert(a != "-r"@) by { reveal_strlit("-r"); assert(a.len() != "-r"@.len()); }
    assert(a != "--no-recurse"@) by { reveal_strlit("--no-recurse"); assert(a.len() != "--no-recurse"@.len()); }
    assert(a != "-R"@) by { reveal_strlit("-R"); assert(a.len() != "-R"@.len()); }
    assert(a != "--follow-links"@) by { reveal_strlit("--follow-links"); assert(a.len() != "--follow-links"@.len()); }
}

#[verifier::spinoff_prover]
proof fn lemma_switch_literal_23(a: Seq<char>)
    requires
        a == "--hidden"@,
    ensures
        a != "--hyperlink"@,
        a != "--highlight-match"@,
        a != "--match-red"@,
        a != "--contains-all"@,
        a != "--counts"@,
        a != "--visible-only"@,
        a != "--dir"@,
        a != "-d"@,
        a != "--file"@,
        a != "-f"@,
        a != "--full"@,
        a != "-F"@,
        a != "--classify"@,
        a != "-C"@,
        a != "--absolute-paths"@,
        a != "-A"@,
        a != "--regex"@,
        a != "-r"@,
        a != "--no-recurse"@,
        a != "-R"@,
        a != "--follow-links"@,
        a != "--ignore"@,
{
    reveal_strlit("--hidden");
    assert(a != "--hyperlink"@) by { reveal_strlit("--hyperlink"); assert(a.len() != "--hyperlink"@.len()); }
    assert(a != "--highlight-match"@) by { reveal_strlit("--highlight-match"); assert(a.len() != "--highlight-match"@.len()); }
    assert(a != "--match-red"@) by { reveal_strlit("--match-red"); assert(a.len() != "--match-red"@.len()); }
    assert(a != "--contains-all"@) by { reveal_strlit("--contains-all"); assert(a.len() != "--contains-all"@.len()); }
    assert(a != "--counts"@) by { reveal_strlit("--counts"); assert(a[2] != "--counts"@[2]); }
    assert(a != "--visible-only"@) by { reveal_strlit("--visible-only"); assert(a.len() != "--visible-only"@.len()); }
    assert(a != "--dir"@) by { reveal_strlit("--dir"); assert(a.len() != "--dir"@.len()); }
    assert(a != "-d"@) by { reveal_strlit("-d"); assert(a.len() != "-d"@.len()); }
    assert(a != "--file"@) by { reveal_strlit("--file"); assert(a.len() != "--file"@.len()); }
    assert(a != "-f"@) by { reveal_strlit("-f"); assert(a.len() != "-f"@.len()); }
    assert(a != "--full"@) by { reveal_strlit("--full"); assert(a.len() != "--full"@.len()); }
    assert(a != "-F"@) by { reveal_strlit("-F"); assert(a.len() != "-F"@.len()); }
    assert(a != "--classify"@) by { reveal_strlit("--classify"); assert(a.len() != "--classify"@.len()); }
    assert(a != "-C"@) by { reveal_strlit("-C"); assert(a.len() != "-C"@.len()); }
    assert(a != "--absolute-paths"@) by { reveal_strlit("--absolute-paths"); assert(a.len() != "--absolute-paths"@.len()); }
    assert(a != "-A"@) by { reveal_strlit("-A"); assert(a.len() != "-A"@.len()); }
    assert(a != "--regex"@) by { reveal_strlit("--regex"); assert(a.len() != "--regex"@.len()); }
    assert(a != "-r"@) by { reveal_strlit("-r"); assert(a.len() != "-r"@.len()); }
    assert(a != "--no-recurse"@) by { reveal_strlit("--no-recurse"); assert(a.len() != "--no-recurse"@.len()); }
    assert(a != "-R"@) by { reveal_strlit("-R"); assert(a.len() != "-R"@.len()); }
    assert(a != "--follow-links"@) by { reveal_strlit("--follow-links"); assert(a.len() != "--follow-links"@.len()); }
    assert(a != "--ignore"@) by { reveal_strlit("--ignore"); assert(a[2] != "--ignore"@[2]); }
}

#[verifier::spinoff_prover]
proof fn lemma_switch_literal_24(a: Seq<char>)
    requires
        a == "-H"@,
    ensures
        a != "--hyperlink"@,
        a != "--highlight-match"@,
        a != "--match-red"@,
        a != "--contains-all"@,
        a != "--counts"@,
        a != "--visible-only"@,
        a != "--dir"@,
        a != "-d"@,
        a != "--file"@,
        a != "-f"@,
        a != "--full"@,
        a != "-F"@,
        a != "--classify"@,
        a != "-C"@,
        a != "--absolute-paths"@,
        a != "-A"@,
        a != "--regex"@,
        a != "-r"@,
        a != "--no-recurse"@,
        a != "-R"@,
        a != "--follow-links"@,
        a != "--ignore"@,
{
    reveal_strlit("-H");
    assert(a != "--hyperlink"@) by { reveal_strlit("--hyperlink"); assert(a.len() != "--hyperlink"@.len()); }
    assert(a != "--highlight-match"@) by { reveal_strlit("--highlight-match"); assert(a.len() != "--highlight-match"@.len()); }
    assert(a != "--match-red"@) by { reveal_strlit("--match-red"); assert(a.len() != "--match-red"@.len()); }
    assert(a != "--contains-all"@) by { reveal_strlit("--contains-all"); assert(a.len() != "--contains-all"@.len()); }
    assert(a != "--counts"@) by { reveal_strlit("--counts"); assert(a.len() != "--counts"@.len()); }
    assert(a != "--visible-only"@) by { reveal_strlit("--visible-only"); assert(a.len() != "--visible-only"@.len()); }
    assert(a != "--dir"@) by { reveal_strlit("--dir"); assert(a.len() != "--dir"@.len()); }
    assert(a != "-d"@) by { reveal_strlit("-d"); assert(a[1] != "-d"@[1]); }
    assert(a != "--file"@) by { reveal_strlit("--file"); assert(a.len() != "--file"@.len()); }
    assert(a != "-f"@) by { reveal_strlit("-f"); assert(a[1] != "-f"@[1]); }
    assert(a != "--full"@) by { reveal_strlit("--full"); assert(a.len() != "--full"@.len()); }
    assert(a != "-F"@) by { reveal_strlit("-F"); assert(a[1] != "-F"@[1]); }
    assert(a != "--classify"@) by { reveal_strlit("--classify"); assert(a.len() != "--classify"@.len()); }
    assert(a != "-C"@) by { reveal_strlit("-C"); assert(a[1] != "-C"@[1]); }
    assert(a != "--absolute-paths"@) by { reveal_strlit("--absolute-paths"); assert(a.len() != "--absolute-paths"@.len()); }
    assert(a != "-A"@) by { reveal_strlit("-A"); assert(a[1] != "-A"@[1]); }
    assert(a != "--regex"@) by { reveal_strlit("--regex"); assert(a.len() != "--regex"@.len()); }
    assert(a != "-r"@) by { reveal_strlit("-r"); assert(a[1] != "-r"@[1]); }
    assert(a != "--no-recurse"@) by { reveal_strlit("--no-recurse"); assert(a.len() != "--no-recurse"@.len()); }
    assert(a != "-R"@) by { reveal_strlit("-R"); assert(a[1] != "-R"@[1]); }
    assert(a != "--follow-links"@) by { reveal_strlit("--follow-links"); assert(a.len() != "--follow-links"@.len()); }
    assert(a != "--ignore"@) by { reveal_strlit("--ignore"); assert(a.len() != "--ignore"@.len()); }
}

#[verifier::spinoff_prover]
proof fn lemma_switch_literal_25(a: Seq<char>)
    requires
        a == "--cache-raw"@,
    ensures
        a != "--hyperlink"@,
        a != "--highlight-match"@,
        a != "--match-red"@,
        a != "--contains-all"@,
        a != "--counts"@,
        a != "--visible-only"@,
        a != "--dir"@,
        a != "-d"@,
        a != "--file"@,
        a != "-f"@,
        a != "--full"@,
        a != "-F"@,
        a != "--classify"@,
        a != "-C"@,
        a != "--absolute-paths"@,
        a != "-A"@,
        a != "--regex"@,
        a != "-r"@,
        a != "--no-recurse"@,
        a != "-R"@,
        a != "--follow-links"@,
        a != "--ignore"@,
        a != "--hidden"@,
        a != "-H"@,
{
    reveal_strlit("--cache-raw");
    assert(a != "--hyperlink"@) by { reveal_strlit("--hyperlink"); assert(a[2] != "--hyperlink"@[2]); }
    assert(a != "--highlight-match"@) by { reveal_strlit("--highlight-match"); assert(a.len() != "--highlight-match"@.len()); }
    assert(a != "--match-red"@) by { reveal_strlit("--match-red"); assert(a[2] != "--match-red"@[2]); }
    assert(a != "--contains-all"@) by { reveal_strlit("--contains-all"); assert(a.len() != "--contains-all"@.len()); }
    assert(a != "--counts"@) by { reveal_strlit("--counts"); assert(a.len() != "--counts"@.len()); }
    assert(a != "--visible-only"@) by { reveal_strlit("--visible-only"); assert(a.len() != "--visible-only"@.len()); }
    assert(a != "--dir"@) by { reveal_strlit("--dir"); assert(a.len() != "--dir"@.len()); }
    assert(a != "-d"@) by { reveal_strlit("-d"); assert(a.len() != "-d"@.len()); }
    assert(a != "--file"@) by { reveal_strlit("--file"); assert(a.len() != "--file"@.len()); }
    assert(a != "-f"@) by { reveal_strlit("-f"); assert(a.len() != "-f"@.len()); }
    assert(a != "--full"@) by { reveal_strlit("--full"); assert(a.len() != "--full"@.len()); }
    assert(a != "-F"@) by { reveal_strlit("-F"); assert(a.len() != "-F"@.len()); }
    assert(a != "--classify"@) by { reveal_strlit("--classify"); assert(a.len() != "--classify"@.len()); }
    assert(a != "-C"@) by { reveal_strlit("-C"); assert(a.len() != "-C"@.len()); }
    assert(a != "--absolute-paths"@) by { reveal_strlit("--absolute-paths"); assert(a.len() != "--absolute-paths"@.len()); }
    assert(a != "-A"@) by { reveal_strlit("-A"); assert(a.len() != "-A"@.len()); }
    assert(a != "--regex"@) by { reveal_strlit("--regex"); assert(a.len() != "--regex"@.len()); }
    assert(a != "-r"@) by { reveal_strlit("-r"); assert(a.len() != "-r"@.len()); }
    assert(a != "--no-recurse"@) by { reveal_strlit("--no-recurse"); assert(a.len() != "--no-recurse"@.len()); }
    assert(a != "-R"@) by { reveal_strlit("-R"); assert(a.len() != "-R"@.len()); }
    assert(a != "--follow-links"@) by { reveal_strlit("--follow-links"); assert(a.len() != "--follow-links"@.len()); }
    assert(a != "--ignore"@) by { reveal_strlit("--ignore"); assert(a.len() != "--ignore"@.len()); }
    assert(a != "--hidden"@) by { reveal_strlit("--hidden"); assert(a.len() != "--hidden"@.len()); }
    assert(a != "-H"@) by { reveal_strlit("-H"); assert(a.len() != "-H"@.len()); }
}

#[verifier::spinoff_prover]
proof fn lemma_switch_literal_26(a: Seq<char>)
    requires
        a == "--bypass"@,
    ensures
        a != "--hyperlink"@,
        a != "--highlight-match"@,
        a != "--match-red"@,
        a != "--contains-all"@,
        a != "--counts"@,
        a != "--visible-only"@,
        a != "--dir"@,
        a != "-d"@,
        a != "--file"@,
        a != "-f"@,
        a != "--full"@,
        a != "-F"@,
        a != "--classify"@,
        a != "-C"@,
        a != "--absolute-paths"@,
        a != "-A"@,
        a != "--regex"@,
        a != "-r"@,
        a != "--no-recurse"@,
        a != "-R"@,
        a != "--follow-links"@,
        a != "--ignore"@,
        a != "--hidden"@,
        a != "-H"@,
        a != "--cache-raw"@,
{
    reveal_strlit("--bypass");
    assert(a != "--hyperlink"@) by { reveal_strlit("--hyperlink"); assert(a.len() != "--hyperlink"@.len()); }
    assert(a != "--highlight-match"@) by { reveal_strlit("--highlight-match"); assert(a.len() != "--highlight-match"@.len()); }
    assert(a != "--match-red"@) by { reveal_strlit("--match-red"); assert(a.len() != "--match-red"@.len()); }
    assert(a != "--contains-all"@) by { reveal_strlit("--contains-all"); assert(a.len() != "--contains-all"@.len()); }
    assert(a != "--counts"@) by { reveal_strlit("--counts"); assert(a[2] != "--counts"@[2]); }
    assert(a != "--visible-only"@) by { reveal_strlit("--visible-only"); assert(a.len() != "--visible-only"@.len()); }
    assert(a != "--dir"@) by { reveal_strlit("--dir"); assert(a.len() != "--dir"@.len()); }
    assert(a != "-d"@) by { reveal_strlit("-d"); assert(a.len() != "-d"@.len()); }
    assert(a != "--file"@) by { reveal_strlit("--file"); assert(a.len() != "--file"@.len()); }
    assert(a != "-f"@) by { reveal_strlit("-f"); assert(a.len() != "-f"@.len()); }
    assert(a != "--full"@) by { reveal_strlit("--full"); assert(a.len() != "--full"@.len()); }
    assert(a != "-F"@) by { reveal_strlit("-F"); assert(a.len() != "-F"@.len()); }
    assert(a != "--classify"@) by { reveal_strlit("--classify"); assert(a.len() != "--classify"@.len()); }
    assert(a != "-C"@) by { reveal_strlit("-C"); assert(a.len() != "-C"@.len()); }
    assert(a != "--absolute-paths"@) by { reveal_strlit("--absolute-paths"); assert(a.len() != "--absolute-paths"@.len()); }
    assert(a != "-A"@) by { reveal_strlit("-A"); assert(a.len() != "-A"@.len()); }
    assert(a != "--regex"@) by { reveal_strlit("--regex"); assert(a.len() != "--regex"@.len()); }
    assert(a != "-r"@) by { reveal_strlit("-r"); assert(a.len() != "-r"@.len()); }
    assert(a != "--no-recurse"@) by { reveal_strlit("--no-recurse"); assert(a.len() != "--no-recurse"@.len()); }
    assert(a != "-R"@) by { reveal_strlit("-R"); assert(a.len() != "-R"@.len()); }
    assert(a != "--follow-links"@) by { reveal_strlit("--follow-links"); assert(a.len() != "--follow-links"@.len()); }
    assert(a != "--ignore"@) by { reveal_strlit("--ignore"); assert(a[2] != "--ignore"@[2]); }
    assert(a != "--hidden"@) by { reveal_strlit("--hidden"); assert(a[2] != "--hidden"@[2]); }
    assert(a != "-H"@) by { reveal_strlit("-H"); assert(a.len() != "-H"@.len()); }
    assert(a != "--cache-raw"@) by { reveal_strlit("--cache-raw"); assert(a.len() != "--cache-raw"@.len()); }
}

#[verifier::spinoff_prover]
proof fn lemma_switch_literal_27(a: Seq<char>)
    requires
        a == "-b"@,
    ensures
        a != "--hyperlink"@,
        a != "--highlight-match"@,
        a != "--match-red"@,
        a != "--contains-all"@,
        a != "--counts"@,
        a != "--visible-only"@,
        a != "--dir"@,
        a != "-d"@,
        a != "--file"@,
        a != "-f"@,
        a != "--full"@,
        a != "-F"@,
        a != "--classify"@,
        a != "-C"@,
        a != "--absolute-paths"@,
        a != "-A"@,
        a != "--regex"@,
        a != "-r"@,
        a != "--no-recurse"@,
        a != "-R"@,
        a != "--follow-links"@,
        a != "--ignore"@,
        a != "--hidden"@,
        a != "-H"@,
        a != "--cache-raw"@,
{
    reveal_strlit("-b");
    assert(a != "--hyperlink"@) by { reveal_strlit("--hyperlink"); assert(a.len() != "--hyperlink"@.len()); }
    assert(a != "--highlight-match"@) by { reveal_strlit("--highlight-match"); assert(a.len() != "--highlight-match"@.len()); }
    assert(a != "--match-red"@) by { reveal_strlit("--match-red"); assert(a.len() != "--match-red"@.len()); }
    assert(a != "--contains-all"@) by { reveal_strlit("--contains-all"); assert(a.len() != "--contains-all"@.len()); }
    assert(a != "--counts"@) by { reveal_strlit("--counts"); assert(a.len() != "--counts"@.len()); }
    assert(a != "--visible-only"@) by { reveal_strlit("--visible-only"); assert(a.len() != "--visible-only"@.len()); }
    assert(a != "--dir"@) by { reveal_strlit("--dir"); assert(a.len() != "--dir"@.len()); }
    assert(a != "-d"@) by { reveal_strlit("-d"); assert(a[1] != "-d"@[1]); }
    assert(a != "--file"@) by { reveal_strlit("--file"); assert(a.len() != "--file"@.len()); }
    assert(a != "-f"@) by { reveal_strlit("-f"); assert(a[1] != "-f"@[1]); }
    assert(a != "--full"@) by { reveal_strlit("--full"); assert(a.len() != "--full"@.len()); }
    assert(a != "-F"@) by { reveal_strlit("-F"); assert(a[1] != "-F"@[1]); }
    assert(a != "--classify"@) by { reveal_strlit("--classify"); assert(a.len() != "--classify"@.len()); }
    assert(a != "-C"@) by { reveal_strlit("-C"); assert(a[1] != "-C"@[1]); }
    assert(a != "--absolute-paths"@) by { reveal_strlit("--absolute-paths"); assert(a.len() != "--absolute-paths"@.len()); }
    assert(a != "-A"@) by { reveal_strlit("-A"); assert(a[1] != "-A"@[1]); }
    assert(a != "--regex"@) by { reveal_strlit("--regex"); assert(a.len() != "--regex"@.len()); }
    assert(a != "-r"@) by { reveal_strlit("-r"); assert(a[1] != "-r"@[1]); }
    assert(a != "--no-recurse"@) by { reveal_strlit("--no-recurse"); assert(a.len() != "--no-recurse"@.len()); }
    assert(a != "-R"@) by { reveal_strlit("-R"); assert(a[1] != "-R"@[1]); }
    assert(a != "--follow-links"@) by { reveal_strlit("--follow-links"); assert(a.len() != "--follow-links"@.len()); }
    assert(a != "--ignore"@) by { reveal_strlit("--ignore"); assert(a.len() != "--ignore"@.len()); }
    assert(a != "--hidden"@) by { reveal_strlit("--hidden"); assert(a.len() != "--hidden"@.len()); }
    assert(a != "-H"@) by { reveal_strlit("-H"); assert(a[1] != "-H"@[1]); }
    assert(a != "--cache-raw"@) by { reveal_strlit("--cache-raw"); assert(a.len() != "--cache-raw"@.len()); }
}

#[verifier::spinoff_prover]
proof fn lemma_switch_literal_28(a: Seq<char>)
    requires
        a == "--long"@,
    ensures
        a != "--hyperlink"@,
        a != "--highlight-match"@,
        a != "--match-red"@,
        a != "--contains-all"@,
        a != "--counts"@,
        a != "--visible-only"@,
        a != "--dir"@,
        a != "-d"@,
        a != "--file"@,
        a != "-f"@,
        a != "--full"@,
        a != "-F"@,
        a != "--classify"@,
        a != "-C"@,
        a != "--absolute-paths"@,
        a != "-A"@,
        a != "--regex"@,
        a != "-r"@,
        a != "--no-recurse"@,
        a != "-R"@,
        a != "--follow-links"@,
        a != "--ignore"@,
        a != "--hidden"@,
        a != "-H"@,
        a != "--cache-raw"@,
        a != "--bypass"@,
        a != "-b"@,
{
    reveal_strlit("--long");
    assert(a != "--hyperlink"@) by { reveal_strlit("--hyperlink"); assert(a.len() != "--hyperlink"@.len()); }
    assert(a != "--highlight-match"@) by { reveal_strlit("--highlight-match"); assert(a.len() != "--highlight-match"@.len()); }
    assert(a != "--match-red"@) by { reveal_strlit("--match-red"); assert(a.len() != "--match-red"@.len()); }
    assert(a != "--contains-all"@) by { reveal_strlit("--contains-all"); assert(a.len() != "--contains-all"@.len()); }
    assert(a != "--counts"@) by { reveal_strlit("--counts"); assert(a.len() != "--counts"@.len()); }
    assert(a != "--visible-only"@) by { reveal_strlit("--visible-only"); assert(a.len() != "--visible-only"@.len()); }
    assert(a != "--dir"@) by { reveal_strlit("--dir"); assert(a.len() != "--dir"@.len()); }
    assert(a != "-d"@) by { reveal_strlit("-d"); assert(a.len() != "-d"@.len()); }
    assert(a != "--file"@) by { reveal_strlit("--file"); assert(a[2] != "--file"@[2]); }
    assert(a != "-f"@) by { reveal_strlit("-f"); assert(a.len() != "-f"@.len()); }
    assert(a != "--full"@) by { reveal_strlit("--full"); assert(a[2] != "--full"@[2]); }
    assert(a != "-F"@) by { reveal_strlit("-F"); assert(a.len() != "-F"@.len()); }
    assert(a != "--classify"@) by { reveal_strlit("--classify"); assert(a.len() != "--classify"@.len()); }
    assert(a != "-C"@) by { reveal_strlit("-C"); assert(a.len() != "-C"@.len()); }
    assert(a != "--absolute-paths"@) by { reveal_strlit("--absolute-paths"); assert(a.len() != "--absolute-paths"@.len()); }
    assert(a != "-A"@) by { reveal_strlit("-A"); assert(a.len() != "-A"@.len()); }
    assert(a != "--regex"@) by { reveal_strlit("--regex"); assert(a.len() != "--regex"@.len()); }
    assert(a != "-r"@) by { reveal_strlit("-r"); assert(a.len() != "-r"@.len()); }
    assert(a != "--no-recurse"@) by { reveal_strlit("--no-recurse"); assert(a.len() != "--no-recurse"@.len()); }
    assert(a != "-R"@) by { reveal_strlit("-R"); assert(a.len() != "-R"@.len()); }
    assert(a != "--follow-links"@) by { reveal_strlit("--follow-links"); assert(a.len() != "--follow-links"@.len()); }
    assert(a != "--ignore"@) by { reveal_strlit("--ignore"); assert(a.len() != "--ignore"@.len()); }
    assert(a != "--hidden"@) by { reveal_strlit("--hidden"); assert(a.len() != "--hidden"@.len()); }
    assert(a != "-H"@) by { reveal_strlit("-H"); assert(a.len() != "-H"@.len()); }
    assert(a != "--cache-raw"@) by { reveal_strlit("--cache-raw"); assert(a.len() != "--cache-raw"@.len()); }
    assert(a != "--bypass"@) by { reveal_strlit("--bypass"); assert(a.len() != "--bypass"@.len()); }
    assert(a != "-b"@) by { reveal_strlit("-b"); assert(a.len() != "-b"@.len()); }
}

#[verifier::spinoff_prover]
proof fn lemma_switch_literal_29(a: Seq<char>)
    requires
        a == "-l"@,
    ensures
        a != "--hyperlink"@,
        a != "--highlight-match"@,
        a != "--match-red"@,
        a != "--contains-all"@,
        a != "--counts"@,
        a != "--visible-only"@,
        a != "--dir"@,
        a != "-d"@,
        a != "--file"@,
        a != "-f"@,
        a != "--full"@,
        a != "-F"@,
        a != "--classify"@,
        a != "-C"@,
        a != "--absolute-paths"@,
        a != "-A"@,
        a != "--regex"@,
        a != "-r"@,
        a != "--no-recurse"@,
        a != "-R"@,
        a != "--follow-links"@,
        a != "--ignore"@,
        a != "--hidden"@,
        a != "-H"@,
        a != "--cache-raw"@,
        a != "--bypass"@,
        a != "-b"@,
{
    reveal_strlit("-l");
    assert(a != "--hyperlink"@) by { reveal_strlit("--hyperlink"); assert(a.len() != "--hyperlink"@.len()); }
    assert(a != "--highlight-match"@) by { reveal_strlit("--highlight-match"); assert(a.len() != "--highlight-match"@.len()); }
    assert(a != "--match-red"@) by { reveal_strlit("--match-red"); assert(a.len() != "--match-red"@.len()); }
    assert(a != "--contains-all"@) by { reveal_strlit("--contains-all"); assert(a.len() != "--contains-all"@.len()); }
    assert(a != "--counts"@) by { reveal_strlit("--counts"); assert(a.len() != "--counts"@.len()); }
    assert(a != "--visible-only"@) by { reveal_strlit("--visible-only"); assert(a.len() != "--visible-only"@.len()); }
    assert(a != "--dir"@) by { reveal_strlit("--dir"); assert(a.len() != "--dir"@.len()); }
    assert(a != "-d"@) by { reveal_strlit("-d"); assert(a[1] != "-d"@[1]); }
    assert(a != "--file"@) by { reveal_strlit("--file"); assert(a.len() != "--file"@.len()); }
    assert(a != "-f"@) by { reveal_strlit("-f"); assert(a[1] != "-f"@[1]); }
    assert(a != "--full"@) by { reveal_strlit("--full"); assert(a.len() != "--full"@.len()); }
    assert(a != "-F"@) by { reveal_strlit("-F"); assert(a[1] != "-F"@[1]); }
    assert(a != "--classify"@) by { reveal_strlit("--classify"); assert(a.len() != "--classify"@.len()); }
    assert(a != "-C"@) by { reveal_strlit("-C"); assert(a[1] != "-C"@[1]); }
    assert(a != "--absolute-paths"@) by { reveal_strlit("--absolute-paths"); assert(a.len() != "--absolute-paths"@.len()); }
    assert(a != "-A"@) by { reveal_strlit("-A"); assert(a[1] != "-A"@[1]); }
    assert(a != "--regex"@) by { reveal_strlit("--regex"); assert(a.len() != "--regex"@.len()); }
    assert(a != "-r"@) by { reveal_strlit("-r"); assert(a[1] != "-r"@[1]); }
    assert(a != "--no-recurse"@) by { reveal_strlit("--no-recurse"); assert(a.len() != "--no-recurse"@.len()); }
    assert(a != "-R"@) by { reveal_strlit("-R"); assert(a[1] != "-R"@[1]); }
    assert(a != "--follow-links"@) by { reveal_strlit("--follow-links"); assert(a.len() != "--follow-links"@.len()); }
    assert(a != "--ignore"@) by { reveal_strlit("--ignore"); assert(a.len() != "--ignore"@.len()); }
    assert(a != "--hidden"@) by { reveal_strlit("--hidden"); assert(a.len() != "--hidden"@.len()); }
    assert(a != "-H"@) by { reveal_strlit("-H"); assert(a[1] != "-H"@[1]); }
    assert(a != "--cache-raw"@) by { reveal_strlit("--cache-raw"); assert(a.len() != "--cache-raw"@.len()); }
    assert(a != "--bypass"@) by { reveal_strlit("--bypass"); assert(a.len() != "--bypass"@.len()); }
    assert(a != "-b"@) by { reveal_strlit("-b"); assert(a[1] != "-b"@[1]); }
}

#[verifier::spinoff_prover]
proof fn lemma_switch_literal_30(a: Seq<char>)
    requires
        a == "--sizes"@,
    ensures
        a != "--hyperlink"@,
        a != "--highlight-match"@,
        a != "--match-red"@,
        a != "--contains-all"@,
        a != "--counts"@,
        a != "--visible-only"@,
        a != "--dir"@,
        a != "-d"@,
        a != "--file"@,
        a != "-f"@,
        a != "--full"@,
        a != "-F"@,
        a != "--classify"@,
        a != "-C"@,
        a != "--absolute-paths"@,
        a != "-A"@,
        a != "--regex"@,
        a != "-r"@,
        a != "--no-recurse"@,
        a != "-R"@,
        a != "--follow-links"@,
        a != "--ignore"@,
        a != "--hidden"@,
        a != "-H"@,
        a != "--cache-raw"@,
        a != "--bypass"@,
        a != "-b"@,
        a != "--long"@,
        a != "-l"@,
{
    reveal_strlit("--sizes");
    assert(a != "--hyperlink"@) by { reveal_strlit("--hyperlink"); assert(a.len() != "--hyperlink"@.len()); }
    assert(a != "--highlight-match"@) by { reveal_strlit("--highlight-match"); assert(a.len() != "--highlight-match"@.len()); }
    assert(a != "--match-red"@) by { reveal_strlit("--match-red"); assert(a.len() != "--match-red"@.len()); }
    assert(a != "--contains-all"@) by { reveal_strlit("--contains-all"); assert(a.len() != "--contains-all"@.len()); }
    assert(a != "--counts"@) by { reveal_strlit("--counts"); assert(a.len() != "--counts"@.len()); }
    assert(a != "--visible-only"@) by { reveal_strlit("--visible-only"); assert(a.len() != "--visible-only"@.len()); }
    assert(a != "--dir"@) by { reveal_strlit("--dir"); assert(a.len() != "--dir"@.len()); }
    assert(a != "-d"@) by { reveal_strlit("-d"); assert(a.len() != "-d"@.len()); }
    assert(a != "--file"@) by { reveal_strlit("--file"); assert(a.len() != "--file"@.len()); }
    assert(a != "-f"@) by { reveal_strlit("-f"); assert(a.len() != "-f"@.len()); }
    assert(a != "--full"@) by { reveal_strlit("--full"); assert(a.len() != "--full"@.len()); }
    assert(a != "-F"@) by { reveal_strlit("-F"); assert(a.len() != "-F"@.len()); }
    assert(a != "--classify"@) by { reveal_strlit("--classify"); assert(a.len() != "--classify"@.len()); }
    assert(a != "-C"@) by { reveal_strlit("-C"); assert(a.len() != "-C"@.len()); }
    assert(a != "--absolute-paths"@) by { reveal_strlit("--absolute-paths"); assert(a.len() != "--absolute-paths"@.len()); }
    assert(a != "-A"@) by { reveal_strlit("-A"); assert(a.len() != "-A"@.len()); }
    assert(a != "--regex"@) by { reveal_strlit("--regex"); assert(a[2] != "--regex"@[2]); }
    assert(a != "-r"@) by { reveal_strlit("-r"); assert(a.len() != "-r"@.len()); }
    assert(a != "--no-recurse"@) by { reveal_strlit("--no-recurse"); assert(a.len() != "--no-recurse"@.len()); }
    assert(a != "-R"@) by { reveal_strlit("-R"); assert(a.len() != "-R"@.len()); }
    assert(a != "--follow-links"@) by { reveal_strlit("--follow-links"); assert(a.len() != "--follow-links"@.len()); }
    assert(a != "--ignore"@) by { reveal_strlit("--ignore"); assert(a.len() != "--ignore"@.len()); }
    assert(a != "--hidden"@) by { reveal_strlit("--hidden"); assert(a.len() != "--hidden"@.len()); }
    assert(a != "-H"@) by { reveal_strlit("-H"); assert(a.len() != "-H"@.len()); }
    assert(a != "--cache-raw"@) by { reveal_strlit("--cache-raw"); assert(a.len() != "--cache-raw"@.len()); }
    assert(a != "--bypass"@) by { reveal_strlit("--bypass"); assert(a.len() != "--bypass"@.len()); }
    assert(a != "-b"@) by { reveal_strlit("-b"); assert(a.len() != "-b"@.len()); }
    assert(a != "--long"@) by { reveal_strlit("--long"); assert(a.len() != "--long"@.len()); }
    assert(a != "-l"@) by { reveal_strlit("-l"); assert(a.len() != "-l"@.len()); }
}

#[verifier::spinoff_prover]
proof fn lemma_switch_literal_31(a: Seq<char>)
    requires
        a == "-L"@,
    ensures
        a != "--hyperlink"@,
        a != "--highlight-match"@,
        a != "--match-red"@,
        a != "--contains-all"@,
        a != "--counts"@,
        a != "--visible-only"@,
        a != "--dir"@,
        a != "-d"@,
        a != "--file"@,
        a != "-f"@,
        a != "--full"@,
        a != "-F"@,
        a != "--classify"@,
        a != "-C"@,
        a != "--absolute-paths"@,
        a != "-A"@,
        a != "--regex"@,
        a != "-r"@,
        a != "--no-recurse"@,
        a != "-R"@,
        a != "--follow-links"@,
        a != "--ignore"@,
        a != "--hidden"@,
        a != "-H"@,
        a != "--cache-raw"@,
        a != "--bypass"@,
        a != "-b"@,
        a != "--long"@,
        a != "-l"@,
        a != "--sizes"@,
{
    reveal_strlit("-L");
    assert(a != "--hyperlink"@) by { reveal_strlit("--hyperlink"); assert(a.len() != "--hyperlink"@.len()); }
    assert(a != "--highlight-match"@) by { reveal_strlit("--highlight-match"); assert(a.len() != "--highlight-match"@.len()); }
    assert(a != "--match-red"@) by { reveal_strlit("--match-red"); assert(a.len() != "--match-red"@.len()); }
    assert(a != "--contains-all"@) by { reveal_strlit("--contains-all"); assert(a.len() != "--contains-all"@.len()); }
    assert(a != "--counts"@) by { reveal_strlit("--counts"); assert(a.len() != "--counts"@.len()); }
    assert(a != "--visible-only"@) by { reveal_strlit("--visible-only"); assert(a.len() != "--visible-only"@.len()); }
    assert(a != "--dir"@) by { reveal_strlit("--dir"); assert(a.len() != "--dir"@.len()); }
    assert(a != "-d"@) by { reveal_strlit("-d"); assert(a[1] != "-d"@[1]); }
    assert(a != "--file"@) by { reveal_strlit("--file"); assert(a.len() != "--file"@.len()); }
    assert(a != "-f"@) by { reveal_strlit("-f"); assert(a[1] != "-f"@[1]); }
    assert(a != "--full"@) by { reveal_strlit("--full"); assert(a.len() != "--full"@.len()); }
    assert(a != "-F"@) by { reveal_strlit("-F"); assert(a[1] != "-F"@[1]); }
    assert(a != "--classify"@) by { reveal_strlit("--classify"); assert(a.len() != "--classify"@.len()); }
    assert(a != "-C"@) by { reveal_strlit("-C"); assert(a[1] != "-C"@[1]); }
    assert(a != "--absolute-paths"@) by { reveal_strlit("--absolute-paths"); assert(a.len() != "--absolute-paths"@.len()); }
    assert(a != "-A"@) by { reveal_strlit("-A"); assert(a[1] != "-A"@[1]); }
    assert(a != "--regex"@) by { reveal_strlit("--regex"); assert(a.len() != "--regex"@.len()); }
    assert(a != "-r"@) by { reveal_strlit("-r"); assert(a[1] != "-r"@[1]); }
    assert(a != "--no-recurse"@) by { reveal_strlit("--no-recurse"); assert(a.len() != "--no-recurse"@.len()); }
    assert(a != "-R"@) by { reveal_strlit("-R"); assert(a[1] != "-R"@[1]); }
    assert(a != "--follow-links"@) by { reveal_strlit("--follow-links"); assert(a.len() != "--follow-links"@.len()); }
    assert(a != "--ignore"@) by { reveal_strlit("--ignore"); assert(a.len() != "--ignore"@.len()); }
    assert(a != "--hidden"@) by { reveal_strlit("--hidden"); assert(a.len() != "--hidden"@.len()); }
    assert(a != "-H"@) by { reveal_strlit("-H"); assert(a[1] != "-H"@[1]); }
    assert(a != "--cache-raw"@) by { reveal_strlit("--cache-raw"); assert(a.len() != "--cache-raw"@.len()); }
    assert(a != "--bypass"@) by { reveal_strlit("--bypass"); assert(a.len() != "--bypass"@.len()); }
    assert(a != "-b"@) by { reveal_strlit("-b"); assert(a[1] != "-b"@[1]); }
    assert(a != "--long"@) by { reveal_strlit("--long"); assert(a.len() != "--long"@.len()); }
    assert(a != "-l"@) by { reveal_strlit("-l"); assert(a[1] != "-l"@[1]); }
    assert(a != "--sizes"@) by { reveal_strlit("--sizes"); assert(a.len() != "--sizes"@.len()); }
}

#[verifier::spinoff_prover]
proof fn lemma_switch_literal_32(a: Seq<char>)
    requires
        a == "--long-true-dirsize"@,
    ensures
        a != "--hyperlink"@,
        a != "--highlight-match"@,
        a != "--match-red"@,
        a != "--contains-all"@,
        a != "--counts"@,
        a != "--visible-only"@,
        a != "--dir"@,
        a != "-d"@,
        a != "--file"@,
        a != "-f"@,
        a != "--full"@,
        a != "-F"@,
        a != "--classify"@,
        a != "-C"@,
        a != "--absolute-paths"@,
        a != "-A"@,
        a != "--regex"@,
        a != "-r"@,
        a != "--no-recurse"@,
        a != "-R"@,
        a != "--follow-links"@,
        a != "--ignore"@,
        a != "--hidden"@,
        a != "-H"@,
        a != "--cache-raw"@,
        a != "--bypass"@,
        a != "-b"@,
        a != "--long"@,
        a != "-l"@,
        a != "--sizes"@,
{
    reveal_strlit("--long-true-dirsize");
    assert(a != "--hyperlink"@) by { reveal_strlit("--hyperlink"); assert(a.len() != "--hyperlink"@.len()); }
    assert(a != "--highlight-match"@) by { reveal_strlit("--highlight-match"); assert(a.len() != "--highlight-match"@.len()); }
    assert(a != "--match-red"@) by { reveal_strlit("--match-red"); assert(a.len() != "--match-red"@.len()); }
    assert(a != "--contains-all"@) by { reveal_strlit("--contains-all"); assert(a.len() != "--contains-all"@.len()); }
    assert(a != "--counts"@) by { reveal_strlit("--counts"); assert(a.len() != "--counts"@.len()); }
    assert(a != "--visible-only"@) by { reveal_strlit("--visible-only"); assert(a.len() != "--visible-only"@.len()); }
    assert(a != "--dir"@) by { reveal_strlit("--dir"); assert(a.len() != "--dir"@.len()); }
    assert(a != "-d"@) by { reveal_strlit("-d"); assert(a.len() != "-d"@.len()); }
    assert(a != "--file"@) by { reveal_strlit("--file"); assert(a.len() != "--file"@.len()); }
    assert(a != "-f"@) by { reveal_strlit("-f"); assert(a.len() != "-f"@.len()); }
    assert(a != "--full"@) by { reveal_strlit("--full"); assert(a.len() != "--full"@.len()); }
    assert(a != "-F"@) by { reveal_strlit("-F"); assert(a.len() != "-F"@.len()); }
    assert(a != "--classify"@) by { reveal_strlit("--classify"); assert(a.len() != "--classify"@.len()); }
    assert(a != "-C"@) by { reveal_strlit("-C"); assert(a.len() != "-C"@.len()); }
    assert(a != "--absolute-paths"@) by { reveal_strlit("--absolute-paths"); assert(a.len() != "--absolute-paths"@.len()); }
    assert(a != "-A"@) by { reveal_strlit("-A"); assert(a.len() != "-A"@.len()); }
    assert(a != "--regex"@) by { reveal_strlit("--regex"); assert(a.len() != "--regex"@.len()); }
    assert(a != "-r"@) by { reveal_strlit("-r"); assert(a.len() != "-r"@.len()); }
    assert(a != "--no-recurse"@) by { reveal_strlit("--no-recurse"); assert(a.len() != "--no-recurse"@.len()); }
    assert(a != "-R"@) by { reveal_strlit("-R"); assert(a.len() != "-R"@.len()); }
    assert(a != "--follow-links"@) by { reveal_strlit("--follow-links"); assert(a.len() != "--follow-links"@.len()); }
    assert(a != "--ignore"@) by { reveal_strlit("--ignore"); assert(a.len() != "--ignore"@.len()); }
    assert(a != "--hidden"@) by { reveal_strlit("--hidden"); assert(a.len() != "--hidden"@.len()); }
    assert(a != "-H"@) by { reveal_strlit("-H"); assert(a.len() != "-H"@.len()); }
    assert(a != "--cache-raw"@) by { reveal_strlit("--cache-raw"); assert(a.len() != "--cache-raw"@.len()); }
    assert(a != "--bypass"@) by { reveal_strlit("--bypass"); assert(a.len() != "--bypass"@.len()); }
    assert(a != "-b"@) by { reveal_strlit("-b"); assert(a.len() != "-b"@.len()); }
    assert(a != "--long"@) by { reveal_strlit("--long"); assert(a.len() != "--long"@.len()); }
    assert(a != "-l"@) by { reveal_strlit("-l"); assert(a.len() != "-l"@.len()); }
    assert(a != "--sizes"@) by { reveal_strlit("--sizes"); assert(a.len() != "--sizes"@.len()); }
}

/// Each documented switch sets its own setting and leaves every other one
/// as it was: `--hyperlink`, `--highlight-match`/`--match-red`,
/// `--contains-all`, `--counts`, `--visible-only`, `--dir`/`-d`,
/// `--file`/`-f`, `--full`/`-F`, `--classify`/`-C`,
/// `--absolute-paths`/`-A`, `--regex`/`-r`, `--no-recurse`/`-R`,
/// `--follow-links`, `--ignore`, `--hidden`/`-H` (hidden entries back in),
/// `--cache-raw`, `--bypass`/`-b`, `--long`/`-l`, `--sizes`, and
/// `-L`/`--long-true-dirsize` (the long listing with true directory
/// sizes).
pub proof fn law_switches_set_their_settings(s: Settings)
    ensures
        switch_spec("--hyperlink"@, s) == Some(Settings { hyperlinks: true, ..s }),
        switch_spec("--highlight-match"@, s) == Some(Settings { highlight_match: true, ..s }),
        switch_spec("--match-red"@, s) == Some(Settings { highlight_match: true, ..s }),
        switch_spec("--contains-all"@, s) == Some(Settings { contains_all: true, ..s }),
        switch_spec("--counts"@, s) == Some(Settings { counts: true, ..s }),
        switch_spec("--visible-only"@, s) == Some(Settings { visible_only: true, ..s }),
        switch_spec("--dir"@, s) == Some(Settings { force_dir: true, ..s }),
        switch_spec("-d"@, s) == Some(Settings { force_dir: true, ..s }),
        switch_spec("--file"@, s) == Some(Settings { force_file: true, ..s }),
        switch_spec("-f"@, s) == Some(Settings { force_file: true, ..s }),
        switch_spec("--full"@, s) == Some(Settings { force_full: true, ..s }),
        switch_spec("-F"@, s) == Some(Settings { force_full: true, ..s }),
        switch_spec("--classify"@, s) == Some(Settings { classify: true, ..s }),
        switch_spec("-C"@, s) == Some(Settings { classify: true, ..s }),
        switch_spec("--absolute-paths"@, s) == Some(Settings { absolute_paths: true, ..s }),
        switch_spec("-A"@, s) == Some(Settings { absolute_paths: true, ..s }),
        switch_spec("--regex"@, s) == Some(Settings { regex_mode: true, ..s }),
        switch_spec("-r"@, s) == Some(Settings { regex_mode: true, ..s }),
        switch_spec("--no-recurse"@, s) == Some(Settings { no_recurse: true, ..s }),
        switch_spec("-R"@, s) == Some(Settings { no_recurse: true, ..s }),
        switch_spec("--follow-links"@, s) == Some(Settings { follow_links: true, ..s }),
        switch_spec("--ignore"@, s) == Some(Settings { respect_ignore: true, ..s }),
        switch_spec("--hidden"@, s) == Some(Settings { visible_only: false, ..s }),
        switch_spec("-H"@, s) == Some(Settings { visible_only: false, ..s }),
        switch_spec("--cache-raw"@, s) == Some(Settings { cache_output: true, ..s }),
        switch_spec("--bypass"@, s) == Some(Settings { force_pattern_mode: true, ..s }),
        switch_spec("-b"@, s) == Some(Settings { force_pattern_mode: true, ..s }),
        switch_spec("--long"@, s) == Some(Settings { long_format: true, ..s }),
        switch_spec("-l"@, s) == Some(Settings { long_format: true, ..s }),
        switch_spec("--sizes"@, s) == Some(Settings { sizes: true, ..s }),
        switch_spec("-L"@, s) == Some(Settings { long_format: true, long_extended: true, ..s }),
        switch_spec("--long-true-dirsize"@, s) == Some(Settings { long_format: true, long_extended: true, ..s }),
{
    lemma_switch_literal_1("--hyperlink"@);
    lemma_switch_literal_2("--highlight-match"@);
    lemma_switch_literal_3("--match-red"@);
    lemma_switch_literal_4("--contains-all"@);
    lemma_switch_literal_5("--counts"@);
    lemma_switch_literal_6("--visible-only"@);
    lemma_switch_literal_7("--dir"@);
    lemma_switch_literal_8("-d"@);
    lemma_switch_literal_9("--file"@);
    lemma_switch_literal_10("-f"@);
    lemma_switch_literal_11("--full"@);
    lemma_switch_literal_12("-F"@);
    lemma_switch_literal_13("--classify"@);
    lemma_switch_literal_14("-C"@);
    lemma_switch_literal_15("--absolute-paths"@);
    lemma_switch_literal_16("-A"@);
    lemma_switch_literal_17("--regex"@);
    lemma_switch_literal_18("-r"@);
    lemma_switch_literal_19("--no-recurse"@);
    lemma_switch_literal_20("-R"@);
    lemma_switch_literal_21("--follow-links"@);
    lemma_switch_literal_22("--ignore"@);
    lemma_switch_literal_23("--hidden"@);
    lemma_switch_literal_24("-H"@);
    lemma_switch_literal_25("--cache-raw"@);
    lemma_switch_literal_26("--bypass"@);
    lemma_switch_literal_27("-b"@);
    lemma_switch_literal_28("--long"@);
    lemma_switch_literal_29("-l"@);
    lemma_switch_literal_30("--sizes"@);
    lemma_switch_literal_31("-L"@);
    lemma_switch_literal_32("--long-true-dirsize"@);
}

/// Each letter of a short-flag bundle (such as `-dfR`) sets the same
/// setting as the switch it stands for.
pub proof fn law_bundle_letters_set_their_settings(s: Settings)
    ensures
        cluster_flag('d', s) == Some(Settings { force_dir: true, ..s }),
        cluster_flag('f', s) == Some(Settings { force_file: true, ..s }),
        cluster_flag('F', s) == Some(Settings { force_full: true, ..s }),
        cluster_flag('C', s) == Some(Settings { classify: true, ..s }),
        cluster_flag('A', s) == Some(Settings { absolute_paths: true, ..s }),
        cluster_flag('r', s) == Some(Settings { regex_mode: true, ..s }),
        cluster_flag('R', s) == Some(Settings { no_recurse: true, ..s }),
        cluster_flag('H', s) == Some(Settings { visible_only: false, ..s }),
        cluster_flag('b', s) == Some(Settings { force_pattern_mode: true, ..s }),
        cluster_flag('l', s) == Some(Settings { long_format: true, ..s }),
        cluster_flag('L', s) == Some(Settings { long_format: true, long_extended: true, ..s }),
{
}

} // verus!
