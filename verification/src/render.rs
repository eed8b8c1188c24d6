//! How a result is shown: colors from `LS_COLORS`, type decorators,
//! highlighted matches and terminal hyperlinks.
use vstd::prelude::*;
use crate::text::{chars_of, string_of, push_all, split_char, split_on_char, eq_chars, ends_with_char,
    starts_with_char, strip_prefix_all, strip_prefix_all_chars, slice_chars, trim_end, trim_end_char};
use crate::matcher::{Matcher, build_matcher, matcher_is_match, matcher_find_ranges, regex_build_error,
    regex_is_match, regex_find_ranges, matcher_clone};
use crate::results::{SearchResult, after_last_slash, lemma_after_last_slash};
use crate::options::Settings;
use crate::ranges::{merge_match_ranges, merged_ranges_of, law_merged_ranges_within, law_merged_ranges_separated, ranges_within, well_formed_ranges, separated};
use crate::results::matchers_view;

verus! {

/// The first position of `c` in `s`, when it occurs.
pub open spec fn first_pos(s: Seq<char>, c: char) -> Option<int> {
    if s.contains(c) {
        Some(choose|i: int| 0 <= i < s.len() && s[i] == c && forall|j: int| 0 <= j < i ==> s[j] != c)
    } else {
        None
    }
}

/// `s` cut at the first `c`, as `str::split_once` gives it.
pub open spec fn split_once_spec(s: Seq<char>, c: char) -> Option<(Seq<char>, Seq<char>)> {
    match first_pos(s, c) {
        Some(i) => Some((s.take(i), s.skip(i + 1))),
        None => None,
    }
}

/// `s` cut at the first `c`.
pub fn split_once_char(s: &[char], c: char) -> (r: Option<(Vec<char>, Vec<char>)>)
    ensures
        match r {
            Some(p) => split_once_spec(s@, c) == Some((p.0@, p.1@)),
            None => split_once_spec(s@, c) is None,
        },
{
    let mut i: usize = 0;
    while i < s.len() && s[i] != c
        invariant
            i <= s.len(),
            forall|j: int| 0 <= j < i ==> s@[j] != c,
        decreases s.len() - i,
    {
        i = i + 1;
    }
    if i == s.len() {
        proof {
            assert(!s@.contains(c));
        }
        return None;
    }
    proof {
        assert(s@[i as int] == c);
        assert(s@.contains(c));
        let k = choose|k: int| 0 <= k < s@.len() && s@[k] == c && forall|j: int| 0 <= j < k ==> s@[j] != c;
        if k < i {
        } else if k > i {
            assert(s@[i as int] != c);
        }
        assert(first_pos(s@, c) == Some(i as int));
    }
    let a = slice_chars(s, 0, i);
    let b = slice_chars(s, i + 1, s.len());
    proof {
        assert(a@ =~= s@.take(i as int));
        assert(b@ =~= s@.skip(i + 1));
    }
    Some((a, b))
}

/// A character that stands for itself in a regular expression only when
/// escaped.
pub open spec fn glob_escaped(c: char) -> bool {
    c == '.' || c == '+' || c == '(' || c == ')' || c == '[' || c == ']' || c == '{' || c == '}' || c == '^'
        || c == '$' || c == '|' || c == '\\'
}

/// The regular expression text of one glob character.
pub open spec fn glob_char_regex(c: char) -> Seq<char> {
    if c == '*' {
        seq!['.', '*']
    } else if c == '?' {
        seq!['.']
    } else if glob_escaped(c) {
        seq!['\\', c]
    } else {
        seq![c]
    }
}

/// The regular expression text of the glob characters.
pub open spec fn glob_body(k: Seq<char>) -> Seq<char>
    decreases k.len(),
{
    if k.len() == 0 {
        seq![]
    } else {
        glob_body(k.drop_last()) + glob_char_regex(k.last())
    }
}

/// The anchored regular expression of a glob: `*` any text, `?` any one
/// character, every other character itself.
pub open spec fn glob_regex(k: Seq<char>) -> Seq<char> {
    seq!['^'] + glob_body(k) + seq!['$']
}

/// The anchored regular expression of a glob.
pub fn glob_to_regex(k: &[char]) -> (r: Vec<char>)
    ensures
        r@ == glob_regex(k@),
{
    let mut rx: Vec<char> = vec!['^'];
    for i in 0..k.len()
        invariant
            rx@ == seq!['^'] + glob_body(k@.take(i as int)),
    {
        let ch = k[i];
        let ghost before = rx@;
        if ch == '*' {
            rx.push('.');
            rx.push('*');
        } else if ch == '?' {
            rx.push('.');
        } else if ch == '.' || ch == '+' || ch == '(' || ch == ')' || ch == '[' || ch == ']' || ch == '{' || ch
            == '}' || ch == '^' || ch == '$' || ch == '|' || ch == '\\' {
            rx.push('\\');
            rx.push(ch);
        } else {
            rx.push(ch);
        }
        assert(k@.take(i + 1).drop_last() =~= k@.take(i as int));
        assert(rx@ =~= before + glob_char_regex(ch));
    }
    assert(k@.take(k.len() as int) =~= k@);
    rx.push('$');
    rx
}

/// The colors in force: glob rules (pattern text and color, in order), and
/// the colors of directory prefixes, directories, links and executables.
pub struct ColorView {
    pub globs: Seq<(Seq<char>, Seq<char>)>,
    pub prefix_dir: Seq<char>,
    pub dir: Seq<char>,
    pub link: Seq<char>,
    pub executable: Seq<char>,
}

/// The colors used to style results.
pub struct ColorSpec {
    pub globs: Vec<(Matcher, String)>,
    pub color_prefix_dir: String,
    pub color_dir: String,
    pub color_link: String,
    pub color_exec: String,
}

impl ColorSpec {
    /// What the colors are.
    pub open spec fn view(&self) -> ColorView {
        ColorView {
            globs: self.globs@.map_values(|g: (Matcher, String)| (g.0.pattern(), g.1@)),
            prefix_dir: self.color_prefix_dir@,
            dir: self.color_dir@,
            link: self.color_link@,
            executable: self.color_exec@,
        }
    }

    /// Every glob rule was compiled case-sensitively.
    pub open spec fn wf(&self) -> bool {
        forall|i: int| 0 <= i < self.globs.len() ==> !(#[trigger] self.globs@[i]).0.ci()
    }
}

/// The colors without `LS_COLORS`.
pub open spec fn default_colors() -> ColorView {
    ColorView {
        globs: seq![],
        prefix_dir: "38;2;255;255;255"@,
        dir: "01;34"@,
        link: "01;36"@,
        executable: "01;32"@,
    }
}

/// One `LS_COLORS` entry applied: `KEY=VALUE`; a key starting with `*` is a
/// glob (kept when its regular expression compiles), `di`, `ln` and `ex`
/// set the colors of directories, links and executables; anything else
/// changes nothing.
pub open spec fn ls_step(st: ColorView, entry: Seq<char>) -> ColorView {
    match split_once_spec(entry, '=') {
        None => st,
        Some((k, v)) => if k.len() > 0 && k[0] == '*' {
            if regex_build_error(glob_regex(k), false) is None {
                ColorView { globs: st.globs.push((glob_regex(k), v)), ..st }
            } else {
                st
            }
        } else if k == "di"@ {
            ColorView { dir: v, ..st }
        } else if k == "ln"@ {
            ColorView { link: v, ..st }
        } else if k == "ex"@ {
            ColorView { executable: v, ..st }
        } else {
            st
        },
    }
}

/// The `LS_COLORS` entries applied in order.
pub open spec fn ls_fold(st: ColorView, entries: Seq<Seq<char>>) -> ColorView
    decreases entries.len(),
{
    if entries.len() == 0 {
        st
    } else {
        ls_step(ls_fold(st, entries.drop_last()), entries.last())
    }
}

/// The colors an `LS_COLORS` value (entries separated by `:`) gives, or
/// the defaults when it is unset.
pub open spec fn ls_colors_spec(spec: Option<Seq<char>>) -> ColorView {
    match spec {
        None => default_colors(),
        Some(s) => ls_fold(default_colors(), split_char(s, ':')),
    }
}

fn text(s: &str) -> (r: String)
    ensures
        r@ == s@,
{
    string_of(chars_of(s).as_slice())
}

/// The colors without `LS_COLORS`.
pub fn default_color_spec() -> (r: ColorSpec)
    ensures
        r.view() == default_colors(),
        r.wf(),
{
    let r = ColorSpec {
        globs: Vec::new(),
        color_prefix_dir: text("38;2;255;255;255"),
        color_dir: text("01;34"),
        color_link: text("01;36"),
        color_exec: text("01;32"),
    };
    assert(r.view().globs =~= seq![]);
    r
}

/// The colors given by the value of `LS_COLORS`, if it is set.
pub fn parse_ls_colors(spec: Option<String>) -> (r: ColorSpec)
    ensures
        r.view() == ls_colors_spec(match spec {
            Some(s) => Some(s@),
            None => None,
        }),
        r.wf(),
{
    let mut cs = default_color_spec();
    let s = match spec {
        None => {
            return cs;
        },
        Some(s) => s,
    };
    let entries = split_on_char(chars_of(s.as_str()).as_slice(), ':');
    let ghost es = split_char(s@, ':');
    assert(entries@.len() == es.len());
    for i in 0..entries.len()
        invariant
            entries@.len() == es.len(),
            forall|k: int| 0 <= k < entries@.len() ==> #[trigger] entries@[k]@ == es[k],
            cs.view() == ls_fold(default_colors(), es.take(i as int)),
            cs.wf(),
    {
        let ghost before = cs.view();
        assert(es.take(i + 1).drop_last() =~= es.take(i as int));
        assert(es.take(i + 1).last() == entries@[i as int]@);
        match split_once_char(entries[i].as_slice(), '=') {
            None => {},
            Some((k, v)) => {
                if k.len() > 0 && k[0] == '*' {
                    let rx = string_of(glob_to_regex(k.as_slice()).as_slice());
                    match build_matcher(rx.as_str(), false) {
                        Ok(m) => {
                            let ghost old_globs = cs.globs@;
                            cs.globs.push((m, string_of(v.as_slice())));
                            proof {
                                assert(cs.view().globs =~= before.globs.push((glob_regex(k@), v@)));
                                assert forall|j: int| 0 <= j < cs.globs.len() implies !(#[trigger] cs.globs@[j]).0.ci() by {
                                    if j < old_globs.len() {
                                        assert(cs.globs@[j] == old_globs[j]);
                                    }
                                }
                            }
                        },
                        Err(_) => {},
                    }
                } else {
                    let kk = k.as_slice();
                    if eq_chars(kk, chars_of("di").as_slice()) {
                        cs.color_dir = string_of(v.as_slice());
                    } else if eq_chars(kk, chars_of("ln").as_slice()) {
                        cs.color_link = string_of(v.as_slice());
                    } else if eq_chars(kk, chars_of("ex").as_slice()) {
                        cs.color_exec = string_of(v.as_slice());
                    }
                }
            },
        }
        assert(cs.view() == ls_step(before, es[i as int]));
    }
    assert(es.take(entries.len() as int) =~= es);
    cs
}

/// The color of the first glob rule whose pattern matches `base`.
pub open spec fn first_glob(globs: Seq<(Seq<char>, Seq<char>)>, base: Seq<char>) -> Option<Seq<char>>
    decreases globs.len(),
{
    if globs.len() == 0 {
        None
    } else if regex_is_match(globs[0].0, false, base) {
        Some(globs[0].1)
    } else {
        first_glob(globs.drop_first(), base)
    }
}

/// Some execute permission bit is set.
pub open spec fn executable_mode(mode: u32) -> bool {
    mode & 0o111u32 != 0
}

/// The text after the last `/` of a path (empty when it ends in `/`).
pub open spec fn last_segment(path: Seq<char>) -> Seq<char> {
    after_last_slash(path)
}

/// The color of a result's last component: links in the link color
/// (unless it is `target`, then as what they point to), directories in the
/// directory color, then the first matching glob, then the executable
/// color, else none (empty).
pub open spec fn color_code_spec(res: SearchResult, cv: ColorView) -> Seq<char> {
    let target = res.is_symlink && cv.link == "target"@;
    if res.is_symlink && !target {
        cv.link
    } else if res.is_dir || (target && (res.meta matches Some(m) && m.is_dir)) {
        cv.dir
    } else {
        match first_glob(cv.globs, last_segment(res.path@)) {
            Some(v) => v,
            None => if res.meta matches Some(m) && executable_mode(m.mode) {
                cv.executable
            } else {
                seq![]
            },
        }
    }
}

/// The text after the last `/` of a path.
fn last_segment_of(path: &[char]) -> (r: Vec<char>)
    ensures
        r@ == last_segment(path@),
{
    proof {
        lemma_after_last_slash(path@);
    }
    let mut k: usize = path.len();
    while k > 0 && path[k - 1] != '/'
        invariant
            k <= path.len(),
            forall|j: int| k <= j < path.len() ==> path@[j] != '/',
        decreases k,
    {
        k = k - 1;
    }
    let r = slice_chars(path, k, path.len());
    proof {
        let b = after_last_slash(path@);
        assert(r@ =~= path@.skip(k as int));
        if b.len() < path@.len() - k {
            let j = path@.len() - b.len() - 1;
            assert(path@[j] == '/');
        } else if b.len() > path@.len() - k {
            assert(path@.skip(path@.len() - b.len()) == b);
            assert(b[k - (path@.len() - b.len()) - 1] == path@[k - 1]);
            assert(b.contains('/'));
        }
        assert(r@ =~= b);
    }
    r
}

/// The color of a result's last component (see `color_code_spec`).
pub fn color_code_for_path(res: &SearchResult, colors: &ColorSpec) -> (r: String)
    requires
        colors.wf(),
    ensures
        r@ == color_code_spec(*res, colors.view()),
{
    let ghost cv = colors.view();
    let target = res.is_symlink && eq_chars(chars_of(colors.color_link.as_str()).as_slice(), chars_of("target").as_slice());
    if res.is_symlink && !target {
        return colors.color_link.clone();
    }
    let meta_dir = match &res.meta {
        Some(m) => m.is_dir,
        None => false,
    };
    if res.is_dir || (target && meta_dir) {
        return colors.color_dir.clone();
    }
    let base = string_of(last_segment_of(chars_of(res.path.as_str()).as_slice()).as_slice());
    let ghost b = last_segment(res.path@);
    let mut i: usize = 0;
    assert(cv.globs.skip(0) =~= cv.globs);
    while i < colors.globs.len()
        invariant
            i <= colors.globs.len(),
            colors.wf(),
            cv == colors.view(),
            base@ == b,
            b == last_segment(res.path@),
            target == (res.is_symlink && cv.link == "target"@),
            meta_dir == (res.meta matches Some(m) && m.is_dir),
            !(res.is_symlink && !target),
            !(res.is_dir || (target && meta_dir)),
            first_glob(cv.globs, b) == first_glob(cv.globs.skip(i as int), b),
        decreases colors.globs.len() - i,
    {
        let ghost rest = cv.globs.skip(i as int);
        assert(rest[0] == cv.globs[i as int]);
        assert(cv.globs[i as int] == (colors.globs@[i as int].0.pattern(), colors.globs@[i as int].1@));
        assert(!colors.globs@[i as int].0.ci());
        if matcher_is_match(&colors.globs[i].0, base.as_str()) {
            assert(first_glob(rest, b) == Some(rest[0].1));
            return colors.globs[i].1.clone();
        }
        assert(rest.drop_first() =~= cv.globs.skip(i + 1));
        i = i + 1;
    }
    match &res.meta {
        Some(m) => {
            if m.mode & 0o111u32 != 0 {
                return colors.color_exec.clone();
            }
        },
        None => {},
    }
    String::new()
}

/// The classifier a result gets: `@` for a link, `/` for a directory whose
/// path does not already end in `/`, `|` for a FIFO, `=` for a socket, `*`
/// for an executable, else none.
pub open spec fn decorator_spec(res: SearchResult) -> Option<char> {
    if res.is_symlink {
        Some('@')
    } else if res.is_dir {
        if res.path@.len() > 0 && res.path@.last() == '/' {
            None
        } else {
            Some('/')
        }
    } else {
        match res.meta {
            Some(m) => if m.is_fifo {
                Some('|')
            } else if m.is_socket {
                Some('=')
            } else if executable_mode(m.mode) {
                Some('*')
            } else {
                None
            },
            None => None,
        }
    }
}

/// The classifier a result gets (see `decorator_spec`).
pub fn decorator_for_res(res: &SearchResult) -> (r: Option<char>)
    ensures
        r == decorator_spec(*res),
{
    if res.is_symlink {
        return Some('@');
    }
    if res.is_dir {
        let p = chars_of(res.path.as_str());
        return if ends_with_char(p.as_slice(), '/') {
            None
        } else {
            Some('/')
        };
    }
    match &res.meta {
        Some(m) => {
            if m.is_fifo {
                Some('|')
            } else if m.is_socket {
                Some('=')
            } else if m.mode & 0o111u32 != 0 {
                Some('*')
            } else {
                None
            }
        },
        None => None,
    }
}

/// The patterns that highlight matched text: those for the directory
/// part of a path, and those for its last component.
pub struct HighlightSpec {
    pub prefix_rules: Vec<Matcher>,
    pub leaf_rules: Vec<Matcher>,
}

/// The error of the first pattern that does not compile (case-insensitive),
/// if any.
pub open spec fn first_highlight_error(patterns: Seq<(Seq<char>, bool)>) -> Option<Seq<char>>
    decreases patterns.len(),
{
    if patterns.len() == 0 {
        None
    } else {
        match regex_build_error(patterns[0].0, true) {
            Some(e) => Some(e),
            None => first_highlight_error(patterns.drop_first()),
        }
    }
}

/// The leaf rules: every pattern, case-insensitive.
pub open spec fn highlight_leaf(patterns: Seq<(Seq<char>, bool)>) -> Seq<(Seq<char>, bool)> {
    patterns.map_values(|p: (Seq<char>, bool)| (p.0, true))
}

/// The prefix rules: the patterns that match whole paths, case-insensitive.
pub open spec fn highlight_prefix(patterns: Seq<(Seq<char>, bool)>) -> Seq<(Seq<char>, bool)>
    decreases patterns.len(),
{
    if patterns.len() == 0 {
        seq![]
    } else {
        highlight_prefix(patterns.drop_last()) + if patterns.last().1 {
            seq![(patterns.last().0, true)]
        } else {
            seq![]
        }
    }
}

/// The views of a list of (pattern, matches-whole-path) pairs.
pub open spec fn pattern_pairs_view(p: Seq<(String, bool)>) -> Seq<(Seq<char>, bool)> {
    p.map_values(|x: (String, bool)| (x.0@, x.1))
}

pub(crate) proof fn lemma_first_error_push(ps: Seq<(Seq<char>, bool)>, x: (Seq<char>, bool))
    requires
        first_highlight_error(ps) is None,
    ensures
        first_highlight_error(ps.push(x)) == regex_build_error(x.0, true),
    decreases ps.len(),
{
    if ps.len() > 0 {
        assert(regex_build_error(ps[0].0, true) is None);
        assert(first_highlight_error(ps.drop_first()) is None);
        lemma_first_error_push(ps.drop_first(), x);
        assert(ps.push(x)[0] == ps[0]);
        assert(ps.push(x).drop_first() =~= ps.drop_first().push(x));
        assert(first_highlight_error(ps.push(x)) == first_highlight_error(ps.push(x).drop_first()));
    } else {
        assert(ps.push(x)[0] == x);
        assert(ps.push(x).drop_first() =~= Seq::<(Seq<char>, bool)>::empty());
        assert(first_highlight_error(Seq::<(Seq<char>, bool)>::empty()) is None);
    }
}

pub(crate) proof fn lemma_first_error_prefix(a: Seq<(Seq<char>, bool)>, b: Seq<(Seq<char>, bool)>)
    requires
        first_highlight_error(a) is Some,
    ensures
        first_highlight_error(a + b) == first_highlight_error(a),
    decreases a.len(),
{
    assert((a + b)[0] == a[0]);
    if regex_build_error(a[0].0, true) is None {
        lemma_first_error_prefix(a.drop_first(), b);
        assert((a + b).drop_first() =~= a.drop_first() + b);
    }
}

/// Compiles the highlight patterns (each ignoring case); the first that
/// does not compile gives the error `Invalid regex: ` and its message.
pub fn compile_highlight_spec(patterns: &Vec<(String, bool)>) -> (r: Result<HighlightSpec, String>)
    ensures
        match r {
            Ok(h) => first_highlight_error(pattern_pairs_view(patterns@)) is None
                && matchers_view(h.leaf_rules@) == highlight_leaf(pattern_pairs_view(patterns@))
                && matchers_view(h.prefix_rules@) == highlight_prefix(pattern_pairs_view(patterns@)),
            Err(e) => first_highlight_error(pattern_pairs_view(patterns@)) matches Some(m) && e@ == "Invalid regex: "@ + m,
        },
{
    let ghost pv = pattern_pairs_view(patterns@);
    let mut prefix_rules: Vec<Matcher> = Vec::new();
    let mut leaf_rules: Vec<Matcher> = Vec::new();
    for k in 0..patterns.len()
        invariant
            pv == pattern_pairs_view(patterns@),
            first_highlight_error(pv.take(k as int)) is None,
            matchers_view(leaf_rules@) == highlight_leaf(pv.take(k as int)),
            matchers_view(prefix_rules@) == highlight_prefix(pv.take(k as int)),
    {
        let ghost pk = pv.take(k as int);
        assert(pv.take(k + 1) =~= pk.push(pv[k as int]));
        assert(pv.take(k + 1).drop_last() =~= pk);
        proof {
            lemma_first_error_push(pk, pv[k as int]);
        }
        let (raw, full) = (&patterns[k].0, patterns[k].1);
        match build_matcher(raw.as_str(), true) {
            Ok(re) => {
                let ghost pl = prefix_rules@;
                let ghost ll = leaf_rules@;
                if full {
                    prefix_rules.push(matcher_clone(&re));
                    assert(matchers_view(prefix_rules@) =~= matchers_view(pl).push((raw@, true)));
                } else {
                    assert(matchers_view(prefix_rules@) =~= matchers_view(pl));
                }
                leaf_rules.push(re);
                assert(matchers_view(leaf_rules@) =~= matchers_view(ll).push((raw@, true)));
                assert(highlight_leaf(pv.take(k + 1)) =~= highlight_leaf(pk).push((raw@, true)));
            },
            Err(e) => {
                proof {
                    lemma_first_error_prefix(pv.take(k + 1), pv.skip(k + 1));
                    assert(pv.take(k + 1) + pv.skip(k + 1) =~= pv);
                }
                let mut msg = chars_of("Invalid regex: ");
                push_all(&mut msg, chars_of(e.as_str()).as_slice());
                return Err(string_of(msg.as_slice()));
            },
        }
    }
    assert(pv.take(patterns.len() as int) =~= pv);
    Ok(HighlightSpec { prefix_rules, leaf_rules })
}

/// The escape sequence that selects the graphic rendition `code`.
pub open spec fn sgr(code: Seq<char>) -> Seq<char> {
    seq!['\u{1b}', '['] + code + seq!['m']
}

/// The rendition that resets all attributes.
pub open spec fn sgr_reset() -> Seq<char> {
    sgr(seq!['0'])
}

/// The rendition of highlighted matches (bold bright red).
pub open spec fn match_code() -> Seq<char> {
    "1;91"@
}

/// Switches to the segment's base color, if it has one.
pub open spec fn base_open(base: Option<Seq<char>>) -> Seq<char> {
    match base {
        Some(c) => sgr(c),
        None => seq![],
    }
}

/// Where the last range ends (0 with none).
pub open spec fn last_end(rs: Seq<(usize, usize)>) -> int {
    if rs.len() == 0 {
        0
    } else {
        rs.last().1 as int
    }
}

/// One range wrapped in `pre` and `post`, after the text up to it.
pub open spec fn seg_piece(t: Seq<char>, cursor: int, r: (usize, usize), pre: Seq<char>, post: Seq<char>) -> Seq<char> {
    (if r.0 > cursor {
        t.subrange(cursor, r.0 as int)
    } else {
        seq![]
    }) + pre + t.subrange(r.0 as int, r.1 as int) + post
}

/// All ranges wrapped in `pre` and `post`, with the text between them.
pub open spec fn seg_pieces(t: Seq<char>, rs: Seq<(usize, usize)>, pre: Seq<char>, post: Seq<char>) -> Seq<char>
    decreases rs.len(),
{
    if rs.len() == 0 {
        seq![]
    } else {
        seg_pieces(t, rs.drop_last(), pre, post) + seg_piece(t, last_end(rs.drop_last()), rs.last(), pre, post)
    }
}

/// One highlighted range after the text up to it, back to the base color
/// afterwards.
pub open spec fn hl_piece(t: Seq<char>, base: Option<Seq<char>>, cursor: int, r: (usize, usize)) -> Seq<char> {
    seg_piece(t, cursor, r, sgr(match_code()), sgr_reset() + base_open(base))
}

/// All highlighted ranges with the text between them.
pub open spec fn hl_pieces(t: Seq<char>, base: Option<Seq<char>>, rs: Seq<(usize, usize)>) -> Seq<char> {
    seg_pieces(t, rs, sgr(match_code()), sgr_reset() + base_open(base))
}

/// The text after the last range.
pub open spec fn seg_tail(t: Seq<char>, rs: Seq<(usize, usize)>) -> Seq<char> {
    if last_end(rs) < t.len() {
        t.subrange(last_end(rs), t.len() as int)
    } else {
        seq![]
    }
}

proof fn lemma_plain_pieces(t: Seq<char>, rs: Seq<(usize, usize)>)
    requires
        well_formed_ranges(rs),
        separated(rs),
        ranges_within(rs, t.len() as int),
    ensures
        seg_pieces(t, rs, seq![], seq![]) == t.take(last_end(rs)),
    decreases rs.len(),
{
    if rs.len() > 0 {
        let init = rs.drop_last();
        assert(well_formed_ranges(init)) by {
            assert forall|i: int| 0 <= i < init.len() implies #[trigger] init[i].0 <= init[i].1 by {
                assert(init[i] == rs[i]);
            }
        }
        assert(separated(init)) by {
            assert forall|i: int| 0 <= i < init.len() - 1 implies #[trigger] init[i].1 < init[i + 1].0 by {
                assert(init[i] == rs[i]);
                assert(init[i + 1] == rs[i + 1]);
            }
        }
        assert(ranges_within(init, t.len() as int)) by {
            assert forall|i: int| 0 <= i < init.len() implies #[trigger] init[i].1 <= t.len() by {
                assert(init[i] == rs[i]);
            }
        }
        lemma_plain_pieces(t, init);
        let r = rs.last();
        let c = last_end(init);
        assert(rs[rs.len() - 1] == r);
        assert(r.0 <= r.1 <= t.len());
        if init.len() > 0 {
            assert(init.last() == rs[rs.len() - 2]);
            assert(rs[rs.len() - 2].1 < rs[rs.len() - 1].0);
        }
        assert(c <= r.0);
        assert(t.take(c) + (if r.0 > c { t.subrange(c, r.0 as int) } else { seq![] }) + t.subrange(r.0 as int, r.1 as int)
            =~= t.take(r.1 as int));
        assert(seq![] + t.subrange(r.0 as int, r.1 as int) + seq![] =~= t.subrange(r.0 as int, r.1 as int));
        assert(seg_piece(t, c, r, seq![], seq![]) =~= (if r.0 > c { t.subrange(c, r.0 as int) } else { seq![] })
            + t.subrange(r.0 as int, r.1 as int));
    } else {
        assert(t.take(0) =~= Seq::<char>::empty());
    }
}

/// With the escape sequences left out, a highlighted segment reads as its
/// text: the text before, inside and between the ranges, and after the
/// last one, in order, is the whole text, each character once.
pub proof fn law_highlight_keeps_text(t: Seq<char>, rs: Seq<(usize, usize)>)
    requires
        well_formed_ranges(rs),
        separated(rs),
        ranges_within(rs, t.len() as int),
    ensures
        seg_pieces(t, rs, seq![], seq![]) + seg_tail(t, rs) == t,
{
    lemma_plain_pieces(t, rs);
    assert(0 <= last_end(rs) <= t.len()) by {
        if rs.len() > 0 {
            assert(rs[rs.len() - 1] == rs.last());
        }
    }
    assert(t.take(last_end(rs)) + seg_tail(t, rs) =~= t);
}

/// A segment with the ranges `rs` highlighted and the rest in the base
/// color: empty text stays empty; without ranges it is just colored.
pub open spec fn colorize_spec(t: Seq<char>, base: Option<Seq<char>>, rs: Seq<(usize, usize)>) -> Seq<char> {
    if t.len() == 0 {
        seq![]
    } else if rs.len() == 0 {
        match base {
            Some(c) => sgr(c) + t + sgr_reset(),
            None => t,
        }
    } else {
        base_open(base) + hl_pieces(t, base, rs) + seg_tail(t, rs) + sgr_reset()
    }
}

/// All matches of the rules in `t`, rule by rule.
pub open spec fn all_ranges(rules: Seq<(Seq<char>, bool)>, t: Seq<char>) -> Seq<(usize, usize)>
    decreases rules.len(),
{
    if rules.len() == 0 {
        seq![]
    } else {
        all_ranges(rules.drop_last(), t) + regex_find_ranges(rules.last().0, rules.last().1, t)
    }
}

fn push_sgr(out: &mut Vec<char>, code: &[char])
    ensures
        final(out)@ == old(out)@ + sgr(code@),
{
    out.push('\u{1b}');
    out.push('[');
    push_all(out, code);
    out.push('m');
    assert(final(out)@ =~= old(out)@ + sgr(code@));
}

fn push_reset(out: &mut Vec<char>)
    ensures
        final(out)@ == old(out)@ + sgr_reset(),
{
    out.push('\u{1b}');
    out.push('[');
    out.push('0');
    out.push('m');
    assert(final(out)@ =~= old(out)@ + sgr_reset());
}

/// The matches of all rules in `t`.
fn collect_ranges(t: &str, rules: &Vec<Matcher>) -> (r: Vec<(usize, usize)>)
    ensures
        r@ == all_ranges(matchers_view(rules@), t@),
        ranges_within(r@, t@.len() as int),
        well_formed_ranges(r@),
{
    let mut ranges: Vec<(usize, usize)> = Vec::new();
    let ghost mv = matchers_view(rules@);
    for k in 0..rules.len()
        invariant
            mv == matchers_view(rules@),
            ranges@ == all_ranges(mv.take(k as int), t@),
            ranges_within(ranges@, t@.len() as int),
            well_formed_ranges(ranges@),
    {
        let found = matcher_find_ranges(&rules[k], t);
        let ghost before = ranges@;
        for j in 0..found.len()
            invariant
                ranges@ == before + found@.take(j as int),
                ranges_within(before, t@.len() as int),
                well_formed_ranges(before),
                forall|q: int| 0 <= q < found.len() ==> #[trigger] found@[q].0 <= found@[q].1 && found@[q].1 <= t@.len(),
                ranges_within(ranges@, t@.len() as int),
                well_formed_ranges(ranges@),
        {
            ranges.push(found[j]);
            assert(ranges@ =~= before + found@.take(j + 1));
            assert forall|i: int| 0 <= i < ranges@.len() implies #[trigger] ranges@[i].1 <= t@.len() by {
                if i < before.len() {
                    assert(ranges@[i] == before[i]);
                } else {
                    assert(ranges@[i] == found@[i - before.len()]);
                    assert(found@[i - before.len()].0 <= found@[i - before.len()].1);
                }
            }
            assert forall|i: int| 0 <= i < ranges@.len() implies #[trigger] ranges@[i].0 <= ranges@[i].1 by {
                if i < before.len() {
                    assert(ranges@[i] == before[i]);
                } else {
                    assert(ranges@[i] == found@[i - before.len()]);
                }
            }
        }
        assert(found@.take(found.len() as int) =~= found@);
        assert(mv.take(k + 1).drop_last() =~= mv.take(k as int));
        assert(mv.take(k + 1).last() == (rules@[k as int].pattern(), rules@[k as int].ci()));
    }
    assert(mv.take(rules.len() as int) =~= mv);
    ranges
}

/// Colors a segment of a path: the matches of the rules highlighted, the
/// rest in the base color (see `colorize_spec`; the ranges are the merged
/// matches of all rules).
pub fn colorize_segment_with_highlights(t: &str, base_code: Option<&str>, rules: &Vec<Matcher>) -> (r: String)
    ensures
        exists|m: Seq<(usize, usize)>|
            merged_ranges_of(all_ranges(matchers_view(rules@), t@), m) && r@ == colorize_spec(
                t@,
                match base_code {
                    Some(c) => Some(c@),
                    None => None,
                },
                m,
            ),
{
    let ghost base = match base_code {
        Some(c) => Some(c@),
        None => None::<Seq<char>>,
    };
    let ranges = collect_ranges(t, rules);
    let ghost rv = ranges@;
    assert(rv.len() == ranges.len());
    let merged = merge_match_ranges(ranges);
    let ghost tv = t@;
    proof {
        law_merged_ranges_within(all_ranges(matchers_view(rules@), t@), merged@, t@.len() as int);
        law_merged_ranges_separated(all_ranges(matchers_view(rules@), t@), merged@);
    }
    let tc = chars_of(t);
    if tc.len() == 0 {
        let r = String::new();
        assert(colorize_spec(t@, base, merged@) =~= r@);
        return r;
    }
    if merged.len() == 0 {
        let r = match base_code {
            Some(code) => {
                let mut out: Vec<char> = Vec::new();
                push_sgr(&mut out, chars_of(code).as_slice());
                push_all(&mut out, tc.as_slice());
                push_reset(&mut out);
                string_of(out.as_slice())
            },
            None => string_of(tc.as_slice()),
        };
        return r;
    }
    let mut out: Vec<char> = Vec::new();
    match base_code {
        Some(code) => push_sgr(&mut out, chars_of(code).as_slice()),
        None => {},
    }
    let ghost open = out@;
    assert(open == base_open(base));
    let mut cursor: usize = 0;
    for k in 0..merged.len()
        invariant
            tc@ == tv,
            tv == t@,
            ranges_within(merged@, tv.len() as int),
            well_formed_ranges(merged@),
            cursor as int == last_end(merged@.take(k as int)),
            out@ == open + hl_pieces(tv, base, merged@.take(k as int)),
            open == base_open(base),
            base == (match base_code {
                Some(c) => Some(c@),
                None => None::<Seq<char>>,
            }),
    {
        let (start, end) = merged[k];
        assert(merged@[k as int].0 <= merged@[k as int].1);
        assert(merged@[k as int].1 <= tv.len());
        let ghost before = out@;
        if start > cursor {
            push_all(&mut out, slice_chars(tc.as_slice(), cursor, start).as_slice());
        }
        push_sgr(&mut out, chars_of("1;91").as_slice());
        push_all(&mut out, slice_chars(tc.as_slice(), start, end).as_slice());
        push_reset(&mut out);
        match base_code {
            Some(code) => push_sgr(&mut out, chars_of(code).as_slice()),
            None => {},
        }
        proof {
            let tk = merged@.take(k as int);
            assert(merged@.take(k + 1).drop_last() =~= tk);
            assert(merged@.take(k + 1).last() == (start, end));
            assert(out@ =~= before + hl_piece(tv, base, cursor as int, (start, end)));
        }
        cursor = end;
    }
    assert(merged@.take(merged.len() as int) =~= merged@);
    if cursor < tc.len() {
        push_all(&mut out, slice_chars(tc.as_slice(), cursor, tc.len()).as_slice());
    }
    push_reset(&mut out);
    assert(out@ =~= colorize_spec(t@, base, merged@));
    string_of(out.as_slice())
}

/// The path as displayed: with its classifier appended when asked for,
/// unless it already ends with it.
pub open spec fn display_path(res: SearchResult, add_decorator: bool) -> Seq<char> {
    let p = res.path@;
    if add_decorator && (decorator_spec(res) matches Some(d) && !(p.len() > 0 && p.last() == d)) {
        p.push(decorator_spec(res)->0)
    } else {
        p
    }
}

/// `s` cut at its last `/`, as `str::rsplit_once` gives it.
pub open spec fn rsplit_slash(s: Seq<char>) -> Option<(Seq<char>, Seq<char>)> {
    let b = after_last_slash(s);
    if b.len() < s.len() {
        Some((s.take(s.len() - b.len() - 1), b))
    } else {
        None
    }
}

/// The directory part (ending in `/`, or empty) and the last component of
/// a displayed path; a directory's own trailing `/` stays on its last
/// component.
pub open spec fn split_display(d: Seq<char>) -> (Seq<char>, Seq<char>) {
    if d.len() > 0 && d.last() == '/' {
        match rsplit_slash(trim_end(d, '/')) {
            Some((p, l)) => (p.push('/'), l.push('/')),
            None => (seq![], d),
        }
    } else {
        match rsplit_slash(d) {
            Some((p, l)) => (p.push('/'), l),
            None => (seq![], d),
        }
    }
}

/// `s` cut at its last `/`.
fn rsplit_slash_of(s: &[char]) -> (r: Option<(Vec<char>, Vec<char>)>)
    ensures
        match r {
            Some(p) => rsplit_slash(s@) == Some((p.0@, p.1@)),
            None => rsplit_slash(s@) is None,
        },
{
    let b = last_segment_of(s);
    proof {
        lemma_after_last_slash(s@);
    }
    if b.len() < s.len() {
        let p = slice_chars(s, 0, s.len() - b.len() - 1);
        assert(p@ =~= s@.take(s@.len() - b@.len() - 1));
        Some((p, b))
    } else {
        None
    }
}

/// The directory part and the last component of a displayed path.
fn split_display_of(d: &[char]) -> (r: (Vec<char>, Vec<char>))
    ensures
        (r.0@, r.1@) == split_display(d@),
{
    if ends_with_char(d, '/') {
        let core = trim_end_char(d, '/');
        match rsplit_slash_of(core.as_slice()) {
            Some((mut p, mut l)) => {
                p.push('/');
                l.push('/');
                (p, l)
            },
            None => (Vec::new(), slice_chars(d, 0, d.len())),
        }
    } else {
        match rsplit_slash_of(d) {
            Some((mut p, l)) => {
                p.push('/');
                (p, l)
            },
            None => {
                let c = slice_chars(d, 0, d.len());
                assert(c@ =~= d@);
                (Vec::new(), c)
            },
        }
    }
}

/// An absolute form of `x` for a link target: unchanged when absolute (or
/// without a working directory), else the working directory, `/`, and `x`
/// without leading `./`.
pub open spec fn link_target(x: Seq<char>, cwd: Option<Seq<char>>) -> Seq<char> {
    if !(x.len() > 0 && x[0] == '/') && cwd is Some {
        cwd->0 + seq!['/'] + strip_prefix_all(x, seq!['.', '/'])
    } else {
        x
    }
}

/// A terminal hyperlink to `target` around `text`.
pub open spec fn hyperlink(target: Seq<char>, text: Seq<char>) -> Seq<char> {
    seq!['\u{1b}', ']', '8', ';', ';'] + "file://"@ + target + seq!['\u{1b}', '\\'] + text + seq![
        '\u{1b}',
        ']',
        '8',
        ';',
        ';',
        '\u{1b}',
        '\\',
    ]
}

/// The segment in `code`, reset afterwards.
pub open spec fn painted(code: Seq<char>, t: Seq<char>) -> Seq<char> {
    sgr(code) + t + sgr_reset()
}

/// The views of the rules of a highlight spec.
pub open spec fn highlight_view(h: Option<&HighlightSpec>) -> Option<(Seq<(Seq<char>, bool)>, Seq<(Seq<char>, bool)>)> {
    match h {
        Some(x) => Some((matchers_view(x.prefix_rules@), matchers_view(x.leaf_rules@))),
        None => None,
    }
}

/// A segment highlighted by the rules: some merge of their matches.
pub open spec fn highlighted(t: Seq<char>, base: Option<Seq<char>>, rules: Seq<(Seq<char>, bool)>, out: Seq<char>) -> bool {
    exists|m: Seq<(usize, usize)>| merged_ranges_of(all_ranges(rules, t), m) && out == colorize_spec(t, base, m)
}

/// Without styling: the highlighted directory part `a` (empty when there
/// is none) and last component `b`, joined.
pub open spec fn plain_parts(prefix: Seq<char>, leaf: Seq<char>, pr: Seq<(Seq<char>, bool)>, lr: Seq<(Seq<char>, bool)>, a: Seq<char>, b: Seq<char>, out: Seq<char>) -> bool {
    &&& (if prefix.len() == 0 { a == Seq::<char>::empty() } else { highlighted(prefix, None, pr, a) })
    &&& highlighted(leaf, None, lr, b)
    &&& out == a + b
}

/// With styling: the colored last component `lc` and directory part `pc`,
/// joined, each wrapped in a hyperlink when hyperlinks are on.
pub open spec fn styled_parts(
    res: SearchResult,
    prefix: Seq<char>,
    leaf: Seq<char>,
    cv: ColorView,
    hyperlinks: bool,
    cwd: Option<Seq<char>>,
    hl: Option<(Seq<(Seq<char>, bool)>, Seq<(Seq<char>, bool)>)>,
    lc: Seq<char>,
    pc: Seq<char>,
    out: Seq<char>,
) -> bool {
    let code = color_code_spec(res, cv);
    &&& match hl {
        Some((pr, lr)) => highlighted(leaf, if code.len() == 0 { None } else { Some(code) }, lr, lc),
        None => lc == (if code.len() == 0 { leaf } else { painted(code, leaf) }),
    }
    &&& (if prefix.len() == 0 {
        pc == Seq::<char>::empty()
    } else {
        match hl {
            Some((pr, lr)) => highlighted(prefix, Some(cv.prefix_dir), pr, pc),
            None => pc == painted(cv.prefix_dir, prefix),
        }
    })
    &&& out == (if !hyperlinks {
        if prefix.len() == 0 { lc } else { pc + lc }
    } else if prefix.len() == 0 {
        hyperlink(link_target(res.path@, cwd), lc)
    } else {
        hyperlink(if prefix[0] != '/' { link_target(prefix, cwd) } else { prefix }, pc) + hyperlink(
            link_target(res.path@, cwd),
            lc,
        )
    })
}

/// How a result is shown: without styling, the displayed path with its
/// matches highlighted if asked; with styling, the directory part in the
/// prefix color and the last component in its own color, each highlighted
/// if asked, and each wrapped in a hyperlink when hyperlinks are on.
pub open spec fn styled_ok(
    res: SearchResult,
    use_style: bool,
    add_decorator: bool,
    cv: ColorView,
    hyperlinks: bool,
    cwd: Option<Seq<char>>,
    hl: Option<(Seq<(Seq<char>, bool)>, Seq<(Seq<char>, bool)>)>,
    out: Seq<char>,
) -> bool {
    let d = display_path(res, add_decorator);
    if !use_style {
        match hl {
            Some((pr, lr)) => plain_ok(split_display(d).0, split_display(d).1, pr, lr, out),
            None => out == d,
        }
    } else {
        styled_some(res, split_display(d).0, split_display(d).1, cv, hyperlinks, cwd, hl, out)
    }
}

/// Some highlighted parts make up `out` (see `plain_parts`).
pub open spec fn plain_ok(prefix: Seq<char>, leaf: Seq<char>, pr: Seq<(Seq<char>, bool)>, lr: Seq<(Seq<char>, bool)>, out: Seq<char>) -> bool {
    exists|a: Seq<char>, b: Seq<char>| #[trigger] plain_parts(prefix, leaf, pr, lr, a, b, out)
}

/// Some styled parts make up `out` (see `styled_parts`).
pub open spec fn styled_some(
    res: SearchResult,
    prefix: Seq<char>,
    leaf: Seq<char>,
    cv: ColorView,
    hyperlinks: bool,
    cwd: Option<Seq<char>>,
    hl: Option<(Seq<(Seq<char>, bool)>, Seq<(Seq<char>, bool)>)>,
    out: Seq<char>,
) -> bool {
    exists|lc: Seq<char>, pc: Seq<char>| #[trigger] styled_parts(res, prefix, leaf, cv, hyperlinks, cwd, hl, lc, pc, out)
}

fn paint(code: &[char], t: &[char]) -> (r: Vec<char>)
    ensures
        r@ == painted(code@, t@),
{
    let mut out: Vec<char> = Vec::new();
    push_sgr(&mut out, code);
    push_all(&mut out, t);
    push_reset(&mut out);
    assert(out@ =~= painted(code@, t@));
    out
}

fn link_target_of(x: &[char], cwd: &Option<String>) -> (r: Vec<char>)
    ensures
        r@ == link_target(x@, match cwd {
            Some(c) => Some(c@),
            None => None,
        }),
{
    match cwd {
        Some(c) => {
            if !starts_with_char(x, '/') {
                let mut out = chars_of(c.as_str());
                out.push('/');
                let dot_slash: Vec<char> = vec!['.', '/'];
                assert(dot_slash@ =~= seq!['.', '/']);
                push_all(&mut out, strip_prefix_all_chars(x, dot_slash.as_slice()).as_slice());
                return out;
            }
            slice_chars(x, 0, x.len())
        },
        None => slice_chars(x, 0, x.len()),
    }
}

fn hyperlink_of(target: &[char], t: &[char]) -> (r: Vec<char>)
    ensures
        r@ == hyperlink(target@, t@),
{
    let mut out: Vec<char> = vec!['\u{1b}', ']', '8', ';', ';'];
    push_all(&mut out, chars_of("file://").as_slice());
    push_all(&mut out, target);
    out.push('\u{1b}');
    out.push('\\');
    push_all(&mut out, t);
    out.push('\u{1b}');
    out.push(']');
    out.push('8');
    out.push(';');
    out.push(';');
    out.push('\u{1b}');
    out.push('\\');
    assert(out@ =~= hyperlink(target@, t@));
    out
}

/// How a result is shown (see `styled_ok`). `cwd` is the working
/// directory, used to make hyperlink targets absolute.
pub fn render_styled_path(
    res: &SearchResult,
    use_style: bool,
    add_decorator: bool,
    colors: &ColorSpec,
    opts: &Settings,
    cwd: Option<String>,
    highlight: Option<&HighlightSpec>,
) -> (r: String)
    requires
        colors.wf(),
    ensures
        styled_ok(*res, use_style, add_decorator, colors.view(), opts.hyperlinks, match cwd {
            Some(c) => Some(c@),
            None => None,
        }, highlight_view(highlight), r@),
{
    let mut display = chars_of(res.path.as_str());
    if add_decorator {
        match decorator_for_res(res) {
            Some(d) => {
                if !ends_with_char(display.as_slice(), d) {
                    display.push(d);
                }
            },
            None => {},
        }
    }
    assert(display@ == display_path(*res, add_decorator));
    let (prefix, leaf) = split_display_of(display.as_slice());
    let ps = string_of(prefix.as_slice());
    let ls = string_of(leaf.as_slice());
    if !use_style {
        match highlight {
            Some(spec) => {
                let a = if prefix.len() > 0 {
                    colorize_segment_with_highlights(ps.as_str(), None, &spec.prefix_rules)
                } else {
                    String::new()
                };
                let b = colorize_segment_with_highlights(ls.as_str(), None, &spec.leaf_rules);
                let mut out = chars_of(a.as_str());
                push_all(&mut out, chars_of(b.as_str()).as_slice());
                let r = string_of(out.as_slice());
                assert(r@ == a@ + b@);
                assert(plain_parts(prefix@, leaf@, matchers_view(spec.prefix_rules@), matchers_view(spec.leaf_rules@), a@, b@, r@));
                assert(plain_ok(prefix@, leaf@, matchers_view(spec.prefix_rules@), matchers_view(spec.leaf_rules@), r@));
                return r;
            },
            None => {
                return string_of(display.as_slice());
            },
        }
    }
    let leaf_code = color_code_for_path(res, colors);
    let lc: Vec<char> = match highlight {
        Some(spec) => {
            let base: Option<&str> = if leaf_code.as_str().is_empty() { None } else { Some(leaf_code.as_str()) };
            chars_of(colorize_segment_with_highlights(ls.as_str(), base, &spec.leaf_rules).as_str())
        },
        None => {
            if chars_of(leaf_code.as_str()).len() == 0 {
                leaf.clone()
            } else {
                paint(chars_of(leaf_code.as_str()).as_slice(), leaf.as_slice())
            }
        },
    };
    let pc: Vec<char> = if prefix.len() == 0 {
        Vec::new()
    } else {
        match highlight {
            Some(spec) => chars_of(
                colorize_segment_with_highlights(ps.as_str(), Some(colors.color_prefix_dir.as_str()), &spec.prefix_rules).as_str(),
            ),
            None => paint(chars_of(colors.color_prefix_dir.as_str()).as_slice(), prefix.as_slice()),
        }
    };
    let out: Vec<char> = if !opts.hyperlinks {
        if prefix.len() == 0 {
            lc
        } else {
            let mut o = pc.clone();
            push_all(&mut o, lc.as_slice());
            o
        }
    } else {
        let leaf_target = link_target_of(chars_of(res.path.as_str()).as_slice(), &cwd);
        if prefix.len() == 0 {
            hyperlink_of(leaf_target.as_slice(), lc.as_slice())
        } else {
            let prefix_target = if !starts_with_char(prefix.as_slice(), '/') {
                link_target_of(prefix.as_slice(), &cwd)
            } else {
                prefix.clone()
            };
            let mut o = hyperlink_of(prefix_target.as_slice(), pc.as_slice());
            push_all(&mut o, hyperlink_of(leaf_target.as_slice(), lc.as_slice()).as_slice());
            o
        }
    };
    proof {
        let cwdv = match cwd {
            Some(c) => Some(c@),
            None => None,
        };
        assert(styled_parts(*res, prefix@, leaf@, colors.view(), opts.hyperlinks, cwdv, highlight_view(highlight), lc@, pc@, out@));
        assert(styled_some(*res, prefix@, leaf@, colors.view(), opts.hyperlinks, cwdv, highlight_view(highlight), out@));
    }
    string_of(out.as_slice())
}

} // verus!
