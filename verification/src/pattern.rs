//! The search-pattern language: shorthand, wildcard and quoted forms of a
//! name or search-dir selector, turned into regular-expression text.
use vstd::prelude::*;
use crate::text::{
    has_prefix, has_suffix, has_infix, trim_start, trim_end, strip_prefix_all, replace_all,
    count_char, chars_of, string_of, push_all, starts_with_char, ends_with_char, contains_char,
    contains_seq, slice_chars, trim_start_char, trim_end_char, strip_prefix_all_chars,
    replace_all_chars, count_char_in, starts_with, eq_chars, concat, count_where,
    unicode_alphanumeric, char_is_alphanumeric, lemma_count_where_bound, lemma_count_char_bound,
    occurs_at,
};

verus! {

/// Whether a name pattern selects files or directories only.
#[derive(Clone, Copy, Debug, PartialEq, Eq, Structural)]
pub enum TypeFlag {
    File,
    Dir,
}

/// A name selector: an optional type restriction and the regular
/// expression that names are matched against.
#[derive(Clone, Debug)]
pub struct NamePattern {
    pub type_flag: Option<TypeFlag>,
    pub regex: String,
}

/// Where to search: a literal directory, or a pattern that directories
/// anywhere on disk are matched against.
#[derive(Clone, Debug)]
pub enum SearchDirMode {
    Path(String),
    Pattern(String),
}

/// The characters that carry a meaning in a regular expression and are
/// escaped in plain patterns (`*` and `\` are left alone).
pub open spec fn is_regex_meta(c: char) -> bool {
    c == '[' || c == ']' || c == '(' || c == ')' || c == '{' || c == '}' || c == '.' || c == '^'
        || c == '$' || c == '|' || c == '+' || c == '?'
}

/// `s` with a backslash put before every regex meta character.
pub open spec fn escape_keep_star(s: Seq<char>) -> Seq<char>
    decreases s.len(),
{
    if s.len() == 0 {
        seq![]
    } else {
        escape_keep_star(s.drop_last()) + if is_regex_meta(s.last()) {
            seq!['\\', s.last()]
        } else {
            seq![s.last()]
        }
    }
}

pub open spec fn backslash_star() -> Seq<char> {
    seq!['\\', '*']
}

pub open spec fn dot_star() -> Seq<char> {
    seq!['.', '*']
}

/// The marker that protects an escaped star while bare stars are expanded.
pub open spec fn star_placeholder() -> Seq<char> {
    seq!['_', '_', 'L', 'I', 'T', 'E', 'R', 'A', 'L', '_', 'S', 'T', 'A', 'R', '_', '_']
}

/// A plain pattern as a regex fragment: meta characters escaped, each bare
/// `*` a `.*`, and `\*` a literal star.
pub open spec fn regex_fragment(s: Seq<char>) -> Seq<char> {
    replace_all(
        replace_all(
            replace_all(escape_keep_star(s), backslash_star(), star_placeholder()),
            seq!['*'],
            dot_star(),
        ),
        star_placeholder(),
        backslash_star(),
    )
}

/// The pattern begins with a bare `*`.
pub open spec fn leading_star(pat: Seq<char>) -> bool {
    pat.len() > 0 && pat[0] == '*'
}

/// The pattern ends with a `*` that is not escaped.
pub open spec fn trailing_star(pat: Seq<char>) -> bool {
    pat.len() > 0 && pat.last() == '*' && (pat.len() < 2 || pat[pat.len() - 2] != '\\')
}

/// A wildcard pattern as an anchored regex: anchored at the start unless
/// it begins with `*`, at the end unless it ends with an unescaped `*`.
pub open spec fn wildcard_regex(pat: Seq<char>) -> Seq<char> {
    (if leading_star(pat) { seq![] } else { seq!['^'] }) + regex_fragment(pat) + (if trailing_star(
        pat,
    ) {
        seq![]
    } else {
        seq!['$']
    })
}

/// The argument is wrapped in a pair of double or single quotes.
pub open spec fn wrapped_quote(raw: Seq<char>) -> bool {
    raw.len() >= 2 && ((raw[0] == '"' && raw.last() == '"') || (raw[0] == '\'' && raw.last()
        == '\''))
}

/// The text between the wrapping quotes.
pub open spec fn quote_inner(raw: Seq<char>) -> Seq<char> {
    raw.subrange(1, raw.len() - 1)
}

/// Leading slashes removed, then trailing ones unless only "/" is left.
pub open spec fn trim_slashes(s: Seq<char>) -> Seq<char> {
    let t = trim_start(s, '/');
    if t != seq!['/'] {
        trim_end(t, '/')
    } else {
        t
    }
}

/// The type restriction and regex that a name argument stands for.
pub open spec fn name_pattern_spec(raw: Seq<char>, regex_mode: bool) -> (Option<TypeFlag>, Seq<char>) {
    if wrapped_quote(raw) {
        let inner = trim_slashes(quote_inner(raw));
        (None, if regex_mode { inner } else { wildcard_regex(inner) })
    } else if regex_mode {
        (None, raw)
    } else if has_prefix(raw, seq!['/']) && has_suffix(raw, seq!['/']) {
        (Some(TypeFlag::Dir), seq!['^'] + regex_fragment(raw.subrange(1, raw.len() - 1)) + seq!['$'])
    } else if has_prefix(raw, seq!['/']) {
        (None, seq!['^'] + regex_fragment(trim_start(raw, '/')))
    } else if raw != seq!['/'] && has_suffix(raw, seq!['/']) {
        (Some(TypeFlag::Dir), regex_fragment(trim_end(raw, '/')) + seq!['$'])
    } else if raw.contains('*') {
        (None, wildcard_regex(raw))
    } else {
        (None, regex_fragment(raw))
    }
}

/// The name argument `/` outside regex mode has no pattern (its inner
/// text would run backwards).
pub open spec fn name_pattern_defined(raw: Seq<char>, regex_mode: bool) -> bool {
    regex_mode || raw != seq!['/']
}

fn regex_meta(c: char) -> (r: bool)
    ensures
        r == is_regex_meta(c),
{
    c == '[' || c == ']' || c == '(' || c == ')' || c == '{' || c == '}' || c == '.' || c == '^'
        || c == '$' || c == '|' || c == '+' || c == '?'
}

/// Escapes every regex meta character of `s` with a backslash.
pub fn escape_regex_keep_star(s: &[char]) -> (r: Vec<char>)
    ensures
        r@ == escape_keep_star(s@),
{
    let mut out: Vec<char> = Vec::new();
    for i in 0..s.len()
        invariant
            out@ == escape_keep_star(s@.take(i as int)),
    {
        assert(s@.take(i + 1).drop_last() =~= s@.take(i as int));
        let c = s[i];
        if regex_meta(c) {
            out.push('\\');
        }
        out.push(c);
        assert(out@ =~= escape_keep_star(s@.take(i + 1)));
    }
    assert(s@.take(s.len() as int) =~= s@);
    out
}

/// A plain pattern turned into a regex fragment.
pub fn to_regex_fragment(s: &[char]) -> (r: Vec<char>)
    ensures
        r@ == regex_fragment(s@),
{
    let x = escape_regex_keep_star(s);
    let bs: Vec<char> = vec!['\\', '*'];
    let ph: Vec<char> = vec!['_', '_', 'L', 'I', 'T', 'E', 'R', 'A', 'L', '_', 'S', 'T', 'A', 'R', '_', '_'];
    let star: Vec<char> = vec!['*'];
    let ds: Vec<char> = vec!['.', '*'];
    assert(bs@ =~= backslash_star());
    assert(ph@ =~= star_placeholder());
    assert(star@ =~= seq!['*']);
    assert(ds@ =~= dot_star());
    let x = replace_all_chars(x.as_slice(), bs.as_slice(), ph.as_slice());
    let x = replace_all_chars(x.as_slice(), star.as_slice(), ds.as_slice());
    replace_all_chars(x.as_slice(), ph.as_slice(), bs.as_slice())
}

/// A wildcard pattern turned into an anchored regex.
pub fn wildcard_to_regex(pat: &[char]) -> (r: Vec<char>)
    ensures
        r@ == wildcard_regex(pat@),
{
    let lead = starts_with_char(pat, '*');
    let trail = ends_with_char(pat, '*') && (pat.len() < 2 || pat[pat.len() - 2] != '\\');
    let frag = to_regex_fragment(pat);
    let mut out: Vec<char> = Vec::new();
    if !lead {
        out.push('^');
    }
    push_all(&mut out, frag.as_slice());
    if !trail {
        out.push('$');
    }
    out
}

/// The argument is wrapped in a pair of double or single quotes.
pub fn is_wrapped_quote(raw: &[char]) -> (r: bool)
    ensures
        r == wrapped_quote(raw@),
{
    raw.len() >= 2 && ((raw[0] == '"' && raw[raw.len() - 1] == '"') || (raw[0] == '\''
        && raw[raw.len() - 1] == '\''))
}

fn trim_slashes_chars(s: &[char]) -> (r: Vec<char>)
    ensures
        r@ == trim_slashes(s@),
{
    let t = trim_start_char(s, '/');
    let one: Vec<char> = vec!['/'];
    assert(one@ =~= seq!['/']);
    if !eq_chars(t.as_slice(), one.as_slice()) {
        trim_end_char(t.as_slice(), '/')
    } else {
        t
    }
}

fn surround(pre: Option<char>, mid: &[char], post: Option<char>) -> (r: Vec<char>)
    ensures
        r@ == (match pre {
            Some(c) => seq![c],
            None => seq![],
        }) + mid@ + (match post {
            Some(c) => seq![c],
            None => seq![],
        }),
{
    let mut out: Vec<char> = Vec::new();
    if let Some(c) = pre {
        out.push(c);
    }
    push_all(&mut out, mid);
    if let Some(c) = post {
        out.push(c);
    }
    out
}

/// The type restriction and regex that a name argument stands for
/// (exact, prefix, suffix, wildcard, quoted or regex form).
pub fn parse_name_pattern(raw: &str, regex_mode: bool) -> (r: NamePattern)
    requires
        name_pattern_defined(raw@, regex_mode),
    ensures
        (r.type_flag, r.regex@) == name_pattern_spec(raw@, regex_mode),
{
    let rc = chars_of(raw);
    let raw = rc.as_slice();
    let slash: Vec<char> = vec!['/'];
    assert(slash@ =~= seq!['/']);
    if is_wrapped_quote(raw) {
        let inner0 = slice_chars(raw, 1, raw.len() - 1);
        let inner = trim_slashes_chars(inner0.as_slice());
        let rx = if regex_mode {
            inner
        } else {
            wildcard_to_regex(inner.as_slice())
        };
        return NamePattern { type_flag: None, regex: string_of(rx.as_slice()) };
    }
    if regex_mode {
        return NamePattern { type_flag: None, regex: string_of(raw) };
    }
    let starts = starts_with_char(raw, '/');
    let ends = ends_with_char(raw, '/');
    if starts && ends {
        proof {
            if raw@.len() == 1 {
                assert(raw@ =~= seq!['/']);
            }
        }
        let frag = to_regex_fragment(slice_chars(raw, 1, raw.len() - 1).as_slice());
        let rx = surround(Some('^'), frag.as_slice(), Some('$'));
        return NamePattern { type_flag: Some(TypeFlag::Dir), regex: string_of(rx.as_slice()) };
    }
    if starts {
        let frag = to_regex_fragment(trim_start_char(raw, '/').as_slice());
        let rx = surround(Some('^'), frag.as_slice(), None);
        assert(rx@ =~= seq!['^'] + frag@);
        return NamePattern { type_flag: None, regex: string_of(rx.as_slice()) };
    }
    if !eq_chars(raw, slash.as_slice()) && ends {
        let frag = to_regex_fragment(trim_end_char(raw, '/').as_slice());
        let rx = surround(None, frag.as_slice(), Some('$'));
        assert(rx@ =~= frag@ + seq!['$']);
        return NamePattern { type_flag: Some(TypeFlag::Dir), regex: string_of(rx.as_slice()) };
    }
    if contains_char(raw, '*') {
        let rx = wildcard_to_regex(raw);
        return NamePattern { type_flag: None, regex: string_of(rx.as_slice()) };
    }
    let rx = to_regex_fragment(raw);
    NamePattern { type_flag: None, regex: string_of(rx.as_slice()) }
}

/// The argument without its wrapping quotes, if it has them.
pub open spec fn quote_core(raw: Seq<char>) -> Seq<char> {
    if wrapped_quote(raw) {
        quote_inner(raw)
    } else {
        raw
    }
}

/// A pattern is matched against the full path in regex mode, or when it
/// holds a slash.
pub open spec fn prefers_full_path(raw: Seq<char>, regex_mode: bool) -> bool {
    regex_mode || quote_core(raw).contains('/')
}

/// A pattern is matched against the full path in regex mode, or when it
/// holds a slash.
pub fn pattern_prefers_full_path(raw: &str, regex_mode: bool) -> (r: bool)
    ensures
        r == prefers_full_path(raw@, regex_mode),
{
    if regex_mode {
        return true;
    }
    let rc = chars_of(raw);
    let raw = rc.as_slice();
    if is_wrapped_quote(raw) {
        contains_char(slice_chars(raw, 1, raw.len() - 1).as_slice(), '/')
    } else {
        contains_char(raw, '/')
    }
}

/// Characters that make a term more specific: letters, digits, `_`, `-`
/// and `.`.
pub open spec fn meaningful_char(c: char) -> bool {
    unicode_alphanumeric(c) || c == '_' || c == '-' || c == '.'
}

/// Regex meta characters that make a term less specific.
pub open spec fn heavy_meta_char(c: char) -> bool {
    c == '[' || c == ']' || c == '(' || c == ')' || c == '{' || c == '}' || c == '?' || c == '+'
}

/// How specific a contains-all term is: the higher, the fewer names it is
/// expected to match, so the sooner it is applied.
pub open spec fn selectivity_score(raw: Seq<char>, regex_mode: bool) -> int {
    let base = 24 * count_where(quote_core(raw), |c: char| meaningful_char(c));
    if regex_mode {
        base + (if has_prefix(raw, seq!['^']) { 1200int } else { 0 }) + (if has_suffix(
            raw,
            seq!['$'],
        ) {
            1200int
        } else {
            0
        }) - (if has_infix(raw, seq!['.', '*']) || has_infix(raw, seq!['.', '+']) {
            900int
        } else {
            0
        }) - (if raw.contains('|') { 600int } else { 0 }) - 60 * count_where(
            raw,
            |c: char| heavy_meta_char(c),
        )
    } else {
        let stars = count_char(raw, '*');
        base + (if wrapped_quote(raw) { 2200int } else { 0 }) + (if has_prefix(raw, seq!['/'])
            && has_suffix(raw, seq!['/']) {
            1700int
        } else if has_prefix(raw, seq!['/']) || (raw != seq!['/'] && has_suffix(raw, seq!['/'])) {
            900int
        } else {
            0
        }) + (if stars > 0 {
            -500 * stars - (if raw == seq!['*'] { 5000int } else { 0 })
        } else {
            300int
        })
    }
}

fn count_meaningful(s: &[char]) -> (n: usize)
    ensures
        n == count_where(s@, |c: char| meaningful_char(c)),
{
    let ghost f = |c: char| meaningful_char(c);
    let mut n: usize = 0;
    for i in 0..s.len()
        invariant
            f == (|c: char| meaningful_char(c)),
            n == count_where(s@.take(i as int), f),
            n <= i,
    {
        assert(s@.take(i + 1).drop_last() =~= s@.take(i as int));
        let c = s[i];
        if char_is_alphanumeric(c) || c == '_' || c == '-' || c == '.' {
            n = n + 1;
        }
    }
    assert(s@.take(s.len() as int) =~= s@);
    n
}

fn count_heavy(s: &[char]) -> (n: usize)
    ensures
        n == count_where(s@, |c: char| heavy_meta_char(c)),
{
    let ghost f = |c: char| heavy_meta_char(c);
    let mut n: usize = 0;
    for i in 0..s.len()
        invariant
            f == (|c: char| heavy_meta_char(c)),
            n == count_where(s@.take(i as int), f),
            n <= i,
    {
        assert(s@.take(i + 1).drop_last() =~= s@.take(i as int));
        let c = s[i];
        if c == '[' || c == ']' || c == '(' || c == ')' || c == '{' || c == '}' || c == '?'
            || c == '+' {
            n = n + 1;
        }
    }
    assert(s@.take(s.len() as int) =~= s@);
    n
}

/// How specific a contains-all term is (see `selectivity_score`). Terms
/// up to 2^54 characters long are scored: beyond that the score's 64-bit
/// arithmetic would overflow.
pub fn term_selectivity_score(raw: &str, regex_mode: bool) -> (score: i64)
    requires
        raw@.len() <= 0x40_0000_0000_0000,
    ensures
        score == selectivity_score(raw@, regex_mode),
{
    let rc = chars_of(raw);
    let raw = rc.as_slice();
    let wrapped = is_wrapped_quote(raw);
    let meaningful = if wrapped {
        count_meaningful(slice_chars(raw, 1, raw.len() - 1).as_slice())
    } else {
        count_meaningful(raw)
    };
    proof {
        lemma_count_where_bound(quote_core(raw@), |c: char| meaningful_char(c));
    }
    let mut score: i64 = (meaningful as i64) * 24;
    let starts_slash = starts_with_char(raw, '/');
    let ends_slash = ends_with_char(raw, '/');
    if regex_mode {
        if starts_with_char(raw, '^') {
            score = score + 1200;
        }
        if ends_with_char(raw, '$') {
            score = score + 1200;
        }
        let dot_star: Vec<char> = vec!['.', '*'];
        let dot_plus: Vec<char> = vec!['.', '+'];
        assert(dot_star@ =~= seq!['.', '*']);
        assert(dot_plus@ =~= seq!['.', '+']);
        if contains_seq(raw, dot_star.as_slice()) || contains_seq(raw, dot_plus.as_slice()) {
            score = score - 900;
        }
        if contains_char(raw, '|') {
            score = score - 600;
        }
        let heavy = count_heavy(raw);
        proof {
            lemma_count_where_bound(raw@, |c: char| heavy_meta_char(c));
        }
        score = score - (heavy as i64) * 60;
        return score;
    }
    if wrapped {
        score = score + 2200;
    }
    let slash: Vec<char> = vec!['/'];
    assert(slash@ =~= seq!['/']);
    if starts_slash && ends_slash {
        score = score + 1700;
    } else if starts_slash || (!eq_chars(raw, slash.as_slice()) && ends_slash) {
        score = score + 900;
    }
    let stars = count_char_in(raw, '*');
    proof {
        lemma_count_char_bound(raw@, '*');
    }
    if stars > 0 {
        score = score - (stars as i64) * 500;
        let star: Vec<char> = vec!['*'];
        assert(star@ =~= seq!['*']);
        if eq_chars(raw, star.as_slice()) {
            score = score - 5000;
        }
    } else {
        score = score + 300;
    }
    score
}

/// The search-dir argument with trailing slashes removed (unless it is "/").
pub open spec fn normalized_dir(raw: Seq<char>) -> Seq<char> {
    if raw != seq!['/'] {
        trim_end(raw, '/')
    } else {
        raw
    }
}

/// The search root an argument names: `(true, path)` for an existing
/// directory (its canonical path, given as `canon_raw`, or for a quoted
/// argument that of its inner text, `canon_inner`), else `(false, regex)`
/// for the pattern that directories on disk are matched against.
pub open spec fn search_dir_spec(
    raw: Seq<char>,
    regex_mode: bool,
    force_pattern_mode: bool,
    canon_raw: Option<Seq<char>>,
    canon_inner: Option<Seq<char>>,
) -> (bool, Seq<char>) {
    let normalized = normalized_dir(raw);
    if !force_pattern_mode && canon_raw is Some {
        (true, canon_raw->0)
    } else if wrapped_quote(raw) {
        if !force_pattern_mode && canon_inner is Some {
            (true, canon_inner->0)
        } else {
            let pi = trim_slashes(quote_inner(raw));
            (false, if regex_mode { pi } else { wildcard_regex(pi) })
        }
    } else if regex_mode {
        (false, normalized)
    } else if has_prefix(raw, seq!['/']) && has_suffix(raw, seq!['/']) {
        (false, seq!['^'] + regex_fragment(raw.subrange(1, raw.len() - 1)) + seq!['$'])
    } else if has_prefix(raw, seq!['.', '/']) && has_suffix(raw, seq!['/']) {
        (false, seq!['^'] + regex_fragment(raw.subrange(2, raw.len() - 1)) + seq!['$'])
    } else if has_prefix(raw, seq!['/']) {
        (false, seq!['^'] + regex_fragment(trim_start(raw, '/')))
    } else if has_prefix(raw, seq!['.', '/']) {
        (false, seq!['^'] + regex_fragment(strip_prefix_all(raw, seq!['.', '/'])))
    } else if raw != seq!['/'] && has_suffix(raw, seq!['/']) {
        (false, regex_fragment(trim_end(raw, '/')) + seq!['$'])
    } else if normalized.contains('*') {
        (false, wildcard_regex(normalized))
    } else {
        (false, regex_fragment(normalized))
    }
}

/// The arguments "/" and "./", when taken as a pattern outside regex
/// mode, have no pattern (their inner text would run backwards).
pub open spec fn search_dir_defined(
    raw: Seq<char>,
    regex_mode: bool,
    force_pattern_mode: bool,
    canon_raw: Option<Seq<char>>,
) -> bool {
    (!force_pattern_mode && canon_raw is Some) || regex_mode || (raw != seq!['/'] && raw != seq![
        '.',
        '/',
    ])
}

/// The view of an optional string.
pub open spec fn opt_view(o: Option<String>) -> Option<Seq<char>> {
    match o {
        Some(s) => Some(s@),
        None => None,
    }
}

/// The search root an argument names, given the canonical path of the
/// argument (`canon_raw`) and of its quoted inner text (`canon_inner`) when
/// those are existing directories.
pub fn parse_search_dir(
    raw: &str,
    regex_mode: bool,
    force_pattern_mode: bool,
    canon_raw: Option<String>,
    canon_inner: Option<String>,
) -> (r: SearchDirMode)
    requires
        search_dir_defined(raw@, regex_mode, force_pattern_mode, opt_view(canon_raw)),
    ensures
        search_dir_spec(raw@, regex_mode, force_pattern_mode, opt_view(canon_raw), opt_view(
            canon_inner,
        )) == (match r {
            SearchDirMode::Path(p) => (true, p@),
            SearchDirMode::Pattern(x) => (false, x@),
        }),
{
    if !force_pattern_mode {
        if let Some(p) = canon_raw {
            return SearchDirMode::Path(p);
        }
    }
    let rc = chars_of(raw);
    let raw = rc.as_slice();
    let slash: Vec<char> = vec!['/'];
    let dot_slash: Vec<char> = vec!['.', '/'];
    assert(slash@ =~= seq!['/']);
    assert(dot_slash@ =~= seq!['.', '/']);
    let normalized = if !eq_chars(raw, slash.as_slice()) {
        trim_end_char(raw, '/')
    } else {
        slice_chars(raw, 0, raw.len())
    };
    assert(raw@.subrange(0, raw@.len() as int) =~= raw@);
    if is_wrapped_quote(raw) {
        if !force_pattern_mode {
            if let Some(p) = canon_inner {
                return SearchDirMode::Path(p);
            }
        }
        let inner = slice_chars(raw, 1, raw.len() - 1);
        let pi = trim_slashes_chars(inner.as_slice());
        let rx = if regex_mode {
            pi
        } else {
            wildcard_to_regex(pi.as_slice())
        };
        return SearchDirMode::Pattern(string_of(rx.as_slice()));
    }
    if regex_mode {
        return SearchDirMode::Pattern(string_of(normalized.as_slice()));
    }
    let starts = starts_with_char(raw, '/');
    let ends = ends_with_char(raw, '/');
    let dot_start = starts_with(raw, dot_slash.as_slice());
    if starts && ends {
        proof {
            if raw@.len() == 1 {
                assert(raw@ =~= seq!['/']);
            }
        }
        let frag = to_regex_fragment(slice_chars(raw, 1, raw.len() - 1).as_slice());
        let rx = surround(Some('^'), frag.as_slice(), Some('$'));
        return SearchDirMode::Pattern(string_of(rx.as_slice()));
    }
    if dot_start && ends {
        proof {
            if raw@.len() == 2 {
                assert(raw@ =~= seq!['.', '/']);
            }
        }
        let frag = to_regex_fragment(slice_chars(raw, 2, raw.len() - 1).as_slice());
        let rx = surround(Some('^'), frag.as_slice(), Some('$'));
        return SearchDirMode::Pattern(string_of(rx.as_slice()));
    }
    if starts {
        let frag = to_regex_fragment(trim_start_char(raw, '/').as_slice());
        let rx = surround(Some('^'), frag.as_slice(), None);
        assert(rx@ =~= seq!['^'] + frag@);
        return SearchDirMode::Pattern(string_of(rx.as_slice()));
    }
    if dot_start {
        let frag = to_regex_fragment(strip_prefix_all_chars(raw, dot_slash.as_slice()).as_slice());
        let rx = surround(Some('^'), frag.as_slice(), None);
        assert(rx@ =~= seq!['^'] + frag@);
        return SearchDirMode::Pattern(string_of(rx.as_slice()));
    }
    if !eq_chars(raw, slash.as_slice()) && ends {
        let frag = to_regex_fragment(trim_end_char(raw, '/').as_slice());
        let rx = surround(None, frag.as_slice(), Some('$'));
        assert(rx@ =~= frag@ + seq!['$']);
        return SearchDirMode::Pattern(string_of(rx.as_slice()));
    }
    if contains_char(normalized.as_slice(), '*') {
        let rx = wildcard_to_regex(normalized.as_slice());
        return SearchDirMode::Pattern(string_of(rx.as_slice()));
    }
    let rx = to_regex_fragment(normalized.as_slice());
    SearchDirMode::Pattern(string_of(rx.as_slice()))
}

/// A trailing argument names the contains-all search root when it holds a
/// slash (absolute, `./`, `../`, `~/`, or `a/b`).
pub fn is_implicit_content_path_token(raw: &str) -> (r: bool)
    ensures
        r == raw@.contains('/'),
{
    let rc = chars_of(raw);
    let raw = rc.as_slice();
    let dot_slash: Vec<char> = vec!['.', '/'];
    let dot_dot_slash: Vec<char> = vec!['.', '.', '/'];
    let tilde_slash: Vec<char> = vec!['~', '/'];
    let r = starts_with_char(raw, '/') || starts_with(raw, dot_slash.as_slice()) || starts_with(
        raw,
        dot_dot_slash.as_slice(),
    ) || starts_with(raw, tilde_slash.as_slice()) || contains_char(raw, '/');
    proof {
        if r && !raw@.contains('/') {
            if raw@.len() > 0 && raw@[0] == '/' {
            } else if starts_with_spec_witness(raw@, dot_slash@) {
                assert(raw@[1] == dot_slash@[1]);
            } else if starts_with_spec_witness(raw@, dot_dot_slash@) {
                assert(raw@[2] == dot_dot_slash@[2]);
            } else {
                assert(raw@[1] == tilde_slash@[1]);
            }
        }
    }
    r
}

spec fn starts_with_spec_witness(s: Seq<char>, p: Seq<char>) -> bool {
    has_prefix(s, p) && forall|i: int| 0 <= i < p.len() ==> s[i] == p[i]
}

/// The second of two positional arguments reads as a search-dir selector
/// (quoted, wildcard, or with a leading or trailing slash).
pub open spec fn explicit_search_dir_selector(raw: Seq<char>) -> bool {
    wrapped_quote(raw) || raw.contains('*') || has_prefix(raw, seq!['/']) || has_prefix(
        raw,
        seq!['.', '/'],
    ) || (raw != seq!['/'] && has_suffix(raw, seq!['/']))
}

/// The second of two positional arguments reads as a search-dir selector.
pub fn is_explicit_search_dir_selector(raw: &str) -> (r: bool)
    ensures
        r == explicit_search_dir_selector(raw@),
{
    let rc = chars_of(raw);
    let raw = rc.as_slice();
    let slash: Vec<char> = vec!['/'];
    let dot_slash: Vec<char> = vec!['.', '/'];
    assert(slash@ =~= seq!['/']);
    assert(dot_slash@ =~= seq!['.', '/']);
    if is_wrapped_quote(raw) {
        return true;
    }
    if contains_char(raw, '*') {
        return true;
    }
    if (starts_with_char(raw, '/') || starts_with(raw, dot_slash.as_slice())) && ends_with_char(
        raw,
        '/',
    ) {
        return true;
    }
    if starts_with_char(raw, '/') || starts_with(raw, dot_slash.as_slice()) {
        return true;
    }
    !eq_chars(raw, slash.as_slice()) && ends_with_char(raw, '/')
}

/// `~` and a leading `~/` replaced by the home directory, when it is known.
pub open spec fn expand_home_spec(raw: Seq<char>, home: Option<Seq<char>>) -> Seq<char> {
    if raw == seq!['~'] {
        match home {
            Some(h) => h,
            None => raw,
        }
    } else if has_prefix(raw, seq!['~', '/']) {
        match home {
            Some(h) => h + seq!['/'] + raw.skip(2),
            None => raw,
        }
    } else {
        raw
    }
}

/// `~` and a leading `~/` replaced by the home directory `home`, when it is
/// known.
pub fn expand_home_path(raw: &str, home: Option<String>) -> (r: String)
    ensures
        r@ == expand_home_spec(raw@, opt_view(home)),
{
    let rc = chars_of(raw);
    let rs = rc.as_slice();
    let tilde: Vec<char> = vec!['~'];
    let tilde_slash: Vec<char> = vec!['~', '/'];
    assert(tilde@ =~= seq!['~']);
    assert(tilde_slash@ =~= seq!['~', '/']);
    if eq_chars(rs, tilde.as_slice()) {
        return match home {
            Some(h) => h,
            None => string_of(rs),
        };
    }
    if starts_with(rs, tilde_slash.as_slice()) {
        if let Some(h) = home {
            let hc = chars_of(h.as_str());
            let mut out = hc;
            out.push('/');
            push_all(&mut out, slice_chars(rs, 2, rs.len()).as_slice());
            assert(rs@.subrange(2, rs@.len() as int) =~= rs@.skip(2));
            return string_of(out.as_slice());
        }
    }
    string_of(rs)
}

/// A plain word of the search matrix: not empty, no slash, no star, not
/// starting with a quote.
pub open spec fn plain_word(w: Seq<char>) -> bool {
    w.len() > 0 && !w.contains('/') && !w.contains('*') && w[0] != '"' && w[0] != '\''
}

/// The shorthand forms of the search matrix for a plain word `w`, with
/// `F` its regex fragment: `w` contains (`F`), `/w/` is an exact directory
/// (`^F$`), `/w` starts (`^F`), `w/` ends, as a directory (`F$`); in regex
/// mode `w` is taken as it is.
pub proof fn law_search_matrix_shorthands(w: Seq<char>)
    requires
        plain_word(w),
    ensures
        name_pattern_spec(w, false) == (None::<TypeFlag>, regex_fragment(w)),
        name_pattern_spec(seq!['/'] + w + seq!['/'], false) == (Some(TypeFlag::Dir), seq!['^'] + regex_fragment(w) + seq!['$']),
        name_pattern_spec(seq!['/'] + w, false) == (None::<TypeFlag>, seq!['^'] + regex_fragment(w)),
        name_pattern_spec(w + seq!['/'], false) == (Some(TypeFlag::Dir), regex_fragment(w) + seq!['$']),
        name_pattern_spec(w, true) == (None::<TypeFlag>, w),
{
    let a = seq!['/'] + w + seq!['/'];
    let b = seq!['/'] + w;
    let c = w + seq!['/'];
    assert(w[0] != '/') by {
        assert(w.contains(w[0]));
    }
    assert(w.last() != '/') by {
        assert(w[w.len() - 1] == w.last());
    }
    // the plain word
    assert(!has_prefix(w, seq!['/'])) by {
        if has_prefix(w, seq!['/']) {
            assert(w.take(1)[0] == w[0]);
        }
    }
    assert(!has_suffix(w, seq!['/'])) by {
        if has_suffix(w, seq!['/']) {
            assert(w.skip(w.len() - 1)[0] == w.last());
        }
    }
    // `/w/`
    assert(a[0] == '/');
    assert(!wrapped_quote(a));
    assert(has_prefix(a, seq!['/'])) by {
        assert(a.take(1) =~= seq!['/']);
    }
    assert(has_suffix(a, seq!['/'])) by {
        assert(a.skip(a.len() - 1) =~= seq!['/']);
    }
    assert(a.subrange(1, a.len() - 1) =~= w);
    // `/w`
    assert(b[0] == '/');
    assert(!wrapped_quote(b)) by {
        if b.len() >= 2 {
            assert(b[0] == '/');
        }
    }
    assert(has_prefix(b, seq!['/'])) by {
        assert(b.take(1) =~= seq!['/']);
    }
    assert(!has_suffix(b, seq!['/'])) by {
        if has_suffix(b, seq!['/']) {
            assert(b.skip(b.len() - 1)[0] == b.last());
            assert(b.last() == w.last());
        }
    }
    assert(trim_start(b, '/') == w) by {
        assert(b.drop_first() =~= w);
        assert(trim_start(w, '/') == w);
    }
    // `w/`
    assert(c[0] == w[0]);
    assert(!wrapped_quote(c)) by {
        assert(c.last() == '/');
    }
    assert(!has_prefix(c, seq!['/'])) by {
        if has_prefix(c, seq!['/']) {
            assert(c.take(1)[0] == c[0]);
        }
    }
    assert(has_suffix(c, seq!['/'])) by {
        assert(c.skip(c.len() - 1) =~= seq!['/']);
    }
    assert(c != seq!['/']) by {
        assert(c.len() >= 2);
    }
    assert(trim_end(c, '/') == w) by {
        assert(c.drop_last() =~= w);
        assert(trim_end(w, '/') == w);
    }
    // quoted check for the plain word
    assert(!wrapped_quote(w));
}

/// The shorthand forms of the search-dir matrix for a plain word `w`
/// other than `.` that names no existing directory, with `F` its regex
/// fragment: `w` contains (`F`), `/w/` is exact (`^F$`), `/w` starts
/// (`^F`), `w/` ends (`F$`).
pub proof fn law_search_dir_shorthands(w: Seq<char>)
    requires
        plain_word(w),
        w != seq!['.'],
    ensures
        search_dir_spec(w, false, false, None, None) == (false, regex_fragment(w)),
        search_dir_spec(seq!['/'] + w + seq!['/'], false, false, None, None) == (false, seq!['^'] + regex_fragment(w) + seq!['$']),
        search_dir_spec(seq!['/'] + w, false, false, None, None) == (false, seq!['^'] + regex_fragment(w)),
        search_dir_spec(w + seq!['/'], false, false, None, None) == (false, regex_fragment(w) + seq!['$']),
{
    law_search_matrix_shorthands(w);
    let a = seq!['/'] + w + seq!['/'];
    let b = seq!['/'] + w;
    let c = w + seq!['/'];
    assert(w[0] != '/') by {
        assert(w.contains(w[0]));
    }
    assert(w.last() != '/') by {
        assert(w[w.len() - 1] == w.last());
    }
    assert(!has_prefix(w, seq!['/'])) by {
        if has_prefix(w, seq!['/']) {
            assert(w.take(1)[0] == w[0]);
        }
    }
    assert(!has_suffix(w, seq!['/'])) by {
        if has_suffix(w, seq!['/']) {
            assert(w.skip(w.len() - 1)[0] == w.last());
        }
    }
    assert(!has_prefix(w, seq!['.', '/'])) by {
        if has_prefix(w, seq!['.', '/']) {
            assert(w.take(2)[1] == w[1]);
            assert(w.contains(w[1]));
        }
    }
    assert(trim_end(w, '/') == w);
    assert(normalized_dir(w) == w);
    assert(has_prefix(a, seq!['/'])) by {
        assert(a.take(1) =~= seq!['/']);
    }
    assert(has_suffix(a, seq!['/'])) by {
        assert(a.skip(a.len() - 1) =~= seq!['/']);
    }
    assert(a.subrange(1, a.len() - 1) =~= w);
    assert(!wrapped_quote(a));
    assert(has_prefix(b, seq!['/'])) by {
        assert(b.take(1) =~= seq!['/']);
    }
    assert(!has_suffix(b, seq!['/'])) by {
        if has_suffix(b, seq!['/']) {
            assert(b.skip(b.len() - 1)[0] == b.last());
            assert(b.last() == w.last());
        }
    }
    assert(!has_prefix(b, seq!['.', '/'])) by {
        if has_prefix(b, seq!['.', '/']) {
            assert(b.take(2)[0] == b[0]);
        }
    }
    assert(trim_start(b, '/') == w) by {
        assert(b.drop_first() =~= w);
        assert(trim_start(w, '/') == w);
    }
    assert(!wrapped_quote(b)) by {
        if b.len() >= 2 {
            assert(b[0] == '/');
        }
    }
    assert(c[0] == w[0]);
    assert(!wrapped_quote(c)) by {
        assert(c.last() == '/');
    }
    assert(!has_prefix(c, seq!['/'])) by {
        if has_prefix(c, seq!['/']) {
            assert(c.take(1)[0] == c[0]);
        }
    }
    assert(!has_prefix(c, seq!['.', '/'])) by {
        if has_prefix(c, seq!['.', '/']) {
            assert(c.take(2)[0] == c[0]);
            assert(c.take(2)[1] == c[1]);
            if w.len() == 1 {
                assert(w =~= seq!['.']);
            } else {
                assert(c[1] == w[1]);
                assert(w.contains(w[1]));
            }
        }
    }
    assert(has_suffix(c, seq!['/'])) by {
        assert(c.skip(c.len() - 1) =~= seq!['/']);
    }
    assert(c != seq!['/']) by {
        assert(c.len() >= 2);
    }
    assert(trim_end(c, '/') == w) by {
        assert(c.drop_last() =~= w);
    }
    assert(!wrapped_quote(w));
}


/// A word taken as literal text outside regex mode: not quoted, with no
/// `/`, `*` or `\`, and not holding the marker text that protects escaped
/// stars.
pub open spec fn literal_word(w: Seq<char>) -> bool {
    &&& w.len() > 0
    &&& !wrapped_quote(w)
    &&& !w.contains('/')
    &&& !w.contains('*')
    &&& !w.contains('\\')
    &&& !has_infix(w, star_placeholder())
}

/// Text with no backslash and no regex meta character.
spec fn plain_text(t: Seq<char>) -> bool {
    forall|k: int| 0 <= k < t.len() ==> t[k] != '\\' && !is_regex_meta(#[trigger] t[k])
}

proof fn lemma_replace_absent(x: Seq<char>, p: Seq<char>, r: Seq<char>)
    requires
        p.len() > 0,
        !has_infix(x, p),
    ensures
        replace_all(x, p, r) == x,
    decreases x.len(),
{
    if x.len() >= p.len() {
        assert(!has_prefix(x, p)) by {
            if has_prefix(x, p) {
                assert(occurs_at(x, p, 0));
            }
        }
        assert(!has_infix(x.drop_first(), p)) by {
            if has_infix(x.drop_first(), p) {
                let i = choose|i: int| occurs_at(x.drop_first(), p, i);
                assert(x.drop_first().subrange(i, i + p.len()) =~= x.subrange(i + 1, i + 1 + p.len()));
                assert(occurs_at(x, p, i + 1));
            }
        }
        lemma_replace_absent(x.drop_first(), p, r);
        assert(seq![x[0]] + x.drop_first() =~= x);
    }
}

proof fn lemma_escape_no_char(s: Seq<char>, c: char)
    requires
        !s.contains(c),
        c != '\\',
    ensures
        !escape_keep_star(s).contains(c),
    decreases s.len(),
{
    if s.len() > 0 {
        let s2 = s.drop_last();
        assert(!s2.contains(c)) by {
            if s2.contains(c) {
                let j = choose|j: int| 0 <= j < s2.len() && s2[j] == c;
                assert(s[j] == c);
            }
        }
        assert(s.last() != c) by {
            assert(s[s.len() - 1] == s.last());
        }
        lemma_escape_no_char(s2, c);
        let e2 = escape_keep_star(s2);
        let t = if is_regex_meta(s.last()) { seq!['\\', s.last()] } else { seq![s.last()] };
        assert(escape_keep_star(s) == e2 + t);
        if (e2 + t).contains(c) {
            let k = choose|k: int| 0 <= k < (e2 + t).len() && (e2 + t)[k] == c;
            if k < e2.len() {
                assert(e2[k] == c);
            } else {
                assert(t[k - e2.len()] == c);
            }
        }
    }
}

proof fn lemma_escape_suffix(s: Seq<char>, t: Seq<char>)
    requires
        plain_text(t),
        has_suffix(escape_keep_star(s), t),
    ensures
        has_suffix(s, t),
    decreases s.len(),
{
    if t.len() == 0 {
        assert(s.subrange(s.len() as int, s.len() as int) =~= t);
    } else {
        let e = escape_keep_star(s);
        assert(e.len() > 0);
        let s2 = s.drop_last();
        let c = s.last();
        let e2 = escape_keep_star(s2);
        assert(e[e.len() - 1] == t[t.len() - 1]) by {
            assert(e.subrange(e.len() - t.len(), e.len() as int)[t.len() - 1] == e[e.len() - 1]);
        }
        if is_regex_meta(c) {
            assert(e == e2 + seq!['\\', c]);
            assert(e[e.len() - 1] == c);
            assert(!is_regex_meta(t[t.len() - 1]));
        } else {
            assert(e == e2 + seq![c]);
            let t2 = t.drop_last();
            assert(plain_text(t2)) by {
                assert forall|k: int| 0 <= k < t2.len() implies t2[k] != '\\' && !is_regex_meta(#[trigger] t2[k]) by {
                    assert(t2[k] == t[k]);
                }
            }
            assert(e2.subrange(e2.len() - t2.len(), e2.len() as int) =~= e.subrange(e.len() - t.len(), e.len() as int).drop_last());
            lemma_escape_suffix(s2, t2);
            assert(s.subrange(s.len() - t.len(), s.len() as int) =~= s2.subrange(s2.len() - t2.len(), s2.len() as int).push(c));
            assert(t =~= t2.push(t[t.len() - 1]));
        }
    }
}

proof fn lemma_escape_infix(s: Seq<char>, t: Seq<char>)
    requires
        plain_text(t),
        t.len() > 0,
        has_infix(escape_keep_star(s), t),
    ensures
        has_infix(s, t),
    decreases s.len(),
{
    let e = escape_keep_star(s);
    let i = choose|i: int| occurs_at(e, t, i);
    assert(s.len() > 0);
    let s2 = s.drop_last();
    let c = s.last();
    let e2 = escape_keep_star(s2);
    let tail = if is_regex_meta(c) { seq!['\\', c] } else { seq![c] };
    assert(e == e2 + tail);
    if i + t.len() <= e2.len() {
        assert(e2.subrange(i, i + t.len()) =~= e.subrange(i, i + t.len()));
        assert(occurs_at(e2, t, i));
        lemma_escape_infix(s2, t);
        let j = choose|j: int| occurs_at(s2, t, j);
        assert(s.subrange(j, j + t.len()) =~= s2.subrange(j, j + t.len()));
        assert(occurs_at(s, t, j));
    } else if is_regex_meta(c) {
        if i <= e2.len() {
            assert(t[e2.len() - i] == e.subrange(i, i + t.len())[e2.len() - i]);
            assert(e[e2.len() as int] == '\\');
        } else {
            assert(t[0] == e[i]);
            assert(e[i] == c);
        }
    } else {
        assert(i + t.len() == e.len());
        assert(has_suffix(e, t));
        lemma_escape_suffix(s, t);
        assert(occurs_at(s, t, s.len() - t.len()));
    }
}

/// A literal word's regex is the word with its meta characters escaped.
proof fn lemma_literal_regex(w: Seq<char>)
    requires
        literal_word(w),
    ensures
        name_pattern_spec(w, false) == (None::<TypeFlag>, escape_keep_star(w)),
{
    assert(w[0] != '/') by {
        assert(w.contains(w[0]));
    }
    assert(w.last() != '/') by {
        assert(w[w.len() - 1] == w.last());
    }
    assert(!has_prefix(w, seq!['/'])) by {
        if has_prefix(w, seq!['/']) {
            assert(w.take(1)[0] == w[0]);
        }
    }
    assert(!has_suffix(w, seq!['/'])) by {
        if has_suffix(w, seq!['/']) {
            assert(w.skip(w.len() - 1)[0] == w.last());
        }
    }
    let e = escape_keep_star(w);
    lemma_escape_no_char(w, '*');
    assert(!has_infix(e, backslash_star())) by {
        if has_infix(e, backslash_star()) {
            let i = choose|i: int| occurs_at(e, backslash_star(), i);
            assert(e.subrange(i, i + 2)[1] == e[i + 1]);
            assert(e.contains(e[i + 1]));
        }
    }
    lemma_replace_absent(e, backslash_star(), star_placeholder());
    assert(!has_infix(e, seq!['*'])) by {
        if has_infix(e, seq!['*']) {
            let i = choose|i: int| occurs_at(e, seq!['*'], i);
            assert(e.subrange(i, i + 1)[0] == e[i]);
            assert(e.contains(e[i]));
        }
    }
    lemma_replace_absent(e, seq!['*'], dot_star());
    assert(plain_text(star_placeholder()));
    assert(!has_infix(e, star_placeholder())) by {
        if has_infix(e, star_placeholder()) {
            lemma_escape_infix(w, star_placeholder());
        }
    }
    lemma_replace_absent(e, star_placeholder(), backslash_star());
}

proof fn lemma_escape_concat(a: Seq<char>, b: Seq<char>)
    ensures
        escape_keep_star(a + b) == escape_keep_star(a) + escape_keep_star(b),
    decreases b.len(),
{
    if b.len() == 0 {
        assert(a + b =~= a);
    } else {
        lemma_escape_concat(a, b.drop_last());
        assert((a + b).drop_last() =~= a + b.drop_last());
        assert((a + b).last() == b.last());
    }
}

/// One character of a plain word stands for itself: each of
/// `[ ] ( ) { } . ^ $ | + ?` gets a backslash before it, any other
/// character is left as it is.
pub proof fn law_plain_char_is_literal(c: char)
    requires
        c != '/' && c != '*' && c != '\\',
    ensures
        name_pattern_spec(seq![c], false) == (None::<TypeFlag>, if c == '[' || c == ']' || c == '(' || c == ')'
            || c == '{' || c == '}' || c == '.' || c == '^' || c == '$' || c == '|' || c == '+' || c == '?' {
            seq!['\\', c]
        } else {
            seq![c]
        }),
{
    let w = seq![c];
    assert(!w.contains('/') && !w.contains('*') && !w.contains('\\')) by {
        if w.contains('/') || w.contains('*') || w.contains('\\') {
            let j = choose|j: int| 0 <= j < w.len() && (w[j] == '/' || w[j] == '*' || w[j] == '\\');
            assert(w[j] == c);
        }
    }
    assert(!has_infix(w, star_placeholder())) by {
        if has_infix(w, star_placeholder()) {
            let i = choose|i: int| occurs_at(w, star_placeholder(), i);
        }
    }
    lemma_literal_regex(w);
    assert(w.drop_last() =~= Seq::<char>::empty());
    assert(w.last() == c);
    assert(escape_keep_star(w.drop_last()) == Seq::<char>::empty());
    if is_regex_meta(c) {
        assert(escape_keep_star(w) =~= seq!['\\', c]);
    } else {
        assert(escape_keep_star(w) =~= seq![c]);
    }
}

/// A plain word is matched as literal text, piece by piece: the regex of
/// two literal words written together is the regex of the first followed
/// by the regex of the second (so with `law_plain_char_is_literal` the
/// regex of a word is its characters, each escaped where it is a meta
/// character, in order).
pub proof fn law_plain_words_concatenate(a: Seq<char>, b: Seq<char>)
    requires
        literal_word(a),
        literal_word(b),
        literal_word(a + b),
    ensures
        name_pattern_spec(a + b, false).0 is None,
        name_pattern_spec(a + b, false).1 == name_pattern_spec(a, false).1 + name_pattern_spec(b, false).1,
{
    lemma_literal_regex(a);
    lemma_literal_regex(b);
    lemma_literal_regex(a + b);
    lemma_escape_concat(a, b);
}

} // verus!
