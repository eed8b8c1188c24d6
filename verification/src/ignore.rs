//! Ignore rules: the lines of `.gitignore`, `.ignore` and `.fdignore` in a
//! directory, applied to the entries read from that directory. A line is a
//! glob pattern (`*`, `?`, `[...]` classes with ranges and `!`/`^`
//! negation, `\` escapes, `**`); a leading `!` re-includes what it matches,
//! a trailing `/` restricts it to directories, a leading `/` anchors it to
//! the directory, and leading `**/` match at any depth. A pattern with a
//! `/` inside names a deeper path and never matches an entry read here.
//! The last rule that matches an entry decides.
use vstd::prelude::*;
use crate::text::{has_prefix, has_suffix, trim_end, trim_ws, lines_spec, chars_of, lines_of,
    trim_whitespace, starts_with_char, ends_with_char, trim_end_char, contains_char, slice_chars};

verus! {

/// One rule: the glob an entry's name must match, whether it re-includes,
/// and whether it is for directories only.
struct IgnoreRule {
    glob: Vec<char>,
    negated: bool,
    dir_only: bool,
}

/// The rules of the ignore files of one directory, in the order they were
/// read.
pub struct IgnoreRules {
    rules: Vec<IgnoreRule>,
}

/// A rule as (glob, re-includes, directories only).
spec fn rule_view(r: IgnoreRule) -> (Seq<char>, bool, bool) {
    (r.glob@, r.negated, r.dir_only)
}

impl IgnoreRules {
    /// The rules, in order.
    pub closed spec fn rules(&self) -> Seq<(Seq<char>, bool, bool)> {
        self.rules@.map_values(|r: IgnoreRule| rule_view(r))
    }

    /// No rules.
    pub fn new() -> (r: IgnoreRules)
        ensures
            r.rules() == Seq::<(Seq<char>, bool, bool)>::empty(),
    {
        let r = IgnoreRules { rules: Vec::new() };
        assert(r.rules() =~= Seq::<(Seq<char>, bool, bool)>::empty());
        r
    }
}

/// The pattern with its leading `**/` taken off.
pub open spec fn strip_globstar(p: Seq<char>) -> Seq<char>
    decreases p.len(),
{
    if p.len() >= 3 && p[0] == '*' && p[1] == '*' && p[2] == '/' {
        strip_globstar(p.skip(3))
    } else {
        p
    }
}

/// The glob that the name of an entry read in the directory must match:
/// the pattern without a leading `/` and without leading `**/`.
pub open spec fn name_glob(pat: Seq<char>) -> Seq<char> {
    strip_globstar(if has_prefix(pat, seq!['/']) { pat.drop_first() } else { pat })
}

/// The rule one line of an ignore file gives: the line is trimmed; blank
/// lines and comments (`#`) give none; a leading `!` re-includes; trailing
/// `/` mark a directory rule; a pattern that is empty, or whose glob is
/// empty or holds a `/`, gives none.
pub open spec fn ignore_line_rule(raw: Seq<char>) -> Option<(Seq<char>, bool, bool)> {
    let line = trim_ws(raw);
    if line.len() == 0 || has_prefix(line, seq!['#']) {
        None
    } else {
        let negated = has_prefix(line, seq!['!']);
        let body = if negated { line.drop_first() } else { line };
        let dir_only = has_suffix(body, seq!['/']);
        let pat = if dir_only { trim_end(body, '/') } else { body };
        let g = name_glob(pat);
        if pat.len() == 0 || g.len() == 0 || g.contains('/') {
            None
        } else {
            Some((g, negated, dir_only))
        }
    }
}

/// The rules that a list of lines gives, in order.
pub open spec fn rules_of(lines: Seq<Seq<char>>) -> Seq<(Seq<char>, bool, bool)>
    decreases lines.len(),
{
    if lines.len() == 0 {
        seq![]
    } else {
        rules_of(lines.drop_last()) + match ignore_line_rule(lines.last()) {
            Some(r) => seq![r],
            None => seq![],
        }
    }
}

/// The first `]` in `p` at or after `k` (the length of `p` when there is
/// none).
pub open spec fn find_close(p: Seq<char>, k: int) -> int
    decreases p.len() - k,
{
    if k >= p.len() {
        p.len() as int
    } else if p[k] == ']' {
        k
    } else {
        find_close(p, k + 1)
    }
}

pub proof fn lemma_find_close(p: Seq<char>, k: int)
    requires
        0 <= k,
    ensures
        k <= find_close(p, k) || (k > p.len() && find_close(p, k) == p.len()),
        find_close(p, k) <= p.len() || k > p.len(),
        find_close(p, k) < p.len() ==> p[find_close(p, k)] == ']',
    decreases p.len() - k,
{
    if k < p.len() && p[k] != ']' {
        lemma_find_close(p, k + 1);
    }
}

/// Where the members of a class opened by `[` at `i` begin: after a `!`
/// or `^` that negates it.
pub open spec fn class_start(p: Seq<char>, i: int) -> int {
    if i + 1 < p.len() && (p[i + 1] == '!' || p[i + 1] == '^') {
        i + 2
    } else {
        i + 1
    }
}

/// The class members `p[a..b]` hold `c`: a member is one character or a
/// range `x-y`.
pub open spec fn class_has(p: Seq<char>, a: int, b: int, c: char) -> bool
    decreases b - a,
{
    if a >= b {
        false
    } else if a + 2 < b && p[a + 1] == '-' {
        ((p[a] as u32) <= (c as u32) && (c as u32) <= (p[a + 2] as u32)) || class_has(p, a + 3, b, c)
    } else {
        p[a] == c || class_has(p, a + 1, b, c)
    }
}

/// The glob `p` from position `i` on matches `s` from position `j` on: `*`
/// any run of characters, `?` any one, a class `[...]` (closed by the
/// first `]` after its first member) one of its members or, negated, any
/// other, `\` the character after it, anything else itself.
pub open spec fn glob_at(p: Seq<char>, i: int, s: Seq<char>, j: int) -> bool
    decreases p.len() - i, s.len() - j,
{
    if i >= p.len() || i < 0 {
        j >= s.len()
    } else if p[i] == '*' {
        glob_at(p, i + 1, s, j) || (j < s.len() && glob_at(p, i, s, j + 1))
    } else if p[i] == '?' {
        j < s.len() && glob_at(p, i + 1, s, j + 1)
    } else if p[i] == '[' && find_close(p, class_start(p, i) + 1) < p.len() {
        let e = find_close(p, class_start(p, i) + 1);
        proof {
            lemma_find_close(p, class_start(p, i) + 1);
        }
        j < s.len() && class_has(p, class_start(p, i), e, s[j]) != (class_start(p, i) == i + 2)
            && glob_at(p, e + 1, s, j + 1)
    } else if p[i] == '\\' && i + 1 < p.len() {
        j < s.len() && s[j] == p[i + 1] && glob_at(p, i + 2, s, j + 1)
    } else {
        j < s.len() && s[j] == p[i] && glob_at(p, i + 1, s, j + 1)
    }
}

/// The glob matches the whole name.
pub open spec fn glob_match(p: Seq<char>, s: Seq<char>) -> bool {
    glob_at(p, 0, s, 0)
}

/// The rule applies to an entry with this name.
pub open spec fn rule_matches(r: (Seq<char>, bool, bool), name: Seq<char>, is_dir: bool) -> bool {
    (!r.2 || is_dir) && glob_match(r.0, name)
}

/// The entry is ignored: the last rule that applies to it does not
/// re-include it (none applying, it is kept).
pub open spec fn ignored_by(rules: Seq<(Seq<char>, bool, bool)>, name: Seq<char>, is_dir: bool) -> bool
    decreases rules.len(),
{
    if rules.len() == 0 {
        false
    } else if rule_matches(rules.last(), name, is_dir) {
        !rules.last().1
    } else {
        ignored_by(rules.drop_last(), name, is_dir)
    }
}

/// The entry is ignored by the rules.
pub open spec fn ignored_spec(rules: IgnoreRules, name: Seq<char>, is_dir: bool) -> bool {
    ignored_by(rules.rules(), name, is_dir)
}

fn find_close_exec(p: &[char], k: usize) -> (r: usize)
    ensures
        r == find_close(p@, k as int),
    decreases p.len() - k,
{
    if k >= p.len() {
        p.len()
    } else if p[k] == ']' {
        k
    } else {
        find_close_exec(p, k + 1)
    }
}

fn class_has_exec(p: &[char], a: usize, b: usize, c: char) -> (r: bool)
    requires
        b <= p.len(),
    ensures
        r == class_has(p@, a as int, b as int, c),
    decreases b - a,
{
    if a >= b {
        false
    } else if b - a > 2 && p[a + 1] == '-' {
        ((p[a] as u32) <= (c as u32) && (c as u32) <= (p[a + 2] as u32)) || class_has_exec(p, a + 3, b, c)
    } else {
        p[a] == c || class_has_exec(p, a + 1, b, c)
    }
}

fn glob_at_exec(p: &[char], i: usize, s: &[char], j: usize) -> (r: bool)
    requires
        i <= p.len(),
        j <= s.len(),
    ensures
        r == glob_at(p@, i as int, s@, j as int),
    decreases p.len() - i, s.len() - j,
{
    if i >= p.len() {
        j >= s.len()
    } else if p[i] == '*' {
        glob_at_exec(p, i + 1, s, j) || (j < s.len() && glob_at_exec(p, i, s, j + 1))
    } else if p[i] == '?' {
        j < s.len() && glob_at_exec(p, i + 1, s, j + 1)
    } else {
        let cs: usize = if i + 1 < p.len() && (p[i + 1] == '!' || p[i + 1] == '^') {
            i + 2
        } else {
            i + 1
        };
        assert(cs == class_start(p@, i as int));
        let e = if p[i] == '[' && cs < p.len() {
            find_close_exec(p, cs + 1)
        } else {
            p.len()
        };
        proof {
            lemma_find_close(p@, cs + 1);
        }
        if p[i] == '[' && e < p.len() {
            j < s.len() && class_has_exec(p, cs, e, s[j]) != (cs == i + 2) && glob_at_exec(p, e + 1, s, j + 1)
        } else if p[i] == '\\' && i + 1 < p.len() {
            j < s.len() && s[j] == p[i + 1] && glob_at_exec(p, i + 2, s, j + 1)
        } else {
            j < s.len() && s[j] == p[i] && glob_at_exec(p, i + 1, s, j + 1)
        }
    }
}

fn strip_globstar_exec(p: &[char]) -> (r: Vec<char>)
    ensures
        r@ == strip_globstar(p@),
{
    let mut k: usize = 0;
    assert(p@.skip(0) =~= p@);
    while p.len() - k >= 3 && p[k] == '*' && p[k + 1] == '*' && p[k + 2] == '/'
        invariant
            k <= p.len(),
            strip_globstar(p@.skip(k as int)) == strip_globstar(p@),
        decreases p.len() - k,
    {
        assert(p@.skip(k as int).skip(3) =~= p@.skip(k + 3));
        k = k + 3;
    }
    assert(p@.skip(k as int) =~= p@.subrange(k as int, p.len() as int));
    slice_chars(p, k, p.len())
}

fn line_rule(raw: &[char]) -> (r: Option<IgnoreRule>)
    ensures
        match r {
            Some(x) => ignore_line_rule(raw@) == Some(rule_view(x)),
            None => ignore_line_rule(raw@) is None,
        },
{
    let line = trim_whitespace(raw);
    let l = line.as_slice();
    if l.len() == 0 || starts_with_char(l, '#') {
        return None;
    }
    let negated = starts_with_char(l, '!');
    let body = if negated {
        slice_chars(l, 1, l.len())
    } else {
        line.clone()
    };
    assert(negated ==> body@ =~= l@.drop_first());
    let dir_only = ends_with_char(body.as_slice(), '/');
    let pat = if dir_only {
        trim_end_char(body.as_slice(), '/')
    } else {
        body.clone()
    };
    let pt = pat.as_slice();
    let anchored = starts_with_char(pt, '/');
    let rel = if anchored {
        slice_chars(pt, 1, pt.len())
    } else {
        pat.clone()
    };
    assert(anchored ==> rel@ =~= pt@.drop_first());
    let g = strip_globstar_exec(rel.as_slice());
    if pt.len() == 0 || g.len() == 0 || contains_char(g.as_slice(), '/') {
        return None;
    }
    Some(IgnoreRule { glob: g, negated, dir_only })
}

/// Adds the rules that the text of one ignore file gives, after those
/// already held.
pub fn add_ignore_content(rules: &mut IgnoreRules, content: &str)
    ensures
        final(rules).rules() == old(rules).rules() + rules_of(lines_spec(content@)),
{
    let cc = chars_of(content);
    let lines = lines_of(cc.as_slice());
    let ghost ls = lines_spec(content@);
    let ghost start = rules.rules();
    for k in 0..lines.len()
        invariant
            lines@.len() == ls.len(),
            forall|j: int| 0 <= j < ls.len() ==> #[trigger] lines@[j]@ == ls[j],
            ls == lines_spec(content@),
            rules.rules() == start + rules_of(ls.take(k as int)),
    {
        let ghost before = rules.rules();
        assert(ls.take(k + 1).drop_last() =~= ls.take(k as int));
        assert(ls.take(k + 1).last() == ls[k as int]);
        match line_rule(lines[k].as_slice()) {
            Some(x) => {
                rules.rules.push(x);
                assert(rules.rules() =~= before + seq![rule_view(x)]);
            },
            None => {},
        }
        assert(rules.rules() =~= start + rules_of(ls.take(k + 1)));
    }
    assert(ls.take(lines.len() as int) =~= ls);
}

/// The ignore files read in each directory, in order.
pub fn ignore_file_names() -> (r: Vec<String>)
    ensures
        r@.len() == 3,
        r@[0]@ == ".gitignore"@,
        r@[1]@ == ".ignore"@,
        r@[2]@ == ".fdignore"@,
{
    let mut r: Vec<String> = Vec::new();
    r.push(String::from_str(".gitignore"));
    r.push(String::from_str(".ignore"));
    r.push(String::from_str(".fdignore"));
    r
}

/// Whether an entry read in the directory is ignored: the last rule that
/// applies to it decides, and with none it is kept.
pub fn is_ignored_name(name: &str, is_dir: bool, rules: &IgnoreRules) -> (r: bool)
    ensures
        r == ignored_spec(*rules, name@, is_dir),
{
    let n = chars_of(name);
    let ns = n.as_slice();
    let mut k: usize = rules.rules.len();
    let ghost rv = rules.rules();
    assert(rv.take(k as int) =~= rv);
    while k > 0
        invariant
            k <= rules.rules.len(),
            rv == rules.rules(),
            ns@ == name@,
            ignored_by(rv, name@, is_dir) == ignored_by(rv.take(k as int), name@, is_dir),
        decreases k,
    {
        let r = &rules.rules[k - 1];
        assert(rv[k - 1] == rule_view(*r));
        assert(rv.take(k as int).last() == rv[k - 1]);
        assert(rv.take(k as int).drop_last() =~= rv.take(k - 1));
        if (!r.dir_only || is_dir) && glob_at_exec(r.glob.as_slice(), 0, ns, 0) {
            return !r.negated;
        }
        k = k - 1;
    }
    false
}

} // verus!
