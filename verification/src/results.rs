//! Search results: ordering, filtering by further patterns, pruning of
//! results inside matched directories, absolute display paths, and the
//! per-folder summary.
use vstd::prelude::*;
use crate::text::{has_prefix, has_suffix, trim_end, strip_prefix_all, chars_of, string_of,
    push_all, starts_with_char, ends_with_char, trim_end_char, strip_prefix_all_chars,
    starts_with, slice_chars, eq_chars};
use crate::order::{is_stable_order, keys_view, stable_order, text_key, text_key_of};
use crate::matcher::{Matcher, regex_is_match, matcher_is_match};
use crate::number::{decimal, pad_left, u64_to_decimal, pad_left_chars};
use crate::options::{SortField, SortOrder};

verus! {

/// The metadata of an entry that ordering and rendering read: its length,
/// its modification time (seconds since the epoch, 0 when unknown, and as
/// local text), its permission bits, and its type.
pub struct EntryMeta {
    pub len: u64,
    pub mtime_secs: u64,
    pub mtime_text: String,
    pub mode: u32,
    pub is_dir: bool,
    pub is_fifo: bool,
    pub is_socket: bool,
}

impl EntryMeta {
    /// A copy.
    pub fn duplicate(&self) -> (r: EntryMeta)
        ensures
            r == *self,
    {
        EntryMeta {
            len: self.len,
            mtime_secs: self.mtime_secs,
            mtime_text: self.mtime_text.clone(),
            mode: self.mode,
            is_dir: self.is_dir,
            is_fifo: self.is_fifo,
            is_socket: self.is_socket,
        }
    }
}

/// One match: its path (directories end in `/`), whether it is a directory
/// and a symbolic link, and its metadata when it was read.
pub struct SearchResult {
    pub path: String,
    pub is_dir: bool,
    pub is_symlink: bool,
    pub meta: Option<EntryMeta>,
}

impl SearchResult {
    /// A copy.
    pub fn duplicate(&self) -> (r: SearchResult)
        ensures
            r == *self,
    {
        SearchResult {
            path: self.path.clone(),
            is_dir: self.is_dir,
            is_symlink: self.is_symlink,
            meta: match &self.meta {
                Some(m) => Some(m.duplicate()),
                None => None,
            },
        }
    }
}

/// The items in the order `p` lists their indices.
pub open spec fn permuted<T>(items: Seq<T>, p: Seq<usize>) -> Seq<T> {
    Seq::new(p.len(), |k: int| items[p[k] as int])
}

/// `out` is `items` in stable order of `keys`.
pub open spec fn stably_sorted(items: Seq<SearchResult>, keys: Seq<Seq<u64>>, desc: bool, out: Seq<SearchResult>) -> bool {
    exists|p: Seq<usize>| is_stable_order(keys, desc, p) && out == permuted(items, p)
}

fn reorder(items: &Vec<SearchResult>, p: &Vec<usize>) -> (r: Vec<SearchResult>)
    requires
        forall|k: int| 0 <= k < p.len() ==> #[trigger] p[k] < items.len(),
    ensures
        r@ == permuted(items@, p@),
{
    let mut r: Vec<SearchResult> = Vec::new();
    for k in 0..p.len()
        invariant
            forall|q: int| 0 <= q < p.len() ==> #[trigger] p[q] < items.len(),
            r@ == permuted(items@, p@.take(k as int)),
    {
        r.push(items[p[k]].duplicate());
        assert(r@ =~= permuted(items@, p@.take(k + 1)));
    }
    assert(p@.take(p.len() as int) =~= p@);
    r
}

/// Orders items stably by the given keys.
pub fn sort_by_keys(items: Vec<SearchResult>, keys: &Vec<Vec<u64>>, desc: bool) -> (r: Vec<SearchResult>)
    requires
        keys.len() == items.len(),
    ensures
        stably_sorted(items@, keys_view(keys@), desc, r@),
{
    let p = stable_order(keys, desc);
    let r = reorder(&items, &p);
    r
}

/// The path keys of results: their code points.
pub open spec fn path_keys(items: Seq<SearchResult>) -> Seq<Seq<u64>> {
    items.map_values(|x: SearchResult| text_key(x.path@))
}

/// Results in order of their paths (by code point; equal paths keep their
/// order).
pub fn sort_rows_by_path(rows: Vec<SearchResult>) -> (r: Vec<SearchResult>)
    ensures
        stably_sorted(rows@, path_keys(rows@), false, r@),
{
    let mut keys: Vec<Vec<u64>> = Vec::new();
    for k in 0..rows.len()
        invariant
            keys.len() == k,
            forall|q: int| 0 <= q < k ==> #[trigger] keys@[q]@ == text_key(rows@[q].path@),
    {
        keys.push(text_key_of(chars_of(rows[k].path.as_str()).as_slice()));
    }
    assert(keys_view(keys@) =~= path_keys(rows@));
    sort_by_keys(rows, &keys, false)
}

/// The text after the last `/` of `s`, or all of `s` when it has none.
pub open spec fn after_last_slash(s: Seq<char>) -> Seq<char>
    decreases s.len(),
{
    if s.len() == 0 {
        s
    } else if s.last() == '/' {
        seq![]
    } else {
        after_last_slash(s.drop_last()).push(s.last())
    }
}

/// The last component of a path, trailing slashes ignored.
pub open spec fn base_name(path: Seq<char>) -> Seq<char> {
    after_last_slash(trim_end(path, '/'))
}

/// The last component of a path, trailing slashes ignored.
pub fn base_name_of(path: &[char]) -> (r: Vec<char>)
    ensures
        r@ == base_name(path@),
{
    let t = trim_end_char(path, '/');
    let mut k: usize = t.len();
    assert(t@.take(t@.len() as int) =~= t@);
    assert(t@.skip(t@.len() as int) =~= seq![]);
    assert(t@ + seq![] =~= t@);
    while k > 0 && t[k - 1] != '/'
        invariant
            k <= t.len(),
            after_last_slash(t@) == after_last_slash(t@.take(k as int)) + t@.skip(k as int),
        decreases k,
    {
        assert(t@.take(k as int).drop_last() =~= t@.take(k - 1));
        assert(t@.skip(k - 1) =~= seq![t@[k - 1]] + t@.skip(k as int));
        assert(after_last_slash(t@.take(k - 1)).push(t@[k - 1]) + t@.skip(k as int) =~= after_last_slash(t@.take(k - 1)) + t@.skip(k - 1));
        k = k - 1;
    }
    assert(after_last_slash(t@.take(k as int)) =~= seq![]) by {
        if k > 0 {
        }
    }
    assert(t@.take(t@.len() as int) =~= t@);
    assert(seq![] + t@.skip(k as int) =~= t@.skip(k as int));
    let r = slice_chars(t.as_slice(), k, t.len());
    assert(r@ =~= t@.skip(k as int));
    r
}

/// A result passes a further pattern: the pattern matches its whole path
/// in full-path mode, else its last component.
pub open spec fn row_passes(path: Seq<char>, pattern: Seq<char>, ci: bool, full: bool) -> bool {
    if full {
        regex_is_match(pattern, ci, path)
    } else {
        regex_is_match(pattern, ci, base_name(path))
    }
}

/// The results that pass a further pattern, in order.
pub open spec fn keep_passing(rows: Seq<SearchResult>, pattern: Seq<char>, ci: bool, full: bool) -> Seq<SearchResult>
    decreases rows.len(),
{
    if rows.len() == 0 {
        seq![]
    } else {
        keep_passing(rows.drop_last(), pattern, ci, full) + if row_passes(rows.last().path@, pattern, ci, full) {
            seq![rows.last()]
        } else {
            seq![]
        }
    }
}

fn passes(row: &SearchResult, re: &Matcher, full: bool) -> (r: bool)
    ensures
        r == row_passes(row.path@, re.pattern(), re.ci(), full),
{
    if full {
        matcher_is_match(re, row.path.as_str())
    } else {
        let b = base_name_of(chars_of(row.path.as_str()).as_slice());
        matcher_is_match(re, string_of(b.as_slice()).as_str())
    }
}

/// The results that pass a further pattern, in order.
pub fn filter_rows(rows: Vec<SearchResult>, re: &Matcher, full: bool) -> (r: Vec<SearchResult>)
    ensures
        r@ == keep_passing(rows@, re.pattern(), re.ci(), full),
{
    let mut r: Vec<SearchResult> = Vec::new();
    for k in 0..rows.len()
        invariant
            r@ == keep_passing(rows@.take(k as int), re.pattern(), re.ci(), full),
    {
        assert(rows@.take(k + 1).drop_last() =~= rows@.take(k as int));
        if passes(&rows[k], re, full) {
            r.push(rows[k].duplicate());
        }
        assert(r@ =~= keep_passing(rows@.take(k + 1), re.pattern(), re.ci(), full));
    }
    assert(rows@.take(rows.len() as int) =~= rows@);
    r
}

/// Some pattern of the list matches the text.
pub open spec fn any_matches(patterns: Seq<(Seq<char>, bool)>, text: Seq<char>) -> bool {
    exists|k: int| 0 <= k < patterns.len() && #[trigger] regex_is_match(patterns[k].0, patterns[k].1, text)
}

/// The patterns and case modes of a list of matchers.
pub open spec fn matchers_view(ms: Seq<Matcher>) -> Seq<(Seq<char>, bool)> {
    ms.map_values(|m: Matcher| (m.pattern(), m.ci()))
}

/// The results whose last component some pattern of the list matches.
pub open spec fn keep_base_matching_any(rows: Seq<SearchResult>, patterns: Seq<(Seq<char>, bool)>) -> Seq<SearchResult>
    decreases rows.len(),
{
    if rows.len() == 0 {
        seq![]
    } else {
        keep_base_matching_any(rows.drop_last(), patterns) + if any_matches(patterns, base_name(rows.last().path@)) {
            seq![rows.last()]
        } else {
            seq![]
        }
    }
}

fn base_matches_any(row: &SearchResult, ms: &Vec<Matcher>) -> (r: bool)
    ensures
        r == any_matches(matchers_view(ms@), base_name(row.path@)),
{
    let b = base_name_of(chars_of(row.path.as_str()).as_slice());
    let bs = string_of(b.as_slice());
    for k in 0..ms.len()
        invariant
            bs@ == base_name(row.path@),
            forall|q: int| 0 <= q < k ==> !regex_is_match(#[trigger] ms@[q].pattern(), ms@[q].ci(), bs@),
    {
        if matcher_is_match(&ms[k], bs.as_str()) {
            assert(matchers_view(ms@)[k as int] == (ms@[k as int].pattern(), ms@[k as int].ci()));
            assert(regex_is_match(matchers_view(ms@)[k as int].0, matchers_view(ms@)[k as int].1, bs@));
            return true;
        }
    }
    assert forall|k: int| 0 <= k < matchers_view(ms@).len() implies !regex_is_match(#[trigger] matchers_view(ms@)[k].0, matchers_view(ms@)[k].1, bs@) by {
        assert(matchers_view(ms@)[k] == (ms@[k].pattern(), ms@[k].ci()));
    }
    false
}

/// The results whose last component some pattern of the list matches.
pub fn filter_rows_base_any(rows: Vec<SearchResult>, ms: &Vec<Matcher>) -> (r: Vec<SearchResult>)
    ensures
        r@ == keep_base_matching_any(rows@, matchers_view(ms@)),
{
    let mut r: Vec<SearchResult> = Vec::new();
    for k in 0..rows.len()
        invariant
            r@ == keep_base_matching_any(rows@.take(k as int), matchers_view(ms@)),
    {
        assert(rows@.take(k + 1).drop_last() =~= rows@.take(k as int));
        if base_matches_any(&rows[k], ms) {
            r.push(rows[k].duplicate());
        }
        assert(r@ =~= keep_base_matching_any(rows@.take(k + 1), matchers_view(ms@)));
    }
    assert(rows@.take(rows.len() as int) =~= rows@);
    r
}

/// `child` lies inside the directory `dir` (whose path ends in `/`).
pub open spec fn inside(child: Seq<char>, dir: Seq<char>) -> bool {
    has_suffix(dir, seq!['/']) && has_prefix(child, dir) && child.len() > dir.len()
}

/// Some directory among the results contains the result at `k`.
pub open spec fn has_result_ancestor(rows: Seq<SearchResult>, k: int) -> bool {
    exists|j: int| 0 <= j < rows.len() && rows[j].is_dir && #[trigger] inside(rows[k].path@, rows[j].path@)
}

/// The results that no other result (a directory) contains, in order.
pub open spec fn keep_outermost(rows: Seq<SearchResult>, all: Seq<SearchResult>, off: int) -> Seq<SearchResult>
    decreases rows.len(),
{
    if rows.len() == 0 {
        seq![]
    } else {
        keep_outermost(rows.drop_last(), all, off) + if has_result_ancestor(all, off + rows.len() - 1) {
            seq![]
        } else {
            seq![rows.last()]
        }
    }
}

/// The results with those inside another (directory) result left out.
pub open spec fn prune_spec(rows: Seq<SearchResult>) -> Seq<SearchResult> {
    keep_outermost(rows, rows, 0)
}

fn is_inside(child: &[char], dir: &[char]) -> (r: bool)
    ensures
        r == inside(child@, dir@),
{
    ends_with_char(dir, '/') && starts_with(child, dir) && child.len() > dir.len()
}

fn has_ancestor_in(rows: &Vec<SearchResult>, paths: &Vec<Vec<char>>, k: usize) -> (r: bool)
    requires
        k < rows.len(),
        paths.len() == rows.len(),
        forall|q: int| 0 <= q < rows.len() ==> #[trigger] paths@[q]@ == rows@[q].path@,
    ensures
        r == has_result_ancestor(rows@, k as int),
{
    for j in 0..rows.len()
        invariant
            k < rows.len(),
            paths.len() == rows.len(),
            forall|q: int| 0 <= q < rows.len() ==> #[trigger] paths@[q]@ == rows@[q].path@,
            forall|q: int| 0 <= q < j ==> !(rows@[q].is_dir && #[trigger] inside(rows@[k as int].path@, rows@[q].path@)),
    {
        if rows[j].is_dir && is_inside(paths[k].as_slice(), paths[j].as_slice()) {
            return true;
        }
    }
    false
}

/// The results with those inside another (directory) result left out: a
/// matched directory stands for everything under it.
pub fn prune_nested_results(rows: Vec<SearchResult>) -> (r: Vec<SearchResult>)
    ensures
        r@ == prune_spec(rows@),
{
    let mut paths: Vec<Vec<char>> = Vec::new();
    for k in 0..rows.len()
        invariant
            paths.len() == k,
            forall|q: int| 0 <= q < k ==> #[trigger] paths@[q]@ == rows@[q].path@,
    {
        paths.push(chars_of(rows[k].path.as_str()));
    }
    let mut r: Vec<SearchResult> = Vec::new();
    for k in 0..rows.len()
        invariant
            paths.len() == rows.len(),
            forall|q: int| 0 <= q < rows.len() ==> #[trigger] paths@[q]@ == rows@[q].path@,
            r@ == keep_outermost(rows@.take(k as int), rows@, 0),
    {
        assert(rows@.take(k + 1).drop_last() =~= rows@.take(k as int));
        assert(rows@.take(k + 1).last() == rows@[k as int]);
        if !has_ancestor_in(&rows, &paths, k) {
            r.push(rows[k].duplicate());
        }
        assert(r@ =~= keep_outermost(rows@.take(k + 1), rows@, 0));
    }
    assert(rows@.take(rows.len() as int) =~= rows@);
    r
}

/// A path as shown with absolute paths: a relative one is joined to the
/// working directory, its leading `./` parts dropped.
pub open spec fn absolute_spec(path: Seq<char>, cwd: Seq<char>) -> Seq<char> {
    if has_prefix(path, seq!['/']) {
        path
    } else {
        cwd + seq!['/'] + strip_prefix_all(path, seq!['.', '/'])
    }
}

/// A path as shown with absolute paths.
pub fn absolute_path_text(path: &str, cwd: &str) -> (r: String)
    ensures
        r@ == absolute_spec(path@, cwd@),
{
    let p = chars_of(path);
    if starts_with_char(p.as_slice(), '/') {
        return string_of(p.as_slice());
    }
    let dot_slash: Vec<char> = vec!['.', '/'];
    assert(dot_slash@ =~= seq!['.', '/']);
    let mut out = chars_of(cwd);
    out.push('/');
    push_all(&mut out, strip_prefix_all_chars(p.as_slice(), dot_slash.as_slice()).as_slice());
    string_of(out.as_slice())
}

/// `a` is `b` with its path replaced by `path`.
pub open spec fn same_entry_with_path(a: SearchResult, b: SearchResult, path: Seq<char>) -> bool {
    a.path@ == path && a.is_dir == b.is_dir && a.is_symlink == b.is_symlink && a.meta == b.meta
}

/// The results with their paths made absolute against `cwd`.
pub fn absolute_paths_transform(items: Vec<SearchResult>, cwd: &str) -> (r: Vec<SearchResult>)
    ensures
        r.len() == items.len(),
        forall|k: int| 0 <= k < items.len() ==> same_entry_with_path(#[trigger] r@[k], items@[k], absolute_spec(items@[k].path@, cwd@)),
{
    let mut r: Vec<SearchResult> = Vec::new();
    let mut k: usize = 0;
    while k < items.len()
        invariant
            k <= items.len(),
            r.len() == k,
            forall|q: int| 0 <= q < k ==> same_entry_with_path(#[trigger] r@[q], items@[q], absolute_spec(items@[q].path@, cwd@)),
        decreases items.len() - k,
    {
        let it = items[k].duplicate();
        let p = absolute_path_text(it.path.as_str(), cwd);
        let ghost before = r@;
        r.push(SearchResult { path: p, is_dir: it.is_dir, is_symlink: it.is_symlink, meta: it.meta });
        assert forall|q: int| 0 <= q < k + 1 implies same_entry_with_path(#[trigger] r@[q], items@[q], absolute_spec(items@[q].path@, cwd@)) by {
            if q < k {
                assert(r@[q] == before[q]);
            }
        }
        k = k + 1;
    }
    r
}

/// The folder a result is counted under: the path, trailing slashes
/// ignored, up to its last `/` ("/" for a top-level entry, "." when there
/// is no `/`).
pub open spec fn parent_folder(path: Seq<char>) -> Seq<char> {
    let t = trim_end(path, '/');
    let b = after_last_slash(t);
    if b.len() == t.len() {
        seq!['.']
    } else if t.len() - b.len() - 1 == 0 {
        seq!['/']
    } else {
        t.subrange(0, t.len() - b.len() - 1)
    }
}

pub proof fn lemma_after_last_slash(s: Seq<char>)
    ensures
        after_last_slash(s).len() <= s.len(),
        after_last_slash(s) == s.skip(s.len() - after_last_slash(s).len()),
        after_last_slash(s).len() < s.len() ==> s[s.len() - after_last_slash(s).len() - 1] == '/',
        !after_last_slash(s).contains('/'),
    decreases s.len(),
{
    if s.len() > 0 {
        lemma_after_last_slash(s.drop_last());
        if s.last() != '/' {
            let b = after_last_slash(s.drop_last());
            assert(b.push(s.last()) =~= s.skip(s.len() - b.len() - 1));
            assert forall|i: int| 0 <= i < b.len() + 1 implies b.push(s.last())[i] != '/' by {
                if i < b.len() {
                    assert(!b.contains('/'));
                    assert(b[i] != '/');
                }
            }
        } else {
            assert(s.skip(s.len() as int) =~= seq![]);
        }
    } else {
        assert(s.skip(0) =~= s);
    }
}

/// The folder a result is counted under.
pub fn parent_folder_of(path: &[char]) -> (r: Vec<char>)
    ensures
        r@ == parent_folder(path@),
{
    let t = trim_end_char(path, '/');
    let b = base_name_of(path);
    proof {
        lemma_after_last_slash(t@);
    }
    if b.len() == t.len() {
        return vec!['.'];
    }
    if t.len() - b.len() - 1 == 0 {
        return vec!['/'];
    }
    slice_chars(t.as_slice(), 0, t.len() - b.len() - 1)
}

/// How many of the folders equal `f`.
pub open spec fn count_of(folders: Seq<Seq<char>>, f: Seq<char>) -> nat
    decreases folders.len(),
{
    if folders.len() == 0 {
        0
    } else {
        count_of(folders.drop_last(), f) + if folders.last() == f { 1nat } else { 0nat }
    }
}

/// The folders of the results.
pub open spec fn folders_of(items: Seq<SearchResult>) -> Seq<Seq<char>> {
    items.map_values(|x: SearchResult| parent_folder(x.path@))
}

/// The summary rows: each folder once with its count, ordered by count
/// and then folder (both ascending).
pub open spec fn summary_rows_ok(folders: Seq<Seq<char>>, rows: Seq<(Seq<char>, nat)>) -> bool {
    &&& forall|f: Seq<char>| folders.contains(f) <==> exists|k: int| 0 <= k < rows.len() && #[trigger] rows[k].0 == f
    &&& forall|k: int| 0 <= k < rows.len() ==> #[trigger] rows[k].1 == count_of(folders, rows[k].0)
    &&& forall|a: int, b: int| 0 <= a < b < rows.len() ==> crate::order::lex_lt(
        seq![rows[a].1 as u64] + text_key(rows[a].0),
        seq![rows[b].1 as u64] + text_key(rows[b].0),
    )
}

/// One summary line: the count right-aligned in seven columns, two spaces,
/// the folder.
pub open spec fn summary_line(folder: Seq<char>, n: nat) -> Seq<char> {
    pad_left(decimal(n), 7) + seq![' ', ' '] + folder
}

/// The header above the summary, shown on a terminal.
pub open spec fn summary_header() -> Seq<char> {
    pad_left("COUNT"@, 7) + seq![' ', ' '] + "FOLDER"@
}

/// The per-folder summary: a header on a terminal, then one line per
/// folder with its number of results, ordered by count and then folder.
pub open spec fn counts_summary_ok(items: Seq<SearchResult>, is_tty: bool, out: Seq<Seq<char>>) -> bool {
    exists|rows: Seq<(Seq<char>, nat)>|
        summary_rows_ok(folders_of(items), rows) && out == (if is_tty {
            seq![summary_header()]
        } else {
            seq![]
        }) + rows.map_values(|r: (Seq<char>, nat)| summary_line(r.0, r.1))
}

proof fn lemma_count_push(f: Seq<Seq<char>>, x: Seq<char>, g: Seq<char>)
    ensures
        count_of(f.push(x), g) == count_of(f, g) + if x == g { 1nat } else { 0nat },
{
    assert(f.push(x).drop_last() =~= f);
}

proof fn lemma_count_zero(f: Seq<Seq<char>>, g: Seq<char>)
    requires
        !f.contains(g),
    ensures
        count_of(f, g) == 0,
    decreases f.len(),
{
    if f.len() > 0 {
        assert(!f.drop_last().contains(g)) by {
            if f.drop_last().contains(g) {
                let i = choose|i: int| 0 <= i < f.drop_last().len() && f.drop_last()[i] == g;
                assert(f[i] == g);
            }
        }
        lemma_count_zero(f.drop_last(), g);
        assert(f.last() != g) by {
            if f.last() == g {
                assert(f[f.len() - 1] == g);
            }
        }
    }
}

/// The texts of a list of folder names.
spec fn names_view(names: Seq<Vec<char>>) -> Seq<Seq<char>> {
    names.map_values(|v: Vec<char>| v@)
}

/// `names` holds each folder once, and `counts` how often it occurs.
#[verifier::opaque]
spec fn tally_ok(folders: Seq<Seq<char>>, names: Seq<Vec<char>>, counts: Seq<u64>) -> bool {
    &&& names.len() == counts.len()
    &&& forall|a: int, b: int| 0 <= a < b < names.len() ==> names[a]@ != names[b]@
    &&& forall|q: int| 0 <= q < names.len() ==> #[trigger] counts[q] == count_of(folders, names[q]@)
    &&& forall|q: int| 0 <= q < names.len() ==> folders.contains(#[trigger] names[q]@)
    &&& forall|g: Seq<char>| folders.contains(g) ==> #[trigger] names_view(names).contains(g)
}

proof fn lemma_count_bound(f: Seq<Seq<char>>, g: Seq<char>)
    ensures
        count_of(f, g) <= f.len(),
    decreases f.len(),
{
    if f.len() > 0 {
        lemma_count_bound(f.drop_last(), g);
    }
}

/// A tally stays right when a folder it holds occurs once more.
proof fn lemma_tally_bump(ft: Seq<Seq<char>>, f: Seq<char>, names: Seq<Vec<char>>, counts: Seq<u64>, q: int)
    requires
        tally_ok(ft, names, counts),
        0 <= q < names.len(),
        names[q]@ == f,
        counts[q] + 1 <= u64::MAX,
    ensures
        tally_ok(ft.push(f), names, counts.update(q, (counts[q] + 1) as u64)),
{
    reveal(tally_ok);
    let fs = ft.push(f);
    let c2 = counts.update(q, (counts[q] + 1) as u64);
    let nv = names_view(names);
    assert forall|j: int| 0 <= j < names.len() implies #[trigger] c2[j] == count_of(fs, names[j]@) by {
        lemma_count_push(ft, f, names[j]@);
        if j != q {
            assert(names[j]@ != f);
        }
    }
    assert forall|qq: int| 0 <= qq < names.len() implies fs.contains(#[trigger] names[qq]@) by {
        assert(ft.contains(names[qq]@));
        let j = choose|j: int| 0 <= j < ft.len() && ft[j] == names[qq]@;
        assert(fs[j] == ft[j]);
    }
    assert forall|g: Seq<char>| fs.contains(g) implies #[trigger] nv.contains(g) by {
        let j = choose|j: int| 0 <= j < fs.len() && fs[j] == g;
        if j < ft.len() {
            assert(ft[j] == g);
            assert(ft.contains(g));
        } else {
            assert(nv[q] == g);
        }
    }
}

/// A tally stays right when a folder it lacks occurs for the first time.
proof fn lemma_tally_new(ft: Seq<Seq<char>>, f: Vec<char>, names: Seq<Vec<char>>, counts: Seq<u64>)
    requires
        tally_ok(ft, names, counts),
        forall|j: int| 0 <= j < names.len() ==> names[j]@ != f@,
    ensures
        tally_ok(ft.push(f@), names.push(f), counts.push(1)),
{
    reveal(tally_ok);
    let fs = ft.push(f@);
    let n2 = names.push(f);
    let c2 = counts.push(1);
    let nv = names_view(names);
    let nv2 = names_view(n2);
    assert(!ft.contains(f@)) by {
        if ft.contains(f@) {
            assert(nv.contains(f@));
            let q2 = choose|q2: int| 0 <= q2 < nv.len() && nv[q2] == f@;
            assert(names[q2]@ == f@);
        }
    }
    lemma_count_zero(ft, f@);
    assert forall|j: int| 0 <= j < n2.len() implies #[trigger] c2[j] == count_of(fs, n2[j]@) by {
        lemma_count_push(ft, f@, n2[j]@);
    }
    assert forall|qq: int| 0 <= qq < n2.len() implies fs.contains(#[trigger] n2[qq]@) by {
        if qq < names.len() {
            assert(n2[qq] == names[qq]);
            assert(ft.contains(names[qq]@));
            let j = choose|j: int| 0 <= j < ft.len() && ft[j] == names[qq]@;
            assert(fs[j] == ft[j]);
        } else {
            assert(fs[ft.len() as int] == n2[qq]@);
        }
    }
    assert forall|g: Seq<char>| fs.contains(g) implies #[trigger] nv2.contains(g) by {
        let j = choose|j: int| 0 <= j < fs.len() && fs[j] == g;
        if j < ft.len() {
            assert(ft[j] == g);
            assert(ft.contains(g));
            assert(nv.contains(g));
            let q2 = choose|q2: int| 0 <= q2 < nv.len() && nv[q2] == g;
            assert(nv2[q2] == g);
        } else {
            assert(nv2[names.len() as int] == g);
        }
    }
    assert forall|a: int, b: int| 0 <= a < b < n2.len() implies n2[a]@ != n2[b]@ by {
        assert(n2[a] == names[a]);
        if b < names.len() {
            assert(n2[b] == names[b]);
        }
    }
}

/// Adds one more folder to a tally.
fn tally_add(names: Vec<Vec<char>>, counts: Vec<u64>, f: Vec<char>, Ghost(ft): Ghost<Seq<Seq<char>>>) -> (r: (Vec<Vec<char>>, Vec<u64>))
    requires
        tally_ok(ft, names@, counts@),
        ft.len() < 0xffff_ffff_ffff_ffff,
    ensures
        tally_ok(ft.push(f@), r.0@, r.1@),
{
    let mut names = names;
    let mut counts = counts;
    assert(names.len() == counts.len()) by {
        reveal(tally_ok);
    }
    let mut q: usize = 0;
    while q < names.len() && !eq_chars(names[q].as_slice(), f.as_slice())
        invariant
            q <= names.len(),
            forall|j: int| 0 <= j < q ==> names@[j]@ != f@,
        decreases names.len() - q,
    {
        q = q + 1;
    }
    if q < names.len() {
        let c = counts[q];
        proof {
            reveal(tally_ok);
            lemma_count_bound(ft, names@[q as int]@);
            lemma_tally_bump(ft, f@, names@, counts@, q as int);
        }
        counts.set(q, c + 1);
    } else {
        proof {
            lemma_tally_new(ft, f, names@, counts@);
        }
        names.push(f);
        counts.push(1);
    }
    (names, counts)
}

/// Each distinct folder of the results once, with its number of results.
fn tally_folders(items: &Vec<SearchResult>) -> (r: (Vec<Vec<char>>, Vec<u64>))
    ensures
        tally_ok(folders_of(items@), r.0@, r.1@),
{
    let ghost folders = folders_of(items@);
    let mut names: Vec<Vec<char>> = Vec::new();
    let mut counts: Vec<u64> = Vec::new();
    assert(tally_ok(folders.take(0), names@, counts@)) by {
        reveal(tally_ok);
    }
    let mut k: usize = 0;
    while k < items.len()
        invariant
            k <= items.len(),
            folders == folders_of(items@),
            folders.len() == items.len(),
            tally_ok(folders.take(k as int), names@, counts@),
        decreases items.len() - k,
    {
        let f = parent_folder_of(chars_of(items[k].path.as_str()).as_slice());
        assert(f@ == folders[k as int]);
        assert(folders.take(k + 1) =~= folders.take(k as int).push(f@));
        let r = tally_add(names, counts, f, Ghost(folders.take(k as int)));
        names = r.0;
        counts = r.1;
        k = k + 1;
    }
    assert(folders.take(items.len() as int) =~= folders);
    (names, counts)
}

/// The sort key of a summary row: its count, then its folder.
pub open spec fn row_key(folder: Seq<char>, n: nat) -> Seq<u64> {
    seq![n as u64] + text_key(folder)
}

/// The sort keys of the tallied folders.
fn summary_keys(names: &Vec<Vec<char>>, counts: &Vec<u64>) -> (keys: Vec<Vec<u64>>)
    requires
        names.len() == counts.len(),
    ensures
        keys.len() == names.len(),
        forall|j: int| 0 <= j < names.len() ==> #[trigger] keys@[j]@ == row_key(names@[j]@, counts@[j] as nat),
{
    let mut keys: Vec<Vec<u64>> = Vec::new();
    for q in 0..names.len()
        invariant
            names.len() == counts.len(),
            keys.len() == q,
            forall|j: int| 0 <= j < q ==> #[trigger] keys@[j]@ == row_key(names@[j]@, counts@[j] as nat),
    {
        let mut key: Vec<u64> = vec![counts[q]];
        let tk = text_key_of(names[q].as_slice());
        let ghost k0 = key@;
        for t in 0..tk.len()
            invariant
                key@ == k0 + tk@.take(t as int),
        {
            key.push(tk[t]);
            assert(key@ =~= k0 + tk@.take(t + 1));
        }
        assert(tk@.take(tk.len() as int) =~= tk@);
        assert(key@ =~= row_key(names@[q as int]@, counts@[q as int] as nat));
        keys.push(key);
    }
    keys
}

/// The rows in tally order `p` meet `summary_rows_ok`.
proof fn lemma_summary_rows(
    folders: Seq<Seq<char>>,
    names: Seq<Vec<char>>,
    counts: Seq<u64>,
    kv: Seq<Seq<u64>>,
    p: Seq<usize>,
)
    requires
        tally_ok(folders, names, counts),
        names.len() <= usize::MAX,
        kv.len() == names.len(),
        forall|j: int| 0 <= j < names.len() ==> #[trigger] kv[j] == row_key(names[j]@, counts[j] as nat),
        crate::order::is_stable_order(kv, false, p),
    ensures
        summary_rows_ok(folders, Seq::new(p.len(), |k: int| (names[p[k] as int]@, counts[p[k] as int] as nat))),
{
    reveal(tally_ok);
    let rows = Seq::new(p.len(), |k: int| (names[p[k] as int]@, counts[p[k] as int] as nat));
    assert forall|g: Seq<char>| folders.contains(g) implies exists|k: int| 0 <= k < rows.len() && #[trigger] rows[k].0 == g by {
        assert(names_view(names).contains(g));
        let q = choose|q: int| 0 <= q < names.len() && names_view(names)[q] == g;
        let qu = q as usize;
        assert(p.contains(qu));
        let k = choose|k: int| 0 <= k < p.len() && p[k] == qu;
        assert(rows[k].0 == g);
    }
    assert forall|g: Seq<char>| (exists|k: int| 0 <= k < rows.len() && #[trigger] rows[k].0 == g) implies folders.contains(g) by {
        let k = choose|k: int| 0 <= k < rows.len() && #[trigger] rows[k].0 == g;
        let q = p[k] as int;
        assert(folders.contains(names[q]@));
    }
    assert forall|k: int| 0 <= k < rows.len() implies #[trigger] rows[k].1 == count_of(folders, rows[k].0) by {
        let q = p[k] as int;
        assert(counts[q] == count_of(folders, names[q]@));
    }
    assert forall|a: int, b: int| 0 <= a < b < rows.len() implies crate::order::lex_lt(
        seq![rows[a].1 as u64] + text_key(rows[a].0),
        seq![rows[b].1 as u64] + text_key(rows[b].0),
    ) by {
        let ia = p[a] as int;
        let ib = p[b] as int;
        assert(crate::order::key_before(kv, false, ia, ib));
        assert(seq![rows[a].1 as u64] + text_key(rows[a].0) == kv[ia]);
        assert(seq![rows[b].1 as u64] + text_key(rows[b].0) == kv[ib]);
        if kv[ia] == kv[ib] {
            crate::order::lemma_lex_irreflexive(kv[ia]);
            assert(kv[ia].skip(1) =~= text_key(names[ia]@));
            assert(kv[ib].skip(1) =~= text_key(names[ib]@));
            crate::order::lemma_text_key_injective(names[ia]@, names[ib]@);
            assert(ia < ib);
            assert(names[ia]@ != names[ib]@);
        }
    }
}

/// The header line of the summary.
fn summary_header_line() -> (s: String)
    ensures
        s@ == summary_header(),
{
    let mut h = pad_left_chars(chars_of("COUNT").as_slice(), 7);
    h.push(' ');
    h.push(' ');
    push_all(&mut h, chars_of("FOLDER").as_slice());
    assert(h@ =~= summary_header());
    string_of(h.as_slice())
}

/// One line of the summary.
fn summary_line_of(folder: &Vec<char>, n: u64) -> (s: String)
    ensures
        s@ == summary_line(folder@, n as nat),
{
    let mut line = pad_left_chars(u64_to_decimal(n).as_slice(), 7);
    line.push(' ');
    line.push(' ');
    push_all(&mut line, folder.as_slice());
    assert(line@ =~= summary_line(folder@, n as nat));
    string_of(line.as_slice())
}

/// The per-folder summary of the results (see `counts_summary_ok`).
pub fn counts_summary_transform(items: Vec<SearchResult>, is_tty: bool) -> (r: Vec<String>)
    ensures
        counts_summary_ok(items@, is_tty, r@.map_values(|x: String| x@)),
{
    let ghost folders = folders_of(items@);
    let (names, counts) = tally_folders(&items);
    assert(names.len() == counts.len()) by {
        reveal(tally_ok);
    }
    let keys = summary_keys(&names, &counts);
    let p = stable_order(&keys, false);
    let ghost kv = keys_view(keys@);
    proof {
        assert forall|j: int| 0 <= j < names.len() implies #[trigger] kv[j] == row_key(names@[j]@, counts@[j] as nat) by {
            assert(kv[j] == keys@[j]@);
        }
        lemma_summary_rows(folders, names@, counts@, kv, p@);
    }
    let ghost rows: Seq<(Seq<char>, nat)> = Seq::new(p@.len(), |k: int| (names@[p@[k] as int]@, counts@[p@[k] as int] as nat));
    let mut out: Vec<String> = Vec::new();
    if is_tty {
        out.push(summary_header_line());
        assert(out@.map_values(|x: String| x@) =~= seq![summary_header()]);
    }
    let ghost head = out@.map_values(|x: String| x@);
    assert(head == (if is_tty { seq![summary_header()] } else { Seq::<Seq<char>>::empty() }));
    for k in 0..p.len()
        invariant
            p@.len() == names.len(),
            names.len() == counts.len(),
            forall|j: int| 0 <= j < p.len() ==> #[trigger] p@[j] < names.len(),
            rows == Seq::new(p@.len(), |k: int| (names@[p@[k] as int]@, counts@[p@[k] as int] as nat)),
            out@.map_values(|x: String| x@) == head + rows.take(k as int).map_values(|r: (Seq<char>, nat)| summary_line(r.0, r.1)),
    {
        let idx = p[k];
        let line = summary_line_of(&names[idx], counts[idx]);
        let ghost before = out@;
        out.push(line);
        proof {
            assert(out@.map_values(|x: String| x@) =~= before.map_values(|x: String| x@).push(line@));
            assert(rows.take(k + 1).map_values(|r: (Seq<char>, nat)| summary_line(r.0, r.1)) =~= rows.take(k as int).map_values(
                |r: (Seq<char>, nat)| summary_line(r.0, r.1),
            ).push(line@));
        }
    }
    assert(rows.take(p.len() as int) =~= rows);
    out
}

proof fn lemma_keep_outermost(all: Seq<SearchResult>, n: int)
    requires
        0 <= n <= all.len(),
    ensures
        forall|i: int| 0 <= i < keep_outermost(all.take(n), all, 0).len() ==> exists|k: int|
            0 <= k < n && !has_result_ancestor(all, k) && #[trigger] keep_outermost(all.take(n), all, 0)[i] == all[k],
        forall|k: int| 0 <= k < n && !has_result_ancestor(all, k) ==> keep_outermost(all.take(n), all, 0).contains(#[trigger] all[k]),
    decreases n,
{
    let cur = keep_outermost(all.take(n), all, 0);
    if n > 0 {
        assert(all.take(n).drop_last() =~= all.take(n - 1));
        assert(all.take(n).last() == all[n - 1]);
        lemma_keep_outermost(all, n - 1);
        let prev = keep_outermost(all.take(n - 1), all, 0);
        assert(cur == prev + if has_result_ancestor(all, n - 1) { seq![] } else { seq![all[n - 1]] });
        assert forall|i: int| 0 <= i < cur.len() implies exists|k: int|
            0 <= k < n && !has_result_ancestor(all, k) && #[trigger] cur[i] == all[k] by {
            if i < prev.len() {
                assert(cur[i] == prev[i]);
                let k = choose|k: int| 0 <= k < n - 1 && !has_result_ancestor(all, k) && #[trigger] prev[i] == all[k];
            } else {
                assert(cur[i] == all[n - 1]);
            }
        }
        assert forall|k: int| 0 <= k < n && !has_result_ancestor(all, k) implies cur.contains(#[trigger] all[k]) by {
            if k < n - 1 {
                assert(prev.contains(all[k]));
                let i = choose|i: int| 0 <= i < prev.len() && prev[i] == all[k];
                assert(cur[i] == prev[i]);
            } else {
                assert(cur[prev.len() as int] == all[k]);
            }
        }
    }
}

/// Pruning keeps exactly the results that no directory result contains:
/// every kept result is one of them, every one of them is kept, and no
/// kept result lies inside a kept directory.
pub proof fn law_pruned_outermost(rows: Seq<SearchResult>)
    ensures
        forall|i: int| 0 <= i < prune_spec(rows).len() ==> exists|k: int|
            0 <= k < rows.len() && !has_result_ancestor(rows, k) && #[trigger] prune_spec(rows)[i] == rows[k],
        forall|k: int| 0 <= k < rows.len() && !has_result_ancestor(rows, k) ==> prune_spec(rows).contains(#[trigger] rows[k]),
        forall|i: int, j: int|
            0 <= i < prune_spec(rows).len() && 0 <= j < prune_spec(rows).len() && prune_spec(rows)[j].is_dir ==> !inside(
                #[trigger] prune_spec(rows)[i].path@,
                #[trigger] prune_spec(rows)[j].path@,
            ),
{
    assert(rows.take(rows.len() as int) =~= rows);
    lemma_keep_outermost(rows, rows.len() as int);
    let out = prune_spec(rows);
    assert forall|i: int, j: int|
        0 <= i < out.len() && 0 <= j < out.len() && out[j].is_dir implies !inside(#[trigger] out[i].path@, #[trigger] out[j].path@) by {
        let ki = choose|k: int| 0 <= k < rows.len() && !has_result_ancestor(rows, k) && #[trigger] out[i] == rows[k];
        let kj = choose|k: int| 0 <= k < rows.len() && !has_result_ancestor(rows, k) && #[trigger] out[j] == rows[k];
        if inside(out[i].path@, out[j].path@) {
            assert(inside(rows[ki].path@, rows[kj].path@));
            assert(has_result_ancestor(rows, ki));
        }
    }
}

/// Results ordered by path come out with their paths in code-point order,
/// and are the same results.
pub proof fn law_sorted_by_path(rows: Seq<SearchResult>, out: Seq<SearchResult>)
    requires
        stably_sorted(rows, path_keys(rows), false, out),
        rows.len() <= usize::MAX,
    ensures
        out.len() == rows.len(),
        forall|a: int, b: int| 0 <= a < b < out.len() ==> !crate::order::lex_lt(
            text_key(#[trigger] out[b].path@),
            text_key(#[trigger] out[a].path@),
        ),
        forall|k: int| 0 <= k < rows.len() ==> out.contains(#[trigger] rows[k]),
        forall|i: int| 0 <= i < out.len() ==> rows.contains(#[trigger] out[i]),
{
    let p = choose|p: Seq<usize>| is_stable_order(path_keys(rows), false, p) && out == permuted(rows, p);
    let kv = path_keys(rows);
    assert forall|a: int, b: int| 0 <= a < b < out.len() implies !crate::order::lex_lt(
        text_key(#[trigger] out[b].path@),
        text_key(#[trigger] out[a].path@),
    ) by {
        let ia = p[a] as int;
        let ib = p[b] as int;
        assert(crate::order::key_before(kv, false, ia, ib));
        assert(kv[ia] == text_key(out[a].path@));
        assert(kv[ib] == text_key(out[b].path@));
        crate::order::lemma_lex_asymmetric(kv[ia], kv[ib]);
        crate::order::lemma_lex_irreflexive(kv[ia]);
    }
    assert forall|k: int| 0 <= k < rows.len() implies out.contains(#[trigger] rows[k]) by {
        let ku = k as usize;
        assert(p.contains(ku));
        let j = choose|j: int| 0 <= j < p.len() && p[j] == ku;
        assert(out[j] == rows[k]);
    }
    assert forall|i: int| 0 <= i < out.len() implies rows.contains(#[trigger] out[i]) by {
        assert(out[i] == rows[p[i] as int]);
    }
}

/// The sum of the counts of summary rows.
pub open spec fn sum_counts(rows: Seq<(Seq<char>, nat)>) -> nat
    decreases rows.len(),
{
    if rows.len() == 0 {
        0
    } else {
        sum_counts(rows.drop_last()) + rows.last().1
    }
}

/// How many names of the list equal `x`.
spec fn occurrences(names: Seq<Seq<char>>, x: Seq<char>) -> nat
    decreases names.len(),
{
    if names.len() == 0 {
        0
    } else {
        occurrences(names.drop_last(), x) + if names.last() == x { 1nat } else { 0nat }
    }
}

/// The counts in `folders` of each name, summed.
spec fn sum_over(names: Seq<Seq<char>>, folders: Seq<Seq<char>>) -> nat
    decreases names.len(),
{
    if names.len() == 0 {
        0
    } else {
        sum_over(names.drop_last(), folders) + count_of(folders, names.last())
    }
}

/// How many folders are among the names.
spec fn count_in(folders: Seq<Seq<char>>, names: Seq<Seq<char>>) -> nat
    decreases folders.len(),
{
    if folders.len() == 0 {
        0
    } else {
        count_in(folders.drop_last(), names) + if names.contains(folders.last()) { 1nat } else { 0nat }
    }
}

proof fn lemma_occurrences_distinct(names: Seq<Seq<char>>, x: Seq<char>)
    requires
        forall|a: int, b: int| 0 <= a < b < names.len() ==> names[a] != names[b],
    ensures
        occurrences(names, x) == if names.contains(x) { 1nat } else { 0nat },
    decreases names.len(),
{
    if names.len() > 0 {
        let init = names.drop_last();
        lemma_occurrences_distinct(init, x);
        if names.last() == x {
            assert(!init.contains(x)) by {
                if init.contains(x) {
                    let j = choose|j: int| 0 <= j < init.len() && init[j] == x;
                    assert(names[j] == names[names.len() - 1]);
                }
            }
            assert(names[names.len() - 1] == x);
        } else {
            if names.contains(x) {
                let j = choose|j: int| 0 <= j < names.len() && names[j] == x;
                assert(init[j] == x);
            }
            if init.contains(x) {
                let j = choose|j: int| 0 <= j < init.len() && init[j] == x;
                assert(names[j] == x);
            }
        }
    }
}

proof fn lemma_sum_over_push(names: Seq<Seq<char>>, folders: Seq<Seq<char>>, x: Seq<char>)
    ensures
        sum_over(names, folders.push(x)) == sum_over(names, folders) + occurrences(names, x),
    decreases names.len(),
{
    if names.len() > 0 {
        lemma_sum_over_push(names.drop_last(), folders, x);
        lemma_count_push(folders, x, names.last());
    }
}

proof fn lemma_sum_over_empty(names: Seq<Seq<char>>)
    ensures
        sum_over(names, Seq::<Seq<char>>::empty()) == 0,
    decreases names.len(),
{
    if names.len() > 0 {
        lemma_sum_over_empty(names.drop_last());
    }
}

proof fn lemma_sum_over_count_in(names: Seq<Seq<char>>, folders: Seq<Seq<char>>)
    requires
        forall|a: int, b: int| 0 <= a < b < names.len() ==> names[a] != names[b],
    ensures
        sum_over(names, folders) == count_in(folders, names),
    decreases folders.len(),
{
    if folders.len() == 0 {
        lemma_sum_over_empty(names);
        assert(folders =~= Seq::<Seq<char>>::empty());
    } else {
        let init = folders.drop_last();
        lemma_sum_over_count_in(names, init);
        assert(folders =~= init.push(folders.last()));
        lemma_sum_over_push(names, init, folders.last());
        lemma_occurrences_distinct(names, folders.last());
    }
}

proof fn lemma_count_in_all(folders: Seq<Seq<char>>, names: Seq<Seq<char>>)
    requires
        forall|f: Seq<char>| folders.contains(f) ==> names.contains(f),
    ensures
        count_in(folders, names) == folders.len(),
    decreases folders.len(),
{
    if folders.len() > 0 {
        let init = folders.drop_last();
        assert forall|f: Seq<char>| init.contains(f) implies names.contains(f) by {
            let j = choose|j: int| 0 <= j < init.len() && init[j] == f;
            assert(folders[j] == f);
        }
        lemma_count_in_all(init, names);
        assert(folders.contains(folders.last())) by {
            assert(folders[folders.len() - 1] == folders.last());
        }
    }
}

proof fn lemma_sum_counts_rows(rows: Seq<(Seq<char>, nat)>, folders: Seq<Seq<char>>)
    requires
        forall|k: int| 0 <= k < rows.len() ==> #[trigger] rows[k].1 == count_of(folders, rows[k].0),
    ensures
        sum_counts(rows) == sum_over(rows.map_values(|r: (Seq<char>, nat)| r.0), folders),
    decreases rows.len(),
{
    if rows.len() > 0 {
        let init = rows.drop_last();
        assert forall|k: int| 0 <= k < init.len() implies #[trigger] init[k].1 == count_of(folders, init[k].0) by {
            assert(init[k] == rows[k]);
        }
        lemma_sum_counts_rows(init, folders);
        assert(rows.map_values(|r: (Seq<char>, nat)| r.0).drop_last() =~= init.map_values(|r: (Seq<char>, nat)| r.0));
        assert(rows[rows.len() - 1] == rows.last());
    }
}

/// Every result is counted once: the counts of the summary rows add up to
/// the number of results.
pub proof fn law_summary_counts_total(folders: Seq<Seq<char>>, rows: Seq<(Seq<char>, nat)>)
    requires
        summary_rows_ok(folders, rows),
    ensures
        sum_counts(rows) == folders.len(),
{
    let names = rows.map_values(|r: (Seq<char>, nat)| r.0);
    assert forall|a: int, b: int| 0 <= a < b < names.len() implies names[a] != names[b] by {
        assert(crate::order::lex_lt(
            seq![rows[a].1 as u64] + text_key(rows[a].0),
            seq![rows[b].1 as u64] + text_key(rows[b].0),
        ));
        if names[a] == names[b] {
            assert(rows[a].1 == rows[b].1);
            crate::order::lemma_lex_irreflexive(seq![rows[a].1 as u64] + text_key(rows[a].0));
        }
    }
    assert forall|f: Seq<char>| folders.contains(f) implies names.contains(f) by {
        let k = choose|k: int| 0 <= k < rows.len() && #[trigger] rows[k].0 == f;
        assert(names[k] == f);
    }
    lemma_sum_counts_rows(rows, folders);
    lemma_sum_over_count_in(names, folders);
    lemma_count_in_all(folders, names);
}

} // verus!
