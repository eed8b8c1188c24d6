//! The three searches around their directory walks: what each sets up
//! before walking (patterns, type restriction, root), and what it does
//! with the walked results (further patterns, order, pruning, highlight).
use vstd::prelude::*;
use crate::text::{chars_of, string_of, push_all, eq_chars};
use crate::pattern::{TypeFlag, NamePattern, SearchDirMode, parse_name_pattern, name_pattern_spec,
    name_pattern_defined, selectivity_score, term_selectivity_score, prefers_full_path,
    pattern_prefers_full_path, parse_search_dir, search_dir_spec, search_dir_defined, opt_view};
use crate::matcher::{Matcher, build_matcher, regex_build_error};
use crate::results::{SearchResult, keep_passing, filter_rows, stably_sorted, path_keys, sort_rows_by_path,
    prune_spec, prune_nested_results, permuted, keep_base_matching_any, filter_rows_base_any,
    matchers_view};
use crate::order::{is_stable_order, keys_view, stable_order, text_key, text_key_of, is_index_perm, lists_index,
    reorder, ascending_by, lemma_stable_order_is_perm, lemma_sorted_perms_agree};
use crate::render::{HighlightSpec, compile_highlight_spec, first_highlight_error, highlight_leaf,
    highlight_prefix, pattern_pairs_view};
use crate::options::{Settings, Options};
use crate::walk::{catch_all_spec, is_catch_all};

verus! {

/// The results left after each further pattern in turn (each compiled to
/// ignore case, tested on the whole path or on the last component).
pub open spec fn filter_by(rows: Seq<SearchResult>, pats: Seq<(Seq<char>, bool)>) -> Seq<SearchResult>
    decreases pats.len(),
{
    if pats.len() == 0 {
        rows
    } else {
        filter_by(keep_passing(rows, pats[0].0, true, pats[0].1), pats.drop_first())
    }
}

proof fn lemma_filter_by_push(rows: Seq<SearchResult>, pats: Seq<(Seq<char>, bool)>, x: (Seq<char>, bool))
    ensures
        filter_by(rows, pats.push(x)) == keep_passing(filter_by(rows, pats), x.0, true, x.1),
    decreases pats.len(),
{
    if pats.len() == 0 {
        assert(pats.push(x)[0] == x);
        assert(pats.push(x).drop_first() =~= Seq::<(Seq<char>, bool)>::empty());
        assert(filter_by(keep_passing(rows, x.0, true, x.1), Seq::<(Seq<char>, bool)>::empty()) == keep_passing(rows, x.0, true, x.1));
    } else {
        assert(pats.push(x)[0] == pats[0]);
        assert(pats.push(x).drop_first() =~= pats.drop_first().push(x));
        lemma_filter_by_push(keep_passing(rows, pats[0].0, true, pats[0].1), pats.drop_first(), x);
    }
}

/// The text `Invalid regex: ` followed by the compiler's message.
pub open spec fn invalid_regex(m: Seq<char>) -> Seq<char> {
    "Invalid regex: "@ + m
}

fn invalid_regex_text(e: &str) -> (r: String)
    ensures
        r@ == invalid_regex(e@),
{
    let mut msg = chars_of("Invalid regex: ");
    push_all(&mut msg, chars_of(e).as_slice());
    string_of(msg.as_slice())
}

/// Applies the further patterns `pats[from..]` in turn; the first that does
/// not compile gives its error.
pub fn filter_by_patterns(rows: Vec<SearchResult>, pats: &Vec<(String, bool)>, from: usize) -> (r: Result<Vec<SearchResult>, String>)
    requires
        from <= pats.len(),
    ensures
        match r {
            Ok(out) => first_highlight_error(pattern_pairs_view(pats@).skip(from as int)) is None && out@ == filter_by(
                rows@,
                pattern_pairs_view(pats@).skip(from as int),
            ),
            Err(e) => first_highlight_error(pattern_pairs_view(pats@).skip(from as int)) matches Some(m) && e@
                == invalid_regex(m),
        },
{
    let ghost pv = pattern_pairs_view(pats@);
    let ghost start = rows@;
    let mut rows = rows;
    let mut k: usize = from;
    assert(pv.subrange(from as int, from as int) =~= Seq::<(Seq<char>, bool)>::empty());
    while k < pats.len()
        invariant
            from <= k <= pats.len(),
            pv == pattern_pairs_view(pats@),
            first_highlight_error(pv.subrange(from as int, k as int)) is None,
            rows@ == filter_by(start, pv.subrange(from as int, k as int)),
        decreases pats.len() - k,
    {
        let ghost done = pv.subrange(from as int, k as int);
        assert(pv.subrange(from as int, k + 1) =~= done.push(pv[k as int]));
        proof {
            crate::render::lemma_first_error_push(done, pv[k as int]);
            lemma_filter_by_push(start, done, pv[k as int]);
        }
        match build_matcher(pats[k].0.as_str(), true) {
            Ok(m) => {
                rows = filter_rows(rows, &m, pats[k].1);
            },
            Err(e) => {
                proof {
                    crate::render::lemma_first_error_prefix(pv.subrange(from as int, k + 1), pv.skip(k + 1));
                    assert(pv.subrange(from as int, k + 1) + pv.skip(k + 1) =~= pv.skip(from as int));
                }
                return Err(invalid_regex_text(e.as_str()));
            },
        }
        k = k + 1;
    }
    assert(pv.subrange(from as int, pats.len() as int) =~= pv.skip(from as int));
    Ok(rows)
}

/// The type restriction of a search: `--dir`, else `--file`, else none.
pub open spec fn base_type_flag(s: Settings) -> Option<TypeFlag> {
    if s.force_dir {
        Some(TypeFlag::Dir)
    } else if s.force_file {
        Some(TypeFlag::File)
    } else {
        None
    }
}

/// A term that asks for directories.
pub open spec fn term_wants_dir(raw: Seq<char>, regex_mode: bool) -> bool {
    name_pattern_spec(raw, regex_mode).0 == Some(TypeFlag::Dir)
}

/// The type restriction of a multi-pattern search: directories when a
/// pattern asks for them (unless `--file` is given), else as
/// `base_type_flag`.
pub open spec fn terms_type_flag(s: Settings, terms: Seq<Seq<char>>) -> Option<TypeFlag> {
    if !s.force_file && exists|k: int| 0 <= k < terms.len() && term_wants_dir(#[trigger] terms[k], s.regex_mode) {
        Some(TypeFlag::Dir)
    } else {
        base_type_flag(s)
    }
}

/// Metadata is read while walking: the long listing, an ordering or sizes
/// need it.
pub open spec fn needs_metadata_spec(s: Settings) -> bool {
    s.long_format || s.sort_field is Some || s.sizes
}

/// The order key of a contains-all term: higher scores first, then longer
/// regexes (in bytes), then regexes in code-point order.
pub open spec fn term_key(score: int, rx: Seq<char>) -> Seq<u64> {
    seq![
        (0x7fff_ffff_ffff_ffff - score) as u64,
        (0xffff_ffff_ffff_ffff - (vstd::utf8::encode_utf8(rx).len() as usize)) as u64,
    ] + text_key(rx)
}

/// The regex and score of each term.
pub open spec fn term_specs(terms: Seq<Seq<char>>, regex_mode: bool) -> Seq<(Seq<char>, int)> {
    terms.map_values(|t: Seq<char>| (name_pattern_spec(t, regex_mode).1, selectivity_score(t, regex_mode)))
}

/// The order keys of the terms.
pub open spec fn term_keys(terms: Seq<Seq<char>>, regex_mode: bool) -> Seq<Seq<u64>> {
    term_specs(terms, regex_mode).map_values(|x: (Seq<char>, int)| term_key(x.1, x.0))
}

/// The regexes of the terms in the order they are applied (see
/// `term_key`; ties keep their order).
pub open spec fn ordered_regexes(terms: Seq<Seq<char>>, regex_mode: bool, out: Seq<Seq<char>>) -> bool {
    exists|p: Seq<usize>|
        is_stable_order(term_keys(terms, regex_mode), false, p) && out == permuted(
            term_specs(terms, regex_mode),
            p,
        ).map_values(|x: (Seq<char>, int)| x.0)
}

/// The views of a list of strings.
pub open spec fn texts(v: Seq<String>) -> Seq<Seq<char>> {
    v.map_values(|x: String| x@)
}

/// Every term can be read as a name pattern and is of a length a score can
/// be computed for.
pub open spec fn terms_ok(terms: Seq<Seq<char>>, regex_mode: bool) -> bool {
    forall|k: int| 0 <= k < terms.len() ==> name_pattern_defined(#[trigger] terms[k], regex_mode) && terms[k].len() <= 0x40_0000_0000_0000
}

/// The regexes of contains-all terms, most selective first.
pub fn order_terms(terms: &Vec<String>, regex_mode: bool) -> (r: Vec<String>)
    requires
        terms_ok(texts(terms@), regex_mode),
    ensures
        ordered_regexes(texts(terms@), regex_mode, texts(r@)),
{
    let ghost tv = texts(terms@);
    let mut rxs: Vec<String> = Vec::new();
    let mut keys: Vec<Vec<u64>> = Vec::new();
    for k in 0..terms.len()
        invariant
            tv == texts(terms@),
            terms_ok(tv, regex_mode),
            rxs.len() == k,
            keys.len() == k,
            forall|j: int| 0 <= j < k ==> #[trigger] rxs@[j]@ == term_specs(tv, regex_mode)[j].0,
            forall|j: int| 0 <= j < k ==> #[trigger] keys@[j]@ == term_keys(tv, regex_mode)[j],
    {
        assert(tv[k as int] == terms@[k as int]@);
        let parsed = parse_name_pattern(terms[k].as_str(), regex_mode);
        let score = term_selectivity_score(terms[k].as_str(), regex_mode);
        let blen = parsed.regex.as_str().len();
        let mut key: Vec<u64> = Vec::new();
        let hi: i128 = 0x7fff_ffff_ffff_ffffi128 - score as i128;
        assert(0 <= hi <= 0xffff_ffff_ffff_ffff);
        key.push(hi as u64);
        key.push(0xffff_ffff_ffff_ffffu64 - blen as u64);
        let tk = text_key_of(chars_of(parsed.regex.as_str()).as_slice());
        let ghost k0 = key@;
        for t in 0..tk.len()
            invariant
                key@ == k0 + tk@.take(t as int),
        {
            key.push(tk[t]);
            assert(key@ =~= k0 + tk@.take(t + 1));
        }
        assert(tk@.take(tk.len() as int) =~= tk@);
        assert(key@ =~= term_key(score as int, parsed.regex@));
        rxs.push(parsed.regex);
        keys.push(key);
    }
    assert(keys_view(keys@) =~= term_keys(tv, regex_mode));
    let p = stable_order(&keys, false);
    let mut out: Vec<String> = Vec::new();
    for k in 0..p.len()
        invariant
            p.len() == rxs.len(),
            rxs.len() == terms.len(),
            tv == texts(terms@),
            forall|j: int| 0 <= j < p.len() ==> #[trigger] p@[j] < rxs.len(),
            forall|j: int| 0 <= j < rxs.len() ==> #[trigger] rxs@[j]@ == term_specs(tv, regex_mode)[j].0,
            texts(out@) == permuted(term_specs(tv, regex_mode), p@.take(k as int)).map_values(|x: (Seq<char>, int)| x.0),
    {
        let ghost before = out@;
        out.push(rxs[p[k]].clone());
        assert(texts(out@) =~= texts(before).push(rxs@[p@[k as int] as int]@));
        assert(permuted(term_specs(tv, regex_mode), p@.take(k + 1)) =~= permuted(term_specs(tv, regex_mode), p@.take(k as int)).push(
            term_specs(tv, regex_mode)[p@[k as int] as int],
        ));
        assert(texts(out@) =~= permuted(term_specs(tv, regex_mode), p@.take(k + 1)).map_values(
            |x: (Seq<char>, int)| x.0,
        ));
    }
    assert(p@.take(p.len() as int) =~= p@);
    out
}

/// A root made absolute: kept when it starts with `/`, the working
/// directory for `.`, else the working directory, `/`, and the root
/// without leading `./`.
pub open spec fn absolute_root(root: Seq<char>, cwd: Seq<char>) -> Seq<char> {
    if root.len() > 0 && root[0] == '/' {
        root
    } else if root == seq!['.'] {
        cwd
    } else {
        cwd + seq!['/'] + crate::text::strip_prefix_all(root, seq!['.', '/'])
    }
}

/// A root made absolute (see `absolute_root`).
pub fn make_root_absolute(root: &str, cwd: &str) -> (r: String)
    ensures
        r@ == absolute_root(root@, cwd@),
{
    let rc = chars_of(root);
    if crate::text::starts_with_char(rc.as_slice(), '/') {
        return string_of(rc.as_slice());
    }
    let dot: Vec<char> = vec!['.'];
    assert(dot@ =~= seq!['.']);
    if eq_chars(rc.as_slice(), dot.as_slice()) {
        return string_of(chars_of(cwd).as_slice());
    }
    let mut out = chars_of(cwd);
    out.push('/');
    let dot_slash: Vec<char> = vec!['.', '/'];
    assert(dot_slash@ =~= seq!['.', '/']);
    push_all(&mut out, crate::text::strip_prefix_all_chars(rc.as_slice(), dot_slash.as_slice()).as_slice());
    string_of(out.as_slice())
}

/// The type restriction of a multi-pattern search (see `terms_type_flag`).
pub fn search_type_flag(s: &Settings, terms: &Vec<String>) -> (r: Option<TypeFlag>)
    requires
        forall|k: int| 0 <= k < terms.len() ==> name_pattern_defined(#[trigger] terms@[k]@, s.regex_mode),
    ensures
        r == terms_type_flag(*s, texts(terms@)),
{
    let ghost tv = texts(terms@);
    let mut flag = if s.force_dir {
        Some(TypeFlag::Dir)
    } else if s.force_file {
        Some(TypeFlag::File)
    } else {
        None
    };
    let mut any_dir = false;
    for k in 0..terms.len()
        invariant
            tv == texts(terms@),
            forall|j: int| 0 <= j < terms.len() ==> name_pattern_defined(#[trigger] terms@[j]@, s.regex_mode),
            any_dir == exists|j: int| 0 <= j < k && term_wants_dir(#[trigger] tv[j], s.regex_mode),
    {
        let parsed = parse_name_pattern(terms[k].as_str(), s.regex_mode);
        assert(tv[k as int] == terms@[k as int]@);
        if parsed.type_flag == Some(TypeFlag::Dir) {
            any_dir = true;
        }
    }
    if any_dir && !s.force_file {
        flag = Some(TypeFlag::Dir);
    }
    flag
}

/// The highlight rules when matches are to be highlighted.
pub fn highlight_for(s: &Settings, pats: &Vec<(String, bool)>) -> (r: Result<Option<HighlightSpec>, String>)
    ensures
        !s.highlight_match ==> r matches Ok(None),
        s.highlight_match ==> match r {
            Ok(Some(h)) => first_highlight_error(pattern_pairs_view(pats@)) is None && matchers_view(h.leaf_rules@)
                == highlight_leaf(pattern_pairs_view(pats@)) && matchers_view(h.prefix_rules@) == highlight_prefix(
                pattern_pairs_view(pats@),
            ),
            Ok(None) => false,
            Err(e) => first_highlight_error(pattern_pairs_view(pats@)) matches Some(m) && e@ == invalid_regex(m),
        },
{
    if !s.highlight_match {
        return Ok(None);
    }
    match compile_highlight_spec(pats) {
        Ok(h) => Ok(Some(h)),
        Err(e) => Err(e),
    }
}

/// A contains-all search, ready to walk: the term regexes in the order
/// they are applied, the first compiled, the type restriction, whether the
/// first matches everything, the root, whether whole paths are matched,
/// and whether metadata is read.
pub struct ContainsSearch {
    pub regexes: Vec<String>,
    pub first: Matcher,
    pub type_flag: Option<TypeFlag>,
    pub is_catch_all: bool,
    pub root: String,
    pub full_path_match: bool,
    pub needs_metadata: bool,
}

/// Sets up a contains-all search over the given root (`cwd` makes it
/// absolute when whole paths are matched): none without terms; an error
/// when the first regex does not compile.
pub fn contains_prepare(s: &Settings, terms: &Vec<String>, root: String, cwd: &str) -> (r: Result<Option<ContainsSearch>, String>)
    requires
        terms_ok(texts(terms@), s.regex_mode),
    ensures
        terms.len() == 0 <==> r matches Ok(None),
        match r {
            Ok(Some(cs)) => {
                &&& ordered_regexes(texts(terms@), s.regex_mode, texts(cs.regexes@))
                &&& cs.regexes.len() == terms.len()
                &&& regex_build_error(cs.regexes@[0]@, true) is None
                &&& cs.first.pattern() == cs.regexes@[0]@
                &&& cs.first.ci()
                &&& cs.type_flag == terms_type_flag(*s, texts(terms@))
                &&& cs.is_catch_all == catch_all_spec(cs.regexes@[0]@)
                &&& cs.root@ == (if s.force_full { absolute_root(root@, cwd@) } else { root@ })
                &&& cs.full_path_match == s.force_full
                &&& cs.needs_metadata == needs_metadata_spec(*s)
            },
            Ok(None) => true,
            Err(e) => exists|rs: Seq<Seq<char>>|
                #[trigger] ordered_regexes(texts(terms@), s.regex_mode, rs) && rs.len() > 0 && (regex_build_error(rs[0], true)
                    matches Some(m) && e@ == invalid_regex(m)),
        },
{
    proof {
        assert forall|k: int| 0 <= k < terms.len() implies name_pattern_defined(#[trigger] terms@[k]@, s.regex_mode) by {
            assert(texts(terms@)[k] == terms@[k]@);
        }
    }
    let type_flag = search_type_flag(s, terms);
    let regexes = order_terms(terms, s.regex_mode);
    proof {
        let p = choose|p: Seq<usize>|
            is_stable_order(term_keys(texts(terms@), s.regex_mode), false, p) && texts(regexes@) == permuted(
                term_specs(texts(terms@), s.regex_mode),
                p,
            ).map_values(|x: (Seq<char>, int)| x.0);
        assert(regexes@.len() == texts(regexes@).len());
    }
    if regexes.len() == 0 {
        return Ok(None);
    }
    assert(texts(regexes@)[0] == regexes@[0]@);
    let first = match build_matcher(regexes[0].as_str(), true) {
        Ok(m) => m,
        Err(e) => {
            return Err(invalid_regex_text(e.as_str()));
        },
    };
    let catch_all = is_catch_all(regexes[0].as_str());
    let root = if s.force_full {
        make_root_absolute(root.as_str(), cwd)
    } else {
        root
    };
    Ok(Some(ContainsSearch {
        regexes,
        first,
        type_flag,
        is_catch_all: catch_all,
        root,
        full_path_match: s.force_full,
        needs_metadata: s.long_format || s.sort_field.is_some() || s.sizes,
    }))
}

/// The patterns after the first (none when there are none).
pub open spec fn after_first(pats: Seq<(Seq<char>, bool)>) -> Seq<(Seq<char>, bool)> {
    if pats.len() == 0 {
        seq![]
    } else {
        pats.skip(1)
    }
}

/// The further patterns of a contains-all search: every regex, tested on
/// whole paths or last components alike.
pub open spec fn contains_pats(regexes: Seq<Seq<char>>, full: bool) -> Seq<(Seq<char>, bool)> {
    regexes.map_values(|x: Seq<char>| (x, full))
}

/// The results of a walk, filtered, ordered by path and, when whole paths
/// are matched, pruned of results inside other results.
pub open spec fn finished_rows(mid: Seq<SearchResult>, prune: bool, out: Seq<SearchResult>) -> bool {
    exists|sorted: Seq<SearchResult>|
        #[trigger] stably_sorted(mid, path_keys(mid), false, sorted) && out == (if prune { prune_spec(sorted) } else { sorted })
}

/// What a contains-all search keeps of its walked results (`rows`): those
/// passing every further regex (on the whole path when whole paths are
/// matched, else on the last component), with whole paths also some regex
/// matching the last component; ordered by path, pruned when whole paths
/// are matched.
pub open spec fn contains_mid(regexes: Seq<Seq<char>>, full: bool, rows: Seq<SearchResult>) -> Seq<SearchResult> {
    let pats = contains_pats(regexes, full);
    let f = filter_by(rows, after_first(pats));
    if full && regexes.len() > 1 {
        keep_base_matching_any(f, highlight_leaf(pats))
    } else {
        f
    }
}

/// The error a contains-all search ends with, if any: a further regex that
/// does not compile, or any regex when all are compiled again (whole paths
/// with several regexes, or highlighting).
pub open spec fn contains_error(regexes: Seq<Seq<char>>, full: bool, highlight: bool) -> Option<Seq<char>> {
    let pats = contains_pats(regexes, full);
    match first_highlight_error(after_first(pats)) {
        Some(m) => Some(m),
        None => if (full && regexes.len() > 1) || highlight {
            first_highlight_error(pats)
        } else {
            None
        },
    }
}

fn pairs_with(regexes: &Vec<String>, full: bool) -> (r: Vec<(String, bool)>)
    ensures
        pattern_pairs_view(r@) == contains_pats(texts(regexes@), full),
{
    let mut out: Vec<(String, bool)> = Vec::new();
    for k in 0..regexes.len()
        invariant
            pattern_pairs_view(out@) == contains_pats(texts(regexes@), full).take(k as int),
    {
        let ghost before = out@;
        out.push((regexes[k].clone(), full));
        assert(pattern_pairs_view(out@) =~= pattern_pairs_view(before).push((regexes@[k as int]@, full)));
        assert(pattern_pairs_view(out@) =~= contains_pats(texts(regexes@), full).take(k + 1));
    }
    assert(contains_pats(texts(regexes@), full).take(regexes.len() as int) =~= contains_pats(texts(regexes@), full));
    out
}

/// Finishes a contains-all search on its walked results (see
/// `contains_mid`, `finished_rows`, `contains_error`), with the highlight
/// rules when asked for.
pub fn contains_finish(cs: &ContainsSearch, s: &Settings, rows: Vec<SearchResult>) -> (r: Result<(Vec<SearchResult>, Option<HighlightSpec>), String>)
    ensures
        match r {
            Ok((out, h)) => contains_error(texts(cs.regexes@), cs.full_path_match, s.highlight_match) is None
                && finished_rows(contains_mid(texts(cs.regexes@), cs.full_path_match, rows@), cs.full_path_match, out@)
                && (h is Some <==> s.highlight_match)
                && (h matches Some(hs) ==> matchers_view(hs.leaf_rules@) == highlight_leaf(
                    contains_pats(texts(cs.regexes@), cs.full_path_match),
                ) && matchers_view(hs.prefix_rules@) == highlight_prefix(contains_pats(texts(cs.regexes@), cs.full_path_match))),
            Err(e) => contains_error(texts(cs.regexes@), cs.full_path_match, s.highlight_match) matches Some(m) && e@
                == invalid_regex(m),
        },
{
    let full = cs.full_path_match;
    let ghost rv = texts(cs.regexes@);
    let pats = pairs_with(&cs.regexes, full);
    let ghost pv = pattern_pairs_view(pats@);
    let filtered = if pats.len() == 0 {
        rows
    } else {
        match filter_by_patterns(rows, &pats, 1) {
            Ok(f) => f,
            Err(e) => {
                return Err(e);
            },
        }
    };
    assert(filtered@ == filter_by(rows@, after_first(pv)));
    let mid = if full && cs.regexes.len() > 1 {
        match compile_highlight_spec(&pats) {
            Ok(all) => filter_rows_base_any(filtered, &all.leaf_rules),
            Err(e) => {
                return Err(e);
            },
        }
    } else {
        filtered
    };
    assert(mid@ == contains_mid(rv, full, rows@));
    let sorted = sort_rows_by_path(mid);
    let ghost sv = sorted@;
    let out = if full {
        prune_nested_results(sorted)
    } else {
        sorted
    };
    assert(finished_rows(contains_mid(rv, full, rows@), full, out@));
    let h = match highlight_for(s, &pats) {
        Ok(h) => h,
        Err(e) => {
            return Err(e);
        },
    };
    Ok((out, h))
}

/// A full-path search, ready to walk: its root, its patterns (regex, and
/// whether it is tested on whole paths), the first compiled, the type
/// restriction, whether the first matches everything, whether it is tested
/// on whole paths, and whether metadata is read.
pub struct FullSearch {
    pub root: String,
    pub patterns: Vec<(String, bool)>,
    pub first: Matcher,
    pub type_flag: Option<TypeFlag>,
    pub is_catch_all: bool,
    pub first_full: bool,
    pub needs_metadata: bool,
}

/// How setting up a full-path search ends: a search, nothing to search
/// for, or a first pattern that does not compile (with the compiler's
/// message), on which the search cannot start.
pub enum FullPrepared {
    Search(FullSearch),
    Empty,
    BadFirst(String),
}

/// The last argument names the root when there are several and it is an
/// existing directory.
pub open spec fn full_takes_root(pos: Seq<Seq<char>>, last_is_dir: bool) -> bool {
    pos.len() > 1 && last_is_dir
}

/// The pattern arguments of a full-path search.
pub open spec fn full_pattern_args(pos: Seq<Seq<char>>, last_is_dir: bool) -> Seq<Seq<char>> {
    if full_takes_root(pos, last_is_dir) {
        pos.drop_last()
    } else {
        pos
    }
}

/// The patterns of a full-path search: each argument's regex, and whether
/// it is tested on whole paths.
pub open spec fn full_pats(args: Seq<Seq<char>>, regex_mode: bool) -> Seq<(Seq<char>, bool)> {
    args.map_values(|p: Seq<char>| (name_pattern_spec(p, regex_mode).1, prefers_full_path(p, regex_mode)))
}

/// Sets up a full-path search (`last_is_dir`: the last argument is an
/// existing directory; `cwd` makes the root absolute).
pub fn full_prepare(o: &Options, last_is_dir: bool, cwd: &str) -> (r: FullPrepared)
    requires
        forall|k: int| 0 <= k < o.positional.len() ==> name_pattern_defined(#[trigger] o.positional@[k]@, o.settings.regex_mode),
    ensures
        ({
            let pos = texts(o.positional@);
            let args = full_pattern_args(pos, last_is_dir);
            let pats = full_pats(args, o.settings.regex_mode);
            let root = if full_takes_root(pos, last_is_dir) { pos.last() } else { seq!['.'] };
            match r {
                FullPrepared::Empty => args.len() == 0,
                FullPrepared::BadFirst(e) => args.len() > 0 && regex_build_error(pats[0].0, true) == Some(e@),
                FullPrepared::Search(fs) => {
                    &&& args.len() > 0
                    &&& regex_build_error(pats[0].0, true) is None
                    &&& fs.root@ == absolute_root(root, cwd@)
                    &&& pattern_pairs_view(fs.patterns@) == pats
                    &&& fs.first.pattern() == pats[0].0
                    &&& fs.first.ci()
                    &&& fs.type_flag == terms_type_flag(o.settings, args)
                    &&& fs.is_catch_all == catch_all_spec(pats[0].0)
                    &&& fs.first_full == pats[0].1
                    &&& fs.needs_metadata == needs_metadata_spec(o.settings)
                },
            }
        }),
{
    let s = &o.settings;
    let ghost pos = texts(o.positional@);
    let n = o.positional.len();
    let take_root = n > 1 && last_is_dir;
    let keep = if take_root { n - 1 } else { n };
    let mut args: Vec<String> = Vec::new();
    let mut patterns: Vec<(String, bool)> = Vec::new();
    for k in 0..keep
        invariant
            keep <= n,
            n == o.positional.len(),
            pos == texts(o.positional@),
            forall|j: int| 0 <= j < n ==> name_pattern_defined(#[trigger] o.positional@[j]@, o.settings.regex_mode),
            texts(args@) == pos.take(k as int),
            pattern_pairs_view(patterns@) == full_pats(pos.take(k as int), o.settings.regex_mode),
    {
        let raw = &o.positional[k];
        let parsed = parse_name_pattern(raw.as_str(), o.settings.regex_mode);
        let full = pattern_prefers_full_path(raw.as_str(), o.settings.regex_mode);
        assert(pos[k as int] == raw@);
        let ghost pa = patterns@;
        let ghost aa = args@;
        args.push(raw.clone());
        patterns.push((parsed.regex, full));
        assert(texts(args@) =~= texts(aa).push(raw@));
        assert(pos.take(k + 1) =~= pos.take(k as int).push(pos[k as int]));
        assert(pattern_pairs_view(patterns@) =~= pattern_pairs_view(pa).push((parsed.regex@, full)));
        assert(full_pats(pos.take(k + 1), o.settings.regex_mode) =~= full_pats(pos.take(k as int), o.settings.regex_mode).push(
            (parsed.regex@, full),
        ));
    }
    proof {
        if take_root {
            assert(pos.take(keep as int) =~= pos.drop_last());
        } else {
            assert(pos.take(keep as int) =~= pos);
        }
    }
    if patterns.len() == 0 {
        return FullPrepared::Empty;
    }
    proof {
        assert forall|k: int| 0 <= k < args.len() implies name_pattern_defined(#[trigger] args@[k]@, s.regex_mode) by {
            assert(texts(args@)[k] == args@[k]@);
            assert(pos[k] == o.positional@[k]@);
        }
    }
    let type_flag = search_type_flag(s, &args);
    assert(pattern_pairs_view(patterns@)[0] == (patterns@[0].0@, patterns@[0].1));
    let first = match build_matcher(patterns[0].0.as_str(), true) {
        Ok(m) => m,
        Err(e) => {
            return FullPrepared::BadFirst(e);
        },
    };
    let root_text = if take_root {
        o.positional[n - 1].clone()
    } else {
        string_of(vec!['.'].as_slice())
    };
    proof {
        if take_root {
            assert(pos.last() == o.positional@[n - 1]@);
        } else {
            assert(root_text@ =~= seq!['.']);
        }
    }
    let root = make_root_absolute(root_text.as_str(), cwd);
    let catch_all = is_catch_all(patterns[0].0.as_str());
    let first_full = patterns[0].1;
    FullPrepared::Search(FullSearch {
        root,
        patterns,
        first,
        type_flag,
        is_catch_all: catch_all,
        first_full,
        needs_metadata: s.long_format || s.sort_field.is_some() || s.sizes,
    })
}

/// The error a full-path search ends with, if any: a further pattern that
/// does not compile, or, when highlighting, any pattern.
pub open spec fn full_error(pats: Seq<(Seq<char>, bool)>, highlight: bool) -> Option<Seq<char>> {
    match first_highlight_error(after_first(pats)) {
        Some(m) => Some(m),
        None => if highlight {
            first_highlight_error(pats)
        } else {
            None
        },
    }
}

/// Finishes a full-path search on its walked results: the further
/// patterns applied, the results ordered by path and pruned of results
/// inside other results, with the highlight rules when asked for.
pub fn full_finish(fs: &FullSearch, s: &Settings, rows: Vec<SearchResult>) -> (r: Result<(Vec<SearchResult>, Option<HighlightSpec>), String>)
    ensures
        match r {
            Ok((out, h)) => full_error(pattern_pairs_view(fs.patterns@), s.highlight_match) is None
                && finished_rows(filter_by(rows@, after_first(pattern_pairs_view(fs.patterns@))), true, out@)
                && (h is Some <==> s.highlight_match)
                && (h matches Some(hs) ==> matchers_view(hs.leaf_rules@) == highlight_leaf(pattern_pairs_view(fs.patterns@))
                && matchers_view(hs.prefix_rules@) == highlight_prefix(pattern_pairs_view(fs.patterns@))),
            Err(e) => full_error(pattern_pairs_view(fs.patterns@), s.highlight_match) matches Some(m) && e@ == invalid_regex(m),
        },
{
    let ghost pv = pattern_pairs_view(fs.patterns@);
    let filtered = if fs.patterns.len() == 0 {
        rows
    } else {
        match filter_by_patterns(rows, &fs.patterns, 1) {
            Ok(f) => f,
            Err(e) => {
                return Err(e);
            },
        }
    };
    assert(filtered@ == filter_by(rows@, after_first(pv)));
    let sorted = sort_rows_by_path(filtered);
    let out = prune_nested_results(sorted);
    let h = match highlight_for(s, &fs.patterns) {
        Ok(h) => h,
        Err(e) => {
            return Err(e);
        },
    };
    Ok((out, h))
}

/// Where a standard search walks: one directory, every directory on disk
/// that a search-dir pattern matches, or nowhere because that pattern does
/// not compile (with the compiler's message).
pub enum SearchRoot {
    Dir(String),
    Dirs(Matcher),
    Unusable(String),
}

/// A standard search, ready to walk: the name regex and its matcher, the
/// type restriction, whether it matches everything, the root, whether
/// metadata is read, and whether matches can be written out as they are
/// found.
pub struct StandardSearch {
    pub regex: String,
    pub matcher: Matcher,
    pub type_flag: Option<TypeFlag>,
    pub is_catch_all: bool,
    pub root: SearchRoot,
    pub needs_metadata: bool,
    pub stream_direct: bool,
}

/// The type restriction of a standard search: the pattern's own, replaced
/// by `--dir`, then by `--file`.
pub open spec fn standard_type_flag(s: Settings, own: Option<TypeFlag>) -> Option<TypeFlag> {
    if s.force_file {
        Some(TypeFlag::File)
    } else if s.force_dir {
        Some(TypeFlag::Dir)
    } else {
        own
    }
}

/// The root of a standard search, given what the search-dir argument reads
/// as: a directory, or a pattern kept when it compiles.
pub open spec fn standard_root_ok(root: SearchRoot, sd: Option<(bool, Seq<char>)>) -> bool {
    match sd {
        None => root matches SearchRoot::Dir(d) && d@ == seq!['.'],
        Some((true, p)) => root matches SearchRoot::Dir(d) && d@ == p,
        Some((false, x)) => match regex_build_error(x, true) {
            None => root matches SearchRoot::Dirs(m) && m.pattern() == x && m.ci(),
            Some(e) => root matches SearchRoot::Unusable(t) && t@ == e,
        },
    }
}

/// Sets up a standard search: the first argument is the name pattern, the
/// second, if any, the search dir (`canon_raw` and `canon_inner`: the
/// canonical paths of the argument and of its quoted inner text, when they
/// are existing directories).
pub fn standard_prepare(o: &Options, use_style: bool, canon_raw: Option<String>, canon_inner: Option<String>) -> (r: Result<
    StandardSearch,
    String,
>)
    requires
        o.positional.len() >= 1,
        name_pattern_defined(o.positional@[0]@, o.settings.regex_mode),
        o.positional.len() > 1 ==> search_dir_defined(
            o.positional@[1]@,
            o.settings.regex_mode,
            o.settings.force_pattern_mode,
            opt_view(canon_raw),
        ),
    ensures
        ({
            let np = name_pattern_spec(o.positional@[0]@, o.settings.regex_mode);
            match r {
                Err(e) => regex_build_error(np.1, true) matches Some(m) && e@ == invalid_regex(m),
                Ok(ss) => {
                    &&& regex_build_error(np.1, true) is None
                    &&& ss.regex@ == np.1
                    &&& ss.matcher.pattern() == np.1
                    &&& ss.matcher.ci()
                    &&& ss.type_flag == standard_type_flag(o.settings, np.0)
                    &&& ss.is_catch_all == catch_all_spec(np.1)
                    &&& ss.needs_metadata == needs_metadata_spec(o.settings)
                    &&& ss.stream_direct == crate::modes::stream_direct_spec(o.settings, use_style)
                    &&& standard_root_ok(ss.root, if o.positional.len() == 1 {
                        None
                    } else {
                        Some(search_dir_spec(
                            o.positional@[1]@,
                            o.settings.regex_mode,
                            o.settings.force_pattern_mode,
                            opt_view(canon_raw),
                            opt_view(canon_inner),
                        ))
                    })
                },
            }
        }),
{
    let s = &o.settings;
    let name = parse_name_pattern(o.positional[0].as_str(), s.regex_mode);
    let mut type_flag = name.type_flag;
    if s.force_dir {
        type_flag = Some(TypeFlag::Dir);
    }
    if s.force_file {
        type_flag = Some(TypeFlag::File);
    }
    let stream_direct = crate::modes::can_stream_direct(s, use_style);
    let matcher = match build_matcher(name.regex.as_str(), true) {
        Ok(m) => m,
        Err(e) => {
            return Err(invalid_regex_text(e.as_str()));
        },
    };
    let catch_all = is_catch_all(name.regex.as_str());
    let root = if o.positional.len() == 1 {
        let d = string_of(vec!['.'].as_slice());
        assert(d@ =~= seq!['.']);
        SearchRoot::Dir(d)
    } else {
        match parse_search_dir(o.positional[1].as_str(), s.regex_mode, s.force_pattern_mode, canon_raw, canon_inner) {
            SearchDirMode::Path(p) => SearchRoot::Dir(p),
            SearchDirMode::Pattern(x) => match build_matcher(x.as_str(), true) {
                Ok(m) => SearchRoot::Dirs(m),
                Err(e) => SearchRoot::Unusable(e),
            },
        }
    };
    Ok(StandardSearch {
        regex: name.regex,
        matcher,
        type_flag,
        is_catch_all: catch_all,
        root,
        needs_metadata: s.long_format || s.sort_field.is_some() || s.sizes,
        stream_direct,
    })
}

/// The highlight rules of a standard search, when asked for.
pub fn standard_finish(ss: &StandardSearch, s: &Settings) -> (r: Result<Option<HighlightSpec>, String>)
    ensures
        !s.highlight_match ==> r matches Ok(None),
        s.highlight_match ==> match r {
            Ok(Some(h)) => matchers_view(h.leaf_rules@) == seq![(ss.regex@, true)] && matchers_view(h.prefix_rules@)
                == Seq::<(Seq<char>, bool)>::empty() && regex_build_error(ss.regex@, true) is None,
            Ok(None) => false,
            Err(e) => regex_build_error(ss.regex@, true) matches Some(m) && e@ == invalid_regex(m),
        },
{
    let pats: Vec<(String, bool)> = vec![(ss.regex.clone(), false)];
    let ghost pv = pattern_pairs_view(pats@);
    assert(pv =~= seq![(ss.regex@, false)]);
    assert(pv.drop_first() =~= Seq::<(Seq<char>, bool)>::empty());
    assert(first_highlight_error(Seq::<(Seq<char>, bool)>::empty()) is None);
    assert(highlight_leaf(pv) =~= seq![(ss.regex@, true)]);
    assert(pv.drop_last() =~= Seq::<(Seq<char>, bool)>::empty());
    assert(highlight_prefix(Seq::<(Seq<char>, bool)>::empty()) =~= Seq::<(Seq<char>, bool)>::empty());
    assert(highlight_prefix(pv) =~= Seq::<(Seq<char>, bool)>::empty());
    highlight_for(s, &pats)
}

proof fn lemma_score_bounds(t: Seq<char>, regex_mode: bool)
    requires
        t.len() <= 0x40_0000_0000_0000,
    ensures
        -0x7fff_0000_0000_0000 < selectivity_score(t, regex_mode) < 0x7fff_0000_0000_0000,
{
    crate::text::lemma_count_where_bound(crate::pattern::quote_core(t), |c: char| crate::pattern::meaningful_char(c));
    crate::text::lemma_count_where_bound(t, |c: char| crate::pattern::heavy_meta_char(c));
    crate::text::lemma_count_char_bound(t, '*');
    assert(crate::pattern::quote_core(t).len() <= t.len());
}

/// Contains-all terms are applied most selective first: along the order,
/// the selectivity scores never rise.
pub proof fn law_terms_by_score(terms: Seq<Seq<char>>, regex_mode: bool, p: Seq<usize>)
    requires
        terms_ok(terms, regex_mode),
        is_stable_order(term_keys(terms, regex_mode), false, p),
    ensures
        forall|a: int, b: int| 0 <= a < b < p.len() ==> #[trigger] permuted(term_specs(terms, regex_mode), p)[a].1
            >= #[trigger] permuted(term_specs(terms, regex_mode), p)[b].1,
{
    let specs = term_specs(terms, regex_mode);
    let kv = term_keys(terms, regex_mode);
    assert forall|a: int, b: int| 0 <= a < b < p.len() implies #[trigger] permuted(specs, p)[a].1
        >= #[trigger] permuted(specs, p)[b].1 by {
        let ia = p[a] as int;
        let ib = p[b] as int;
        assert(crate::order::key_before(kv, false, ia, ib));
        lemma_score_bounds(terms[ia], regex_mode);
        lemma_score_bounds(terms[ib], regex_mode);
        let sa = specs[ia].1;
        let sb = specs[ib].1;
        assert(kv[ia] == term_key(sa, specs[ia].0));
        assert(kv[ib] == term_key(sb, specs[ib].0));
        let ka = (0x7fff_ffff_ffff_ffff - sa) as u64;
        let kb = (0x7fff_ffff_ffff_ffff - sb) as u64;
        assert(kv[ia][0] == ka);
        assert(kv[ib][0] == kb);
        assert(ka == 0x7fff_ffff_ffff_ffff - sa);
        assert(kb == 0x7fff_ffff_ffff_ffff - sb);
        if sa < sb {
            assert(kb < ka);
            assert(kv[ia] != kv[ib]);
            assert(crate::order::lex_lt(kv[ib], kv[ia]));
            crate::order::lemma_lex_asymmetric(kv[ia], kv[ib]);
        }
    }
}


/// The order key of a term's regex and score.
pub open spec fn spec_key_of(x: (Seq<char>, int)) -> Seq<u64> {
    term_key(x.1, x.0)
}

/// Terms with equal order keys have the same regex and score.
proof fn lemma_term_keys_tell_apart(terms: Seq<Seq<char>>, regex_mode: bool, i: int, j: int)
    requires
        terms_ok(terms, regex_mode),
        0 <= i < terms.len(),
        0 <= j < terms.len(),
        spec_key_of(term_specs(terms, regex_mode)[i]) == spec_key_of(term_specs(terms, regex_mode)[j]),
    ensures
        term_specs(terms, regex_mode)[i] == term_specs(terms, regex_mode)[j],
{
    let specs = term_specs(terms, regex_mode);
    let (ra, sa) = specs[i];
    let (rb, sb) = specs[j];
    lemma_score_bounds(terms[i], regex_mode);
    lemma_score_bounds(terms[j], regex_mode);
    let ka = term_key(sa, ra);
    let kb = term_key(sb, rb);
    assert(ka[0] == kb[0]);
    assert(ka[0] == 0x7fff_ffff_ffff_ffff - sa);
    assert(kb[0] == 0x7fff_ffff_ffff_ffff - sb);
    assert(ka.skip(2) =~= text_key(ra));
    assert(kb.skip(2) =~= text_key(rb));
    crate::order::lemma_text_key_injective(ra, rb);
}

/// The words of a contains-all search may be given in any order: for any
/// reordering of the same words, the regexes applied (in the order they
/// are applied) and the type restriction are the same, so the search is.
pub proof fn law_contains_all_word_order(
    s: Settings,
    t1: Seq<Seq<char>>,
    q: Seq<usize>,
    rs1: Seq<Seq<char>>,
    rs2: Seq<Seq<char>>,
)
    requires
        terms_ok(t1, s.regex_mode),
        t1.len() <= usize::MAX,
        is_index_perm(q, t1.len() as int),
        ordered_regexes(t1, s.regex_mode, rs1),
        ordered_regexes(reorder(t1, q), s.regex_mode, rs2),
    ensures
        rs1 == rs2,
        terms_type_flag(s, t1) == terms_type_flag(s, reorder(t1, q)),
{
    let rm = s.regex_mode;
    let n = t1.len() as int;
    let t2 = reorder(t1, q);
    let specs1 = term_specs(t1, rm);
    let keys1 = term_keys(t1, rm);
    let keys2 = term_keys(t2, rm);
    assert(term_specs(t2, rm) =~= reorder(specs1, q));
    assert(keys2 =~= reorder(keys1, q));
    let p1 = choose|p: Seq<usize>|
        is_stable_order(keys1, false, p) && rs1 == crate::results::permuted(specs1, p).map_values(
            |x: (Seq<char>, int)| x.0,
        );
    let p2 = choose|p: Seq<usize>|
        is_stable_order(keys2, false, p) && rs2 == crate::results::permuted(term_specs(t2, rm), p).map_values(
            |x: (Seq<char>, int)| x.0,
        );
    lemma_stable_order_is_perm(keys1, false, p1);
    lemma_stable_order_is_perm(keys2, false, p2);
    let r2 = Seq::new(n as nat, |k: int| q[p2[k] as int]);
    assert(is_index_perm(r2, n)) by {
        assert forall|i: int| 0 <= i < n implies #[trigger] lists_index(r2, n, i) by {
            assert(lists_index(q, n, i));
            let m = choose|m: int| 0 <= m < n && #[trigger] q[m] == i;
            assert(lists_index(p2, n, m));
            let k = choose|k: int| 0 <= k < n && #[trigger] p2[k] == m;
            assert(r2[k] == i);
        }
        assert forall|a: int, b: int| 0 <= a < b < n implies r2[a] != r2[b] by {
            assert(p2[a] != p2[b]);
            if p2[a] < p2[b] {
                assert(q[p2[a] as int] != q[p2[b] as int]);
            } else {
                assert(q[p2[b] as int] != q[p2[a] as int]);
            }
        }
    }
    let key = |x: (Seq<char>, int)| spec_key_of(x);
    assert forall|k: int| 0 <= k < n implies #[trigger] keys1[k] == key(specs1[k]) by {}
    assert(ascending_by(reorder(specs1, p1), key)) by {
        assert forall|a: int, b: int| 0 <= a < b < n implies !crate::order::lex_lt(
            key(#[trigger] reorder(specs1, p1)[b]),
            key(#[trigger] reorder(specs1, p1)[a]),
        ) by {
            assert(crate::order::key_before(keys1, false, p1[a] as int, p1[b] as int));
            crate::order::lemma_lex_asymmetric(keys1[p1[a] as int], keys1[p1[b] as int]);
            crate::order::lemma_lex_irreflexive(keys1[p1[a] as int]);
        }
    }
    assert(ascending_by(reorder(specs1, r2), key)) by {
        assert forall|a: int, b: int| 0 <= a < b < n implies !crate::order::lex_lt(
            key(#[trigger] reorder(specs1, r2)[b]),
            key(#[trigger] reorder(specs1, r2)[a]),
        ) by {
            assert(crate::order::key_before(keys2, false, p2[a] as int, p2[b] as int));
            assert(keys2[p2[a] as int] == keys1[r2[a] as int]);
            assert(keys2[p2[b] as int] == keys1[r2[b] as int]);
            crate::order::lemma_lex_asymmetric(keys1[r2[a] as int], keys1[r2[b] as int]);
            crate::order::lemma_lex_irreflexive(keys1[r2[a] as int]);
        }
    }
    assert forall|i: int, j: int|
        0 <= i < n && 0 <= j < n && key(#[trigger] specs1[i]) == key(#[trigger] specs1[j]) implies specs1[i]
        == specs1[j] by {
        lemma_term_keys_tell_apart(t1, rm, i, j);
    }
    lemma_sorted_perms_agree(specs1, key, p1, r2);
    assert(crate::results::permuted(specs1, p1) =~= reorder(specs1, p1));
    assert(crate::results::permuted(term_specs(t2, rm), p2) =~= reorder(specs1, r2));
    assert(rs1 =~= rs2);
    if exists|k: int| 0 <= k < n && term_wants_dir(#[trigger] t1[k], rm) {
        let k = choose|k: int| 0 <= k < n && term_wants_dir(#[trigger] t1[k], rm);
        assert(lists_index(q, n, k));
        let m = choose|m: int| 0 <= m < n && #[trigger] q[m] == k;
        assert(t2[m] == t1[k]);
    }
    if exists|m: int| 0 <= m < n && term_wants_dir(#[trigger] t2[m], rm) {
        let m = choose|m: int| 0 <= m < n && term_wants_dir(#[trigger] t2[m], rm);
        assert(t2[m] == t1[q[m] as int]);
    }
}

} // verus!
