//! Which search runs: the contains-all mode, the full-path mode or the
//! standard name search, and the switches that shape the output.
use vstd::prelude::*;
use crate::options::{Settings, Options, OptionsView, ColorWhen, strings_view, lemma_strings_view};
use crate::pattern::{wrapped_quote, explicit_search_dir_selector, is_wrapped_quote,
    is_explicit_search_dir_selector, opt_view};
use crate::text::{chars_of, string_of, concat, contains_char};

verus! {

/// Whether output is styled: always, never, or when stdout is a terminal.
pub open spec fn style_enabled_spec(when: ColorWhen, stdout_is_tty: bool) -> bool {
    match when {
        ColorWhen::Auto => stdout_is_tty,
        ColorWhen::Always => true,
        ColorWhen::Never => false,
    }
}

/// Whether output is styled.
pub fn style_enabled(st: &Settings, stdout_is_tty: bool) -> (r: bool)
    ensures
        r == style_enabled_spec(st.color_when, stdout_is_tty),
{
    match st.color_when {
        ColorWhen::Auto => stdout_is_tty,
        ColorWhen::Always => true,
        ColorWhen::Never => false,
    }
}

/// Matches can be written out as they are found, with no styling,
/// decoration, highlighting, summary, ordering, metadata or rewriting.
pub open spec fn stream_direct_spec(st: Settings, use_style: bool) -> bool {
    !use_style && !st.classify && !st.force_full && !st.highlight_match && !st.counts
        && st.sort_field is None && !st.long_format && !st.sizes && !st.absolute_paths
}

/// Matches can be written out as they are found.
pub fn can_stream_direct(st: &Settings, use_style: bool) -> (r: bool)
    ensures
        r == stream_direct_spec(*st, use_style),
{
    !use_style && !st.classify && !st.force_full && !st.highlight_match && !st.counts
        && st.sort_field.is_none() && !st.long_format && !st.sizes && !st.absolute_paths
}

/// Two or more plain words make a contains-all search: three or more
/// always, two unless the first is quoted, the second reads as a
/// search-dir selector, or regex or bypass mode is on.
pub open spec fn implicit_contains_all(o: OptionsView) -> bool {
    if o.positional.len() >= 3 {
        true
    } else if o.positional.len() == 2 {
        !o.settings.regex_mode && !o.settings.force_pattern_mode && !wrapped_quote(o.positional[0])
            && !explicit_search_dir_selector(o.positional[1])
    } else {
        false
    }
}

/// The words of a contains-all search and the text of its root, if one
/// is given.
pub struct ContainsAllPlan {
    pub terms: Vec<String>,
    pub root_raw: Option<String>,
}

/// The contains-all search the options ask for: none unless forced by
/// `--contains-all` or `--path` or implied by the words; a trailing word
/// with a slash is the root when `--path` is absent; at least one word must
/// remain.
pub open spec fn contains_all_spec(o: OptionsView) -> Result<
    Option<(Seq<Seq<char>>, Option<Seq<char>>)>,
    Seq<char>,
> {
    let forced = o.settings.contains_all || o.path_override is Some;
    if !(forced || implicit_contains_all(o)) {
        Ok(None)
    } else {
        let take_last = o.path_override is None && o.positional.len() > 0
            && o.positional.last().contains('/');
        let terms = if take_last {
            o.positional.drop_last()
        } else {
            o.positional
        };
        let root = if take_last {
            Some(o.positional.last())
        } else {
            o.path_override
        };
        if terms.len() == 0 {
            Err("contains-all mode requires at least one search term"@)
        } else {
            Ok(Some((terms, root)))
        }
    }
}

pub open spec fn plan_view(r: Result<Option<ContainsAllPlan>, String>) -> Result<
    Option<(Seq<Seq<char>>, Option<Seq<char>>)>,
    Seq<char>,
> {
    match r {
        Ok(Some(p)) => Ok(Some((strings_view(p.terms@), opt_view(p.root_raw)))),
        Ok(None) => Ok(None),
        Err(e) => Err(e@),
    }
}

/// The contains-all search the options ask for, if any.
pub fn contains_all_spec_from_opts(o: &Options) -> (r: Result<Option<ContainsAllPlan>, String>)
    ensures
        plan_view(r) == contains_all_spec(o@),
{
    proof {
        lemma_strings_view(o.positional@);
    }
    let n = o.positional.len();
    let implicit = if n >= 3 {
        true
    } else if n == 2 {
        !o.settings.regex_mode && !o.settings.force_pattern_mode && !is_wrapped_quote(
            chars_of(o.positional[0].as_str()).as_slice(),
        ) && !is_explicit_search_dir_selector(o.positional[1].as_str())
    } else {
        false
    };
    let forced = o.settings.contains_all || o.path_override.is_some();
    if !(forced || implicit) {
        return Ok(None);
    }
    let mut terms: Vec<String> = Vec::new();
    let take_last = o.path_override.is_none() && n > 0 && contains_char(
        chars_of(o.positional[n - 1].as_str()).as_slice(),
        '/',
    );
    let keep = if take_last {
        n - 1
    } else {
        n
    };
    for k in 0..keep
        invariant
            keep <= n,
            n == o.positional.len(),
            terms@ == o.positional@.take(k as int),
    {
        terms.push(o.positional[k].clone());
        assert(terms@ =~= o.positional@.take(k + 1));
    }
    proof {
        lemma_strings_view(terms@);
        if take_last {
            assert(strings_view(terms@) =~= strings_view(o.positional@).drop_last());
        } else {
            assert(strings_view(terms@) =~= strings_view(o.positional@));
        }
    }
    let root_raw = if take_last {
        Some(o.positional[n - 1].clone())
    } else {
        o.path_override.clone()
    };
    if terms.len() == 0 {
        return Err(String::from_str("contains-all mode requires at least one search term"));
    }
    Ok(Some(ContainsAllPlan { terms, root_raw }))
}

/// The contains-all root: the expanded `--path` text when it names an
/// existing directory (`is_dir`), else an error naming the raw text.
pub open spec fn literal_root_spec(raw: Seq<char>, expanded: Seq<char>, is_dir: bool) -> Result<
    Seq<char>,
    Seq<char>,
> {
    if is_dir {
        Ok(expanded)
    } else {
        Err("--path target '"@ + raw + "' is not an existing directory"@)
    }
}

/// The contains-all root, given whether its expanded text is an existing
/// directory.
pub fn resolve_literal_search_root(raw: &str, expanded: String, is_dir: bool) -> (r: Result<String, String>)
    ensures
        match r {
            Ok(p) => literal_root_spec(raw@, expanded@, is_dir) == Ok::<Seq<char>, Seq<char>>(p@),
            Err(e) => literal_root_spec(raw@, expanded@, is_dir) == Err::<Seq<char>, Seq<char>>(e@),
        },
{
    if is_dir {
        Ok(expanded)
    } else {
        let a = concat(chars_of("--path target '").as_slice(), chars_of(raw).as_slice());
        Err(string_of(concat(a.as_slice(), chars_of("' is not an existing directory").as_slice()).as_slice()))
    }
}

/// The three ways a search runs.
#[derive(Clone, Copy, Debug, PartialEq, Eq, Structural)]
pub enum RunMode {
    ContainsAll,
    Full,
    Standard,
}

/// A contains-all plan wins, then `--full`, else the standard search.
pub fn choose_run_mode(has_plan: bool, force_full: bool) -> (r: RunMode)
    ensures
        r == (if has_plan {
            RunMode::ContainsAll
        } else if force_full {
            RunMode::Full
        } else {
            RunMode::Standard
        }),
{
    if has_plan {
        RunMode::ContainsAll
    } else if force_full {
        RunMode::Full
    } else {
        RunMode::Standard
    }
}


/// No word of a contains-all search is lost or turns into the root by
/// mistake: the terms are the positional words, in order, except that
/// without `--path` a last word holding a `/` is taken as the root; with
/// `--path` that path is the root, and a root taken from the words always
/// holds a `/`.
pub proof fn law_contains_all_words_and_root(o: OptionsView)
    ensures
        contains_all_spec(o) matches Ok(Some((terms, root))) ==> {
            &&& o.path_override is Some ==> terms == o.positional && root == o.path_override
            &&& (o.path_override is None && !o.positional.last().contains('/')) ==> terms == o.positional && root is None
            &&& (o.path_override is None && o.positional.len() > 0 && o.positional.last().contains('/'))
                ==> terms + seq![o.positional.last()] == o.positional && root == Some(o.positional.last())
            &&& (o.path_override is None && root is Some) ==> root->0.contains('/')
        },
{
    if o.positional.len() > 0 {
        assert(o.positional.drop_last() + seq![o.positional.last()] =~= o.positional);
    }
}

} // verus!
