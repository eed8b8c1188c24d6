//! The rules a directory walk applies to each entry it reads: what is
//! skipped, what matches, what is written out, and where the walk goes on.
use vstd::prelude::*;
use crate::pattern::TypeFlag;
use crate::text::{has_prefix, has_suffix, chars_of, string_of, starts_with_char, ends_with_char,
    eq_chars};
use crate::ignore::{IgnoreRules, ignored_spec, is_ignored_name};
use crate::matcher::{Matcher, regex_is_match, matcher_is_match};

verus! {

/// What the walk knows of one directory entry: its name, its path, whether
/// it is (or, when links are followed, points to) a directory, and whether
/// it is a symbolic link.
pub struct EntryFacts {
    pub name: String,
    pub path: String,
    pub is_dir: bool,
    pub is_symlink: bool,
}

/// How a walk treats entries.
#[derive(Clone, Copy, Debug)]
pub struct WalkRules {
    pub visible_only: bool,
    pub no_recurse: bool,
    pub follow_links: bool,
    pub type_flag: Option<TypeFlag>,
    pub is_catch_all: bool,
    pub full_path_match: bool,
    pub prune_matched_dirs: bool,
    pub parent_is_root: bool,
}

/// What to do with an entry: the line to report for it, if it matches,
/// and whether to walk into it.
pub struct EntryAction {
    pub emit: Option<String>,
    pub descend: bool,
}

/// A hidden entry is one whose name starts with a dot.
pub open spec fn hidden(name: Seq<char>) -> bool {
    has_prefix(name, seq!['.'])
}

/// The system trees under `/` that a walk never enters.
pub open spec fn system_tree(name: Seq<char>) -> bool {
    name == "proc"@ || name == "sys"@ || name == "dev"@ || name == "run"@
}

/// The type restriction rules the entry out.
pub open spec fn wrong_type(flag: Option<TypeFlag>, is_dir: bool) -> bool {
    match flag {
        Some(TypeFlag::File) => is_dir,
        Some(TypeFlag::Dir) => !is_dir,
        None => false,
    }
}

/// The entry matches: anything when the pattern matches everything, else
/// the name, or in full-path mode the name or the whole path.
pub open spec fn entry_matches(e: EntryFacts, rules: WalkRules, pattern: Seq<char>, ci: bool) -> bool {
    rules.is_catch_all || regex_is_match(pattern, ci, e.name@) || (rules.full_path_match
        && regex_is_match(pattern, ci, e.path@))
}

/// The line reported for a matching entry: its path, with a trailing `/`
/// added for a directory.
pub open spec fn report_line(path: Seq<char>, is_dir: bool) -> Seq<char> {
    if is_dir && !has_suffix(path, seq!['/']) {
        path.push('/')
    } else {
        path
    }
}

/// The action for an entry: hidden (when only visible entries are wanted)
/// and ignored entries are skipped; an entry of the wanted type that
/// matches is reported; a directory is entered unless recursion is off, it
/// matched and matched directories are pruned, it is a system tree under
/// `/`, or it is a link that is not followed.
pub open spec fn entry_action_spec(
    e: EntryFacts,
    rules: WalkRules,
    ignore: Option<IgnoreRules>,
    pattern: Seq<char>,
    ci: bool,
) -> (Option<Seq<char>>, bool) {
    if rules.visible_only && hidden(e.name@) {
        (None, false)
    } else if ignore is Some && ignored_spec(ignore->0, e.name@, e.is_dir) {
        (None, false)
    } else {
        let matched = !wrong_type(rules.type_flag, e.is_dir) && entry_matches(e, rules, pattern, ci);
        let emit = if matched {
            Some(report_line(e.path@, e.is_dir))
        } else {
            None
        };
        let descend = e.is_dir && !rules.no_recurse && !(matched && rules.prune_matched_dirs)
            && !(rules.parent_is_root && system_tree(e.name@)) && !(e.is_symlink
            && !rules.follow_links);
        (emit, descend)
    }
}

pub open spec fn action_view(a: EntryAction) -> (Option<Seq<char>>, bool) {
    (
        match a.emit {
            Some(s) => Some(s@),
            None => None,
        },
        a.descend,
    )
}

/// The line reported for a matching entry.
pub fn report_path(path: &str, is_dir: bool) -> (r: String)
    ensures
        r@ == report_line(path@, is_dir),
{
    let mut p = chars_of(path);
    if is_dir && !ends_with_char(p.as_slice(), '/') {
        p.push('/');
    }
    string_of(p.as_slice())
}

fn is_system_tree(name: &[char]) -> (r: bool)
    ensures
        r == system_tree(name@),
{
    eq_chars(name, chars_of("proc").as_slice()) || eq_chars(name, chars_of("sys").as_slice())
        || eq_chars(name, chars_of("dev").as_slice()) || eq_chars(name, chars_of("run").as_slice())
}

/// What the walk does with one entry.
pub fn walk_entry_action(e: &EntryFacts, rules: &WalkRules, ignore: Option<&IgnoreRules>, re: &Matcher) -> (r: EntryAction)
    ensures
        action_view(r) == entry_action_spec(
            *e,
            *rules,
            match ignore {
                Some(i) => Some(*i),
                None => None,
            },
            re.pattern(),
            re.ci(),
        ),
{
    let name = chars_of(e.name.as_str());
    if rules.visible_only && starts_with_char(name.as_slice(), '.') {
        return EntryAction { emit: None, descend: false };
    }
    if let Some(ig) = ignore {
        if is_ignored_name(e.name.as_str(), e.is_dir, ig) {
            return EntryAction { emit: None, descend: false };
        }
    }
    let skip_type = match rules.type_flag {
        Some(TypeFlag::File) => e.is_dir,
        Some(TypeFlag::Dir) => !e.is_dir,
        None => false,
    };
    let matched = if skip_type {
        false
    } else if rules.is_catch_all {
        true
    } else if matcher_is_match(re, e.name.as_str()) {
        true
    } else {
        rules.full_path_match && matcher_is_match(re, e.path.as_str())
    };
    let emit = if matched {
        Some(report_path(e.path.as_str(), e.is_dir))
    } else {
        None
    };
    let descend = e.is_dir && !rules.no_recurse && !(matched && rules.prune_matched_dirs) && !(
    rules.parent_is_root && is_system_tree(name.as_slice())) && !(e.is_symlink
        && !rules.follow_links);
    EntryAction { emit, descend }
}

/// A name pattern that matches every name.
pub open spec fn catch_all_spec(rx: Seq<char>) -> bool {
    rx == ".*"@ || rx == "^.*$"@
}

/// A name pattern that matches every name.
pub fn is_catch_all(rx: &str) -> (r: bool)
    ensures
        r == catch_all_spec(rx@),
{
    let c = chars_of(rx);
    eq_chars(c.as_slice(), chars_of(".*").as_slice()) || eq_chars(c.as_slice(), chars_of("^.*$").as_slice())
}


/// `--file` reports no directory and `--dir` reports only directories:
/// under a file restriction no directory entry is ever reported, and
/// under a directory restriction no other entry is, whatever its name,
/// path, the rules or the pattern.
pub proof fn law_type_restriction_reports_only_that_type(
    e: EntryFacts,
    rules: WalkRules,
    ignore: Option<IgnoreRules>,
    pattern: Seq<char>,
    ci: bool,
)
    ensures
        rules.type_flag == Some(TypeFlag::File) && e.is_dir ==> entry_action_spec(e, rules, ignore, pattern, ci).0 is None,
        rules.type_flag == Some(TypeFlag::Dir) && !e.is_dir ==> entry_action_spec(e, rules, ignore, pattern, ci).0 is None,
{
}

} // verus!
