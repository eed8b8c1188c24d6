//! What the output of a search is made of: a folder summary, sizes, a
//! long listing or styled paths, and the layout of their lines.
use vstd::prelude::*;
use crate::text::{chars_of, string_of, push_all};
use crate::options::Settings;
use crate::results::{SearchResult, absolute_paths_transform, absolute_spec, same_entry_with_path};
use crate::sizes::{size_hidden, size_hidden_spec};
use crate::number::{decimal, u64_to_decimal};

verus! {

/// The four shapes of output.
#[derive(Clone, Copy, Debug, PartialEq, Eq, Structural)]
pub enum OutputKind {
    Summary,
    Sizes,
    Long,
    Paths,
}

/// The shape of output: the folder summary wins, then sizes, then the long
/// listing, else the paths.
pub open spec fn output_kind_spec(s: Settings) -> OutputKind {
    if s.counts {
        OutputKind::Summary
    } else if s.sizes {
        OutputKind::Sizes
    } else if s.long_format {
        OutputKind::Long
    } else {
        OutputKind::Paths
    }
}

/// The shape of output (see `output_kind_spec`).
pub fn output_kind(s: &Settings) -> (r: OutputKind)
    ensures
        r == output_kind_spec(*s),
{
    if s.counts {
        OutputKind::Summary
    } else if s.sizes {
        OutputKind::Sizes
    } else if s.long_format {
        OutputKind::Long
    } else {
        OutputKind::Paths
    }
}

/// Results get type classifiers on a terminal or with `--classify`.
pub fn add_decorators(s: &Settings, stdout_is_tty: bool) -> (r: bool)
    ensures
        r == (stdout_is_tty || s.classify),
{
    stdout_is_tty || s.classify
}

/// The results as displayed: with absolute paths when asked for (`cwd`
/// the working directory), else unchanged.
pub fn display_results(items: Vec<SearchResult>, s: &Settings, cwd: &str) -> (r: Vec<SearchResult>)
    ensures
        !s.absolute_paths ==> r@ == items@,
        s.absolute_paths ==> r.len() == items.len() && forall|k: int|
            0 <= k < items.len() ==> same_entry_with_path(#[trigger] r@[k], items@[k], absolute_spec(items@[k].path@, cwd@)),
{
    if !s.absolute_paths {
        return items;
    }
    absolute_paths_transform(items, cwd)
}

/// A sizes line: the size (`-` for a top-level system tree), a tab, the
/// displayed path.
pub open spec fn sizes_line_spec(item: SearchResult, size_text: Seq<char>, shown: Seq<char>) -> Seq<char> {
    (if size_hidden_spec(item) { seq!['-'] } else { size_text }) + seq!['\t'] + shown
}

/// A sizes line (see `sizes_line_spec`).
pub fn sizes_line(item: &SearchResult, size_text: &str, shown: &str) -> (r: String)
    ensures
        r@ == sizes_line_spec(*item, size_text@, shown@),
{
    let mut out: Vec<char> = if size_hidden(item) {
        vec!['-']
    } else {
        chars_of(size_text)
    };
    out.push('\t');
    push_all(&mut out, chars_of(shown).as_slice());
    let r = string_of(out.as_slice());
    assert(r@ =~= sizes_line_spec(*item, size_text@, shown@));
    r
}

/// Where the size of a long-listing line comes from: the entry's own
/// length; a link to a directory (its own length, 0 files); or a
/// directory's recursive total and file count.
#[derive(Clone, Copy, Debug, PartialEq, Eq, Structural)]
pub enum LongSize {
    Own,
    LinkToDir,
    DirTotal,
}

/// The size source of a long-listing line: with the extended listing, a
/// link whose target is a directory, or a directory; else the entry's own
/// length.
pub open spec fn long_size_spec(item: SearchResult, s: Settings, link_target_is_dir: bool) -> LongSize {
    if !s.long_extended {
        LongSize::Own
    } else if item.is_symlink {
        if link_target_is_dir {
            LongSize::LinkToDir
        } else {
            LongSize::Own
        }
    } else if item.is_dir {
        LongSize::DirTotal
    } else {
        LongSize::Own
    }
}

/// The size source of a long-listing line (see `long_size_spec`).
pub fn long_size_source(item: &SearchResult, s: &Settings, link_target_is_dir: bool) -> (r: LongSize)
    ensures
        r == long_size_spec(*item, *s, link_target_is_dir),
{
    if !s.long_extended {
        LongSize::Own
    } else if item.is_symlink {
        if link_target_is_dir {
            LongSize::LinkToDir
        } else {
            LongSize::Own
        }
    } else if item.is_dir {
        LongSize::DirTotal
    } else {
        LongSize::Own
    }
}

/// A long-listing line: the entry without metadata is its bare path;
/// otherwise date and time, a space, the size, the file count (after a
/// space) when there is one, a space, the displayed path.
pub open spec fn long_line_spec(item: SearchResult, when: Seq<char>, size_text: Seq<char>, files: Option<u64>, shown: Seq<char>) -> Seq<char> {
    if item.meta is None {
        item.path@
    } else {
        when + seq![' '] + size_text + (match files {
            Some(n) => seq![' '] + decimal(n as nat),
            None => seq![],
        }) + seq![' '] + shown
    }
}

/// A long-listing line (see `long_line_spec`).
pub fn long_line(item: &SearchResult, when: &str, size_text: &str, files: Option<u64>, shown: &str) -> (r: String)
    ensures
        r@ == long_line_spec(*item, when@, size_text@, files, shown@),
{
    if item.meta.is_none() {
        return item.path.clone();
    }
    let mut out = chars_of(when);
    out.push(' ');
    push_all(&mut out, chars_of(size_text).as_slice());
    match files {
        Some(n) => {
            out.push(' ');
            push_all(&mut out, u64_to_decimal(n).as_slice());
        },
        None => {},
    }
    out.push(' ');
    push_all(&mut out, chars_of(shown).as_slice());
    let r = string_of(out.as_slice());
    assert(r@ =~= long_line_spec(*item, when@, size_text@, files, shown@));
    r
}

} // verus!
