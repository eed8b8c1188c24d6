//! The raw cache of matches kept for shell integration: which lines go to
//! the directories file and the files file (each line once), where those
//! files live, and which process id names them.
use vstd::prelude::*;
use crate::text::{chars_of, string_of, push_all, eq_chars, ends_with_char, trim_end, trim_end_char,
    split_whitespace_chars, split_ws, has_suffix};
use crate::render::{rsplit_slash};
use crate::number::{parse_unsigned, parse_unsigned_spec, decimal, u64_to_decimal, is_ascii_digit};
use crate::results::{after_last_slash, lemma_after_last_slash};

verus! {

/// The line a matched directory is recorded as: its path ending in `/`.
pub open spec fn dir_entry(path: Seq<char>) -> Seq<char> {
    if path.len() > 0 && path.last() == '/' {
        path
    } else {
        path.push('/')
    }
}

/// The line a match's parent directory is recorded as: the path without
/// trailing slashes up to its last `/`, ending in `/` (`/` for a top-level
/// entry, `./` when there is no `/`).
pub open spec fn parent_entry(path: Seq<char>) -> Seq<char> {
    match rsplit_slash(trim_end(path, '/')) {
        Some((p, _)) => if p.len() == 0 {
            seq!['/']
        } else if p.last() == '/' {
            p
        } else {
            p.push('/')
        },
        None => seq!['.', '/'],
    }
}

/// The lines already written to the directories file and to the files
/// file.
pub struct RawLedger {
    seen_dirs: Vec<Vec<char>>,
    seen_files: Vec<Vec<char>>,
}

/// The texts of a list.
pub open spec fn texts_of(v: Seq<Vec<char>>) -> Seq<Seq<char>> {
    v.map_values(|x: Vec<char>| x@)
}

fn contains_text(v: &Vec<Vec<char>>, x: &[char]) -> (r: bool)
    ensures
        r == texts_of(v@).contains(x@),
{
    let mut i: usize = 0;
    while i < v.len()
        invariant
            i <= v.len(),
            forall|j: int| 0 <= j < i ==> v@[j]@ != x@,
        decreases v.len() - i,
    {
        if eq_chars(v[i].as_slice(), x) {
            assert(texts_of(v@)[i as int] == x@);
            return true;
        }
        i = i + 1;
    }
    assert forall|j: int| 0 <= j < texts_of(v@).len() implies texts_of(v@)[j] != x@ by {
        assert(texts_of(v@)[j] == v@[j]@);
    }
    false
}

/// Adds `x` unless it is there; says whether it was added.
fn insert_text(v: &mut Vec<Vec<char>>, x: &[char]) -> (added: bool)
    ensures
        added == !texts_of(old(v)@).contains(x@),
        texts_of(final(v)@).to_set() == texts_of(old(v)@).to_set().insert(x@),
{
    if contains_text(v, x) {
        proof {
            assert(texts_of(v@).to_set().insert(x@) =~= texts_of(v@).to_set());
        }
        return false;
    }
    let ghost before = texts_of(v@);
    let mut c: Vec<char> = Vec::new();
    push_all(&mut c, x);
    v.push(c);
    assert(texts_of(v@) =~= before.push(x@));
    assert(before.push(x@).to_set() =~= before.to_set().insert(x@)) by {
        assert forall|t: Seq<char>| before.push(x@).to_set().contains(t) implies before.to_set().insert(x@).contains(t) by {
            let j = choose|j: int| 0 <= j < before.push(x@).len() && before.push(x@)[j] == t;
            if j < before.len() {
                assert(before[j] == t);
            }
        }
        assert forall|t: Seq<char>| before.to_set().insert(x@).contains(t) implies before.push(x@).to_set().contains(t) by {
            if t == x@ {
                assert(before.push(x@)[before.len() as int] == t);
            } else {
                let j = choose|j: int| 0 <= j < before.len() && before[j] == t;
                assert(before.push(x@)[j] == t);
            }
        }
    }
    true
}

/// The parent line of a match.
fn parent_entry_of(path: &[char]) -> (r: Vec<char>)
    ensures
        r@ == parent_entry(path@),
{
    let t = trim_end_char(path, '/');
    proof {
        lemma_after_last_slash(t@);
    }
    let mut k: usize = t.len();
    while k > 0 && t[k - 1] != '/'
        invariant
            k <= t.len(),
            forall|j: int| k <= j < t.len() ==> t@[j] != '/',
        decreases k,
    {
        k = k - 1;
    }
    proof {
        let b = after_last_slash(t@);
        if b.len() < t@.len() - k {
            assert(t@[t@.len() - b.len() - 1] == '/');
        } else if b.len() > t@.len() - k {
            assert(t@.skip(t@.len() - b.len()) == b);
            assert(b[k - (t@.len() - b.len()) - 1] == t@[k - 1]);
            assert(b.contains('/'));
        }
        assert(b.len() == t@.len() - k);
    }
    if k == 0 {
        let r: Vec<char> = vec!['.', '/'];
        assert(r@ =~= seq!['.', '/']);
        return r;
    }
    let mut p = crate::text::slice_chars(t.as_slice(), 0, k - 1);
    assert(p@ =~= t@.take(t@.len() - after_last_slash(t@).len() - 1));
    if p.len() == 0 {
        let r: Vec<char> = vec!['/'];
        assert(r@ =~= seq!['/']);
        return r;
    }
    if !ends_with_char(p.as_slice(), '/') {
        p.push('/');
    }
    p
}

impl RawLedger {
    /// The lines written to the directories file.
    pub closed spec fn dirs(&self) -> Set<Seq<char>> {
        texts_of(self.seen_dirs@).to_set()
    }

    /// The lines written to the files file.
    pub closed spec fn files(&self) -> Set<Seq<char>> {
        texts_of(self.seen_files@).to_set()
    }

    /// Nothing written yet.
    pub fn new() -> (r: RawLedger)
        ensures
            r.dirs() == Set::<Seq<char>>::empty(),
            r.files() == Set::<Seq<char>>::empty(),
    {
        let r = RawLedger { seen_dirs: Vec::new(), seen_files: Vec::new() };
        assert(texts_of(r.seen_dirs@).to_set() =~= Set::<Seq<char>>::empty());
        assert(texts_of(r.seen_files@).to_set() =~= Set::<Seq<char>>::empty());
        r
    }

    /// Records a match: a directory's line (ending in `/`) goes to the
    /// directories file, a file's path to the files file, and its parent's
    /// line to the directories file, each only if not written before.
    /// Gives the new lines for the directories file and for the files file,
    /// in order.
    pub fn record(&mut self, path: &str, is_dir: bool) -> (r: (Vec<String>, Vec<String>))
        ensures
            ({
                let d = dir_entry(path@);
                let par = parent_entry(path@);
                let dirs_mid = if is_dir { old(self).dirs().insert(d) } else { old(self).dirs() };
                &&& r.0@.map_values(|x: String| x@) == (if is_dir && !old(self).dirs().contains(d) {
                    seq![d]
                } else {
                    Seq::<Seq<char>>::empty()
                }) + (if !dirs_mid.contains(par) {
                    seq![par]
                } else {
                    Seq::<Seq<char>>::empty()
                })
                &&& r.1@.map_values(|x: String| x@) == (if !is_dir && !old(self).files().contains(path@) {
                    seq![path@]
                } else {
                    Seq::<Seq<char>>::empty()
                })
                &&& final(self).dirs() == dirs_mid.insert(par)
                &&& final(self).files() == (if is_dir { old(self).files() } else { old(self).files().insert(path@) })
            }),
    {
        let pc = chars_of(path);
        let mut dir_lines: Vec<String> = Vec::new();
        let mut file_lines: Vec<String> = Vec::new();
        if is_dir {
            let mut p = pc.clone();
            if !ends_with_char(p.as_slice(), '/') {
                p.push('/');
            }
            assert(p@ == dir_entry(path@));
            if insert_text(&mut self.seen_dirs, p.as_slice()) {
                dir_lines.push(string_of(p.as_slice()));
            }
        } else {
            if insert_text(&mut self.seen_files, pc.as_slice()) {
                file_lines.push(string_of(pc.as_slice()));
            }
        }
        let parent = parent_entry_of(pc.as_slice());
        let ghost before = dir_lines@;
        if insert_text(&mut self.seen_dirs, parent.as_slice()) {
            dir_lines.push(string_of(parent.as_slice()));
            assert(dir_lines@.map_values(|x: String| x@) =~= before.map_values(|x: String| x@).push(parent@));
        }
        proof {
            assert(texts_of(self.seen_dirs@).to_set() == self.dirs());
        }
        (dir_lines, file_lines)
    }
}

/// The directory of the raw cache and its two files for a user (`unknown`
/// when unset) and a process id.
pub open spec fn raw_cache_paths_spec(user: Option<Seq<char>>, pid: Seq<char>) -> (Seq<char>, Seq<char>, Seq<char>) {
    let u = match user {
        Some(x) => x,
        None => "unknown"@,
    };
    let dir = "/tmp/fzf-history-"@ + u;
    (dir, dir + "/universal-last-dirs-"@ + pid, dir + "/universal-last-files-"@ + pid)
}

/// The directory of the raw cache and its two files.
pub fn raw_cache_paths(user: Option<String>, pid: &str) -> (r: (String, String, String))
    ensures
        (r.0@, r.1@, r.2@) == raw_cache_paths_spec(match user {
            Some(x) => Some(x@),
            None => None,
        }, pid@),
{
    let u = match user {
        Some(x) => chars_of(x.as_str()),
        None => chars_of("unknown"),
    };
    let mut dir = chars_of("/tmp/fzf-history-");
    push_all(&mut dir, u.as_slice());
    let mut dirs_file = dir.clone();
    push_all(&mut dirs_file, chars_of("/universal-last-dirs-").as_slice());
    push_all(&mut dirs_file, chars_of(pid).as_slice());
    let mut files_file = dir.clone();
    push_all(&mut files_file, chars_of("/universal-last-files-").as_slice());
    push_all(&mut files_file, chars_of(pid).as_slice());
    (string_of(dir.as_slice()), string_of(dirs_file.as_slice()), string_of(files_file.as_slice()))
}

/// A usable process id text: not empty, ASCII digits only.
pub open spec fn pid_text(v: Seq<char>) -> bool {
    v.len() > 0 && forall|i: int| 0 <= i < v.len() ==> is_ascii_digit(#[trigger] v[i])
}

fn is_pid_text(v: &str) -> (r: bool)
    ensures
        r == pid_text(v@),
{
    let c = chars_of(v);
    if c.len() == 0 {
        return false;
    }
    for i in 0..c.len()
        invariant
            c@ == v@,
            forall|j: int| 0 <= j < i ==> is_ascii_digit(#[trigger] c@[j]),
    {
        if !(c[i] >= '0' && c[i] <= '9') {
            return false;
        }
    }
    true
}

/// The process id that names the cache files: `FISH_PID`, else
/// `fish_pid`, when set to digits; else the parent process id; else this
/// process's own id.
pub open spec fn fish_pid_spec(upper: Option<Seq<char>>, lower: Option<Seq<char>>, ppid: Option<u32>, own: u32) -> Seq<char> {
    if upper matches Some(v) && pid_text(v) {
        upper->0
    } else if lower matches Some(v) && pid_text(v) {
        lower->0
    } else {
        match ppid {
            Some(p) => decimal(p as nat),
            None => decimal(own as nat),
        }
    }
}

/// The process id that names the cache files (see `fish_pid_spec`).
pub fn choose_fish_pid(upper: Option<String>, lower: Option<String>, ppid: Option<u32>, own: u32) -> (r: String)
    ensures
        r@ == fish_pid_spec(
            match upper {
                Some(x) => Some(x@),
                None => None,
            },
            match lower {
                Some(x) => Some(x@),
                None => None,
            },
            ppid,
            own,
        ),
{
    if let Some(v) = &upper {
        if is_pid_text(v.as_str()) {
            return v.clone();
        }
    }
    if let Some(v) = &lower {
        if is_pid_text(v.as_str()) {
            return v.clone();
        }
    }
    match ppid {
        Some(p) => string_of(u64_to_decimal(p as u64).as_slice()),
        None => string_of(u64_to_decimal(own as u64).as_slice()),
    }
}

/// `) ` stands at position `i` of `s`.
pub open spec fn paren_at(s: Seq<char>, i: int) -> bool {
    0 <= i && i + 1 < s.len() && s[i] == ')' && s[i + 1] == ' '
}

/// The text after the last `) ` of a process status line, if any.
pub open spec fn after_last_paren(s: Seq<char>) -> Option<Seq<char>> {
    if exists|i: int| #[trigger] paren_at(s, i) {
        let i = choose|i: int| #[trigger] paren_at(s, i) && forall|j: int| i < j ==> !#[trigger] paren_at(s, j);
        Some(s.skip(i + 2))
    } else {
        None
    }
}

/// The parent process id in a process status line: the second field after
/// the last `) `, read as a `u32`.
pub open spec fn parent_pid_spec(stat: Seq<char>) -> Option<u32> {
    match after_last_paren(stat) {
        Some(tail) => {
            let f = split_ws(tail);
            if f.len() >= 2 && parse_unsigned_spec(f[1], u32::MAX as nat) is Ok {
                Some(parse_unsigned_spec(f[1], u32::MAX as nat)->Ok_0 as u32)
            } else {
                None
            }
        },
        None => None,
    }
}

/// The parent process id in a process status line.
pub fn parse_parent_pid(stat: &str) -> (r: Option<u32>)
    ensures
        r == parent_pid_spec(stat@),
{
    let s = chars_of(stat);
    let mut k: usize = s.len();
    while k >= 2 && !(s[k - 2] == ')' && s[k - 1] == ' ')
        invariant
            k <= s.len(),
            s@ == stat@,
            forall|j: int| k - 1 <= j ==> !#[trigger] paren_at(s@, j),
        decreases k,
    {
        k = k - 1;
    }
    if k < 2 {
        proof {
            assert forall|i: int| !#[trigger] paren_at(s@, i) by {
                if 0 <= i {
                    assert(k - 1 <= i);
                }
            }
        }
        return None;
    }
    let ghost i0 = k - 2;
    proof {
        assert(paren_at(s@, i0));
        let i = choose|i: int| #[trigger] paren_at(s@, i) && forall|j: int| i < j ==> !#[trigger] paren_at(s@, j);
        assert(forall|j: int| i0 < j ==> !#[trigger] paren_at(s@, j));
        if i < i0 {
        } else if i > i0 {
        }
        assert(i == i0);
    }
    let tail = crate::text::slice_chars(s.as_slice(), k, s.len());
    assert(tail@ =~= s@.skip(i0 + 2));
    let fields = split_whitespace_chars(tail.as_slice());
    if fields.len() < 2 {
        return None;
    }
    match parse_unsigned(fields[1].as_slice(), 0xffff_ffff) {
        Ok(v) => Some(v as u32),
        Err(_) => None,
    }
}

} // verus!
