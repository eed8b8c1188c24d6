//! Sizes of results: which directories need a recursive total, the cache
//! of totals, the unit and precision of human-readable sizes, and the
//! ordering of results by date, size or name.
use vstd::prelude::*;
use crate::text::{trim_end, chars_of, string_of, trim_end_char, eq_chars, lowercase, to_lowercase_text};
use crate::results::{SearchResult, stably_sorted, sort_by_keys};
use crate::options::{Settings, SortField, SortOrder};
use crate::order::{lex_lt, text_key, text_key_of, lex_less, keys_view, lemma_lex_total,
    lemma_lex_transitive, lemma_lex_irreflexive, lemma_text_key_injective};

verus! {

/// The key under which a directory's total is kept: the path without
/// trailing slashes (the root stays `/`).
pub open spec fn dir_key(path: Seq<char>) -> Seq<char> {
    if path == seq!['/'] {
        seq!['/']
    } else {
        trim_end(path, '/')
    }
}

/// The key under which a directory's total is kept.
pub fn normalize_dir_key(path: &str) -> (r: String)
    ensures
        r@ == dir_key(path@),
{
    let cs = chars_of(path);
    if cs.len() == 1 && cs[0] == '/' {
        assert(cs@ =~= seq!['/']);
        return string_of(cs.as_slice());
    }
    let t = trim_end_char(cs.as_slice(), '/');
    string_of(t.as_slice())
}

/// A directory result is sized by the total of what lies beneath it
/// (symbolic links are not followed).
pub open spec fn recursive_size_spec(item: SearchResult, s: Settings) -> bool {
    item.is_dir && !item.is_symlink && (s.sizes || s.long_extended || !s.no_recurse)
}

/// A directory result is sized by the total of what lies beneath it.
pub fn should_use_recursive_dirsize(item: &SearchResult, s: &Settings) -> (r: bool)
    ensures
        r == recursive_size_spec(*item, *s),
{
    if !item.is_dir || item.is_symlink {
        return false;
    }
    s.sizes || s.long_extended || !s.no_recurse
}

/// Some output or ordering reads recursive directory totals.
pub open spec fn needs_recursive_spec(s: Settings) -> bool {
    s.sizes || s.long_extended || (s.sort_field == Some(SortField::Size) && !s.no_recurse)
}

/// The size a result is shown and ordered by: the recursive total of a
/// directory (`dir_total`, 0 when there is none), else the length in its
/// metadata (0 without metadata).
pub open spec fn size_bytes_spec(item: SearchResult, s: Settings, dir_total: Option<u64>) -> u64 {
    if recursive_size_spec(item, s) {
        match dir_total {
            Some(b) => b,
            None => 0,
        }
    } else {
        match item.meta {
            Some(m) => m.len,
            None => 0,
        }
    }
}

/// The size a result is shown and ordered by.
pub fn size_bytes_for_result(item: &SearchResult, s: &Settings, dir_total: Option<u64>) -> (r: u64)
    ensures
        r == size_bytes_spec(*item, *s, dir_total),
{
    if should_use_recursive_dirsize(item, s) {
        return match dir_total {
            Some(b) => b,
            None => 0,
        };
    }
    match &item.meta {
        Some(m) => m.len,
        None => 0,
    }
}

/// Texts in strictly increasing code-point order (so each at most once).
pub open spec fn sorted_unique(s: Seq<Seq<char>>) -> bool {
    forall|a: int, b: int| 0 <= a < b < s.len() ==> lex_lt(text_key(s[a]), text_key(s[b]))
}

/// The texts of a list.
pub open spec fn texts_of(v: Seq<Vec<char>>) -> Seq<Seq<char>> {
    v.map_values(|x: Vec<char>| x@)
}

/// Adds `x` to a strictly increasing list unless it is there already.
fn insert_sorted_unique(out: Vec<Vec<char>>, x: Vec<char>) -> (r: Vec<Vec<char>>)
    requires
        sorted_unique(texts_of(out@)),
    ensures
        sorted_unique(texts_of(r@)),
        texts_of(r@).to_set() == texts_of(out@).to_set().insert(x@),
{
    let mut out = out;
    let ghost ov = texts_of(out@);
    let kx = text_key_of(x.as_slice());
    let mut i: usize = 0;
    while i < out.len() && lex_less(text_key_of(out[i].as_slice()).as_slice(), kx.as_slice())
        invariant
            i <= out.len(),
            ov == texts_of(out@),
            kx@ == text_key(x@),
            forall|a: int| 0 <= a < i ==> lex_lt(text_key(#[trigger] ov[a]), text_key(x@)),
        decreases out.len() - i,
    {
        i = i + 1;
    }
    if i < out.len() && eq_chars(out[i].as_slice(), x.as_slice()) {
        proof {
            assert(texts_of(out@).to_set() =~= ov.to_set().insert(x@)) by {
                assert(ov[i as int] == x@);
            }
        }
        return out;
    }
    proof {
        if i < out.len() {
            lemma_lex_total(text_key(ov[i as int]), text_key(x@));
            if text_key(ov[i as int]) == text_key(x@) {
                lemma_text_key_injective(ov[i as int], x@);
            }
        }
    }
    out.insert(i, x);
    proof {
        let nv = texts_of(out@);
        assert(nv =~= ov.insert(i as int, x@));
        assert forall|a: int, b: int| 0 <= a < b < nv.len() implies lex_lt(text_key(nv[a]), text_key(nv[b])) by {
            if b < i {
            } else if b == i {
            } else if a < i {
                assert(nv[b] == ov[b - 1]);
                if b - 1 == i {
                } else {
                    lemma_lex_transitive(text_key(x@), text_key(ov[i as int]), text_key(ov[b - 1]));
                }
                lemma_lex_transitive(text_key(nv[a]), text_key(x@), text_key(nv[b]));
            } else if a == i {
                assert(nv[b] == ov[b - 1]);
                if b - 1 > i {
                    lemma_lex_transitive(text_key(x@), text_key(ov[i as int]), text_key(ov[b - 1]));
                }
            } else {
                assert(nv[a] == ov[a - 1]);
                assert(nv[b] == ov[b - 1]);
            }
        }
        assert(nv.to_set() =~= ov.to_set().insert(x@)) by {
            assert forall|t: Seq<char>| nv.to_set().contains(t) implies ov.to_set().insert(x@).contains(t) by {
                let k = choose|k: int| 0 <= k < nv.len() && nv[k] == t;
                if k < i {
                    assert(ov[k] == t);
                } else if k > i {
                    assert(ov[k - 1] == t);
                }
            }
            assert forall|t: Seq<char>| ov.to_set().insert(x@).contains(t) implies nv.to_set().contains(t) by {
                if t == x@ {
                    assert(nv[i as int] == t);
                } else {
                    let k = choose|k: int| 0 <= k < ov.len() && ov[k] == t;
                    if k < i {
                        assert(nv[k] == t);
                    } else {
                        assert(nv[k + 1] == t);
                    }
                }
            }
        }
    }
    out
}

/// The result is sized recursively, and is not a system tree whose size is
/// never shown.
pub open spec fn needs_total(item: SearchResult, s: Settings) -> bool {
    recursive_size_spec(item, s) && !size_hidden_spec(item)
}

/// The directory keys of the results that are sized recursively.
pub open spec fn needed_dir_keys(items: Seq<SearchResult>, s: Settings) -> Set<Seq<char>> {
    Set::new(|k: Seq<char>| exists|i: int| 0 <= i < items.len() && needs_total(#[trigger] items[i], s) && k == dir_key(items[i].path@))
}

/// The directories whose totals the output needs, each once, in code-point
/// order (system trees left out); none when no output or ordering reads
/// totals.
pub fn dirs_needing_sizes(items: &Vec<SearchResult>, s: &Settings) -> (r: Vec<String>)
    ensures
        !needs_recursive_spec(*s) ==> r@.len() == 0,
        needs_recursive_spec(*s) ==> sorted_unique(r@.map_values(|x: String| x@)),
        needs_recursive_spec(*s) ==> r@.map_values(|x: String| x@).to_set() == needed_dir_keys(items@, *s),
{
    let need = s.sizes || s.long_extended || (s.sort_field == Some(SortField::Size) && !s.no_recurse);
    if !need {
        return Vec::new();
    }
    let mut keys: Vec<Vec<char>> = Vec::new();
    for k in 0..items.len()
        invariant
            sorted_unique(texts_of(keys@)),
            texts_of(keys@).to_set() == Set::new(|t: Seq<char>| exists|i: int| 0 <= i < k && needs_total(#[trigger] items@[i], *s) && t == dir_key(items@[i].path@)),
    {
        let ghost before = texts_of(keys@).to_set();
        if should_use_recursive_dirsize(&items[k], s) && !size_hidden(&items[k]) {
            let key = chars_of(normalize_dir_key(items[k].path.as_str()).as_str());
            keys = insert_sorted_unique(keys, key);
        }
        proof {
            assert(texts_of(keys@).to_set() =~= Set::new(|t: Seq<char>| exists|i: int| 0 <= i < k + 1 && needs_total(#[trigger] items@[i], *s) && t == dir_key(items@[i].path@))) by {
                assert forall|t: Seq<char>| (exists|i: int| 0 <= i < k + 1 && needs_total(#[trigger] items@[i], *s) && t == dir_key(items@[i].path@)) implies texts_of(keys@).to_set().contains(t) by {
                    let i = choose|i: int| 0 <= i < k + 1 && needs_total(#[trigger] items@[i], *s) && t == dir_key(items@[i].path@);
                    if i < k {
                        assert(before.contains(t));
                    }
                }
            }
        }
    }
    let mut r: Vec<String> = Vec::new();
    for k in 0..keys.len()
        invariant
            r@.map_values(|x: String| x@) == texts_of(keys@).take(k as int),
    {
        let ghost before = r@;
        r.push(string_of(keys[k].as_slice()));
        assert(r@.map_values(|x: String| x@) =~= before.map_values(|x: String| x@).push(keys@[k as int]@));
        assert(r@.map_values(|x: String| x@) =~= texts_of(keys@).take(k + 1));
    }
    proof {
        assert(texts_of(keys@).take(keys.len() as int) =~= texts_of(keys@));
        assert(texts_of(keys@).to_set() =~= needed_dir_keys(items@, *s));
    }
    r
}


/// 1024 to the power `u`.
pub open spec fn kib_pow(u: nat) -> nat
    decreases u,
{
    if u == 0 {
        1
    } else {
        1024 * kib_pow((u - 1) as nat)
    }
}

/// The unit a size is shown in: the largest of B, K, M, G, T (0 to 4)
/// whose size the byte count reaches.
pub open spec fn unit_spec(bytes: nat) -> nat {
    if bytes >= kib_pow(4) {
        4
    } else if bytes >= kib_pow(3) {
        3
    } else if bytes >= kib_pow(2) {
        2
    } else if bytes >= kib_pow(1) {
        1
    } else {
        0
    }
}

/// The unit a size is shown in (see `unit_spec`).
pub fn size_unit_index(bytes: u64) -> (u: usize)
    ensures
        u == unit_spec(bytes as nat),
        u <= 4,
        kib_pow(u as nat) <= bytes || u == 0,
        u < 4 ==> bytes < kib_pow(u as nat + 1),
{
    proof {
        reveal_with_fuel(kib_pow, 6);
    }
    if bytes >= 1099511627776 {
        4
    } else if bytes >= 1073741824 {
        3
    } else if bytes >= 1048576 {
        2
    } else if bytes >= 1024 {
        1
    } else {
        0
    }
}

/// Decimal places of a long-listing size in unit `u`: none in bytes, else
/// 0, 1 or 2 as the scaled size reaches 100, 10 or neither.
pub open spec fn iec_decimals_spec(bytes: nat, u: nat) -> nat {
    if u == 0 {
        0
    } else if bytes >= 100 * kib_pow(u) {
        0
    } else if bytes >= 10 * kib_pow(u) {
        1
    } else {
        2
    }
}

/// Decimal places of a compact size in unit `u`: none in bytes, else 0, 1,
/// 2 or 3 as the scaled size reaches 1000, 100, 10 or none of them.
pub open spec fn compact_decimals_spec(bytes: nat, u: nat) -> nat {
    if u == 0 {
        0
    } else if bytes >= 1000 * kib_pow(u) {
        0
    } else if bytes >= 100 * kib_pow(u) {
        1
    } else if bytes >= 10 * kib_pow(u) {
        2
    } else {
        3
    }
}

fn kib_pow_of(u: usize) -> (r: u64)
    requires
        u <= 4,
    ensures
        r == kib_pow(u as nat),
{
    proof {
        reveal_with_fuel(kib_pow, 6);
    }
    if u == 0 {
        1
    } else if u == 1 {
        1024
    } else if u == 2 {
        1048576
    } else if u == 3 {
        1073741824
    } else {
        1099511627776
    }
}

/// Decimal places of a long-listing size (see `iec_decimals_spec`).
pub fn iec_decimals(bytes: u64, u: usize) -> (d: usize)
    requires
        u <= 4,
    ensures
        d == iec_decimals_spec(bytes as nat, u as nat),
{
    if u == 0 {
        return 0;
    }
    let p = kib_pow_of(u);
    let b = bytes as u128;
    let p = p as u128;
    if b >= 100 * p {
        0
    } else if b >= 10 * p {
        1
    } else {
        2
    }
}

/// Decimal places of a compact size (see `compact_decimals_spec`).
pub fn compact_decimals(bytes: u64, u: usize) -> (d: usize)
    requires
        u <= 4,
    ensures
        d == compact_decimals_spec(bytes as nat, u as nat),
{
    if u == 0 {
        return 0;
    }
    let p = kib_pow_of(u);
    let b = bytes as u128;
    let p = p as u128;
    if b >= 1000 * p {
        0
    } else if b >= 100 * p {
        1
    } else if b >= 10 * p {
        2
    } else {
        3
    }
}

/// The unit names of long listings.
pub open spec fn iec_unit_label(u: nat) -> Seq<char> {
    if u == 0 {
        "B"@
    } else if u == 1 {
        "KiB"@
    } else if u == 2 {
        "MiB"@
    } else if u == 3 {
        "GiB"@
    } else {
        "TiB"@
    }
}

/// The unit names of compact sizes.
pub open spec fn compact_unit_label(u: nat) -> Seq<char> {
    if u == 0 {
        "B"@
    } else if u == 1 {
        "K"@
    } else if u == 2 {
        "M"@
    } else if u == 3 {
        "G"@
    } else {
        "T"@
    }
}

/// The unit name of a long-listing size.
pub fn iec_unit(u: usize) -> (r: String)
    ensures
        r@ == iec_unit_label(u as nat),
{
    let s = if u == 0 {
        "B"
    } else if u == 1 {
        "KiB"
    } else if u == 2 {
        "MiB"
    } else if u == 3 {
        "GiB"
    } else {
        "TiB"
    };
    string_of(chars_of(s).as_slice())
}

/// The unit name of a compact size.
pub fn compact_unit(u: usize) -> (r: String)
    ensures
        r@ == compact_unit_label(u as nat),
{
    let s = if u == 0 {
        "B"
    } else if u == 1 {
        "K"
    } else if u == 2 {
        "M"
    } else if u == 3 {
        "G"
    } else {
        "T"
    };
    string_of(chars_of(s).as_slice())
}

/// The top-level system trees whose sizes are never computed.
pub open spec fn unsized_tree(key: Seq<char>) -> bool {
    key == "/mnt"@ || key == "/media"@ || key == "/dev"@ || key == "/proc"@ || key == "/sys"@ || key == "/run"@
}

/// A directory result that is a top-level system tree: its size shows as
/// `-`.
pub open spec fn size_hidden_spec(item: SearchResult) -> bool {
    item.is_dir && unsized_tree(dir_key(item.path@))
}

/// A directory result that is a top-level system tree.
pub fn size_hidden(item: &SearchResult) -> (r: bool)
    ensures
        r == size_hidden_spec(*item),
{
    if !item.is_dir {
        return false;
    }
    let key = chars_of(normalize_dir_key(item.path.as_str()).as_str());
    let k = key.as_slice();
    eq_chars(k, chars_of("/mnt").as_slice()) || eq_chars(k, chars_of("/media").as_slice())
        || eq_chars(k, chars_of("/dev").as_slice()) || eq_chars(k, chars_of("/proc").as_slice())
        || eq_chars(k, chars_of("/sys").as_slice()) || eq_chars(k, chars_of("/run").as_slice())
}

/// Position of `k` among `keys`, if it is there.
fn find_key(keys: &Vec<Vec<char>>, k: &[char]) -> (r: Option<usize>)
    ensures
        match r {
            Some(i) => i < keys.len() && keys@[i as int]@ == k@,
            None => forall|i: int| 0 <= i < keys.len() ==> keys@[i]@ != k@,
        },
{
    let mut i: usize = 0;
    while i < keys.len()
        invariant
            i <= keys.len(),
            forall|j: int| 0 <= j < i ==> keys@[j]@ != k@,
        decreases keys.len() - i,
    {
        if eq_chars(keys[i].as_slice(), k) {
            return Some(i);
        }
        i = i + 1;
    }
    None
}

/// No key occurs twice.
pub open spec fn distinct_keys(keys: Seq<Vec<char>>) -> bool {
    forall|a: int, b: int| 0 <= a < b < keys.len() ==> keys[a]@ != keys[b]@
}

/// Directory totals already computed: for some directories their total
/// bytes, for some their total bytes and number of files.
pub struct DirTotals {
    byte_keys: Vec<Vec<char>>,
    byte_vals: Vec<u64>,
    stat_keys: Vec<Vec<char>>,
    stat_vals: Vec<(u64, u64)>,
}

impl DirTotals {
    /// Each directory has at most one entry in each table.
    pub closed spec fn wf(&self) -> bool {
        &&& self.byte_keys.len() == self.byte_vals.len()
        &&& self.stat_keys.len() == self.stat_vals.len()
        &&& distinct_keys(self.byte_keys@)
        &&& distinct_keys(self.stat_keys@)
    }

    /// The total bytes recorded for the directory key `k`.
    pub closed spec fn bytes_of(&self, k: Seq<char>) -> Option<u64> {
        if exists|i: int| 0 <= i < self.byte_keys.len() && self.byte_keys@[i]@ == k {
            let i = choose|i: int| 0 <= i < self.byte_keys.len() && self.byte_keys@[i]@ == k;
            Some(self.byte_vals@[i])
        } else {
            None
        }
    }

    /// The total bytes and files recorded for the directory key `k`.
    pub closed spec fn stats_of(&self, k: Seq<char>) -> Option<(u64, u64)> {
        if exists|i: int| 0 <= i < self.stat_keys.len() && self.stat_keys@[i]@ == k {
            let i = choose|i: int| 0 <= i < self.stat_keys.len() && self.stat_keys@[i]@ == k;
            Some(self.stat_vals@[i])
        } else {
            None
        }
    }

    proof fn lemma_bytes_at(&self, i: int)
        requires
            self.wf(),
            0 <= i < self.byte_keys.len(),
        ensures
            self.bytes_of(self.byte_keys@[i]@) == Some(self.byte_vals@[i]),
    {
        let k = self.byte_keys@[i]@;
        let j = choose|j: int| 0 <= j < self.byte_keys.len() && self.byte_keys@[j]@ == k;
        if j != i {
            if j < i {
                assert(self.byte_keys@[j]@ != self.byte_keys@[i]@);
            } else {
                assert(self.byte_keys@[i]@ != self.byte_keys@[j]@);
            }
        }
    }

    proof fn lemma_stats_at(&self, i: int)
        requires
            self.wf(),
            0 <= i < self.stat_keys.len(),
        ensures
            self.stats_of(self.stat_keys@[i]@) == Some(self.stat_vals@[i]),
    {
        let k = self.stat_keys@[i]@;
        let j = choose|j: int| 0 <= j < self.stat_keys.len() && self.stat_keys@[j]@ == k;
        if j != i {
            if j < i {
                assert(self.stat_keys@[j]@ != self.stat_keys@[i]@);
            } else {
                assert(self.stat_keys@[i]@ != self.stat_keys@[j]@);
            }
        }
    }

    /// No totals yet.
    pub fn new() -> (r: DirTotals)
        ensures
            r.wf(),
            forall|k: Seq<char>| r.bytes_of(k) == None::<u64>,
            forall|k: Seq<char>| r.stats_of(k) == None::<(u64, u64)>,
    {
        DirTotals { byte_keys: Vec::new(), byte_vals: Vec::new(), stat_keys: Vec::new(), stat_vals: Vec::new() }
    }

    /// The recorded total bytes of the directory at `path`: from the bytes
    /// table, else from the full statistics.
    pub fn cached_bytes(&self, path: &str) -> (r: Option<u64>)
        requires
            self.wf(),
        ensures
            r == (match self.bytes_of(dir_key(path@)) {
                Some(b) => Some(b),
                None => match self.stats_of(dir_key(path@)) {
                    Some(st) => Some(st.0),
                    None => None,
                },
            }),
    {
        let key = chars_of(normalize_dir_key(path).as_str());
        match find_key(&self.byte_keys, key.as_slice()) {
            Some(i) => {
                proof {
                    self.lemma_bytes_at(i as int);
                }
                Some(self.byte_vals[i])
            },
            None => {
                match find_key(&self.stat_keys, key.as_slice()) {
                    Some(j) => {
                        proof {
                            self.lemma_stats_at(j as int);
                        }
                        Some(self.stat_vals[j].0)
                    },
                    None => None,
                }
            },
        }
    }

    /// The recorded total bytes and files of the directory at `path`.
    pub fn cached_stats(&self, path: &str) -> (r: Option<(u64, u64)>)
        requires
            self.wf(),
        ensures
            r == self.stats_of(dir_key(path@)),
    {
        let key = chars_of(normalize_dir_key(path).as_str());
        match find_key(&self.stat_keys, key.as_slice()) {
            Some(j) => {
                proof {
                    self.lemma_stats_at(j as int);
                }
                Some(self.stat_vals[j])
            },
            None => None,
        }
    }

    /// Records the total bytes of the directory at `path`.
    pub fn store_bytes(&mut self, path: &str, bytes: u64)
        requires
            old(self).wf(),
        ensures
            final(self).wf(),
            forall|k: Seq<char>| #[trigger] final(self).bytes_of(k) == (if k == dir_key(path@) { Some(bytes) } else { old(self).bytes_of(k) }),
            forall|k: Seq<char>| #[trigger] final(self).stats_of(k) == old(self).stats_of(k),
    {
        let key = chars_of(normalize_dir_key(path).as_str());
        let ghost kk = key@;
        let ghost old_keys = self.byte_keys@;
        let ghost old_vals = self.byte_vals@;
        proof {
            assert(forall|k: Seq<char>| #[trigger] self.stats_of(k) == old(self).stats_of(k));
        }
        match find_key(&self.byte_keys, key.as_slice()) {
            Some(i) => {
                self.byte_vals.set(i, bytes);
                proof {
                    assert forall|k: Seq<char>| #[trigger] self.bytes_of(k) == (if k == kk { Some(bytes) } else { old(self).bytes_of(k) }) by {
                        if k == kk {
                            self.lemma_bytes_at(i as int);
                        } else if exists|j: int| 0 <= j < old_keys.len() && old_keys[j]@ == k {
                            let j = choose|j: int| 0 <= j < old_keys.len() && old_keys[j]@ == k;
                            old(self).lemma_bytes_at(j);
                            self.lemma_bytes_at(j);
                        } else {
                            assert(!(exists|j: int| 0 <= j < self.byte_keys.len() && self.byte_keys@[j]@ == k));
                        }
                    }
                }
            },
            None => {
                self.byte_keys.push(key);
                self.byte_vals.push(bytes);
                proof {
                    assert(distinct_keys(self.byte_keys@)) by {
                        assert forall|a: int, b: int| 0 <= a < b < self.byte_keys.len() implies self.byte_keys@[a]@ != self.byte_keys@[b]@ by {
                            assert(self.byte_keys@[a] == old_keys[a]);
                            if b < old_keys.len() {
                                assert(self.byte_keys@[b] == old_keys[b]);
                            }
                        }
                    }
                    assert forall|k: Seq<char>| #[trigger] self.bytes_of(k) == (if k == kk { Some(bytes) } else { old(self).bytes_of(k) }) by {
                        if k == kk {
                            self.lemma_bytes_at(old_keys.len() as int);
                        } else if exists|j: int| 0 <= j < old_keys.len() && old_keys[j]@ == k {
                            let j = choose|j: int| 0 <= j < old_keys.len() && old_keys[j]@ == k;
                            old(self).lemma_bytes_at(j);
                            assert(self.byte_keys@[j] == old_keys[j]);
                            self.lemma_bytes_at(j);
                        } else {
                            assert forall|j: int| 0 <= j < self.byte_keys.len() implies self.byte_keys@[j]@ != k by {
                                if j < old_keys.len() {
                                    assert(self.byte_keys@[j] == old_keys[j]);
                                }
                            }
                        }
                    }
                }
            },
        }
        proof {
            assert(self.stat_keys == old(self).stat_keys);
            assert(self.stat_vals == old(self).stat_vals);
        }
    }

    /// Records the total bytes and files of the directory at `path` (its
    /// bytes also go to the bytes table).
    pub fn store_stats(&mut self, path: &str, bytes: u64, files: u64)
        requires
            old(self).wf(),
        ensures
            final(self).wf(),
            forall|k: Seq<char>| #[trigger] final(self).bytes_of(k) == (if k == dir_key(path@) { Some(bytes) } else { old(self).bytes_of(k) }),
            forall|k: Seq<char>| #[trigger] final(self).stats_of(k) == (if k == dir_key(path@) { Some((bytes, files)) } else { old(self).stats_of(k) }),
    {
        self.store_bytes(path, bytes);
        let ghost mid = *self;
        let key = chars_of(normalize_dir_key(path).as_str());
        let ghost kk = key@;
        let ghost old_keys = self.stat_keys@;
        match find_key(&self.stat_keys, key.as_slice()) {
            Some(i) => {
                self.stat_vals.set(i, (bytes, files));
                proof {
                    assert forall|k: Seq<char>| #[trigger] self.stats_of(k) == (if k == kk { Some((bytes, files)) } else { mid.stats_of(k) }) by {
                        if k == kk {
                            self.lemma_stats_at(i as int);
                        } else if exists|j: int| 0 <= j < old_keys.len() && old_keys[j]@ == k {
                            let j = choose|j: int| 0 <= j < old_keys.len() && old_keys[j]@ == k;
                            mid.lemma_stats_at(j);
                            self.lemma_stats_at(j);
                        } else {
                            assert(!(exists|j: int| 0 <= j < self.stat_keys.len() && self.stat_keys@[j]@ == k));
                        }
                    }
                    assert(self.byte_keys == mid.byte_keys);
                    assert(self.byte_vals == mid.byte_vals);
                    assert forall|k: Seq<char>| #[trigger] self.bytes_of(k) == mid.bytes_of(k) by {}
                }
            },
            None => {
                self.stat_keys.push(key);
                self.stat_vals.push((bytes, files));
                proof {
                    assert(distinct_keys(self.stat_keys@)) by {
                        assert forall|a: int, b: int| 0 <= a < b < self.stat_keys.len() implies self.stat_keys@[a]@ != self.stat_keys@[b]@ by {
                            assert(self.stat_keys@[a] == old_keys[a]);
                            if b < old_keys.len() {
                                assert(self.stat_keys@[b] == old_keys[b]);
                            }
                        }
                    }
                    assert forall|k: Seq<char>| #[trigger] self.stats_of(k) == (if k == kk { Some((bytes, files)) } else { mid.stats_of(k) }) by {
                        if k == kk {
                            self.lemma_stats_at(old_keys.len() as int);
                        } else if exists|j: int| 0 <= j < old_keys.len() && old_keys[j]@ == k {
                            let j = choose|j: int| 0 <= j < old_keys.len() && old_keys[j]@ == k;
                            mid.lemma_stats_at(j);
                            assert(self.stat_keys@[j] == old_keys[j]);
                            self.lemma_stats_at(j);
                        } else {
                            assert forall|j: int| 0 <= j < self.stat_keys.len() implies self.stat_keys@[j]@ != k by {
                                if j < old_keys.len() {
                                    assert(self.stat_keys@[j] == old_keys[j]);
                                }
                            }
                        }
                    }
                    assert(self.byte_keys == mid.byte_keys);
                    assert(self.byte_vals == mid.byte_vals);
                    assert forall|k: Seq<char>| #[trigger] self.bytes_of(k) == mid.bytes_of(k) by {}
                }
            },
        }
    }
}

/// The key a result is ordered by: its modification time in seconds (0
/// without metadata), its size, or its lowercased path by code point.
pub open spec fn sort_key(item: SearchResult, s: Settings, field: SortField, dir_total: Option<u64>) -> Seq<u64> {
    match field {
        SortField::Date => seq![
            match item.meta {
                Some(m) => m.mtime_secs,
                None => 0,
            },
        ],
        SortField::Size => seq![size_bytes_spec(item, s, dir_total)],
        SortField::Name => text_key(lowercase(item.path@)),
    }
}

/// The keys of all results.
pub open spec fn sort_keys(items: Seq<SearchResult>, s: Settings, field: SortField, dir_totals: Seq<Option<u64>>) -> Seq<Seq<u64>> {
    Seq::new(items.len(), |i: int| sort_key(items[i], s, field, dir_totals[i]))
}

/// Orders the results by the chosen field, ascending unless descending was
/// asked for; equal keys keep their order. Without a field they stay as
/// they are. `dir_totals[i]` is the recursive total of result `i` where it
/// has one.
pub fn sort_results(items: Vec<SearchResult>, s: &Settings, dir_totals: &Vec<Option<u64>>) -> (r: Vec<SearchResult>)
    requires
        dir_totals.len() == items.len(),
    ensures
        s.sort_field is None ==> r@ == items@,
        s.sort_field matches Some(f) ==> stably_sorted(
            items@,
            sort_keys(items@, *s, f, dir_totals@),
            s.sort_order == Some(SortOrder::Desc),
            r@,
        ),
{
    let field = match s.sort_field {
        None => {
            return items;
        },
        Some(f) => f,
    };
    let desc = match s.sort_order {
        Some(SortOrder::Desc) => true,
        _ => false,
    };
    let mut keys: Vec<Vec<u64>> = Vec::new();
    for i in 0..items.len()
        invariant
            items.len() == dir_totals.len(),
            keys.len() == i,
            forall|j: int| 0 <= j < i ==> #[trigger] keys@[j]@ == sort_key(items@[j], *s, field, dir_totals@[j]),
    {
        let item = &items[i];
        let key: Vec<u64> = match field {
            SortField::Date => {
                let t = match &item.meta {
                    Some(m) => m.mtime_secs,
                    None => 0,
                };
                vec![t]
            },
            SortField::Size => vec![size_bytes_for_result(item, s, dir_totals[i])],
            SortField::Name => text_key_of(chars_of(to_lowercase_text(item.path.as_str()).as_str()).as_slice()),
        };
        keys.push(key);
    }
    assert(keys_view(keys@) =~= sort_keys(items@, *s, field, dir_totals@));
    sort_by_keys(items, &keys, desc)
}

/// The bytes and files of a directory walk, both saturating at the
/// largest `u64`; files are only counted when asked for.
pub struct FileTally {
    pub bytes: u64,
    pub files: u64,
    pub count_files: bool,
}

impl FileTally {
    /// Nothing counted yet.
    pub fn new(count_files: bool) -> (r: FileTally)
        ensures
            r.bytes == 0 && r.files == 0 && r.count_files == count_files,
    {
        FileTally { bytes: 0, files: 0, count_files }
    }

    /// Counts one regular file of `len` bytes.
    pub fn add_file(&mut self, len: u64)
        ensures
            final(self).count_files == old(self).count_files,
            final(self).bytes == (if old(self).bytes + len > u64::MAX { u64::MAX as int } else { old(self).bytes + len }),
            final(self).files == (if !old(self).count_files {
                old(self).files as int
            } else if old(self).files == u64::MAX {
                u64::MAX as int
            } else {
                old(self).files + 1
            }),
    {
        self.bytes = self.bytes.saturating_add(len);
        if self.count_files {
            self.files = self.files.saturating_add(1);
        }
    }
}


proof fn lemma_lex_single(x: u64, y: u64)
    ensures
        lex_lt(seq![x], seq![y]) == (x < y),
{
    assert(seq![x].drop_first() =~= Seq::<u64>::empty());
    assert(seq![y].drop_first() =~= Seq::<u64>::empty());
    reveal_with_fuel(lex_lt, 2);
}

/// The size shown for the result at position `k` of the order `p`.
pub open spec fn shown_size_at(items: Seq<SearchResult>, s: Settings, dir_totals: Seq<Option<u64>>, p: Seq<usize>, k: int) -> u64 {
    size_bytes_spec(items[p[k] as int], s, dir_totals[p[k] as int])
}

/// Sorting by size orders results by the size they are shown with: a
/// directory sized recursively goes by its total, anything else by its
/// own length. Along a size sort the shown sizes never fall (ascending) or
/// never rise (descending).
pub proof fn law_size_sort_follows_shown_size(
    items: Seq<SearchResult>,
    s: Settings,
    dir_totals: Seq<Option<u64>>,
    desc: bool,
    p: Seq<usize>,
)
    requires
        dir_totals.len() == items.len(),
        crate::order::is_stable_order(sort_keys(items, s, SortField::Size, dir_totals), desc, p),
    ensures
        forall|a: int, b: int|
            0 <= a < b < p.len() ==> if desc {
                #[trigger] shown_size_at(items, s, dir_totals, p, a) >= #[trigger] shown_size_at(items, s, dir_totals, p, b)
            } else {
                shown_size_at(items, s, dir_totals, p, a) <= shown_size_at(items, s, dir_totals, p, b)
            },
{
    let keys = sort_keys(items, s, SortField::Size, dir_totals);
    assert forall|a: int, b: int| 0 <= a < b < p.len() implies if desc {
        #[trigger] shown_size_at(items, s, dir_totals, p, a) >= #[trigger] shown_size_at(items, s, dir_totals, p, b)
    } else {
        shown_size_at(items, s, dir_totals, p, a) <= shown_size_at(items, s, dir_totals, p, b)
    } by {
        let i = p[a] as int;
        let j = p[b] as int;
        let x = size_bytes_spec(items[i], s, dir_totals[i]);
        let y = size_bytes_spec(items[j], s, dir_totals[j]);
        assert(crate::order::key_before(keys, desc, i, j));
        assert(keys[i] == seq![x]);
        assert(keys[j] == seq![y]);
        lemma_lex_single(x, y);
        lemma_lex_single(y, x);
    }
}


/// A directory (not a link) in a recursive search, or whenever sizes are
/// asked for, is shown with the total of what lies beneath it; a file is
/// shown with its own length.
pub proof fn law_directory_shown_by_total(item: SearchResult, s: Settings, total: u64)
    ensures
        item.is_dir && !item.is_symlink && (!s.no_recurse || s.sizes) ==> size_bytes_spec(item, s, Some(total)) == total,
        !item.is_dir ==> size_bytes_spec(item, s, Some(total)) == (match item.meta {
            Some(m) => m.len,
            None => 0,
        }),
{
}

} // verus!
