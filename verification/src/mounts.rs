//! Which mount a directory lives on (read from the mount table), how its
//! path continues below the mount point, and the bookkeeping of a scan of
//! an NTFS master file table for directory totals.
use vstd::prelude::*;
use std::collections::HashSet;
use crate::text::{chars_of, string_of, split_char, split_on_char, eq_chars, lines_of, lines_spec,
    split_whitespace_chars, split_ws};

verus! {

/// An octal digit as a byte.
pub open spec fn octal_byte(b: u8) -> bool {
    48 <= b <= 55
}

/// The mount-table field from position `i` on with its `\ooo` escapes
/// decoded (a backslash and three octal digits stand for one byte, the
/// value taken modulo 256).
pub open spec fn unescape_from(b: Seq<u8>, i: int) -> Seq<u8>
    decreases b.len() - i,
{
    if i < 0 || i >= b.len() {
        seq![]
    } else if b[i] == 92 && i + 3 < b.len() && octal_byte(b[i + 1]) && octal_byte(b[i + 2]) && octal_byte(b[i + 3]) {
        seq![(((b[i + 1] - 48) * 64 + (b[i + 2] - 48) * 8 + (b[i + 3] - 48)) % 256) as u8] + unescape_from(b, i + 4)
    } else {
        seq![b[i]] + unescape_from(b, i + 1)
    }
}

/// The mount-table field with its escapes decoded.
pub open spec fn unescape_spec(b: Seq<u8>) -> Seq<u8> {
    unescape_from(b, 0)
}

/// Decodes the `\ooo` escapes of a mount-table field.
pub fn unescape_mount_bytes(b: &[u8]) -> (r: Vec<u8>)
    ensures
        r@ == unescape_spec(b@),
{
    let mut out: Vec<u8> = Vec::new();
    let mut i: usize = 0;
    while i < b.len()
        invariant
            i <= b.len(),
            out@ + unescape_from(b@, i as int) == unescape_spec(b@),
        decreases b.len() - i,
    {
        if b[i] == 92u8 && b.len() - i > 3 {
            let x = b[i + 1];
            let y = b[i + 2];
            let z = b[i + 3];
            if 48 <= x && x <= 55 && 48 <= y && y <= 55 && 48 <= z && z <= 55 {
                let v: u32 = (x as u32 - 48) * 64 + (y as u32 - 48) * 8 + (z as u32 - 48);
                let value: u8 = (v % 256) as u8;
                assert(out@.push(value) + unescape_from(b@, i + 4) =~= out@ + unescape_from(b@, i as int));
                out.push(value);
                i = i + 4;
                continue;
            }
        }
        assert(out@.push(b[i as int]) + unescape_from(b@, i + 1) =~= out@ + unescape_from(b@, i as int));
        out.push(b[i]);
        i = i + 1;
    }
    assert(out@ + unescape_from(b@, i as int) =~= out@);
    out
}

/// What `String::from_utf8_lossy` gives for `b`: its text, each invalid
/// sequence replaced by U+FFFD.
pub uninterp spec fn utf8_lossy(b: Seq<u8>) -> Seq<char>;

/// `String::from_utf8_lossy(..).into_owned()`: claims that the text is
/// determined by the bytes, and is exactly the encoded text when the bytes
/// are valid UTF-8.
#[verifier::external_body]
fn lossy_text(b: &[u8]) -> (r: String)
    ensures
        r@ == utf8_lossy(b@),
        forall|cs: Seq<char>| vstd::utf8::encode_utf8(cs) == b@ ==> r@ == cs,
{
    String::from_utf8_lossy(b).into_owned()
}

/// A mount-table field with its escapes decoded, as text.
pub open spec fn mount_field(raw: Seq<char>) -> Seq<char> {
    utf8_lossy(unescape_spec(vstd::utf8::encode_utf8(raw)))
}

/// A mount-table field with its escapes decoded, as text: where the
/// decoded bytes are the UTF-8 encoding of some text, exactly that text.
pub fn unescape_proc_mount_field(field: &str) -> (r: String)
    ensures
        r@ == mount_field(field@),
        forall|cs: Seq<char>|
            #[trigger] vstd::utf8::encode_utf8(cs) == unescape_spec(vstd::utf8::encode_utf8(field@)) ==> r@ == cs,
{
    let bytes = field.as_bytes();
    let u = unescape_mount_bytes(bytes);
    lossy_text(u.as_slice())
}

/// The pieces of a path that are not empty and not `.`.
pub open spec fn kept_segments(segs: Seq<Seq<char>>) -> Seq<Seq<char>>
    decreases segs.len(),
{
    if segs.len() == 0 {
        seq![]
    } else {
        kept_segments(segs.drop_last()) + if segs.last().len() > 0 && segs.last() != seq!['.'] {
            seq![segs.last()]
        } else {
            seq![]
        }
    }
}

/// The components of a path, as `Path::components` gives them: `/` for
/// the root, `.` for a leading current-directory mark, then every piece
/// between slashes that is not empty and not `.` (`..` kept).
pub open spec fn path_comps(p: Seq<char>) -> Seq<Seq<char>> {
    let segs = split_char(p, '/');
    let head = if p.len() > 0 && p[0] == '/' {
        seq![seq!['/']]
    } else if segs.len() > 0 && segs[0] == seq!['.'] {
        seq![seq!['.']]
    } else {
        seq![]
    };
    head + kept_segments(segs)
}

/// `base` is a leading run of components of `path` (`Path::starts_with`).
pub open spec fn path_starts_with_spec(path: Seq<char>, base: Seq<char>) -> bool {
    let a = path_comps(path);
    let b = path_comps(base);
    b.len() <= a.len() && a.take(b.len() as int) == b
}

/// The components of a path (see `path_comps`).
pub fn path_components(p: &[char]) -> (r: Vec<Vec<char>>)
    ensures
        r@.map_values(|x: Vec<char>| x@) == path_comps(p@),
{
    let segs = split_on_char(p, '/');
    let ghost sv = split_char(p@, '/');
    let mut out: Vec<Vec<char>> = Vec::new();
    let dot: Vec<char> = vec!['.'];
    assert(dot@ =~= seq!['.']);
    let root_tok: Vec<char> = vec!['/'];
    assert(root_tok@ =~= seq!['/']);
    assert(segs@.len() > 0 ==> segs@[0]@ == sv[0]);
    if p.len() > 0 && p[0] == '/' {
        out.push(root_tok);
    } else if segs.len() > 0 && eq_chars(segs[0].as_slice(), dot.as_slice()) {
        out.push(dot.clone());
    }
    let ghost head = out@.map_values(|x: Vec<char>| x@);
    assert(head =~= (if p@.len() > 0 && p@[0] == '/' {
        seq![seq!['/']]
    } else if sv.len() > 0 && sv[0] == seq!['.'] {
        seq![seq!['.']]
    } else {
        Seq::<Seq<char>>::empty()
    }));
    for k in 0..segs.len()
        invariant
            segs@.len() == sv.len(),
            forall|j: int| 0 <= j < segs@.len() ==> #[trigger] segs@[j]@ == sv[j],
            dot@ == seq!['.'],
            out@.map_values(|x: Vec<char>| x@) == head + kept_segments(sv.take(k as int)),
    {
        let ghost before = out@;
        assert(sv.take(k + 1).drop_last() =~= sv.take(k as int));
        assert(sv.take(k + 1).last() == segs@[k as int]@);
        if segs[k].len() > 0 && !eq_chars(segs[k].as_slice(), dot.as_slice()) {
            out.push(segs[k].clone());
            assert(out@.map_values(|x: Vec<char>| x@) =~= before.map_values(|x: Vec<char>| x@).push(segs@[k as int]@));
        } else {
            assert(out@.map_values(|x: Vec<char>| x@) =~= before.map_values(|x: Vec<char>| x@));
        }
    }
    assert(sv.take(segs.len() as int) =~= sv);
    out
}

/// `base` is a leading run of components of `path`.
pub fn path_starts_with(path: &str, base: &str) -> (r: bool)
    ensures
        r == path_starts_with_spec(path@, base@),
{
    let a = path_components(chars_of(path).as_slice());
    let b = path_components(chars_of(base).as_slice());
    let ghost av = a@.map_values(|x: Vec<char>| x@);
    let ghost bv = b@.map_values(|x: Vec<char>| x@);
    if b.len() > a.len() {
        return false;
    }
    for k in 0..b.len()
        invariant
            b.len() <= a.len(),
            av == path_comps(path@),
            bv == path_comps(base@),
            av == a@.map_values(|x: Vec<char>| x@),
            bv == b@.map_values(|x: Vec<char>| x@),
            forall|j: int| 0 <= j < k ==> av[j] == bv[j],
    {
        if !eq_chars(a[k].as_slice(), b[k].as_slice()) {
            assert(av[k as int] != bv[k as int]);
            assert(av.take(bv.len() as int)[k as int] != bv[k as int]);
            return false;
        }
    }
    assert(av.take(bv.len() as int) =~= bv);
    true
}

/// A mount: its device, where it is mounted, and its file-system type.
pub struct MountInfo {
    pub device: String,
    pub mount_point: String,
    pub fs_type: String,
}

/// A mount as values.
pub open spec fn mount_view(m: MountInfo) -> (Seq<char>, Seq<char>, Seq<char>) {
    (m.device@, m.mount_point@, m.fs_type@)
}

/// One mount-table line considered for `canonical`: a line of at least
/// three fields whose mount point is a leading run of the path's
/// components replaces the best so far when its mount point is longer (in
/// bytes) than that one's.
pub open spec fn mount_step(best: Option<(Seq<char>, Seq<char>, Seq<char>)>, line: Seq<char>, canonical: Seq<char>) -> Option<
    (Seq<char>, Seq<char>, Seq<char>),
> {
    let parts = split_ws(line);
    if parts.len() < 3 {
        best
    } else {
        let device = mount_field(parts[0]);
        let mp = mount_field(parts[1]);
        if !path_starts_with_spec(canonical, mp) {
            best
        } else if best matches Some(b) && (vstd::utf8::encode_utf8(mp).len() as usize) <= (vstd::utf8::encode_utf8(
            b.1,
        ).len() as usize) {
            best
        } else {
            Some((device, mp, parts[2]))
        }
    }
}

/// The mount-table lines considered in order.
pub open spec fn mount_fold(lines: Seq<Seq<char>>, canonical: Seq<char>) -> Option<(Seq<char>, Seq<char>, Seq<char>)>
    decreases lines.len(),
{
    if lines.len() == 0 {
        None
    } else {
        mount_step(mount_fold(lines.drop_last(), canonical), lines.last(), canonical)
    }
}

/// The mount that `canonical` lives on according to the mount-table text
/// `mounts`: the one with the longest mount point over it (the first of
/// equal length).
pub fn detect_mount_info_from(mounts: &str, canonical: &str) -> (r: Option<MountInfo>)
    ensures
        match r {
            Some(m) => mount_fold(lines_spec(mounts@), canonical@) == Some(mount_view(m)),
            None => mount_fold(lines_spec(mounts@), canonical@) is None,
        },
{
    let lines = lines_of(chars_of(mounts).as_slice());
    let ghost lv = lines_spec(mounts@);
    let mut best: Option<MountInfo> = None;
    let mut best_len: usize = 0;
    for k in 0..lines.len()
        invariant
            lines@.len() == lv.len(),
            forall|j: int| 0 <= j < lines@.len() ==> #[trigger] lines@[j]@ == lv[j],
            match best {
                Some(m) => mount_fold(lv.take(k as int), canonical@) == Some(mount_view(m)) && best_len
                    == (vstd::utf8::encode_utf8(m.mount_point@).len() as usize),
                None => mount_fold(lv.take(k as int), canonical@) is None,
            },
    {
        assert(lv.take(k + 1).drop_last() =~= lv.take(k as int));
        assert(lv.take(k + 1).last() == lines@[k as int]@);
        let parts = split_whitespace_chars(lines[k].as_slice());
        let ghost pv = split_ws(lines@[k as int]@);
        assert(parts@.len() >= 3 ==> parts@[0]@ == pv[0] && parts@[1]@ == pv[1] && parts@[2]@ == pv[2]);
        if parts.len() >= 3 {
            let device = unescape_proc_mount_field(string_of(parts[0].as_slice()).as_str());
            let mp = unescape_proc_mount_field(string_of(parts[1].as_slice()).as_str());
            if path_starts_with(canonical, mp.as_str()) {
                let mlen = mp.as_str().len();
                let better = match &best {
                    Some(_) => mlen > best_len,
                    None => true,
                };
                if better {
                    best = Some(MountInfo { device, mount_point: mp, fs_type: string_of(parts[2].as_slice()) });
                    best_len = mlen;
                }
            }
        }
    }
    assert(lv.take(lines.len() as int) =~= lv);
    best
}

/// The file-system types read through the NTFS fast path.
pub open spec fn ntfs_type(t: Seq<char>) -> bool {
    t == "ntfs"@ || t == "ntfs3"@ || t == "fuseblk"@
}

/// The file system is one the NTFS fast path reads.
pub fn is_ntfs_fs_type(t: &str) -> (r: bool)
    ensures
        r == ntfs_type(t@),
{
    let c = chars_of(t);
    eq_chars(c.as_slice(), chars_of("ntfs").as_slice()) || eq_chars(c.as_slice(), chars_of("ntfs3").as_slice())
        || eq_chars(c.as_slice(), chars_of("fuseblk").as_slice())
}

/// A component naming a directory entry (not the root, `.` or `..`).
pub open spec fn normal_comp(c: Seq<char>) -> bool {
    c != seq!['/'] && c != seq!['.'] && c != seq!['.', '.']
}

/// The named components of a list.
pub open spec fn normal_comps(cs: Seq<Seq<char>>) -> Seq<Seq<char>>
    decreases cs.len(),
{
    if cs.len() == 0 {
        seq![]
    } else {
        normal_comps(cs.drop_last()) + if normal_comp(cs.last()) {
            seq![cs.last()]
        } else {
            seq![]
        }
    }
}

/// The names leading from a mount point down to `canonical`: its
/// components after those of the mount point, named ones only (none when
/// the mount point is not over it).
pub open spec fn rel_names(canonical: Seq<char>, mount_point: Seq<char>) -> Seq<Seq<char>> {
    if path_starts_with_spec(canonical, mount_point) {
        normal_comps(path_comps(canonical).skip(path_comps(mount_point).len() as int))
    } else {
        seq![]
    }
}

/// The names leading from a mount point down to `canonical`.
pub fn ntfs_rel_names(canonical: &str, mount_point: &str) -> (r: Vec<String>)
    ensures
        r@.map_values(|x: String| x@) == rel_names(canonical@, mount_point@),
{
    if !path_starts_with(canonical, mount_point) {
        let r: Vec<String> = Vec::new();
        assert(r@.map_values(|x: String| x@) =~= Seq::<Seq<char>>::empty());
        return r;
    }
    let a = path_components(chars_of(canonical).as_slice());
    let b = path_components(chars_of(mount_point).as_slice());
    let ghost av = a@.map_values(|x: Vec<char>| x@);
    let ghost rest = av.skip(b@.len() as int);
    assert(b@.len() == path_comps(mount_point@).len());
    let mut out: Vec<String> = Vec::new();
    let mut k: usize = b.len();
    let slash: Vec<char> = vec!['/'];
    let dot: Vec<char> = vec!['.'];
    let dotdot: Vec<char> = vec!['.', '.'];
    assert(slash@ =~= seq!['/']);
    assert(dot@ =~= seq!['.']);
    assert(dotdot@ =~= seq!['.', '.']);
    assert(rest.take(0) =~= Seq::<Seq<char>>::empty());
    while k < a.len()
        invariant
            b.len() <= k <= a.len(),
            av == a@.map_values(|x: Vec<char>| x@),
            rest == av.skip(b@.len() as int),
            slash@ == seq!['/'],
            dot@ == seq!['.'],
            dotdot@ == seq!['.', '.'],
            out@.map_values(|x: String| x@) == normal_comps(rest.take(k - b.len())),
        decreases a.len() - k,
    {
        let ghost before = out@;
        let ghost j = k - b.len();
        assert(rest.take(j + 1).drop_last() =~= rest.take(j));
        assert(rest.take(j + 1).last() == a@[k as int]@);
        let c = a[k].as_slice();
        if !eq_chars(c, slash.as_slice()) && !eq_chars(c, dot.as_slice()) && !eq_chars(c, dotdot.as_slice()) {
            out.push(string_of(c));
            assert(out@.map_values(|x: String| x@) =~= before.map_values(|x: String| x@).push(a@[k as int]@));
        }
        k = k + 1;
    }
    assert(rest.take(a.len() - b.len()) =~= rest);
    out
}

/// What to do with one directory entry while looking for a name: skip it
/// (`.`, `..`, or a record already seen in this directory), go on, or take
/// it.
pub enum EntryOffer {
    Skip,
    Other,
    Found,
}

/// The records seen so far while reading one directory's entries.
pub struct EntryFilter {
    seen: HashSet<u64>,
}

impl EntryFilter {
    /// The records seen so far.
    pub closed spec fn seen_set(&self) -> Set<u64> {
        self.seen@
    }

    /// Nothing seen yet.
    pub fn new() -> (r: EntryFilter)
        ensures
            r.seen_set() == Set::<u64>::empty(),
    {
        EntryFilter { seen: HashSet::new() }
    }

    /// Offers an entry named `name` with record `record`: `.` and `..` are
    /// skipped, then a record already seen; otherwise it is remembered and
    /// found when its name is `wanted`.
    pub fn offer(&mut self, name: &str, record: u64, wanted: &str) -> (r: EntryOffer)
        ensures
            (name@ == seq!['.'] || name@ == seq!['.', '.']) ==> r is Skip && final(self).seen_set() == old(self).seen_set(),
            !(name@ == seq!['.'] || name@ == seq!['.', '.']) ==> {
                &&& old(self).seen_set().contains(record) ==> r is Skip
                &&& !old(self).seen_set().contains(record) ==> (if name@ == wanted@ { r is Found } else { r is Other })
                &&& final(self).seen_set() == old(self).seen_set().insert(record)
            },
    {
        let n = chars_of(name);
        let dot: Vec<char> = vec!['.'];
        let dotdot: Vec<char> = vec!['.', '.'];
        assert(dot@ =~= seq!['.']);
        assert(dotdot@ =~= seq!['.', '.']);
        if eq_chars(n.as_slice(), dot.as_slice()) || eq_chars(n.as_slice(), dotdot.as_slice()) {
            return EntryOffer::Skip;
        }
        broadcast use vstd::std_specs::hash::group_hash_axioms;
        if !self.seen.insert(record) {
            assert(old(self).seen@.insert(record) =~= old(self).seen@);
            return EntryOffer::Skip;
        }
        if eq_chars(n.as_slice(), chars_of(wanted).as_slice()) {
            EntryOffer::Found
        } else {
            EntryOffer::Other
        }
    }
}

impl EntryFilter {
    /// Offers an entry of a directory being scanned: `.`, `..` and records
    /// already seen are left out; any other is remembered and taken.
    pub fn take_entry(&mut self, name: &str, record: u64) -> (r: bool)
        ensures
            (name@ == seq!['.'] || name@ == seq!['.', '.']) ==> !r && final(self).seen_set() == old(self).seen_set(),
            !(name@ == seq!['.'] || name@ == seq!['.', '.']) ==> r == !old(self).seen_set().contains(record)
                && final(self).seen_set() == old(self).seen_set().insert(record),
    {
        match self.offer(name, record, name) {
            EntryOffer::Skip => false,
            _ => true,
        }
    }
}

/// The bookkeeping of a scan for a directory total: directories still to
/// read, directories read, the bytes and files counted so far (both
/// saturating), and whether files are counted.
pub struct NtfsScan {
    stack: Vec<u64>,
    seen_dirs: HashSet<u64>,
    total_size: u64,
    total_files: u64,
    count_files: bool,
}

impl NtfsScan {
    /// The directories still to read, the last read first.
    pub closed spec fn pending(&self) -> Seq<u64> {
        self.stack@
    }

    /// The directories read so far.
    pub closed spec fn visited(&self) -> Set<u64> {
        self.seen_dirs@
    }

    /// The bytes counted so far.
    pub closed spec fn size(&self) -> u64 {
        self.total_size
    }

    /// The files counted so far.
    pub closed spec fn files(&self) -> u64 {
        self.total_files
    }

    /// Whether files are counted.
    pub closed spec fn counts_files(&self) -> bool {
        self.count_files
    }

    /// A scan of the directory with record `top`.
    pub fn new(top: u64, count_files: bool) -> (r: NtfsScan)
        ensures
            r.pending() == seq![top],
            r.visited() == Set::<u64>::empty(),
            r.size() == 0,
            r.files() == 0,
            r.counts_files() == count_files,
    {
        NtfsScan { stack: vec![top], seen_dirs: HashSet::new(), total_size: 0, total_files: 0, count_files }
    }

    /// The next directory to read: directories are taken from the top of
    /// the pending list and those already read are dropped, so the one
    /// returned is the topmost not yet read, and everything above it had
    /// been read; it is then counted as read and the list goes on below it.
    /// `None` when every pending directory had been read; the list is then
    /// empty.
    pub fn next_dir(&mut self) -> (r: Option<u64>)
        ensures
            final(self).size() == old(self).size(),
            final(self).files() == old(self).files(),
            final(self).counts_files() == old(self).counts_files(),
            match r {
                Some(d) => exists|k: int|
                    0 <= k < old(self).pending().len() && #[trigger] old(self).pending()[k] == d
                        && final(self).pending() == old(self).pending().take(k)
                        && (forall|j: int|
                        k < j < old(self).pending().len() ==> old(self).visited().contains(
                            #[trigger] old(self).pending()[j],
                        )) && !old(self).visited().contains(d) && final(self).visited()
                        == old(self).visited().insert(d),
                None => (forall|j: int|
                    0 <= j < old(self).pending().len() ==> old(self).visited().contains(
                        #[trigger] old(self).pending()[j],
                    )) && final(self).pending().len() == 0 && final(self).visited() == old(self).visited(),
            },
    {
        broadcast use vstd::std_specs::hash::group_hash_axioms;
        let ghost start = self.stack@;
        let ghost seen0 = self.seen_dirs@;
        while self.stack.len() > 0
            invariant
                self.seen_dirs@ == seen0,
                seen0 == old(self).seen_dirs@,
                self.total_size == old(self).total_size,
                self.total_files == old(self).total_files,
                self.count_files == old(self).count_files,
                self.stack@.len() <= start.len(),
                start == old(self).stack@,
                self.stack@ == start.take(self.stack@.len() as int),
                forall|j: int| self.stack@.len() <= j < start.len() ==> seen0.contains(#[trigger] start[j]),
            decreases self.stack.len(),
        {
            let d = match self.stack.pop() {
                Some(x) => x,
                None => 0,
            };
            let ghost k = self.stack@.len() as int;
            assert(start.take(k + 1).last() == d);
            assert(start[k] == d);
            assert(start.take(k + 1).drop_last() =~= start.take(k));
            if self.seen_dirs.insert(d) {
                assert(self.stack@ == start.take(k));
                assert(start[k] == d && forall|j: int| k < j < start.len() ==> seen0.contains(#[trigger] start[j]));
                assert(!seen0.contains(d) && self.seen_dirs@ == seen0.insert(d));
                assert(old(self).pending()[k] == d);
                return Some(d);
            }
            assert(seen0.contains(start[k]));
        }
        None
    }

    /// Takes in one child of the directory being read: a directory that is
    /// not a reparse point is queued; any other child that is not a
    /// reparse point adds its size (and, when counting, one file), both
    /// saturating.
    pub fn add_child(&mut self, record: u64, is_dir: bool, is_reparse: bool, size: u64)
        ensures
            final(self).visited() == old(self).visited(),
            final(self).counts_files() == old(self).counts_files(),
            is_dir && !is_reparse ==> final(self).pending() == old(self).pending().push(record) && final(self).size()
                == old(self).size() && final(self).files() == old(self).files(),
            !is_dir && !is_reparse ==> {
                &&& final(self).pending() == old(self).pending()
                &&& final(self).size() == (if old(self).size() + size > u64::MAX { u64::MAX as int } else { old(self).size() + size })
                &&& final(self).files() == (if !old(self).counts_files() {
                    old(self).files() as int
                } else if old(self).files() == u64::MAX {
                    u64::MAX as int
                } else {
                    old(self).files() + 1
                })
            },
            is_reparse ==> final(self).pending() == old(self).pending() && final(self).size() == old(self).size()
                && final(self).files() == old(self).files(),
    {
        if is_dir && !is_reparse {
            self.stack.push(record);
        } else if !is_reparse {
            self.total_size = self.total_size.saturating_add(size);
            if self.count_files {
                self.total_files = self.total_files.saturating_add(1);
            }
        }
    }

    /// The bytes and files counted.
    pub fn totals(&self) -> (r: (u64, u64))
        ensures
            r == (self.size(), self.files()),
    {
        (self.total_size, self.total_files)
    }
}

} // verus!
