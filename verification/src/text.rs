//! Character-sequence helpers: the string operations that the rest of the
//! library is specified with, and verified executable versions of them.
use vstd::prelude::*;

verus! {

/// `s` begins with `p`.
pub open spec fn has_prefix(s: Seq<char>, p: Seq<char>) -> bool {
    p.len() <= s.len() && s.subrange(0, p.len() as int) == p
}

/// `s` ends with `p`.
pub open spec fn has_suffix(s: Seq<char>, p: Seq<char>) -> bool {
    p.len() <= s.len() && s.subrange(s.len() - p.len(), s.len() as int) == p
}

/// `p` occurs in `s` starting at position `i`.
pub open spec fn occurs_at(s: Seq<char>, p: Seq<char>, i: int) -> bool {
    0 <= i && i + p.len() <= s.len() && s.subrange(i, i + p.len()) == p
}

/// `p` occurs somewhere in `s`.
pub open spec fn has_infix(s: Seq<char>, p: Seq<char>) -> bool {
    exists|i: int| occurs_at(s, p, i)
}

/// `s` with every leading `c` removed.
pub open spec fn trim_start(s: Seq<char>, c: char) -> Seq<char>
    decreases s.len(),
{
    if s.len() > 0 && s[0] == c {
        trim_start(s.drop_first(), c)
    } else {
        s
    }
}

/// `s` with every trailing `c` removed.
pub open spec fn trim_end(s: Seq<char>, c: char) -> Seq<char>
    decreases s.len(),
{
    if s.len() > 0 && s.last() == c {
        trim_end(s.drop_last(), c)
    } else {
        s
    }
}

/// `s` with the prefix `p` removed as many times as it repeats.
pub open spec fn strip_prefix_all(s: Seq<char>, p: Seq<char>) -> Seq<char>
    decreases s.len(),
{
    if p.len() > 0 && has_prefix(s, p) {
        strip_prefix_all(s.skip(p.len() as int), p)
    } else {
        s
    }
}

/// Every non-overlapping occurrence of `p` in `s`, found from left to
/// right, replaced by `r` (`p` is non-empty).
pub open spec fn replace_all(s: Seq<char>, p: Seq<char>, r: Seq<char>) -> Seq<char>
    decreases s.len(),
{
    if p.len() == 0 || s.len() < p.len() {
        s
    } else if has_prefix(s, p) {
        r + replace_all(s.skip(p.len() as int), p, r)
    } else {
        seq![s[0]] + replace_all(s.drop_first(), p, r)
    }
}

/// The number of times `c` occurs in `s`.
pub open spec fn count_char(s: Seq<char>, c: char) -> nat
    decreases s.len(),
{
    if s.len() == 0 {
        0
    } else {
        count_char(s.drop_last(), c) + if s.last() == c { 1nat } else { 0nat }
    }
}

/// The characters of a string slice, in order.
pub fn chars_of(s: &str) -> (v: Vec<char>)
    ensures
        v@ == s@,
{
    broadcast use vstd::string::axiom_spec_iter;
    let mut v: Vec<char> = Vec::new();
    for c in it: s.chars()
        invariant
            it.seq() == s@,
            v@ == s@.take(it.index() as int),
    {
        assert(v@.push(c) =~= s@.take(it.index() + 1));
        v.push(c);
    }
    assert(v@ =~= s@);
    v
}

/// `String::push`: appends one character.
#[verifier::external_body]
fn push_char(s: &mut String, c: char)
    ensures
        final(s)@ == old(s)@.push(c),
{
    s.push(c);
}

/// The string made of the given characters, in order.
pub fn string_of(v: &[char]) -> (s: String)
    ensures
        s@ == v@,
{
    let mut s = String::new();
    for i in 0..v.len()
        invariant
            s@ == v@.take(i as int),
    {
        push_char(&mut s, v[i]);
        assert(s@ =~= v@.take(i + 1));
    }
    assert(v@.take(v.len() as int) =~= v@);
    s
}

/// The characters of every string in a list.
pub fn chars_of_all(v: &Vec<String>) -> (r: Vec<Vec<char>>)
    ensures
        r.len() == v.len(),
        forall|i: int| 0 <= i < v.len() ==> #[trigger] r[i]@ == v[i]@,
{
    let mut r: Vec<Vec<char>> = Vec::new();
    for i in 0..v.len()
        invariant
            r.len() == i,
            forall|j: int| 0 <= j < i ==> #[trigger] r[j]@ == v[j]@,
    {
        r.push(chars_of(v[i].as_str()));
    }
    r
}

/// Two character sequences are equal.
pub fn eq_chars(a: &[char], b: &[char]) -> (r: bool)
    ensures
        r == (a@ == b@),
{
    if a.len() != b.len() {
        return false;
    }
    for i in 0..a.len()
        invariant
            a.len() == b.len(),
            forall|j: int| 0 <= j < i ==> a[j] == b[j],
    {
        if a[i] != b[i] {
            return false;
        }
    }
    assert(a@ =~= b@);
    true
}

/// `p` occurs in `s` at position `i`.
pub fn matches_at(s: &[char], p: &[char], i: usize) -> (r: bool)
    ensures
        r == occurs_at(s@, p@, i as int),
{
    if i > s.len() || s.len() - i < p.len() {
        return false;
    }
    for k in 0..p.len()
        invariant
            i + p.len() <= s.len(),
            forall|j: int| 0 <= j < k ==> s[i + j] == p[j],
    {
        if s[i + k] != p[k] {
            assert(s@.subrange(i as int, i + p.len())[k as int] != p@[k as int]);
            return false;
        }
    }
    assert(s@.subrange(i as int, i + p.len()) =~= p@);
    true
}

/// `s` begins with `p`.
pub fn starts_with(s: &[char], p: &[char]) -> (r: bool)
    ensures
        r == has_prefix(s@, p@),
{
    matches_at(s, p, 0)
}

/// `s` begins with the character `c`.
pub fn starts_with_char(s: &[char], c: char) -> (r: bool)
    ensures
        r == (s@.len() > 0 && s@[0] == c),
        r == has_prefix(s@, seq![c]),
{
    proof {
        lemma_prefix_one(s@, c);
    }
    s.len() > 0 && s[0] == c
}

/// Having a one-character prefix is having that first character.
pub proof fn lemma_prefix_one(s: Seq<char>, c: char)
    ensures
        has_prefix(s, seq![c]) == (s.len() > 0 && s[0] == c),
{
    if s.len() > 0 {
        assert(s.subrange(0, 1)[0] == s[0]);
        if s[0] == c {
            assert(s.subrange(0, 1) =~= seq![c]);
        }
    }
}

/// Having a one-character suffix is having that last character.
pub proof fn lemma_suffix_one(s: Seq<char>, c: char)
    ensures
        has_suffix(s, seq![c]) == (s.len() > 0 && s.last() == c),
{
    if s.len() > 0 {
        assert(s.subrange(s.len() - 1, s.len() as int)[0] == s.last());
        if s.last() == c {
            assert(s.subrange(s.len() - 1, s.len() as int) =~= seq![c]);
        }
    }
}

/// `s` ends with the character `c`.
pub fn ends_with_char(s: &[char], c: char) -> (r: bool)
    ensures
        r == (s@.len() > 0 && s@.last() == c),
        r == has_suffix(s@, seq![c]),
{
    proof {
        lemma_suffix_one(s@, c);
    }
    s.len() > 0 && s[s.len() - 1] == c
}

/// `c` occurs in `s`.
pub fn contains_char(s: &[char], c: char) -> (r: bool)
    ensures
        r == s@.contains(c),
{
    for i in 0..s.len()
        invariant
            forall|j: int| 0 <= j < i ==> s[j] != c,
    {
        if s[i] == c {
            assert(s@[i as int] == c);
            return true;
        }
    }
    false
}

/// `p` occurs somewhere in `s`.
pub fn contains_seq(s: &[char], p: &[char]) -> (r: bool)
    ensures
        r == has_infix(s@, p@),
{
    if p.len() > s.len() {
        assert(!has_infix(s@, p@));
        return false;
    }
    let last = s.len() - p.len();
    for i in 0..last
        invariant
            last == s.len() - p.len(),
            forall|j: int| 0 <= j < i ==> !occurs_at(s@, p@, j),
    {
        if matches_at(s, p, i) {
            return true;
        }
    }
    if matches_at(s, p, last) {
        return true;
    }
    assert forall|j: int| !occurs_at(s@, p@, j) by {
        if 0 <= j < last {
        }
    }
    false
}

/// The characters of `s` from `from` up to `to`.
pub fn slice_chars(s: &[char], from: usize, to: usize) -> (r: Vec<char>)
    requires
        from <= to <= s.len(),
    ensures
        r@ == s@.subrange(from as int, to as int),
{
    let mut r: Vec<char> = Vec::new();
    for i in from..to
        invariant
            to <= s.len(),
            r@ == s@.subrange(from as int, i as int),
    {
        r.push(s[i]);
        assert(r@ =~= s@.subrange(from as int, i + 1));
    }
    r
}

/// Appends the characters of `s` to `out`.
pub fn push_all(out: &mut Vec<char>, s: &[char])
    ensures
        final(out)@ == old(out)@ + s@,
{
    let ghost start = out@;
    for i in 0..s.len()
        invariant
            out@ == start + s@.subrange(0, i as int),
    {
        out.push(s[i]);
        assert(out@ =~= start + s@.subrange(0, i + 1));
    }
    assert(s@.subrange(0, s.len() as int) =~= s@);
}

/// The concatenation of two character sequences.
pub fn concat(a: &[char], b: &[char]) -> (r: Vec<char>)
    ensures
        r@ == a@ + b@,
{
    let mut r: Vec<char> = Vec::new();
    push_all(&mut r, a);
    push_all(&mut r, b);
    assert(r@ =~= a@ + b@);
    r
}

proof fn lemma_trim_start_skip(s: Seq<char>, c: char, i: int)
    requires
        0 <= i <= s.len(),
        forall|j: int| 0 <= j < i ==> s[j] == c,
    ensures
        trim_start(s, c) == trim_start(s.skip(i), c),
    decreases i,
{
    if i > 0 {
        assert(s.skip(1) =~= s.drop_first());
        lemma_trim_start_skip(s.drop_first(), c, i - 1);
        assert(s.drop_first().skip(i - 1) =~= s.skip(i));
    } else {
        assert(s.skip(0) =~= s);
    }
}

proof fn lemma_trim_end_take(s: Seq<char>, c: char, n: int)
    requires
        0 <= n <= s.len(),
        forall|j: int| n <= j < s.len() ==> s[j] == c,
    ensures
        trim_end(s, c) == trim_end(s.take(n), c),
    decreases s.len() - n,
{
    if n < s.len() {
        assert(s.take(s.len() - 1) =~= s.drop_last());
        lemma_trim_end_take(s.drop_last(), c, n);
        assert(s.drop_last().take(n) =~= s.take(n));
    } else {
        assert(s.take(n) =~= s);
    }
}

/// `s` with every leading `c` removed.
pub fn trim_start_char(s: &[char], c: char) -> (r: Vec<char>)
    ensures
        r@ == trim_start(s@, c),
{
    let mut i: usize = 0;
    while i < s.len() && s[i] == c
        invariant
            i <= s.len(),
            forall|j: int| 0 <= j < i ==> s[j] == c,
        decreases s.len() - i,
    {
        i = i + 1;
    }
    proof {
        lemma_trim_start_skip(s@, c, i as int);
        assert(trim_start(s@.skip(i as int), c) == s@.skip(i as int));
    }
    let r = slice_chars(s, i, s.len());
    assert(r@ =~= s@.skip(i as int));
    r
}

/// `s` with every trailing `c` removed.
pub fn trim_end_char(s: &[char], c: char) -> (r: Vec<char>)
    ensures
        r@ == trim_end(s@, c),
{
    let mut n: usize = s.len();
    while n > 0 && s[n - 1] == c
        invariant
            n <= s.len(),
            forall|j: int| n <= j < s.len() ==> s[j] == c,
        decreases n,
    {
        n = n - 1;
    }
    proof {
        lemma_trim_end_take(s@, c, n as int);
        assert(trim_end(s@.take(n as int), c) == s@.take(n as int));
    }
    let r = slice_chars(s, 0, n);
    assert(r@ =~= s@.take(n as int));
    r
}

/// `s` with the prefix `p` removed as many times as it repeats.
pub fn strip_prefix_all_chars(s: &[char], p: &[char]) -> (r: Vec<char>)
    ensures
        r@ == strip_prefix_all(s@, p@),
{
    let mut i: usize = 0;
    if p.len() == 0 {
        return slice_chars(s, 0, s.len());
    }
    assert(s@.skip(0) =~= s@);
    while matches_at(s, p, i)
        invariant
            p.len() > 0,
            i <= s.len(),
            strip_prefix_all(s@, p@) == strip_prefix_all(s@.skip(i as int), p@),
        decreases s.len() - i,
    {
        assert(s@.skip(i as int).subrange(0, p.len() as int) =~= s@.subrange(i as int, i + p.len()));
        assert(s@.skip(i as int).skip(p.len() as int) =~= s@.skip(i + p.len()));
        i = i + p.len();
    }
    proof {
        if has_prefix(s@.skip(i as int), p@) {
            assert(s@.skip(i as int).subrange(0, p.len() as int) =~= s@.subrange(i as int, i + p.len()));
        }
    }
    let r = slice_chars(s, i, s.len());
    assert(r@ =~= s@.skip(i as int));
    r
}

proof fn lemma_replace_step_match(s: Seq<char>, p: Seq<char>, r: Seq<char>, i: int)
    requires
        p.len() > 0,
        occurs_at(s, p, i),
    ensures
        replace_all(s.skip(i), p, r) == r + replace_all(s.skip(i + p.len()), p, r),
{
    assert(s.skip(i).subrange(0, p.len() as int) =~= s.subrange(i, i + p.len()));
    assert(s.skip(i).skip(p.len() as int) =~= s.skip(i + p.len()));
}

proof fn lemma_replace_step_other(s: Seq<char>, p: Seq<char>, r: Seq<char>, i: int)
    requires
        p.len() > 0,
        0 <= i,
        i + p.len() <= s.len(),
        !occurs_at(s, p, i),
    ensures
        replace_all(s.skip(i), p, r) == seq![s[i]] + replace_all(s.skip(i + 1), p, r),
{
    assert(s.skip(i).subrange(0, p.len() as int) =~= s.subrange(i, i + p.len()));
    assert(s.skip(i).drop_first() =~= s.skip(i + 1));
}

/// Every non-overlapping occurrence of `p` in `s`, from left to right,
/// replaced by `r`.
pub fn replace_all_chars(s: &[char], p: &[char], r: &[char]) -> (out: Vec<char>)
    requires
        p.len() > 0,
    ensures
        out@ == replace_all(s@, p@, r@),
{
    let mut out: Vec<char> = Vec::new();
    let mut i: usize = 0;
    assert(s@.skip(0) =~= s@);
    while i < s.len() && s.len() - i >= p.len()
        invariant
            p.len() > 0,
            i <= s.len(),
            out@ + replace_all(s@.skip(i as int), p@, r@) == replace_all(s@, p@, r@),
        decreases s.len() - i,
    {
        if matches_at(s, p, i) {
            proof {
                lemma_replace_step_match(s@, p@, r@, i as int);
            }
            let ghost before = out@;
            push_all(&mut out, r);
            assert(before + (r@ + replace_all(s@.skip(i + p.len()), p@, r@)) =~= out@
                + replace_all(s@.skip(i + p.len()), p@, r@));
            i = i + p.len();
        } else {
            proof {
                lemma_replace_step_other(s@, p@, r@, i as int);
            }
            let ghost before = out@;
            out.push(s[i]);
            assert(before + (seq![s@[i as int]] + replace_all(s@.skip(i + 1), p@, r@)) =~= out@
                + replace_all(s@.skip(i + 1), p@, r@));
            i = i + 1;
        }
    }
    assert(replace_all(s@.skip(i as int), p@, r@) == s@.skip(i as int));
    let ghost before = out@;
    let rest = slice_chars(s, i, s.len());
    push_all(&mut out, rest.as_slice());
    assert(rest@ =~= s@.skip(i as int));
    out
}

/// The number of times `c` occurs in `s`.
pub fn count_char_in(s: &[char], c: char) -> (n: usize)
    ensures
        n == count_char(s@, c),
{
    let mut n: usize = 0;
    for i in 0..s.len()
        invariant
            n == count_char(s@.take(i as int), c),
            n <= i,
    {
        assert(s@.take(i + 1).drop_last() =~= s@.take(i as int));
        if s[i] == c {
            n = n + 1;
        }
    }
    assert(s@.take(s.len() as int) =~= s@);
    n
}

} // verus!

verus! {

/// What `char::is_alphanumeric` gives for `c` (Unicode Alphabetic or
/// Numeric).
pub uninterp spec fn unicode_alphanumeric(c: char) -> bool;

/// What `char::is_whitespace` gives for `c` (Unicode White_Space).
pub uninterp spec fn unicode_whitespace(c: char) -> bool;

/// What `str::to_lowercase` gives for `s` (the Unicode lowercase mapping
/// of each character, context-sensitive for a final sigma).
pub uninterp spec fn lowercase(s: Seq<char>) -> Seq<char>;

/// `str::to_lowercase`: the text in lowercase. Only the name is stated:
/// the Unicode mapping is not written out.
#[verifier::external_body]
pub(crate) fn to_lowercase_text(s: &str) -> (r: String)
    ensures
        r@ == lowercase(s@),
{
    s.to_lowercase()
}

/// An ASCII letter or digit.
pub open spec fn ascii_alphanumeric(c: char) -> bool {
    ('a' <= c && c <= 'z') || ('A' <= c && c <= 'Z') || ('0' <= c && c <= '9')
}

/// One of the six ASCII characters with the White_Space property.
pub open spec fn ascii_white_space(c: char) -> bool {
    c == ' ' || c == '\t' || c == '\n' || c == '\r' || c == '\u{0b}' || c == '\u{0c}'
}

/// `char::is_alphanumeric`: true for the characters of the Unicode
/// categories Alphabetic and Numeric; on ASCII, exactly the letters and
/// digits. Beyond ASCII only the name is stated.
#[verifier::external_body]
pub(crate) fn char_is_alphanumeric(c: char) -> (r: bool)
    ensures
        r == unicode_alphanumeric(c),
        c <= '\u{7f}' ==> (r == ascii_alphanumeric(c)),
{
    c.is_alphanumeric()
}

/// `char::is_whitespace`: true for the characters with the Unicode
/// White_Space property; on ASCII, exactly space, tab, line feed,
/// vertical tab, form feed and carriage return. Beyond ASCII only the name
/// is stated.
#[verifier::external_body]
pub(crate) fn char_is_whitespace(c: char) -> (r: bool)
    ensures
        r == unicode_whitespace(c),
        c <= '\u{7f}' ==> (r == ascii_white_space(c)),
{
    c.is_whitespace()
}

/// The number of characters of `s` that satisfy `f`.
pub open spec fn count_where(s: Seq<char>, f: spec_fn(char) -> bool) -> nat
    decreases s.len(),
{
    if s.len() == 0 {
        0
    } else {
        count_where(s.drop_last(), f) + if f(s.last()) { 1nat } else { 0nat }
    }
}

pub proof fn lemma_count_where_bound(s: Seq<char>, f: spec_fn(char) -> bool)
    ensures
        count_where(s, f) <= s.len(),
    decreases s.len(),
{
    if s.len() > 0 {
        lemma_count_where_bound(s.drop_last(), f);
    }
}

pub proof fn lemma_count_char_bound(s: Seq<char>, c: char)
    ensures
        count_char(s, c) <= s.len(),
        count_char(s, c) > 0 <==> s.contains(c),
    decreases s.len(),
{
    if s.len() > 0 {
        lemma_count_char_bound(s.drop_last(), c);
        if s.drop_last().contains(c) {
            let j = choose|j: int| 0 <= j < s.drop_last().len() && s.drop_last()[j] == c;
            assert(s[j] == c);
        }
        if s.contains(c) && s.last() != c {
            let j = choose|j: int| 0 <= j < s.len() && s[j] == c;
            assert(s.drop_last()[j] == c);
        }
    }
}

} // verus!

verus! {

/// The pieces of `s` between occurrences of `c`, scanning from position
/// `i` with the current piece starting at `start`.
pub open spec fn split_char_scan(s: Seq<char>, c: char, start: int, i: int) -> Seq<Seq<char>>
    decreases s.len() - i,
{
    if i >= s.len() {
        seq![s.subrange(start, s.len() as int)]
    } else if s[i] == c {
        seq![s.subrange(start, i)] + split_char_scan(s, c, i + 1, i + 1)
    } else {
        split_char_scan(s, c, start, i + 1)
    }
}

/// The pieces of `s` between occurrences of `c`, empty pieces included (as
/// `str::split` gives them).
pub open spec fn split_char(s: Seq<char>, c: char) -> Seq<Seq<char>> {
    split_char_scan(s, c, 0, 0)
}

/// The pieces of `s` between white-space characters, scanning from
/// position `i` with the current piece starting at `start`.
pub open spec fn split_ws_scan(s: Seq<char>, start: int, i: int) -> Seq<Seq<char>>
    decreases s.len() - i,
{
    if i >= s.len() {
        seq![s.subrange(start, s.len() as int)]
    } else if unicode_whitespace(s[i]) {
        seq![s.subrange(start, i)] + split_ws_scan(s, i + 1, i + 1)
    } else {
        split_ws_scan(s, start, i + 1)
    }
}

/// The non-empty pieces of a list.
pub open spec fn drop_empty(v: Seq<Seq<char>>) -> Seq<Seq<char>>
    decreases v.len(),
{
    if v.len() == 0 {
        seq![]
    } else {
        drop_empty(v.drop_last()) + if v.last().len() > 0 {
            seq![v.last()]
        } else {
            seq![]
        }
    }
}

/// The words of `s`: the non-empty pieces between white space (as
/// `str::split_whitespace` gives them).
pub open spec fn split_ws(s: Seq<char>) -> Seq<Seq<char>> {
    drop_empty(split_ws_scan(s, 0, 0))
}

/// A piece that ended at a line feed loses one carriage return before it.
pub open spec fn strip_cr(s: Seq<char>) -> Seq<char> {
    if s.len() > 0 && s.last() == '\r' {
        s.drop_last()
    } else {
        s
    }
}

/// The lines of `s`, as `str::lines` gives them: split at line feeds,
/// `\r\n` counted as one ending, and no empty last line after a final line
/// ending.
pub open spec fn lines_spec(s: Seq<char>) -> Seq<Seq<char>> {
    let pieces = split_char(s, '\n');
    let n = pieces.len();
    Seq::new((n - 1) as nat, |i: int| strip_cr(pieces[i])) + if pieces.last().len() > 0 {
        seq![pieces.last()]
    } else {
        seq![]
    }
}

/// `s` without leading white space.
pub open spec fn trim_start_ws(s: Seq<char>) -> Seq<char>
    decreases s.len(),
{
    if s.len() > 0 && unicode_whitespace(s[0]) {
        trim_start_ws(s.drop_first())
    } else {
        s
    }
}

/// `s` without trailing white space.
pub open spec fn trim_end_ws(s: Seq<char>) -> Seq<char>
    decreases s.len(),
{
    if s.len() > 0 && unicode_whitespace(s.last()) {
        trim_end_ws(s.drop_last())
    } else {
        s
    }
}

/// `s` without white space at either end (as `str::trim` gives it).
pub open spec fn trim_ws(s: Seq<char>) -> Seq<char> {
    trim_end_ws(trim_start_ws(s))
}

pub proof fn lemma_split_scan_nonempty(s: Seq<char>, c: char, start: int, i: int)
    ensures
        split_char_scan(s, c, start, i).len() >= 1,
    decreases s.len() - i,
{
    if i < s.len() {
        if s[i] == c {
            lemma_split_scan_nonempty(s, c, i + 1, i + 1);
        } else {
            lemma_split_scan_nonempty(s, c, start, i + 1);
        }
    }
}

/// The pieces of `s` between occurrences of `c`, empty ones included.
pub fn split_on_char(s: &[char], c: char) -> (r: Vec<Vec<char>>)
    ensures
        r@.len() == split_char(s@, c).len(),
        forall|k: int| 0 <= k < r@.len() ==> #[trigger] r@[k]@ == split_char(s@, c)[k],
{
    let mut out: Vec<Vec<char>> = Vec::new();
    let ghost outv: Seq<Seq<char>> = seq![];
    let mut start: usize = 0;
    let mut i: usize = 0;
    while i < s.len()
        invariant
            start <= i <= s.len(),
            out@.len() == outv.len(),
            forall|k: int| 0 <= k < out@.len() ==> #[trigger] out@[k]@ == outv[k],
            outv + split_char_scan(s@, c, start as int, i as int) == split_char(s@, c),
        decreases s.len() - i,
    {
        if s[i] == c {
            let piece = slice_chars(s, start, i);
            proof {
                assert(outv + split_char_scan(s@, c, start as int, i as int) =~= (outv + seq![piece@])
                    + split_char_scan(s@, c, i + 1, i + 1));
                outv = outv + seq![piece@];
            }
            out.push(piece);
            start = i + 1;
        }
        i = i + 1;
    }
    let piece = slice_chars(s, start, s.len());
    proof {
        assert(outv + split_char_scan(s@, c, start as int, i as int) =~= outv + seq![piece@]);
        outv = outv + seq![piece@];
    }
    out.push(piece);
    out
}

/// The words of `s`, as `str::split_whitespace` gives them.
pub fn split_whitespace_chars(s: &[char]) -> (r: Vec<Vec<char>>)
    ensures
        r@.len() == split_ws(s@).len(),
        forall|k: int| 0 <= k < r@.len() ==> #[trigger] r@[k]@ == split_ws(s@)[k],
{
    let mut out: Vec<Vec<char>> = Vec::new();
    let ghost pieces: Seq<Seq<char>> = seq![];
    let mut start: usize = 0;
    let mut i: usize = 0;
    while i < s.len()
        invariant
            start <= i <= s.len(),
            out@.len() == drop_empty(pieces).len(),
            forall|k: int| 0 <= k < out@.len() ==> #[trigger] out@[k]@ == drop_empty(pieces)[k],
            pieces + split_ws_scan(s@, start as int, i as int) == split_ws_scan(s@, 0, 0),
        decreases s.len() - i,
    {
        if char_is_whitespace(s[i]) {
            let piece = slice_chars(s, start, i);
            proof {
                assert(pieces + split_ws_scan(s@, start as int, i as int) =~= (pieces + seq![piece@])
                    + split_ws_scan(s@, i + 1, i + 1));
                assert((pieces + seq![piece@]).drop_last() =~= pieces);
                pieces = pieces + seq![piece@];
            }
            if piece.len() > 0 {
                out.push(piece);
            }
            start = i + 1;
        }
        i = i + 1;
    }
    let piece = slice_chars(s, start, s.len());
    proof {
        assert(pieces + split_ws_scan(s@, start as int, i as int) =~= pieces + seq![piece@]);
        assert((pieces + seq![piece@]).drop_last() =~= pieces);
        pieces = pieces + seq![piece@];
    }
    if piece.len() > 0 {
        out.push(piece);
    }
    out
}

/// The lines of `s`, as `str::lines` gives them.
pub fn lines_of(s: &[char]) -> (r: Vec<Vec<char>>)
    ensures
        r@.len() == lines_spec(s@).len(),
        forall|k: int| 0 <= k < r@.len() ==> #[trigger] r@[k]@ == lines_spec(s@)[k],
{
    let pieces = split_on_char(s, '\n');
    proof {
        lemma_split_scan_nonempty(s@, '\n', 0, 0);
    }
    let ghost ps = split_char(s@, '\n');
    let n = pieces.len();
    let mut out: Vec<Vec<char>> = Vec::new();
    let m = n - 1;
    for k in 0..m
        invariant
            n == pieces@.len(),
            n == ps.len(),
            n >= 1,
            m == n - 1,
            forall|j: int| 0 <= j < n ==> #[trigger] pieces@[j]@ == ps[j],
            out@.len() == k,
            forall|j: int| 0 <= j < k ==> #[trigger] out@[j]@ == strip_cr(ps[j]),
    {
        let p = &pieces[k];
        let q = if p.len() > 0 && p[p.len() - 1] == '\r' {
            slice_chars(p.as_slice(), 0, p.len() - 1)
        } else {
            slice_chars(p.as_slice(), 0, p.len())
        };
        proof {
            if p@.len() > 0 {
                assert(p@.subrange(0, p@.len() - 1) =~= p@.drop_last());
            }
            assert(p@.subrange(0, p@.len() as int) =~= p@);
        }
        out.push(q);
    }
    let last = &pieces[n - 1];
    if last.len() > 0 {
        out.push(slice_chars(last.as_slice(), 0, last.len()));
        assert(last@.subrange(0, last@.len() as int) =~= last@);
    }
    proof {
        let l = lines_spec(s@);
        assert(l.len() == out@.len());
        assert forall|j: int| 0 <= j < out@.len() implies #[trigger] out@[j]@ == l[j] by {
            if j < n - 1 {
            } else {
            }
        }
    }
    out
}

/// `s` without white space at either end.
pub fn trim_whitespace(s: &[char]) -> (r: Vec<char>)
    ensures
        r@ == trim_ws(s@),
{
    let mut i: usize = 0;
    assert(s@.skip(0) =~= s@);
    while i < s.len() && char_is_whitespace(s[i])
        invariant
            i <= s.len(),
            trim_start_ws(s@) == trim_start_ws(s@.skip(i as int)),
        decreases s.len() - i,
    {
        assert(s@.skip(i as int).drop_first() =~= s@.skip(i + 1));
        i = i + 1;
    }
    let mut n: usize = s.len();
    assert(s@.skip(i as int).subrange(0, (n - i) as int) =~= s@.skip(i as int));
    while n > i && char_is_whitespace(s[n - 1])
        invariant
            i <= n <= s.len(),
            trim_start_ws(s@) == s@.skip(i as int),
            trim_ws(s@) == trim_end_ws(s@.subrange(i as int, n as int)),
        decreases n,
    {
        assert(s@.subrange(i as int, n as int).drop_last() =~= s@.subrange(i as int, n - 1));
        n = n - 1;
    }
    slice_chars(s, i, n)
}

} // verus!
