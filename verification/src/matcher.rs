//! Regular expressions, compiled and run by the `regex` crate.
use vstd::prelude::*;
use crate::pattern::opt_view;
use crate::text::chars_of;
use vstd::utf8::*;
use vstd::string::*;

verus! {

#[verifier::external_type_specification]
#[verifier::external_body]
pub struct ExRegex(regex::Regex);

/// A compiled regular expression together with the text and case mode it
/// was compiled from.
pub struct Matcher {
    pattern: String,
    case_insensitive: bool,
    re: regex::Regex,
}

impl Matcher {
    /// The pattern text this matcher was compiled from.
    pub closed spec fn pattern(&self) -> Seq<char> {
        self.pattern@
    }

    /// Whether it was compiled to ignore case.
    pub closed spec fn ci(&self) -> bool {
        self.case_insensitive
    }
}

/// What compiling `pattern` gives: `None` when it compiles, else the text
/// of the error.
pub uninterp spec fn regex_build_error(pattern: Seq<char>, case_insensitive: bool) -> Option<
    Seq<char>,
>;

/// Whether `pattern` matches somewhere in `haystack`.
pub uninterp spec fn regex_is_match(
    pattern: Seq<char>,
    case_insensitive: bool,
    haystack: Seq<char>,
) -> bool;

/// The successive non-overlapping matches of `pattern` in `haystack`, as
/// byte offsets (start, end) into its UTF-8 encoding.
pub uninterp spec fn regex_find_bytes(
    pattern: Seq<char>,
    case_insensitive: bool,
    haystack: Seq<char>,
) -> Seq<(usize, usize)>;

/// The number of characters that the first `b` bytes of the UTF-8
/// encoding of `h` hold.
pub open spec fn char_pos(h: Seq<char>, b: int) -> int {
    decode_utf8(encode_utf8(h).subrange(0, b)).len() as int
}

/// The successive non-overlapping matches of `pattern` in `haystack`, as
/// character positions (start, end).
pub open spec fn regex_find_ranges(
    pattern: Seq<char>,
    case_insensitive: bool,
    haystack: Seq<char>,
) -> Seq<(usize, usize)> {
    regex_find_bytes(pattern, case_insensitive, haystack).map_values(
        |p: (usize, usize)| (char_pos(haystack, p.0 as int) as usize, char_pos(haystack, p.1 as int) as usize),
    )
}

/// The capture groups of the first match of `pattern` in `haystack`
/// (group 0 the whole match), or `None` when it does not match.
pub uninterp spec fn regex_captures(
    pattern: Seq<char>,
    case_insensitive: bool,
    haystack: Seq<char>,
) -> Option<Seq<Option<Seq<char>>>>;

/// The views of a list of optional strings.
pub open spec fn groups_view(g: Seq<Option<String>>) -> Seq<Option<Seq<char>>> {
    g.map_values(|x: Option<String>| opt_view(x))
}

/// `RegexBuilder::new(pattern).case_insensitive(ci).build()`: claims that
/// the result is determined by the pattern and the case mode, that a
/// compiled matcher keeps both, and that a failure carries the error's
/// text (its `Display`).
#[verifier::external_body]
pub(crate) fn build_matcher(pattern: &str, case_insensitive: bool) -> (r: Result<Matcher, String>)
    ensures
        match r {
            Ok(m) => m.pattern() == pattern@ && m.ci() == case_insensitive && regex_build_error(
                pattern@,
                case_insensitive,
            ) is None,
            Err(e) => regex_build_error(pattern@, case_insensitive) == Some(e@),
        },
{
    match regex::RegexBuilder::new(pattern).case_insensitive(case_insensitive).build() {
        Ok(re) => Ok(Matcher { pattern: pattern.to_string(), case_insensitive, re }),
        Err(e) => Err(e.to_string()),
    }
}

/// `Regex::is_match`: claims only that the answer is determined by the
/// pattern, the case mode and the haystack.
#[verifier::external_body]
pub(crate) fn matcher_is_match(m: &Matcher, haystack: &str) -> (r: bool)
    ensures
        r == regex_is_match(m.pattern(), m.ci(), haystack@),
{
    m.re.is_match(haystack)
}

/// `Regex::find_iter`, each match as its byte offsets: claims that the
/// list is determined by the pattern, the case mode and the haystack, and,
/// as the crate documents of every `Match`, that its start is not after
/// its end and that both fall on character boundaries of the haystack.
#[verifier::external_body]
fn matcher_find_bytes(m: &Matcher, haystack: &str) -> (r: Vec<(usize, usize)>)
    ensures
        r@ == regex_find_bytes(m.pattern(), m.ci(), haystack@),
        forall|i: int|
            0 <= i < r.len() ==> #[trigger] r[i].0 <= r[i].1 && is_char_boundary(
                haystack.spec_bytes(),
                r[i].0 as int,
            ) && is_char_boundary(haystack.spec_bytes(), r[i].1 as int),
{
    m.re.find_iter(haystack).map(|x| (x.start(), x.end())).collect()
}

/// Where `b` splits the encoding of `h` at a character boundary, the
/// characters before it are a prefix of `h`.
proof fn lemma_char_pos_prefix(h: Seq<char>, b: int)
    requires
        is_char_boundary(encode_utf8(h), b),
    ensures
        0 <= b <= encode_utf8(h).len(),
        decode_utf8(encode_utf8(h).subrange(0, b)) == h.take(char_pos(h, b)),
        0 <= char_pos(h, b) <= h.len(),
{
    let bytes = encode_utf8(h);
    encode_utf8_valid_utf8(h);
    encode_utf8_decode_utf8(h);
    if b != 0 {
        reveal_with_fuel(is_char_boundary, 1);
    }
    decode_utf8_split(bytes, b);
    let pre = decode_utf8(bytes.subrange(0, b));
    assert(h == pre + decode_utf8(bytes.subrange(b, bytes.len() as int)));
    assert(pre =~= h.take(pre.len() as int));
}

/// Character positions grow with the byte offsets they come from.
proof fn lemma_char_pos_monotone(h: Seq<char>, s: int, e: int)
    requires
        s <= e,
        is_char_boundary(encode_utf8(h), s),
        is_char_boundary(encode_utf8(h), e),
    ensures
        char_pos(h, s) <= char_pos(h, e),
{
    let bytes = encode_utf8(h);
    encode_utf8_valid_utf8(h);
    lemma_char_pos_prefix(h, s);
    lemma_char_pos_prefix(h, e);
    let pe = bytes.subrange(0, e);
    valid_utf8_split(bytes, e);
    assert(is_char_boundary(pe, s)) by {
        if s == 0 {
        } else if s == e {
            is_char_boundary_start_end_of_seq(pe);
        } else {
            is_char_boundary_iff_not_is_continuation_byte(bytes, s);
            is_char_boundary_iff_not_is_continuation_byte(pe, s);
        }
    }
    decode_utf8_split(pe, s);
    assert(pe.subrange(0, s) =~= bytes.subrange(0, s));
}

/// The number of characters before byte `b` of `haystack`, a character
/// boundary.
fn char_count_before(haystack: &str, b: usize) -> (n: usize)
    requires
        is_char_boundary(haystack.spec_bytes(), b as int),
    ensures
        n == char_pos(haystack@, b as int),
{
    proof {
        lemma_char_pos_prefix(haystack@, b as int);
    }
    let (pre, _) = haystack.split_at(b);
    let cs = chars_of(pre);
    proof {
        encode_utf8_decode_utf8(pre@);
    }
    cs.len()
}

/// The successive non-overlapping matches of `m` in `haystack`, as
/// character positions (start, end), each within the haystack with its
/// start not after its end.
pub(crate) fn matcher_find_ranges(m: &Matcher, haystack: &str) -> (r: Vec<(usize, usize)>)
    ensures
        r@ == regex_find_ranges(m.pattern(), m.ci(), haystack@),
        forall|i: int| 0 <= i < r@.len() ==> (#[trigger] r@[i]).0 <= r@[i].1 && r@[i].1 <= haystack@.len(),
{
    let found = matcher_find_bytes(m, haystack);
    let ghost h = haystack@;
    let ghost want = regex_find_ranges(m.pattern(), m.ci(), h);
    let mut out: Vec<(usize, usize)> = Vec::new();
    for i in 0..found.len()
        invariant
            want == regex_find_ranges(m.pattern(), m.ci(), h),
            h == haystack@,
            found@ == regex_find_bytes(m.pattern(), m.ci(), h),
            forall|q: int|
                0 <= q < found.len() ==> #[trigger] found[q].0 <= found[q].1 && is_char_boundary(
                    haystack.spec_bytes(),
                    found[q].0 as int,
                ) && is_char_boundary(haystack.spec_bytes(), found[q].1 as int),
            out@ == want.take(i as int),
            forall|q: int| 0 <= q < out.len() ==> #[trigger] out[q].0 <= out[q].1 && out[q].1 <= h.len(),
    {
        let (s, e) = found[i];
        assert(found[i as int].0 <= found[i as int].1);
        proof {
            lemma_char_pos_prefix(h, e as int);
            lemma_char_pos_monotone(h, s as int, e as int);
        }
        let cs = char_count_before(haystack, s);
        let ce = char_count_before(haystack, e);
        out.push((cs, ce));
        assert(out@ =~= want.take(i + 1));
    }
    assert(out@ =~= want);
    assert(forall|q: int| 0 <= q < out@.len() ==> (#[trigger] out@[q]).0 <= out@[q].1 && out@[q].1 <= haystack@.len());
    out
}

/// `Regex::captures`: claims only that the groups (each as owned text,
/// absent when it did not take part) are determined by the pattern, the
/// case mode and the haystack.
#[verifier::external_body]
pub(crate) fn matcher_captures(m: &Matcher, haystack: &str) -> (r: Option<Vec<Option<String>>>)
    ensures
        match r {
            Some(g) => regex_captures(m.pattern(), m.ci(), haystack@) == Some(groups_view(g@)),
            None => regex_captures(m.pattern(), m.ci(), haystack@) is None,
        },
{
    m.re.captures(haystack).map(|c| c.iter().map(|g| g.map(|x| x.as_str().to_string())).collect())
}

/// `Regex::clone`: claims that the copy has the same pattern and case
/// mode.
#[verifier::external_body]
pub(crate) fn matcher_clone(m: &Matcher) -> (r: Matcher)
    ensures
        r.pattern() == m.pattern(),
        r.ci() == m.ci(),
{
    Matcher { pattern: m.pattern.clone(), case_insensitive: m.case_insensitive, re: m.re.clone() }
}

/// Compiles `pattern` (ignoring case when asked): the matcher, or the
/// compiler's message.
pub fn compile_matcher(pattern: &str, case_insensitive: bool) -> (r: Result<Matcher, String>)
    ensures
        match r {
            Ok(m) => m.pattern() == pattern@ && m.ci() == case_insensitive && regex_build_error(pattern@, case_insensitive) is None,
            Err(e) => regex_build_error(pattern@, case_insensitive) == Some(e@),
        },
{
    build_matcher(pattern, case_insensitive)
}

/// Whether the matcher matches somewhere in `haystack`.
pub fn is_match(m: &Matcher, haystack: &str) -> (r: bool)
    ensures
        r == regex_is_match(m.pattern(), m.ci(), haystack@),
{
    matcher_is_match(m, haystack)
}

} // verus!
