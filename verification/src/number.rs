//! Decimal numbers: parsing unsigned integers the way the standard library
//! does, and writing them out.
use vstd::prelude::*;

verus! {

/// Why a decimal integer did not parse.
#[derive(Clone, Copy, Debug, PartialEq, Eq, Structural)]
pub enum IntErrorKind {
    Empty,
    InvalidDigit,
    PosOverflow,
}

pub open spec fn is_ascii_digit(c: char) -> bool {
    '0' <= c && c <= '9'
}

pub open spec fn digit_value(c: char) -> nat {
    (c as u32 - '0' as u32) as nat
}

/// The result of reading the first `n` digits of `d` from left to right,
/// failing at the first non-digit or at the first value above `max`.
pub open spec fn digits_prefix_value(d: Seq<char>, n: int, max: nat) -> Result<nat, IntErrorKind>
    decreases n,
{
    if n <= 0 {
        Ok(0)
    } else {
        match digits_prefix_value(d, n - 1, max) {
            Err(e) => Err(e),
            Ok(v) => if !is_ascii_digit(d[n - 1]) {
                Err(IntErrorKind::InvalidDigit)
            } else if v * 10 + digit_value(d[n - 1]) > max {
                Err(IntErrorKind::PosOverflow)
            } else {
                Ok(v * 10 + digit_value(d[n - 1]))
            },
        }
    }
}

/// An optional `+` followed by decimal digits, read as an unsigned integer
/// no larger than `max`; empty text, a lone sign, a misplaced sign or a
/// non-digit, and a value above `max` are errors.
pub open spec fn parse_unsigned_spec(s: Seq<char>, max: nat) -> Result<nat, IntErrorKind> {
    if s.len() == 0 {
        Err(IntErrorKind::Empty)
    } else if s.len() == 1 && (s[0] == '+' || s[0] == '-') {
        Err(IntErrorKind::InvalidDigit)
    } else {
        let d = if s[0] == '+' { s.drop_first() } else { s };
        digits_prefix_value(d, d.len() as int, max)
    }
}

proof fn lemma_prefix_value_bound(d: Seq<char>, n: int, max: nat)
    ensures
        digits_prefix_value(d, n, max) matches Ok(v) ==> v <= max,
    decreases n,
{
    if n > 0 {
        lemma_prefix_value_bound(d, n - 1, max);
    }
}

/// Reads an unsigned decimal integer no larger than `max`.
pub fn parse_unsigned(s: &[char], max: u64) -> (r: Result<u64, IntErrorKind>)
    ensures
        match r {
            Ok(v) => parse_unsigned_spec(s@, max as nat) == Ok::<nat, IntErrorKind>(v as nat),
            Err(e) => parse_unsigned_spec(s@, max as nat) == Err::<nat, IntErrorKind>(e),
        },
{
    if s.len() == 0 {
        return Err(IntErrorKind::Empty);
    }
    if s.len() == 1 && (s[0] == '+' || s[0] == '-') {
        return Err(IntErrorKind::InvalidDigit);
    }
    let start: usize = if s[0] == '+' {
        1
    } else {
        0
    };
    let ghost d = if s@[0] == '+' {
        s@.drop_first()
    } else {
        s@
    };
    assert(d =~= s@.skip(start as int));
    assert(parse_unsigned_spec(s@, max as nat) == digits_prefix_value(d, d.len() as int, max as nat));
    let mut v: u64 = 0;
    let mut i: usize = start;
    while i < s.len()
        invariant
            start <= i <= s.len(),
            d == s@.skip(start as int),
            parse_unsigned_spec(s@, max as nat) == digits_prefix_value(d, d.len() as int, max as nat),
            digits_prefix_value(d, i - start, max as nat) == Ok::<nat, IntErrorKind>(v as nat),
            v <= max,
        decreases s.len() - i,
    {
        let c = s[i];
        assert(d[i - start] == c);
        if !('0' <= c && c <= '9') {
            assert(digits_prefix_value(d, i - start + 1, max as nat) == Err::<nat, IntErrorKind>(
                IntErrorKind::InvalidDigit,
            ));
            proof {
                lemma_error_persists(d, (i - start + 1) as int, d.len() as int, max as nat, IntErrorKind::InvalidDigit);
            }
            return Err(IntErrorKind::InvalidDigit);
        }
        let dv: u64 = (c as u32 - '0' as u32) as u64;
        assert(dv == digit_value(c));
        if v > max / 10 {
            assert(v * 10 + dv > max) by (nonlinear_arith)
                requires
                    v > max / 10,
            {
            }
            assert(digits_prefix_value(d, i - start + 1, max as nat) == Err::<nat, IntErrorKind>(
                IntErrorKind::PosOverflow,
            ));
            proof {
                lemma_error_persists(d, (i - start + 1) as int, d.len() as int, max as nat, IntErrorKind::PosOverflow);
            }
            return Err(IntErrorKind::PosOverflow);
        }
        assert(v * 10 <= max) by (nonlinear_arith)
            requires
                v <= max / 10,
        {
        }
        if dv > max - v * 10 {
            assert(digits_prefix_value(d, i - start + 1, max as nat) == Err::<nat, IntErrorKind>(
                IntErrorKind::PosOverflow,
            ));
            proof {
                lemma_error_persists(d, (i - start + 1) as int, d.len() as int, max as nat, IntErrorKind::PosOverflow);
            }
            return Err(IntErrorKind::PosOverflow);
        }
        v = v * 10 + dv;
        i = i + 1;
    }
    Ok(v)
}

proof fn lemma_error_persists(d: Seq<char>, n: int, m: int, max: nat, e: IntErrorKind)
    requires
        0 <= n <= m,
        digits_prefix_value(d, n, max) == Err::<nat, IntErrorKind>(e),
    ensures
        digits_prefix_value(d, m, max) == Err::<nat, IntErrorKind>(e),
    decreases m - n,
{
    if n < m {
        lemma_error_persists(d, n, m - 1, max, e);
    }
}

/// The decimal digits of `n`, most significant first.
pub open spec fn decimal(n: nat) -> Seq<char>
    decreases n,
{
    if n < 10 {
        seq![digit_char(n)]
    } else {
        decimal(n / 10) + seq![digit_char(n % 10)]
    }
}

pub open spec fn digit_char(d: nat) -> char {
    (('0' as u32) + d) as char
}

/// The decimal digits of `n`, most significant first.
pub fn u64_to_decimal(n: u64) -> (r: Vec<char>)
    ensures
        r@ == decimal(n as nat),
    decreases n,
{
    if n < 10 {
        let c = ((('0' as u32) + (n as u32)) as u8) as char;
        let r: Vec<char> = vec![c];
        assert(r@ =~= decimal(n as nat));
        r
    } else {
        let mut r = u64_to_decimal(n / 10);
        let d = n % 10;
        let c = ((('0' as u32) + (d as u32)) as u8) as char;
        r.push(c);
        r
    }
}

/// `s` right-aligned in a field of `width` characters (padded with spaces
/// on the left; never cut).
pub open spec fn pad_left(s: Seq<char>, width: nat) -> Seq<char> {
    if s.len() >= width {
        s
    } else {
        Seq::new((width - s.len()) as nat, |i: int| ' ') + s
    }
}

/// `s` right-aligned in a field of `width` characters.
pub fn pad_left_chars(s: &[char], width: usize) -> (r: Vec<char>)
    ensures
        r@ == pad_left(s@, width as nat),
{
    let mut out: Vec<char> = Vec::new();
    if s.len() < width {
        let pad = width - s.len();
        for i in 0..pad
            invariant
                out@ == Seq::new(i as nat, |k: int| ' '),
        {
            out.push(' ');
            assert(out@ =~= Seq::new((i + 1) as nat, |k: int| ' '));
        }
    }
    let ghost before = out@;
    crate::text::push_all(&mut out, s);
    assert(out@ =~= pad_left(s@, width as nat));
    out
}

} // verus!
