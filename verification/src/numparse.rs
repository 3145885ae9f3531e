//! Decimal integer parsing with the same grammar and error kinds as the
//! standard library's `FromStr` for integers, plus whitespace trimming.
use vstd::prelude::*;
use vstd::string::*;
use crate::text::{chars_of, string_from_chars};

verus! {

/// Why a string is not an integer of the target type.
#[derive(Debug, Clone, Copy, PartialEq, Eq)]
pub enum IntErrorKind {
    Empty,
    InvalidDigit,
    PosOverflow,
    NegOverflow,
}

/// The error of a failed integer parse.
#[derive(Debug, Clone, Copy, PartialEq, Eq)]
pub struct ParseIntError {
    pub kind: IntErrorKind,
}

/// The message the standard library shows for each error kind.
pub open spec fn kind_text(k: IntErrorKind) -> Seq<char> {
    match k {
        IntErrorKind::Empty => "cannot parse integer from empty string"@,
        IntErrorKind::InvalidDigit => "invalid digit found in string"@,
        IntErrorKind::PosOverflow => "number too large to fit in target type"@,
        IntErrorKind::NegOverflow => "number too small to fit in target type"@,
    }
}

impl ParseIntError {
    /// The error kind.
    pub fn kind(&self) -> (k: IntErrorKind)
        ensures
            k == self.kind,
    {
        self.kind
    }

    /// The error's message.
    pub fn to_string(&self) -> (s: String)
        ensures
            s@ == kind_text(self.kind),
    {
        match self.kind {
            IntErrorKind::Empty => String::from_str("cannot parse integer from empty string"),
            IntErrorKind::InvalidDigit => String::from_str("invalid digit found in string"),
            IntErrorKind::PosOverflow => String::from_str("number too large to fit in target type"),
            IntErrorKind::NegOverflow => String::from_str("number too small to fit in target type"),
        }
    }
}

/// An ASCII decimal digit.
pub open spec fn is_digit(c: char) -> bool {
    '0' <= c && c <= '9'
}

/// The value of an ASCII digit.
pub open spec fn digit_value(c: char) -> int {
    (c as u32) - ('0' as u32)
}

/// Reads the digits of `s` left to right from an accumulator of 0, adding
/// (`negative == false`) or subtracting each digit after multiplying by ten;
/// the first non-digit or the first step that leaves `[lo, hi]` is the error.
pub open spec fn scan_digits(s: Seq<char>, negative: bool, lo: int, hi: int) -> Result<int, IntErrorKind>
    decreases s.len(),
{
    if s.len() == 0 {
        Ok(0)
    } else {
        match scan_digits(s.drop_last(), negative, lo, hi) {
            Err(k) => Err(k),
            Ok(acc) => {
                let c = s.last();
                if !is_digit(c) {
                    Err(IntErrorKind::InvalidDigit)
                } else if negative {
                    let v = acc * 10 - digit_value(c);
                    if v < lo { Err(IntErrorKind::NegOverflow) } else { Ok(v) }
                } else {
                    let v = acc * 10 + digit_value(c);
                    if v > hi { Err(IntErrorKind::PosOverflow) } else { Ok(v) }
                }
            }
        }
    }
}

/// The result of parsing `s` as an integer in `[lo, hi]`: an optional sign
/// (`-` only when `lo < 0`) followed by at least one ASCII digit.
pub open spec fn parse_spec(s: Seq<char>, lo: int, hi: int) -> Result<int, IntErrorKind> {
    if s.len() == 0 {
        Err(IntErrorKind::Empty)
    } else if s[0] == '+' || (s[0] == '-' && lo < 0) {
        if s.len() == 1 {
            Err(IntErrorKind::InvalidDigit)
        } else {
            scan_digits(s.drop_first(), s[0] == '-', lo, hi)
        }
    } else {
        scan_digits(s, false, lo, hi)
    }
}

proof fn lemma_scan_bounds(s: Seq<char>, negative: bool, lo: int, hi: int)
    requires
        lo <= 0 <= hi,
    ensures
        scan_digits(s, negative, lo, hi) matches Ok(v) ==> lo <= v <= hi && (negative ==> v <= 0) && (!negative ==> v >= 0),
    decreases s.len(),
{
    if s.len() > 0 {
        lemma_scan_bounds(s.drop_last(), negative, lo, hi);
    }
}

/// Scans digits of `cs[start..]`.
fn scan(cs: &Vec<char>, start: usize, negative: bool, lo: i64, hi: i64) -> (r: Result<i64, IntErrorKind>)
    requires
        start <= cs@.len(),
        lo <= 0 <= hi,
        -100_000_000_000_000_000 <= lo,
        hi <= 100_000_000_000_000_000,
    ensures
        match scan_digits(cs@.subrange(start as int, cs@.len() as int), negative, lo as int, hi as int) {
            Ok(v) => r == Ok::<i64, IntErrorKind>(v as i64) && v == v as i64,
            Err(k) => r == Err::<i64, IntErrorKind>(k),
        },
{
    let mut acc: i64 = 0;
    let mut i: usize = start;
    while i < cs.len()
        invariant
            start <= i <= cs@.len(),
            lo <= 0 <= hi,
            -100_000_000_000_000_000 <= lo,
            hi <= 100_000_000_000_000_000,
            lo <= acc <= hi,
            scan_digits(cs@.subrange(start as int, i as int), negative, lo as int, hi as int) == Ok::<int, IntErrorKind>(acc as int),
        decreases cs.len() - i,
    {
        proof {
            lemma_scan_bounds(cs@.subrange(start as int, i as int), negative, lo as int, hi as int);
            assert(cs@.subrange(start as int, i + 1).drop_last() =~= cs@.subrange(start as int, i as int));
        }
        let c = cs[i];
        if !('0' <= c && c <= '9') {
            proof { assert(cs@.subrange(start as int, cs@.len() as int).subrange(0, (i + 1 - start) as int) =~= cs@.subrange(start as int, i + 1)); lemma_scan_prefix_err(cs@.subrange(start as int, cs@.len() as int), (i - start) as int, negative, lo as int, hi as int); }
            return Err(IntErrorKind::InvalidDigit);
        }
        let d = (c as u32 - '0' as u32) as i64;
        if negative {
            let v = acc * 10 - d;
            if v < lo {
                proof { assert(cs@.subrange(start as int, cs@.len() as int).subrange(0, (i + 1 - start) as int) =~= cs@.subrange(start as int, i + 1)); lemma_scan_prefix_err(cs@.subrange(start as int, cs@.len() as int), (i - start) as int, negative, lo as int, hi as int); }
                return Err(IntErrorKind::NegOverflow);
            }
            acc = v;
        } else {
            let v = acc * 10 + d;
            if v > hi {
                proof { assert(cs@.subrange(start as int, cs@.len() as int).subrange(0, (i + 1 - start) as int) =~= cs@.subrange(start as int, i + 1)); lemma_scan_prefix_err(cs@.subrange(start as int, cs@.len() as int), (i - start) as int, negative, lo as int, hi as int); }
                return Err(IntErrorKind::PosOverflow);
            }
            acc = v;
        }
        i += 1;
    }
    Ok(acc)
}

/// Once a prefix of `s` fails to scan, the whole of `s` fails the same way.
proof fn lemma_scan_prefix_err(s: Seq<char>, i: int, negative: bool, lo: int, hi: int)
    requires
        0 <= i < s.len(),
        scan_digits(s.subrange(0, i + 1), negative, lo, hi) is Err,
    ensures
        scan_digits(s, negative, lo, hi) == scan_digits(s.subrange(0, i + 1), negative, lo, hi),
    decreases s.len(),
{
    if i + 1 < s.len() {
        assert(s.drop_last().subrange(0, i + 1) =~= s.subrange(0, i + 1));
        lemma_scan_prefix_err(s.drop_last(), i, negative, lo, hi);
    } else {
        assert(s.subrange(0, i + 1) =~= s);
    }
}

/// Parses `cs` as an integer in `[lo, hi]`.
pub fn parse_chars(cs: &Vec<char>, lo: i64, hi: i64) -> (r: Result<i64, ParseIntError>)
    requires
        lo <= 0 <= hi,
        -100_000_000_000_000_000 <= lo,
        hi <= 100_000_000_000_000_000,
    ensures
        match parse_spec(cs@, lo as int, hi as int) {
            Ok(v) => r == Ok::<i64, ParseIntError>(v as i64) && lo <= v <= hi,
            Err(k) => r == Err::<i64, ParseIntError>(ParseIntError { kind: k }),
        },
{
    if cs.len() == 0 {
        return Err(ParseIntError { kind: IntErrorKind::Empty });
    }
    let first = cs[0];
    let signed = first == '+' || (first == '-' && lo < 0);
    if signed && cs.len() == 1 {
        return Err(ParseIntError { kind: IntErrorKind::InvalidDigit });
    }
    let start: usize = if signed { 1 } else { 0 };
    proof {
        assert(cs@.subrange(1, cs@.len() as int) =~= cs@.drop_first());
        assert(cs@.subrange(0, cs@.len() as int) =~= cs@);
        if signed {
            lemma_scan_bounds(cs@.drop_first(), first == '-', lo as int, hi as int);
        } else {
            lemma_scan_bounds(cs@, false, lo as int, hi as int);
        }
    }
    match scan(cs, start, signed && first == '-', lo, hi) {
        Ok(v) => Ok(v),
        Err(k) => Err(ParseIntError { kind: k }),
    }
}

/// The characters `char::is_whitespace` accepts.
pub uninterp spec fn white_space(c: char) -> bool;

/// Calls `char::is_whitespace`. Its documentation defines it by the Unicode
/// `White_Space` property, named [`white_space`]; for ASCII it is true exactly
/// for space, tab, line feed, vertical tab, form feed and carriage return.
#[verifier::external_body]
pub(crate) fn is_ws(c: char) -> (b: bool)
    ensures
        b == white_space(c),
        c as u32 <= 0x7f ==> (b <==> (c == ' ' || c == '\t' || c == '\n' || c == '\r' || c as u32 == 0x0b || c as u32 == 0x0c)),
{
    c.is_whitespace()
}

/// The number of leading whitespace characters of `s`.
pub open spec fn lead_ws(s: Seq<char>) -> nat
    decreases s.len(),
{
    if s.len() > 0 && white_space(s[0]) { 1 + lead_ws(s.drop_first()) } else { 0 }
}

/// The number of trailing whitespace characters of `s`.
pub open spec fn trail_ws(s: Seq<char>) -> nat
    decreases s.len(),
{
    if s.len() > 0 && white_space(s.last()) { 1 + trail_ws(s.drop_last()) } else { 0 }
}

/// `s` without leading and trailing whitespace (as `str::trim`).
pub open spec fn trimmed(s: Seq<char>) -> Seq<char> {
    let t = s.skip(lead_ws(s) as int);
    t.take(t.len() - trail_ws(t))
}

proof fn lemma_lead_ws_bound(s: Seq<char>)
    ensures
        lead_ws(s) <= s.len(),
    decreases s.len(),
{
    if s.len() > 0 && white_space(s[0]) {
        lemma_lead_ws_bound(s.drop_first());
    }
}

proof fn lemma_trail_ws_bound(s: Seq<char>)
    ensures
        trail_ws(s) <= s.len(),
    decreases s.len(),
{
    if s.len() > 0 && white_space(s.last()) {
        lemma_trail_ws_bound(s.drop_last());
    }
}

/// The characters of `s` with leading and trailing whitespace removed.
pub fn trim_chars(s: &str) -> (r: Vec<char>)
    ensures
        r@ == trimmed(s@),
{
    let cs = chars_of(s);
    let n = cs.len();
    let mut a: usize = 0;
    assert(s@.skip(0) =~= s@);
    while a < n && is_ws(cs[a])
        invariant
            n == cs@.len(),
            cs@ == s@,
            a <= n,
            lead_ws(s@) == a + lead_ws(s@.skip(a as int)),
        decreases n - a,
    {
        assert(s@.skip(a as int).drop_first() =~= s@.skip(a + 1));
        a += 1;
    }
    assert(lead_ws(s@.skip(a as int)) == 0);
    let ghost t = s@.skip(a as int);
    let mut b: usize = n;
    assert(t.take(b - a) =~= t);
    while b > a && is_ws(cs[b - 1])
        invariant
            n == cs@.len(),
            cs@ == s@,
            a <= b <= n,
            t == s@.skip(a as int),
            trail_ws(t) == (n - b) + trail_ws(t.take(b - a)),
        decreases b,
    {
        assert(t.take(b - a).drop_last() =~= t.take(b - 1 - a));
        assert(t.take(b - a).last() == cs@[b - 1]);
        b -= 1;
    }
    assert(trail_ws(t.take(b - a)) == 0);
    let mut r: Vec<char> = Vec::new();
    let mut i: usize = a;
    while i < b
        invariant
            cs@ == s@,
            a <= i <= b <= n,
            n == cs@.len(),
            r@ == cs@.subrange(a as int, i as int),
        decreases b - i,
    {
        r.push(cs[i]);
        i += 1;
        assert(r@ =~= cs@.subrange(a as int, i as int));
    }
    assert(r@ =~= trimmed(s@));
    r
}

/// `s` with leading and trailing whitespace removed, as a new string.
pub fn trim(s: &str) -> (r: String)
    ensures
        r@ == trimmed(s@),
{
    let cs = trim_chars(s);
    string_from_chars(&cs)
}

/// The `i32` parse of `s` (no trimming).
pub open spec fn i32_parse(s: Seq<char>) -> Result<int, IntErrorKind> {
    parse_spec(s, i32::MIN as int, i32::MAX as int)
}

/// The `u32` parse of `s` (no trimming).
pub open spec fn u32_parse(s: Seq<char>) -> Result<int, IntErrorKind> {
    parse_spec(s, 0, u32::MAX as int)
}

/// The `u16` parse of `s` (no trimming).
pub open spec fn u16_parse(s: Seq<char>) -> Result<int, IntErrorKind> {
    parse_spec(s, 0, u16::MAX as int)
}

/// Parses `s` as an `i32`, exactly as `str::parse::<i32>` does.
pub fn str_to_i32(s: &str) -> (r: Result<i32, ParseIntError>)
    ensures
        match i32_parse(s@) {
            Ok(v) => r == Ok::<i32, ParseIntError>(v as i32) && i32::MIN <= v <= i32::MAX,
            Err(k) => r == Err::<i32, ParseIntError>(ParseIntError { kind: k }),
        },
{
    let cs = chars_of(s);
    match parse_chars(&cs, i32::MIN as i64, i32::MAX as i64) {
        Ok(v) => Ok(v as i32),
        Err(e) => Err(e),
    }
}

/// Parses `s` as a `u32`, exactly as `str::parse::<u32>` does.
pub fn str_to_u32(s: &str) -> (r: Result<u32, ParseIntError>)
    ensures
        match u32_parse(s@) {
            Ok(v) => r == Ok::<u32, ParseIntError>(v as u32) && 0 <= v <= u32::MAX,
            Err(k) => r == Err::<u32, ParseIntError>(ParseIntError { kind: k }),
        },
{
    let cs = chars_of(s);
    match parse_chars(&cs, 0, u32::MAX as i64) {
        Ok(v) => Ok(v as u32),
        Err(e) => Err(e),
    }
}

/// Parses `s` as a `u16`, exactly as `str::parse::<u16>` does.
pub fn str_to_u16(s: &str) -> (r: Result<u16, ParseIntError>)
    ensures
        match u16_parse(s@) {
            Ok(v) => r == Ok::<u16, ParseIntError>(v as u16) && 0 <= v <= u16::MAX,
            Err(k) => r == Err::<u16, ParseIntError>(ParseIntError { kind: k }),
        },
{
    let cs = chars_of(s);
    match parse_chars(&cs, 0, u16::MAX as i64) {
        Ok(v) => Ok(v as u16),
        Err(e) => Err(e),
    }
}

/// Parses the trimmed characters as an `i32`.
pub fn chars_to_i32(cs: &Vec<char>) -> (r: Result<i32, ParseIntError>)
    ensures
        match i32_parse(cs@) {
            Ok(v) => r == Ok::<i32, ParseIntError>(v as i32) && i32::MIN <= v <= i32::MAX,
            Err(k) => r == Err::<i32, ParseIntError>(ParseIntError { kind: k }),
        },
{
    match parse_chars(cs, i32::MIN as i64, i32::MAX as i64) {
        Ok(v) => Ok(v as i32),
        Err(e) => Err(e),
    }
}

/// Parses the characters as a `u32`.
pub fn chars_to_u32(cs: &Vec<char>) -> (r: Result<u32, ParseIntError>)
    ensures
        match u32_parse(cs@) {
            Ok(v) => r == Ok::<u32, ParseIntError>(v as u32) && 0 <= v <= u32::MAX,
            Err(k) => r == Err::<u32, ParseIntError>(ParseIntError { kind: k }),
        },
{
    match parse_chars(cs, 0, u32::MAX as i64) {
        Ok(v) => Ok(v as u32),
        Err(e) => Err(e),
    }
}

} // verus!
