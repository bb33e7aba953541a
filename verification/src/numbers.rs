//! Decimal integer parsing with the grammar and errors of `str::parse` for
//! the primitive integer types.
use vstd::prelude::*;

use crate::text::chars_of;

verus! {

/// Why a decimal integer could not be read.
#[derive(Debug, Clone, Copy, PartialEq, Eq, Structural)]
pub enum IntError {
    Empty,
    InvalidDigit,
    PosOverflow,
    NegOverflow,
}

impl IntError {
    /// The text `ParseIntError` displays for this kind of error.
    pub fn message(self) -> (m: &'static str)
        ensures
            m@ == int_error_message(self),
    {
        match self {
            IntError::Empty => "cannot parse integer from empty string",
            IntError::InvalidDigit => "invalid digit found in string",
            IntError::PosOverflow => "number too large to fit in target type",
            IntError::NegOverflow => "number too small to fit in target type",
        }
    }
}

/// The text that describes a parse error, as std words it.
pub open spec fn int_error_message(e: IntError) -> Seq<char> {
    match e {
        IntError::Empty => "cannot parse integer from empty string"@,
        IntError::InvalidDigit => "invalid digit found in string"@,
        IntError::PosOverflow => "number too large to fit in target type"@,
        IntError::NegOverflow => "number too small to fit in target type"@,
    }
}

/// Whether `c` is one of `0` to `9`.
pub open spec fn is_ascii_digit(c: char) -> bool {
    '0' <= c && c <= '9'
}

/// The value of an ASCII digit.
pub open spec fn digit_value(c: char) -> int {
    (c as int) - 48
}

/// Reads the digits `d` onto the value `acc` already read, left to right,
/// subtracting when `neg`; fails at the first character that is not an
/// ASCII digit or that takes the value out of `[lo, hi]`.
pub open spec fn scan_digits(d: Seq<char>, acc: int, neg: bool, lo: int, hi: int) -> Result<
    int,
    IntError,
>
    decreases d.len(),
{
    if d.len() == 0 {
        Ok(acc)
    } else if !is_ascii_digit(d[0]) {
        Err(IntError::InvalidDigit)
    } else {
        let next = if neg {
            acc * 10 - digit_value(d[0])
        } else {
            acc * 10 + digit_value(d[0])
        };
        if next > hi {
            Err(IntError::PosOverflow)
        } else if next < lo {
            Err(IntError::NegOverflow)
        } else {
            scan_digits(d.drop_first(), next, neg, lo, hi)
        }
    }
}

/// Digits read upwards from a value that is not negative give a value that is
/// not negative.
pub proof fn lemma_scan_up_nonneg(d: Seq<char>, acc: int, lo: int, hi: int)
    requires
        acc >= 0,
    ensures
        scan_digits(d, acc, false, lo, hi) matches Ok(x) ==> x >= 0,
    decreases d.len(),
{
    if d.len() > 0 && is_ascii_digit(d[0]) {
        lemma_scan_up_nonneg(d.drop_first(), acc * 10 + digit_value(d[0]), lo, hi);
    }
}

/// What `str::parse` gives for an integer type whose range is `[lo, hi]`:
/// an optional sign (`-` only when `signed`) followed by ASCII digits.
pub open spec fn parse_int_seq(s: Seq<char>, signed: bool, lo: int, hi: int) -> Result<int, IntError> {
    if s.len() == 0 {
        Err(IntError::Empty)
    } else if (s[0] == '+' || s[0] == '-') && s.len() == 1 {
        Err(IntError::InvalidDigit)
    } else if s[0] == '+' {
        scan_digits(s.drop_first(), 0, false, lo, hi)
    } else if s[0] == '-' && signed {
        scan_digits(s.drop_first(), 0, true, lo, hi)
    } else {
        scan_digits(s, 0, false, lo, hi)
    }
}

/// Reads `v[i..]` onto `acc` as `scan_digits` does.
fn scan(v: &Vec<char>, i: usize, acc: i128, neg: bool, lo: i128, hi: i128) -> (r: Result<i128, IntError>)
    requires
        i <= v@.len(),
        lo <= acc <= hi,
        -0x1_0000_0000_0000_0000_0000 <= lo <= 0 <= hi <= 0x1_0000_0000_0000_0000_0000,
    ensures
        match r {
            Ok(x) => scan_digits(v@.skip(i as int), acc as int, neg, lo as int, hi as int) == Ok::<int, IntError>(x as int),
            Err(e) => scan_digits(v@.skip(i as int), acc as int, neg, lo as int, hi as int) == Err::<int, IntError>(e),
        },
{
    let mut k = i;
    let mut a = acc;
    while k < v.len()
        invariant
            i <= k <= v@.len(),
            lo <= a <= hi,
            -0x1_0000_0000_0000_0000_0000 <= lo <= 0 <= hi <= 0x1_0000_0000_0000_0000_0000,
            scan_digits(v@.skip(i as int), acc as int, neg, lo as int, hi as int) == scan_digits(v@.skip(k as int), a as int, neg, lo as int, hi as int),
        decreases v@.len() - k,
    {
        let c = v[k];
        let ghost rest = v@.skip(k as int);
        assert(rest[0] == c);
        assert(rest.drop_first() =~= v@.skip(k + 1));
        if !('0' <= c && c <= '9') {
            return Err(IntError::InvalidDigit);
        }
        let d = (c as u32 - 48) as i128;
        let next = if neg {
            a * 10 - d
        } else {
            a * 10 + d
        };
        if next > hi {
            return Err(IntError::PosOverflow);
        }
        if next < lo {
            return Err(IntError::NegOverflow);
        }
        a = next;
        k = k + 1;
    }
    assert(v@.skip(k as int) =~= Seq::<char>::empty());
    Ok(a)
}

/// `str::parse` for an integer type whose range is `[lo, hi]`.
fn parse_int(v: &Vec<char>, signed: bool, lo: i128, hi: i128) -> (r: Result<i128, IntError>)
    requires
        -0x1_0000_0000_0000_0000_0000 <= lo <= 0 <= hi <= 0x1_0000_0000_0000_0000_0000,
    ensures
        match r {
            Ok(x) => parse_int_seq(v@, signed, lo as int, hi as int) == Ok::<int, IntError>(x as int) && lo <= x <= hi,
            Err(e) => parse_int_seq(v@, signed, lo as int, hi as int) == Err::<int, IntError>(e),
        },
{
    if v.len() == 0 {
        return Err(IntError::Empty);
    }
    if (v[0] == '+' || v[0] == '-') && v.len() == 1 {
        return Err(IntError::InvalidDigit);
    }
    proof {
        assert(v@.drop_first() =~= v@.skip(1));
        assert(v@ =~= v@.skip(0));
    }
    let r = if v[0] == '+' {
        scan(v, 1, 0, false, lo, hi)
    } else if v[0] == '-' && signed {
        scan(v, 1, 0, true, lo, hi)
    } else {
        scan(v, 0, 0, false, lo, hi)
    };
    proof {
        lemma_scan_in_range(v@.skip(if v@[0] == '+' || (v@[0] == '-' && signed) { 1int } else { 0int }), 0, if v@[0] == '-' && signed { true } else { false }, lo as int, hi as int);
    }
    r
}

/// A scan that ends well yields a value within the bounds.
pub proof fn lemma_scan_in_range(d: Seq<char>, acc: int, neg: bool, lo: int, hi: int)
    requires
        lo <= acc <= hi,
    ensures
        scan_digits(d, acc, neg, lo, hi) matches Ok(x) ==> lo <= x <= hi,
    decreases d.len(),
{
    if d.len() > 0 && is_ascii_digit(d[0]) {
        let next = if neg {
            acc * 10 - digit_value(d[0])
        } else {
            acc * 10 + digit_value(d[0])
        };
        if lo <= next <= hi {
            lemma_scan_in_range(d.drop_first(), next, neg, lo, hi);
        }
    }
}

/// `str::parse::<i32>`.
pub fn parse_i32(s: &str) -> (r: Result<i32, IntError>)
    ensures
        match r {
            Ok(x) => parse_int_seq(s@, true, i32::MIN as int, i32::MAX as int) == Ok::<int, IntError>(x as int),
            Err(e) => parse_int_seq(s@, true, i32::MIN as int, i32::MAX as int) == Err::<int, IntError>(e),
        },
{
    let v = chars_of(s);
    match parse_int(&v, true, i32::MIN as i128, i32::MAX as i128) {
        Ok(x) => Ok(x as i32),
        Err(e) => Err(e),
    }
}

/// `str::parse::<u16>`.
pub fn parse_u16(s: &str) -> (r: Result<u16, IntError>)
    ensures
        match r {
            Ok(x) => parse_int_seq(s@, false, 0, u16::MAX as int) == Ok::<int, IntError>(x as int),
            Err(e) => parse_int_seq(s@, false, 0, u16::MAX as int) == Err::<int, IntError>(e),
        },
{
    let v = chars_of(s);
    match parse_int(&v, false, 0, u16::MAX as i128) {
        Ok(x) => Ok(x as u16),
        Err(e) => Err(e),
    }
}

/// `str::parse::<u64>`.
pub fn parse_u64(s: &str) -> (r: Result<u64, IntError>)
    ensures
        match r {
            Ok(x) => parse_int_seq(s@, false, 0, u64::MAX as int) == Ok::<int, IntError>(x as int),
            Err(e) => parse_int_seq(s@, false, 0, u64::MAX as int) == Err::<int, IntError>(e),
        },
{
    let v = chars_of(s);
    match parse_int(&v, false, 0, u64::MAX as i128) {
        Ok(x) => Ok(x as u64),
        Err(e) => Err(e),
    }
}

/// `str::parse::<usize>`.
pub fn parse_usize(s: &str) -> (r: Result<usize, IntError>)
    ensures
        match r {
            Ok(x) => parse_int_seq(s@, false, 0, usize::MAX as int) == Ok::<int, IntError>(x as int),
            Err(e) => parse_int_seq(s@, false, 0, usize::MAX as int) == Err::<int, IntError>(e),
        },
{
    let v = chars_of(s);
    match parse_int(&v, false, 0, usize::MAX as i128) {
        Ok(x) => Ok(x as usize),
        Err(e) => Err(e),
    }
}

} // verus!
