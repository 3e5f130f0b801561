//! Stake amounts as the RPC reports them: a JSON number, or a decimal string.
use vstd::prelude::*;
use crate::text::chars_of;

verus! {

/// Why a stake amount was refused.
#[derive(PartialEq, Eq, Structural, Clone, Copy, Debug)]
pub enum AmountError {
    /// A negative number.
    Negative,
    /// An empty string.
    Empty,
    /// A character that is not a decimal digit (a lone sign included).
    InvalidDigit,
    /// A value above `u64::MAX`.
    Overflow,
}

pub open spec fn is_decimal_digit(c: char) -> bool {
    '0' <= c && c <= '9'
}

/// Decimal reading of the first `n` characters of `d`, left to right, as `str::parse::<u64>`
/// does it: the first non-digit, or the first step past `u64::MAX`, ends it with an error.
pub open spec fn scan_decimal(d: Seq<char>, n: int) -> Result<int, AmountError>
    decreases n,
{
    if n <= 0 {
        Ok(0)
    } else {
        match scan_decimal(d, n - 1) {
            Err(e) => Err(e),
            Ok(v) => if !is_decimal_digit(d[n - 1]) {
                Err(AmountError::InvalidDigit)
            } else if v * 10 + (d[n - 1] as int - '0' as int) > u64::MAX {
                Err(AmountError::Overflow)
            } else {
                Ok(v * 10 + (d[n - 1] as int - '0' as int))
            },
        }
    }
}

/// `str::parse::<u64>`: empty text is refused, a lone sign is an invalid digit, one leading
/// `+` is allowed, and the rest is read as decimal digits.
pub open spec fn parse_u64_spec(s: Seq<char>) -> Result<int, AmountError> {
    if s.len() == 0 {
        Err(AmountError::Empty)
    } else if s.len() == 1 && (s[0] == '+' || s[0] == '-') {
        Err(AmountError::InvalidDigit)
    } else {
        let d = if s[0] == '+' { s.drop_first() } else { s };
        scan_decimal(d, d.len() as int)
    }
}

/// A stake amount given as a JSON integer: negative amounts are refused.
pub fn stake_amount_from_i64(value: i64) -> (r: Result<u64, AmountError>)
    ensures
        value < 0 ==> r == Err::<u64, AmountError>(AmountError::Negative),
        value >= 0 ==> r == Ok::<u64, AmountError>(value as u64),
{
    if value < 0 {
        Err(AmountError::Negative)
    } else {
        Ok(value as u64)
    }
}

/// A stake amount given as a string of decimal digits, read as `str::parse::<u64>` reads it.
pub fn stake_amount_from_text(text: &str) -> (r: Result<u64, AmountError>)
    ensures
        match parse_u64_spec(text@) {
            Ok(v) => r == Ok::<u64, AmountError>(v as u64),
            Err(e) => r == Err::<u64, AmountError>(e),
        },
{
    let chars = chars_of(text);
    let n = chars.len();
    if n == 0 {
        return Err(AmountError::Empty);
    }
    if n == 1 && (chars[0] == '+' || chars[0] == '-') {
        return Err(AmountError::InvalidDigit);
    }
    let start: usize = if chars[0] == '+' { 1 } else { 0 };
    let ghost d = if text@[0] == '+' { text@.drop_first() } else { text@ };
    let mut value: u64 = 0;
    let mut i: usize = start;
    while i < n
        invariant
            n == chars.len(),
            chars@ == text@,
            n > 0,
            start == (if text@[0] == '+' { 1usize } else { 0usize }),
            d == (if text@[0] == '+' { text@.drop_first() } else { text@ }),
            start <= i <= n,
            scan_decimal(d, i - start) == Ok::<int, AmountError>(value as int),
        decreases n - i,
    {
        let c = chars[i];
        assert(d[i - start] == c);
        if !('0' <= c && c <= '9') {
            proof {
                lemma_scan_error_sticks(d, (i - start + 1) as int, d.len() as int);
            }
            return Err(AmountError::InvalidDigit);
        }
        let digit: u64 = (c as u32 - '0' as u32) as u64;
        if value > (u64::MAX - digit) / 10 {
            proof {
                assert(value * 10 + digit > u64::MAX) by (nonlinear_arith)
                    requires
                        value > (u64::MAX - digit) / 10,
                        digit <= 9,
                ;
                lemma_scan_error_sticks(d, (i - start + 1) as int, d.len() as int);
            }
            return Err(AmountError::Overflow);
        }
        proof {
            assert(value * 10 + digit <= u64::MAX) by (nonlinear_arith)
                requires
                    value <= (u64::MAX - digit) / 10,
                    digit <= 9,
            ;
        }
        value = value * 10 + digit;
        i = i + 1;
    }
    Ok(value)
}

proof fn lemma_scan_error_sticks(d: Seq<char>, k: int, n: int)
    requires
        0 <= k <= n,
        scan_decimal(d, k) is Err,
    ensures
        scan_decimal(d, n) == scan_decimal(d, k),
    decreases n - k,
{
    if k < n {
        lemma_scan_error_sticks(d, k, n - 1);
    }
}

} // verus!
