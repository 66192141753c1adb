//! Extracting the decimal digits of a text and reading them as a number.
use vstd::prelude::*;

verus! {

pub open spec fn is_digit(c: char) -> bool {
    '0' <= c && c <= '9'
}

/// The ASCII decimal digits of `s`, in order.
pub open spec fn digits_of(s: Seq<char>) -> Seq<char>
    decreases s.len(),
{
    if s.len() == 0 {
        Seq::empty()
    } else if is_digit(s.last()) {
        digits_of(s.drop_last()).push(s.last())
    } else {
        digits_of(s.drop_last())
    }
}

/// The number that a sequence of decimal digits writes.
pub open spec fn decimal_value(d: Seq<char>) -> nat
    decreases d.len(),
{
    if d.len() == 0 {
        0
    } else {
        decimal_value(d.drop_last()) * 10 + (d.last() as nat - '0' as nat) as nat
    }
}

/// Why the digits of a text give no `i64`.
#[derive(PartialEq, Eq, Structural, Clone, Copy, Debug)]
pub enum DigitsError {
    /// The text holds no decimal digit.
    NoDigits,
    /// The digits write a number larger than `i64::MAX`.
    TooLarge,
}

/// What reading the decimal digits of `s`, all others removed, gives.
pub open spec fn digits_number(s: Seq<char>) -> Result<i64, DigitsError> {
    let d = digits_of(s);
    if d.len() == 0 {
        Err(DigitsError::NoDigits)
    } else if decimal_value(d) > i64::MAX {
        Err(DigitsError::TooLarge)
    } else {
        Ok(decimal_value(d) as i64)
    }
}

/// Reads the ASCII decimal digits of `s` as one number, every other
/// character removed first.
pub fn parse_digits(s: &str) -> (r: Result<i64, DigitsError>)
    ensures
        r == digits_number(s@),
{
    let n = s.unicode_len();
    let mut acc: u64 = 0;
    let mut seen = false;
    let mut over = false;
    let mut i: usize = 0;
    while i < n
        invariant
            n == s@.len(),
            i <= n,
            seen == (digits_of(s@.subrange(0, i as int)).len() > 0),
            over ==> decimal_value(digits_of(s@.subrange(0, i as int))) > i64::MAX,
            !over ==> acc == decimal_value(digits_of(s@.subrange(0, i as int))),
            !over ==> acc <= i64::MAX,
        decreases n - i,
    {
        let c = s.get_char(i);
        let ghost pre = digits_of(s@.subrange(0, i as int));
        assert(s@.subrange(0, i + 1).drop_last() == s@.subrange(0, i as int));
        assert(s@.subrange(0, i + 1).last() == c);
        if '0' <= c && c <= '9' {
            assert(digits_of(s@.subrange(0, i + 1)) == pre.push(c));
            assert(pre.push(c).drop_last() == pre);
            seen = true;
            if !over {
                let d = (c as u32 - '0' as u32) as u64;
                if acc > (0x7fff_ffff_ffff_ffff - d) / 10 {
                    over = true;
                } else {
                    acc = acc * 10 + d;
                }
            }
        }
        i = i + 1;
    }
    assert(s@.subrange(0, n as int) == s@);
    if !seen {
        Err(DigitsError::NoDigits)
    } else if over {
        Err(DigitsError::TooLarge)
    } else {
        Ok(acc as i64)
    }
}

} // verus!
