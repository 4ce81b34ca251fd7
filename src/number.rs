use vstd::prelude::*;
use crate::protocol::END_MARKER;

verus! {

/// The most digits a number of the command sub-protocol may have: as many as `u64::MAX` has.
pub const MAX_DIGITS: usize = 20;

/// Why a number of the command sub-protocol was refused. Each one ends the connection.
#[derive(Clone, Copy, Debug, PartialEq, Eq, Structural)]
pub enum ProtocolError {
    /// The end marker came before any digit.
    EmptyNumber,
    /// A byte that is neither an ASCII digit nor the end marker.
    InvalidDigit,
    /// More than `MAX_DIGITS` digits.
    NumberTooLong,
    /// The digits spell a number above `u64::MAX`.
    Overflow,
    /// The stream ended before the end marker of a number.
    UnexpectedEnd,
}

/// `b` is an ASCII digit `'0'..='9'`.
pub open spec fn is_digit_spec(b: u8) -> bool {
    48 <= b <= 57
}

/// Every byte of `s` is an ASCII digit.
pub open spec fn all_digits(s: Seq<u8>) -> bool {
    forall|i: int| 0 <= i < s.len() ==> is_digit_spec(#[trigger] s[i])
}

/// The number that a string of ASCII digits spells in decimal.
pub open spec fn digits_value(s: Seq<u8>) -> nat
    decreases s.len(),
{
    if s.len() == 0 {
        0
    } else {
        digits_value(s.drop_last()) * 10 + (s.last() - 48) as nat
    }
}

/// What a completed string of digits becomes: its value, or why it has none.
pub open spec fn parse_spec(s: Seq<u8>) -> Result<u64, ProtocolError> {
    if s.len() == 0 {
        Err(ProtocolError::EmptyNumber)
    } else if digits_value(s) > u64::MAX {
        Err(ProtocolError::Overflow)
    } else {
        Ok(digits_value(s) as u64)
    }
}

/// One byte of the command sub-protocol, given the digits collected so far: the digits
/// afterwards, and `Ok(None)` to go on, `Ok(Some(n))` once the number `n` is complete,
/// or the error that ends the connection.
pub open spec fn collect_spec(digits: Seq<u8>, b: u8) -> (Seq<u8>, Result<Option<u64>, ProtocolError>) {
    if b == END_MARKER {
        (digits, match parse_spec(digits) {
            Ok(n) => Ok(Some(n)),
            Err(e) => Err(e),
        })
    } else if is_digit_spec(b) {
        if digits.len() + 1 > MAX_DIGITS {
            (digits, Err(ProtocolError::NumberTooLong))
        } else {
            (digits.push(b), Ok(None))
        }
    } else {
        (digits, Err(ProtocolError::InvalidDigit))
    }
}

/// Returns true exactly for the ASCII digits.
pub fn is_digit(b: u8) -> (r: bool)
    ensures
        r == is_digit_spec(b),
{
    48 <= b && b <= 57
}

/// Converts a string of ASCII digits to the number it spells, refusing an empty string
/// and a value above `u64::MAX`.
pub fn parse_number(digits: &Vec<u8>) -> (r: Result<u64, ProtocolError>)
    requires
        all_digits(digits@),
    ensures
        r == parse_spec(digits@),
{
    if digits.len() == 0 {
        return Err(ProtocolError::EmptyNumber);
    }
    let mut value: u64 = 0;
    let mut overflowed = false;
    let mut i: usize = 0;
    while i < digits.len()
        invariant
            i <= digits@.len(),
            all_digits(digits@),
            overflowed ==> digits_value(digits@.take(i as int)) > u64::MAX,
            !overflowed ==> value as nat == digits_value(digits@.take(i as int)),
        decreases digits@.len() - i,
    {
        let d = digits[i] - 48;
        assert(is_digit_spec(digits@[i as int]));
        assert(digits@.take(i as int + 1).drop_last() =~= digits@.take(i as int));
        if !overflowed {
            if value > (u64::MAX - d as u64) / 10 {
                overflowed = true;
            } else {
                value = value * 10 + d as u64;
            }
        }
        i = i + 1;
    }
    assert(digits@.take(i as int) =~= digits@);
    if overflowed {
        Err(ProtocolError::Overflow)
    } else {
        Ok(value)
    }
}

/// Takes one byte of the command sub-protocol, with at most `MAX_DIGITS` digits pending:
/// an end marker completes the number, a digit is kept (up to `MAX_DIGITS`), any other
/// byte is refused.
pub fn collect_byte(digits: &mut Vec<u8>, b: u8) -> (r: Result<Option<u64>, ProtocolError>)
    requires
        all_digits(old(digits)@),
        old(digits)@.len() <= MAX_DIGITS,
    ensures
        (final(digits)@, r) == collect_spec(old(digits)@, b),
        all_digits(final(digits)@),
        final(digits)@.len() <= MAX_DIGITS,
{
    if b == END_MARKER {
        match parse_number(digits) {
            Ok(n) => Ok(Some(n)),
            Err(e) => Err(e),
        }
    } else if is_digit(b) {
        if digits.len() >= MAX_DIGITS {
            Err(ProtocolError::NumberTooLong)
        } else {
            digits.push(b);
            assert(all_digits(digits@)) by {
                assert forall|i: int| 0 <= i < digits@.len() implies is_digit_spec(#[trigger] digits@[i]) by {
                    if i < digits@.len() - 1 {
                        assert(digits@[i] == old(digits)@[i]);
                    }
                }
            }
            Ok(None)
        }
    } else {
        Err(ProtocolError::InvalidDigit)
    }
}

} // verus!
