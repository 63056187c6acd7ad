//! The parameters of a run and their textual form.

use vstd::prelude::*;
use vstd::string::StrSliceExecFns;

verus! {

/// The number of iterations where none is asked for.
pub const DEFAULT_ITERATIONS: u32 = 500000;

/// The side of the square into which tiles are fitted, where none is asked for.
pub const DEFAULT_IMAGE_SIZE: u32 = 20;

/// The number of canvas pixels per source pixel along each axis, where none is asked for.
pub const DEFAULT_SCALE: u32 = 1;

/// Why a text is no number.
#[derive(Clone, Copy, Debug, PartialEq, Eq, Structural)]
pub enum ParseError {
    /// The text is empty.
    Empty,
    /// The text holds a character that is no digit, or no digit at all.
    InvalidDigit,
    /// The number does not fit in 32 bits.
    TooLarge,
}

/// The value of a character as a digit in the given radix, 10 or 16.
pub open spec fn digit_of(c: char, radix: int) -> Option<int> {
    if '0' <= c <= '9' {
        Some(c as int - '0' as int)
    } else if radix == 16 && 'a' <= c <= 'f' {
        Some(c as int - 'a' as int + 10)
    } else if radix == 16 && 'A' <= c <= 'F' {
        Some(c as int - 'A' as int + 10)
    } else {
        None
    }
}

/// The number that a sequence of digits denotes, read from the left; or the first thing that
/// stands in the way: a character that is no digit, or a value beyond 32 bits.
pub open spec fn digits_value(digits: Seq<char>, radix: int) -> Result<int, ParseError>
    decreases digits.len(),
{
    if digits.len() == 0 {
        Ok(0)
    } else {
        match digits_value(digits.drop_last(), radix) {
            Err(error) => Err(error),
            Ok(value) => match digit_of(digits.last(), radix) {
                None => Err(ParseError::InvalidDigit),
                Some(digit) => if value * radix + digit > u32::MAX {
                    Err(ParseError::TooLarge)
                } else {
                    Ok(value * radix + digit)
                },
            },
        }
    }
}

/// The number that a text denotes: digits of the radix, after at most one plus sign.
pub open spec fn number_value(text: Seq<char>, radix: int) -> Result<int, ParseError> {
    if text.len() == 0 {
        Err(ParseError::Empty)
    } else if text[0] == '+' {
        if text.len() == 1 {
            Err(ParseError::InvalidDigit)
        } else {
            digits_value(text.skip(1), radix)
        }
    } else {
        digits_value(text, radix)
    }
}

/// The packed color that a text denotes: after a number sign eight or fewer hexadecimal
/// digits, red first; else a decimal number.
pub open spec fn color_value(text: Seq<char>) -> Result<int, ParseError> {
    if text.len() > 0 && text[0] == '#' {
        number_value(text.skip(1), 16)
    } else {
        number_value(text, 10)
    }
}

/// Computes [`digit_of`].
fn digit(c: char, hexadecimal: bool) -> (value: Option<u32>)
    ensures
        match value {
            Some(digit) => digit_of(c, radix_of(hexadecimal)) == Some(digit as int) && digit < radix_of(
                hexadecimal,
            ),
            None => digit_of(c, radix_of(hexadecimal)) is None,
        },
{
    if '0' <= c && c <= '9' {
        Some(c as u32 - '0' as u32)
    } else if hexadecimal && 'a' <= c && c <= 'f' {
        Some(c as u32 - 'a' as u32 + 10)
    } else if hexadecimal && 'A' <= c && c <= 'F' {
        Some(c as u32 - 'A' as u32 + 10)
    } else {
        None
    }
}

/// The radix of decimal or hexadecimal numbers.
pub open spec fn radix_of(hexadecimal: bool) -> int {
    if hexadecimal {
        16
    } else {
        10
    }
}

/// Reads the number that the characters of a text from position `start` on denote.
fn parse_from(text: &str, start: usize, hexadecimal: bool) -> (parsed: Result<u32, ParseError>)
    requires
        start <= text@.len(),
    ensures
        match parsed {
            Ok(value) => number_value(text@.skip(start as int), radix_of(hexadecimal)) == Ok::<
                int,
                ParseError,
            >(value as int),
            Err(error) => number_value(text@.skip(start as int), radix_of(hexadecimal)) == Err::<
                int,
                ParseError,
            >(error),
        },
{
    let ghost whole = text@.skip(start as int);
    let ghost radix = radix_of(hexadecimal);
    let length = text.unicode_len();
    if start == length {
        return Err(ParseError::Empty);
    }
    let mut i = start;
    assert(whole[0] == text@[start as int]);
    if text.get_char(start) == '+' {
        if length - start == 1 {
            return Err(ParseError::InvalidDigit);
        }
        i = start + 1;
    }
    let ghost digits = text@.skip(i as int);
    assert(digits =~= if whole[0] == '+' {
        whole.skip(1)
    } else {
        whole
    });
    let first = i;
    let mut value: u32 = 0;
    assert(digits.take(0) =~= Seq::<char>::empty());
    assert(number_value(whole, radix) == digits_value(digits, radix));
    while i < length
        invariant
            first <= i <= length == text@.len(),
            digits == text@.skip(first as int),
            radix == radix_of(hexadecimal),
            number_value(text@.skip(start as int), radix) == digits_value(digits, radix),
            digits_value(digits.take(i - first), radix) == Ok::<int, ParseError>(value as int),
        decreases length - i,
    {
        let ghost next = digits.take(i - first + 1);
        assert(next.drop_last() =~= digits.take(i - first));
        assert(next.last() == text@[i as int]);
        let step = match digit(text.get_char(i), hexadecimal) {
            None => Err(ParseError::InvalidDigit),
            Some(found) => {
                let wide: u64 = (value as u64) * (if hexadecimal {
                    16u64
                } else {
                    10u64
                }) + found as u64;
                if wide > u32::MAX as u64 {
                    Err(ParseError::TooLarge)
                } else {
                    Ok(wide as u32)
                }
            },
        };
        match step {
            Err(error) => {
                proof {
                    assert(digits_value(next, radix) == Err::<int, ParseError>(error));
                    lemma_failure_stays(digits, radix, i - first + 1, error);
                }
                return Err(error);
            },
            Ok(grown) => {
                value = grown;
            },
        }
        i += 1;
    }
    assert(digits.take(length - first) =~= digits);
    Ok(value)
}

/// Once a prefix of the digits fails, the whole fails in the same way.
pub proof fn lemma_failure_stays(digits: Seq<char>, radix: int, length: int, error: ParseError)
    requires
        0 <= length <= digits.len(),
        digits_value(digits.take(length), radix) == Err::<int, ParseError>(error),
    ensures
        digits_value(digits, radix) == Err::<int, ParseError>(error),
    decreases digits.len() - length,
{
    if length < digits.len() {
        let next = digits.take(length + 1);
        assert(next.drop_last() =~= digits.take(length));
        lemma_failure_stays(digits, radix, length + 1, error);
    } else {
        assert(digits.take(length) =~= digits);
    }
}

/// Reads a decimal number: digits after at most one plus sign.
pub fn parse_number(text: &str) -> (parsed: Result<u32, ParseError>)
    ensures
        match parsed {
            Ok(value) => number_value(text@, 10) == Ok::<int, ParseError>(value as int),
            Err(error) => number_value(text@, 10) == Err::<int, ParseError>(error),
        },
{
    assert(text@.skip(0) =~= text@);
    parse_from(text, 0, false)
}

/// Reads a background color: a packed RGBA value, written in hexadecimal after a number
/// sign, or in decimal.
pub fn parse_color(text: &str) -> (parsed: Result<u32, ParseError>)
    ensures
        match parsed {
            Ok(value) => color_value(text@) == Ok::<int, ParseError>(value as int),
            Err(error) => color_value(text@) == Err::<int, ParseError>(error),
        },
{
    if text.unicode_len() > 0 && text.get_char(0) == '#' {
        parse_from(text, 1, true)
    } else {
        assert(text@.skip(0) =~= text@);
        parse_from(text, 0, false)
    }
}

} // verus!
