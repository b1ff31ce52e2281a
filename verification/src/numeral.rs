//! Decimal numerals and the integers they denote.

use vstd::prelude::*;

verus! {

/// The cause that the standard library gives for a rejected numeral.
#[verifier::external_type_specification]
#[verifier::external_body]
pub struct ExParseIntError(core::num::ParseIntError);

/// `Clone::clone` on the standard library's parse error. Nothing is claimed
/// of the copy.
pub assume_specification[ <core::num::ParseIntError as Clone>::clone ](
    error: &core::num::ParseIntError,
) -> core::num::ParseIntError;

pub open spec fn is_digit(c: char) -> bool {
    '0' as int <= c as int <= '9' as int
}

/// At least one character, and each a decimal digit.
pub open spec fn all_digits(s: Seq<char>) -> bool {
    &&& s.len() > 0
    &&& forall|i: int| 0 <= i < s.len() ==> is_digit(#[trigger] s[i])
}

/// The number that a sequence of decimal digits denotes.
pub open spec fn digits_value(s: Seq<char>) -> int
    decreases s.len(),
{
    if s.len() == 0 {
        0
    } else {
        10 * digits_value(s.drop_last()) + (s.last() as int - '0' as int)
    }
}

/// The number that a numeral denotes: digits, with one `+` or `-` allowed in
/// front of them. Anything else denotes nothing.
pub open spec fn numeral_value(s: Seq<char>) -> Option<int> {
    if s.len() > 0 && s[0] == '-' {
        if all_digits(s.drop_first()) {
            Some(-digits_value(s.drop_first()))
        } else {
            None
        }
    } else if s.len() > 0 && s[0] == '+' {
        if all_digits(s.drop_first()) {
            Some(digits_value(s.drop_first()))
        } else {
            None
        }
    } else if all_digits(s) {
        Some(digits_value(s))
    } else {
        None
    }
}

/// The `i32` that a numeral denotes, if it denotes one.
pub open spec fn i32_of(s: Seq<char>) -> Option<i32> {
    match numeral_value(s) {
        Some(v) => if i32::MIN <= v <= i32::MAX {
            Some(v as i32)
        } else {
            None
        },
        None => None,
    }
}

/// `str::parse` at `i32`. Trusted: the standard library accepts exactly an
/// optional sign followed by decimal digits whose value fits the type, and
/// returns that value; everything else is an error.
#[verifier::external_body]
pub(crate) fn parse_i32(term: &str) -> (r: Result<i32, core::num::ParseIntError>)
    ensures
        match r {
            Ok(v) => i32_of(term@) == Some(v),
            Err(_) => i32_of(term@) is None,
        },
{
    term.parse::<i32>()
}

/// `ToString::to_string` on the standard library's parse error. Trusted;
/// nothing is claimed of the text.
#[verifier::external_body]
pub(crate) fn cause_text(error: &core::num::ParseIntError) -> String {
    error.to_string()
}

} // verus!
