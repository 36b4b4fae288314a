//! The scalar parsers: raw text, the boolean token vocabulary, and signed
//! decimal integers.

use vstd::prelude::*;
use vstd::string::*;

use crate::schema::ScalarKind;
use crate::value::{view_scalar, Scalar, ScalarV};

verus! {

/// The tokens that spell `true`.
pub open spec fn truthy(s: Seq<char>) -> bool {
    s == "t"@ || s == "true"@ || s == "y"@ || s == "yes"@ || s == "on"@ || s == "1"@
}

/// The tokens that spell `false`.
pub open spec fn falsy(s: Seq<char>) -> bool {
    s == "f"@ || s == "false"@ || s == "n"@ || s == "no"@ || s == "off"@ || s == "0"@
}

/// What boolean a raw text parses to, if any.  Tokens outside the
/// vocabulary fall back to the generic boolean text parser, which accepts
/// only `true` and `false` — both already in the vocabulary — so they fail.
pub open spec fn parse_bool_v(s: Seq<char>) -> Option<bool> {
    if truthy(s) {
        Some(true)
    } else if falsy(s) {
        Some(false)
    } else {
        None
    }
}

/// Whether a character is a decimal digit.
pub open spec fn is_digit(c: char) -> bool {
    ('0' as int) <= (c as int) <= ('9' as int)
}

/// The value of one decimal digit.
pub open spec fn digit_val(c: char) -> int {
    (c as int) - ('0' as int)
}

/// Whether every character of a text is a decimal digit.
pub open spec fn all_digits(s: Seq<char>) -> bool {
    forall|i: int| 0 <= i < s.len() ==> is_digit(#[trigger] s[i])
}

/// The value of a digit string, most significant digit first.
pub open spec fn digits_value(s: Seq<char>) -> int
    decreases s.len(),
{
    if s.len() == 0 {
        0
    } else {
        digits_value(s.drop_last()) * 10 + digit_val(s.last())
    }
}

/// Whether a text is a well-formed signed decimal integer: an optional
/// `+` or `-` sign followed by one or more digits.
pub open spec fn int_text_wf(s: Seq<char>) -> bool {
    if s.len() >= 1 && (s[0] == '-' || s[0] == '+') {
        s.len() >= 2 && all_digits(s.skip(1))
    } else {
        s.len() >= 1 && all_digits(s)
    }
}

/// The mathematical value a well-formed signed decimal integer denotes.
pub open spec fn int_text_value(s: Seq<char>) -> int {
    if s.len() >= 1 && s[0] == '-' {
        -digits_value(s.skip(1))
    } else if s.len() >= 1 && s[0] == '+' {
        digits_value(s.skip(1))
    } else {
        digits_value(s)
    }
}

/// What `i64` a raw text parses to, if any: it must be well formed and
/// its value must fit.
pub open spec fn parse_int_v(s: Seq<char>) -> Option<i64> {
    if int_text_wf(s) && i64::MIN <= int_text_value(s) <= i64::MAX {
        Some(int_text_value(s) as i64)
    } else {
        None
    }
}

/// What scalar a raw text parses to under a scalar kind, if any.  Raw
/// text never fails; booleans go through the token vocabulary; integers
/// through the decimal parser.
pub open spec fn parse_scalar_v(k: ScalarKind, s: Seq<char>) -> Option<ScalarV> {
    match k {
        ScalarKind::Str => Some(ScalarV::Str(s)),
        ScalarKind::Bool => match parse_bool_v(s) {
            Some(b) => Some(ScalarV::Bool(b)),
            None => None,
        },
        ScalarKind::Int => match parse_int_v(s) {
            Some(n) => Some(ScalarV::Int(n)),
            None => None,
        },
    }
}

/// Relies on `str::parse::<i64>`, std's `FromStr` parser for `i64`: its
/// documentation says it accepts an optional `+` or `-` sign followed by
/// one or more decimal digits, and errors on any other text and on values
/// outside the `i64` range.
#[verifier::external_body]
fn parse_int_raw(raw: &String) -> (r: Result<i64, ()>)
    ensures
        match parse_int_v(raw@) {
            Some(v) => r == Ok::<i64, ()>(v),
            None => r == Err::<i64, ()>(()),
        },
{
    match raw.as_str().parse::<i64>() {
        Ok(v) => Ok(v),
        Err(_) => Err(()),
    }
}

/// Parse a raw text into a boolean through the token vocabulary.
fn parse_bool(raw: &String) -> (r: Result<bool, ()>)
    ensures
        match parse_bool_v(raw@) {
            Some(b) => r == Ok::<bool, ()>(b),
            None => r == Err::<bool, ()>(()),
        },
{
    if *raw == String::from_str("t") || *raw == String::from_str("true") || *raw
        == String::from_str("y") || *raw == String::from_str("yes") || *raw == String::from_str(
        "on",
    ) || *raw == String::from_str("1") {
        Ok(true)
    } else if *raw == String::from_str("f") || *raw == String::from_str("false") || *raw
        == String::from_str("n") || *raw == String::from_str("no") || *raw == String::from_str(
        "off",
    ) || *raw == String::from_str("0") {
        Ok(false)
    } else {
        Err(())
    }
}

/// Parse a raw text under a scalar kind.  The result is exactly what the
/// model [`parse_scalar_v`] says: `Err` exactly when the model has no
/// value for this text.
pub fn parse_scalar(k: ScalarKind, raw: &String) -> (r: Result<Scalar, ()>)
    ensures
        match parse_scalar_v(k, raw@) {
            Some(sv) => r matches Ok(s) && view_scalar(s) == sv,
            None => r matches Err(e),
        },
{
    match k {
        ScalarKind::Str => Ok(Scalar::Str(raw.clone())),
        ScalarKind::Bool => match parse_bool(raw) {
            Ok(b) => Ok(Scalar::Bool(b)),
            Err(e) => Err(e),
        },
        ScalarKind::Int => match parse_int_raw(raw) {
            Ok(n) => Ok(Scalar::Int(n)),
            Err(e) => Err(e),
        },
    }
}

} // verus!
