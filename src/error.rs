//! Errors of the stanza parsers.

use vstd::prelude::*;
use crate::text::{chars_of, decimal_value, is_digit, parse_decimal, signed_decimal_value};

verus! {

/// Why a text is not an integer of the expected type.
#[derive(Clone, Copy, Debug, PartialEq, Eq, Structural)]
pub enum IntErrorKind {
    /// The text is empty.
    Empty,
    /// The text holds something else than an optional sign and digits.
    InvalidDigit,
    /// The number is above the type's maximum.
    PosOverflow,
    /// The number is below the type's minimum.
    NegOverflow,
}

/// A text that could not be read as an integer.
#[derive(Clone, Copy, Debug, PartialEq, Eq, Structural)]
pub struct ParseIntError {
    pub kind: IntErrorKind,
}

impl ParseIntError {
    /// The sentence that describes the error.
    pub fn description(&self) -> (r: &'static str)
        ensures
            r@ == match self.kind {
                IntErrorKind::Empty => "cannot parse integer from empty string"@,
                IntErrorKind::InvalidDigit => "invalid digit found in string"@,
                IntErrorKind::PosOverflow => "number too large to fit in target type"@,
                IntErrorKind::NegOverflow => "number too small to fit in target type"@,
            },
    {
        match self.kind {
            IntErrorKind::Empty => "cannot parse integer from empty string",
            IntErrorKind::InvalidDigit => "invalid digit found in string",
            IntErrorKind::PosOverflow => "number too large to fit in target type",
            IntErrorKind::NegOverflow => "number too small to fit in target type",
        }
    }
}

/// Why a JID could not be read.
#[derive(Clone, Copy, Debug, PartialEq, Eq, Structural)]
pub enum JidParseError {
    /// There is no domain part.
    NoDomain,
    /// The node part before `@` is empty.
    EmptyNode,
    /// The resource part after `/` is empty.
    EmptyResource,
}

/// Errors of the stanza parsers.
#[derive(Debug, PartialEq)]
pub enum Error {
    /// The element does not have the expected shape; the text says why.
    ParseError(&'static str),
    /// Base64 content could not be decoded.
    Base64Error,
    /// An integer could not be read.
    ParseIntError(ParseIntError),
    /// A JID could not be read.
    JidParseError(JidParseError),
}

/// How Rust's integer parsing reads `s` for a type whose range is `min..=max`.
pub open spec fn int_parse(s: Seq<char>, min: int, max: int) -> Result<int, IntErrorKind> {
    if s.len() == 0 {
        Err(IntErrorKind::Empty)
    } else if min >= 0 && s[0] == '-' {
        Err(IntErrorKind::InvalidDigit)
    } else {
        match signed_decimal_value(s) {
            None => Err(IntErrorKind::InvalidDigit),
            Some(v) => if v > max {
                Err(IntErrorKind::PosOverflow)
            } else if v < min {
                Err(IntErrorKind::NegOverflow)
            } else {
                Ok(v)
            },
        }
    }
}

/// Reads an integer in `min..=max`, as Rust's integer parsing does.
fn parse_int(s: &str, min: i64, max: u64) -> (r: Result<i64, ParseIntError>)
    requires
        i64::MIN < min <= 0,
        max <= i64::MAX,
    ensures
        match int_parse(s@, min as int, max as int) {
            Ok(v) => r == Ok::<i64, ParseIntError>(v as i64),
            Err(k) => r == Err::<i64, ParseIntError>(ParseIntError { kind: k }),
        },
{
    let cs = chars_of(s);
    if cs.len() == 0 {
        return Err(ParseIntError { kind: IntErrorKind::Empty });
    }
    let negative = cs[0] == '-';
    if negative && min >= 0 {
        return Err(ParseIntError { kind: IntErrorKind::InvalidDigit });
    }
    let start: usize = if cs[0] == '-' || cs[0] == '+' {
        1
    } else {
        0
    };
    proof {
        assert(cs@.subrange(1, cs@.len() as int) == cs@.drop_first());
        assert(cs@.subrange(0, cs@.len() as int) == cs@);
    }
    let ghost digits = cs@.subrange(start as int, cs@.len() as int);
    if start == cs.len() || !all_digits(&cs, start, cs.len()) {
        return Err(ParseIntError { kind: IntErrorKind::InvalidDigit });
    }
    assert(decimal_value(digits) is Some);
    if negative {
        let lowest: u64 = (0 - min) as u64;
        match parse_decimal(&cs, start, cs.len(), lowest) {
            Some(v) => Ok(0 - v as i64),
            None => Err(ParseIntError { kind: IntErrorKind::NegOverflow }),
        }
    } else {
        match parse_decimal(&cs, start, cs.len(), max) {
            Some(v) => Ok(v as i64),
            None => Err(ParseIntError { kind: IntErrorKind::PosOverflow }),
        }
    }
}

fn all_digits(cs: &Vec<char>, from: usize, to: usize) -> (r: bool)
    requires
        from <= to <= cs@.len(),
    ensures
        r == forall|k: int| 0 <= k < to - from ==> is_digit(
            #[trigger] cs@.subrange(from as int, to as int)[k],
        ),
{
    let mut i = from;
    while i < to
        invariant
            from <= i <= to <= cs@.len(),
            forall|k: int| 0 <= k < i - from ==> is_digit(
                #[trigger] cs@.subrange(from as int, to as int)[k],
            ),
        decreases to - i,
    {
        if !('0' <= cs[i] && cs[i] <= '9') {
            assert(!is_digit(cs@.subrange(from as int, to as int)[i - from]));
            return false;
        }
        i = i + 1;
    }
    true
}

/// Reads a `u16`, as Rust's `u16::from_str` does.
pub fn parse_u16(s: &str) -> (r: Result<u16, ParseIntError>)
    ensures
        match int_parse(s@, 0, 65535) {
            Ok(v) => r == Ok::<u16, ParseIntError>(v as u16),
            Err(k) => r == Err::<u16, ParseIntError>(ParseIntError { kind: k }),
        },
{
    match parse_int(s, 0, 65535) {
        Ok(v) => Ok(v as u16),
        Err(e) => Err(e),
    }
}

/// Reads an `i8`, as Rust's `i8::from_str` does.
pub fn parse_i8(s: &str) -> (r: Result<i8, ParseIntError>)
    ensures
        match int_parse(s@, -128, 127) {
            Ok(v) => r == Ok::<i8, ParseIntError>(v as i8),
            Err(k) => r == Err::<i8, ParseIntError>(ParseIntError { kind: k }),
        },
{
    match parse_int(s, -128, 127) {
        Ok(v) => Ok(v as i8),
        Err(e) => Err(e),
    }
}

} // verus!
