//! Sizes as an operator writes them: a decimal number and an optional unit.

use crate::text::chars_of;
use crate::text::parse_unsigned;
use crate::text::unsigned_of;
use crate::text::NumberError;
use std::str::FromStr;
use vstd::prelude::*;

verus! {

/// A number of bytes.
#[derive(Copy, Clone, Debug, PartialEq, Eq)]
pub struct Size(pub usize);

/// Why a text is not a size.
#[derive(Clone, Copy, Debug, PartialEq, Eq)]
pub enum SizeError {
    /// The part before the unit is not a number that the machine can hold.
    Number(NumberError),
    /// The number times the unit is more than the machine can hold.
    TooLarge,
}

/// The factor that the last character of `s` stands for: `K` for 1024, `M`
/// for its square, `G` for its cube. Anything else is no unit, and the factor
/// is one.
pub open spec fn unit_of(s: Seq<char>) -> int {
    if s.len() > 0 && s.last() == 'K' {
        0x400
    } else if s.len() > 0 && s.last() == 'M' {
        0x10_0000
    } else if s.len() > 0 && s.last() == 'G' {
        0x4000_0000
    } else {
        1
    }
}

/// The part of `s` before the unit.
pub open spec fn number_part(s: Seq<char>) -> Seq<char> {
    if unit_of(s) == 1 {
        s
    } else {
        s.drop_last()
    }
}

/// The number of bytes that `s` stands for: the number before the unit,
/// times the unit.
pub open spec fn size_of(s: Seq<char>) -> Result<int, SizeError> {
    match unsigned_of(number_part(s), usize::MAX as int) {
        Err(e) => Err(SizeError::Number(e)),
        Ok(value) => if value * unit_of(s) > usize::MAX {
            Err(SizeError::TooLarge)
        } else {
            Ok(value * unit_of(s))
        },
    }
}

impl Size {
    /// Reads a size: an unsigned decimal number, which one of the units `K`,
    /// `M` and `G` may follow.
    pub fn parse(string: &str) -> (r: Result<Size, SizeError>)
        ensures
            match size_of(string@) {
                Ok(bytes) => r == Ok::<Size, SizeError>(Size(bytes as usize)),
                Err(e) => r == Err::<Size, SizeError>(e),
            },
    {
        let chars = chars_of(string);
        let n = chars.len();
        let (end, unit): (usize, usize) = if n > 0 && chars[n - 1] == 'K' {
            (n - 1, 1024)
        } else if n > 0 && chars[n - 1] == 'M' {
            (n - 1, 1024 * 1024)
        } else if n > 0 && chars[n - 1] == 'G' {
            (n - 1, 1024 * 1024 * 1024)
        } else {
            (n, 1)
        };
        assert(n > 0 ==> chars@[n - 1] == string@.last());
        assert(unit == unit_of(string@));
        assert(chars@.subrange(0, end as int) =~= number_part(string@));
        match parse_unsigned(&chars, 0, end, usize::MAX as u64) {
            Err(e) => Err(SizeError::Number(e)),
            Ok(value) => {
                let value: usize = value as usize;
                match value.checked_mul(unit) {
                    Some(bytes) => Ok(Size(bytes)),
                    None => Err(SizeError::TooLarge),
                }
            },
        }
    }
}

impl FromStr for Size {
    type Err = SizeError;

    fn from_str(string: &str) -> (r: Result<Size, SizeError>)
        ensures
            match size_of(string@) {
                Ok(bytes) => r == Ok::<Size, SizeError>(Size(bytes as usize)),
                Err(e) => r == Err::<Size, SizeError>(e),
            },
    {
        Size::parse(string)
    }
}

} // verus!
