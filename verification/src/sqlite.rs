//! Unsigned numbers in columns that hold signed ones.

use vstd::prelude::*;

use crate::text::signed_text;

verus! {

/// The largest number that a column holds.
pub const INTEGER_MAX: u64 = 0x7fff_ffff_ffff_ffff;

/// A number that no column can hold.
#[derive(Debug, Clone, Copy, PartialEq, Eq)]
pub struct RangeError {
    pub field: &'static str,
}

impl RangeError {
    /// The words for the error.
    pub open spec fn words(self) -> Seq<char> {
        self.field@ + " exceeds SQLite INTEGER range"@
    }

    /// The error in words.
    pub fn message(&self) -> (r: String)
        ensures
            r@ == self.words(),
    {
        let mut r = self.field.to_owned();
        r.append(" exceeds SQLite INTEGER range");
        r
    }
}

/// A negative number in a column of unsigned ones.
#[derive(Debug, Clone, Copy, PartialEq, Eq, Structural)]
pub struct NegativeInteger {
    pub index: usize,
    pub value: i64,
}

impl NegativeInteger {
    /// The words for the error.
    pub open spec fn words(self) -> Seq<char> {
        "negative value "@ + crate::text::signed_decimal(self.value as int) + " for unsigned field"@
    }

    /// The error in words.
    pub fn message(&self) -> (r: String)
        ensures
            r@ == self.words(),
    {
        let mut r = "negative value ".to_owned();
        r.append(signed_text(self.value).as_str());
        r.append(" for unsigned field");
        r
    }
}

/// `value` as it is stored.
pub fn integer(value: u64, field: &'static str) -> (r: Result<i64, RangeError>)
    ensures
        r == (if value <= INTEGER_MAX {
            Ok::<i64, RangeError>(value as i64)
        } else {
            Err(RangeError { field })
        }),
        r is Ok ==> r->Ok_0 == value,
{
    if value <= INTEGER_MAX {
        Ok(value as i64)
    } else {
        Err(RangeError { field })
    }
}

/// The number in column `index`, given what is stored there.
pub fn unsigned(value: i64, index: usize) -> (r: Result<u64, NegativeInteger>)
    ensures
        r == (if value >= 0 {
            Ok::<u64, NegativeInteger>(value as u64)
        } else {
            Err(NegativeInteger { index, value })
        }),
        r is Ok ==> r->Ok_0 == value,
{
    if value >= 0 {
        Ok(value as u64)
    } else {
        Err(NegativeInteger { index, value })
    }
}

/// The number in column `index`, if one is stored there.
pub fn optional_unsigned(value: Option<i64>, index: usize) -> (r: Result<
    Option<u64>,
    NegativeInteger,
>)
    ensures
        r == (match value {
            None => Ok::<Option<u64>, NegativeInteger>(None),
            Some(number) => if number >= 0 {
                Ok(Some(number as u64))
            } else {
                Err(NegativeInteger { index, value: number })
            },
        }),
{
    match value {
        None => Ok(None),
        Some(number) => match unsigned(number, index) {
            Ok(number) => Ok(Some(number)),
            Err(error) => Err(error),
        },
    }
}

/// What is stored is read back.
pub proof fn stored_numbers_are_read_back(value: u64)
    requires
        value <= INTEGER_MAX,
    ensures
        value as i64 >= 0,
        (value as i64) as u64 == value,
{
}

} // verus!
