//! The parse failures that version, date, changeset and kind text can
//! produce, each carrying the failure underneath it.

use vstd::prelude::*;

verus! {

/// Why a digit run failed to read as a number.
#[derive(Clone, Copy, Debug, PartialEq, Eq, Structural)]
pub enum IntErrorKind {
    /// The run was empty.
    Empty,
    /// A character was not an ASCII decimal digit.
    InvalidDigit,
    /// The value does not fit the component's range.
    Overflow,
}

/// Failed parsing a string into a valid integer.
#[derive(Clone, Copy, Debug, PartialEq, Eq, Structural)]
pub struct InvalidIntError {
    /// Why the run failed to read as a number.
    pub kind: IntErrorKind,
}

/// Failed parsing a numeric string into a valid month.
#[derive(Clone, Copy, Debug, PartialEq, Eq, Structural)]
pub struct InvalidMonthError {
    /// The offending month number, outside `1..=12`.
    pub month: u8,
}

/// Failed parsing a string into a valid calendar date.
#[derive(Clone, Copy, Debug, PartialEq, Eq, Structural)]
pub struct InvalidDateError {
    /// The year component as read.
    pub year: i32,
    /// The month component as read.
    pub month: u8,
    /// The day component as read, invalid for the year and month.
    pub day: u8,
}

/// Errors that can occur when parsing raw strings into a
/// [`Date`](crate::Date).
#[derive(Clone, Copy, Debug, PartialEq, Eq, Structural)]
pub enum ParseDateError {
    /// Missing `.` separator for the month.
    MissingMonthSeparator,
    /// Missing `.` separator for the day.
    MissingDaySeparator,
    /// Malformed integer component.
    InvalidInt(InvalidIntError),
    /// Invalid month value.
    InvalidMonth(InvalidMonthError),
    /// Invalid date value.
    InvalidDate(InvalidDateError),
}

/// Errors that can occur when parsing raw strings into a
/// [`Changeset`](crate::Changeset).
#[derive(Clone, Copy, Debug, PartialEq, Eq, Structural)]
pub enum ParseChangesetError {
    /// String is malformed.
    InvalidInt(InvalidIntError),
    /// Changeset value is zero.
    Zero,
}

/// Errors that can occur when parsing raw strings into a
/// [`Kind`](crate::Kind).
#[derive(Clone, Copy, Debug, PartialEq, Eq, Structural)]
pub enum ParseKindError {
    /// String contains non-ASCII characters.
    NonAscii,
}

/// Errors that can occur when parsing raw strings into a
/// [`Version`](crate::Version).
#[derive(Clone, Copy, Debug, PartialEq, Eq, Structural)]
pub enum ParseError {
    /// The string contains invalid characters.
    NonAscii,
    /// The string was too short.
    TooShort,
    /// The _date_ component is invalid.
    InvalidDate(ParseDateError),
    /// The _changeset_ component is invalid.
    InvalidChangeset(ParseChangesetError),
    /// The _kind_ component is invalid.
    InvalidKind(ParseKindError),
    /// Unexpected trailing data.
    TrailingData,
}

impl InvalidIntError {
    /// The machine-stable description of this error.
    pub open spec fn spec_message(&self) -> Seq<char> {
        "invalid integer"@
    }

    /// Short machine-stable description of the error.
    pub fn message(&self) -> (r: String)
        ensures
            r@ == self.spec_message(),
    {
        "invalid integer".to_owned()
    }
}

impl InvalidMonthError {
    /// The machine-stable description of this error.
    pub open spec fn spec_message(&self) -> Seq<char> {
        "invalid month"@
    }

    /// Short machine-stable description of the error.
    pub fn message(&self) -> (r: String)
        ensures
            r@ == self.spec_message(),
    {
        "invalid month".to_owned()
    }
}

impl InvalidDateError {
    /// The machine-stable description of this error.
    pub open spec fn spec_message(&self) -> Seq<char> {
        "invalid date"@
    }

    /// Short machine-stable description of the error.
    pub fn message(&self) -> (r: String)
        ensures
            r@ == self.spec_message(),
    {
        "invalid date".to_owned()
    }
}

impl ParseDateError {
    /// The machine-stable description of each variant.
    pub open spec fn spec_message(&self) -> Seq<char> {
        match self {
            Self::MissingMonthSeparator => "missing separator for the month"@,
            Self::MissingDaySeparator => "missing separator for the day"@,
            Self::InvalidInt(_) => "malformed integer component"@,
            Self::InvalidMonth(_) => "invalid month value"@,
            Self::InvalidDate(_) => "invalid date value"@,
        }
    }

    /// Short machine-stable description of the error.
    pub fn message(&self) -> (r: String)
        ensures
            r@ == self.spec_message(),
    {
        match self {
            Self::MissingMonthSeparator => "missing separator for the month".to_owned(),
            Self::MissingDaySeparator => "missing separator for the day".to_owned(),
            Self::InvalidInt(_) => "malformed integer component".to_owned(),
            Self::InvalidMonth(_) => "invalid month value".to_owned(),
            Self::InvalidDate(_) => "invalid date value".to_owned(),
        }
    }
}

impl ParseChangesetError {
    /// The machine-stable description of each variant.
    pub open spec fn spec_message(&self) -> Seq<char> {
        match self {
            Self::InvalidInt(_) => "string is malformed"@,
            Self::Zero => "changeset value is zero"@,
        }
    }

    /// Short machine-stable description of the error.
    pub fn message(&self) -> (r: String)
        ensures
            r@ == self.spec_message(),
    {
        match self {
            Self::InvalidInt(_) => "string is malformed".to_owned(),
            Self::Zero => "changeset value is zero".to_owned(),
        }
    }
}

impl ParseKindError {
    /// The machine-stable description of each variant.
    pub open spec fn spec_message(&self) -> Seq<char> {
        match self {
            Self::NonAscii => "string contains non-ascii characters"@,
        }
    }

    /// Short machine-stable description of the error.
    pub fn message(&self) -> (r: String)
        ensures
            r@ == self.spec_message(),
    {
        match self {
            Self::NonAscii => "string contains non-ascii characters".to_owned(),
        }
    }
}

impl ParseError {
    /// The machine-stable description of each variant.
    pub open spec fn spec_message(&self) -> Seq<char> {
        match self {
            Self::NonAscii => "string contains non-ascii characters"@,
            Self::TooShort => "string is too short"@,
            Self::InvalidDate(_) => "invalid date component"@,
            Self::InvalidChangeset(_) => "invalid changeset component"@,
            Self::InvalidKind(_) => "invalid kind component"@,
            Self::TrailingData => "unexpected trailing data"@,
        }
    }

    /// Short machine-stable description of the error.
    pub fn message(&self) -> (r: String)
        ensures
            r@ == self.spec_message(),
    {
        match self {
            Self::NonAscii => "string contains non-ascii characters".to_owned(),
            Self::TooShort => "string is too short".to_owned(),
            Self::InvalidDate(_) => "invalid date component".to_owned(),
            Self::InvalidChangeset(_) => "invalid changeset component".to_owned(),
            Self::InvalidKind(_) => "invalid kind component".to_owned(),
            Self::TrailingData => "unexpected trailing data".to_owned(),
        }
    }
}

} // verus!
