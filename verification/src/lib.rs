//! Chronologic version numbers: a calendar date, an optional changeset
//! counter, and an optional release qualifier, written
//! `YYYY.MM.DD[.CHANGESET][-KIND]`.

pub mod changeset;
pub mod date;
pub mod digits;
pub mod error;
pub mod kind;
pub mod laws;
pub mod version;

pub use changeset::Changeset;
pub use date::Date;
pub use error::{
    IntErrorKind, InvalidDateError, InvalidIntError, InvalidMonthError, ParseChangesetError,
    ParseDateError, ParseError, ParseKindError,
};
pub use kind::Kind;
pub use version::Version;
