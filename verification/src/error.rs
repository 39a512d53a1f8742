//! The ways a write, a read or a metadata query can fail.

use vstd::prelude::*;

verus! {

/// One of the three leading fields of an input line.
#[derive(Debug, Clone, Copy, PartialEq, Eq, Structural)]
pub enum Field {
    Name,
    Timestamp,
    Code,
}

/// Every failure is terminal for the run that met it.
#[derive(Debug, Clone, Copy, PartialEq, Eq, Structural)]
pub enum Error {
    /// An input line ends before its name, its timestamp or its type-code string.
    MissingField(Field),
    /// A type-code string holds a character that names no value type.
    UnknownTypeCode,
    /// The number of value tokens differs from the length of the type-code string.
    WrongFieldCount,
    /// The timestamp does not parse, or does not fit a signed 64-bit nanosecond count.
    TimestampParseError,
    /// The value token of column `field` does not parse as that column's type.
    NumericParseError { field: usize },
    /// The type-code string differs from the one the database was created with.
    SchemaMismatch,
    /// The engine refused a key that is not greater than every key it holds.
    OutOfOrderInsertion,
    /// The database file is missing or was never written.
    DatabaseNotFound,
    /// A stored key is shorter than a timestamp or its name is not UTF-8.
    MalformedKey,
    /// A stored type-code string is not UTF-8.
    Utf8DecodeError,
    /// A stored value blob ends before the last column of the schema.
    TruncatedValue,
    /// A stored timestamp is beyond the calendar.
    TimestampOutOfRange,
    /// A name filter is not a well-formed glob pattern.
    InvalidPattern,
}

impl Error {
    /// The text of the message that describes this failure.
    pub open spec fn spec_message(self) -> Seq<char> {
        match self {
            Error::MissingField(Field::Name) => "missing text"@,
            Error::MissingField(Field::Timestamp) => "missing date"@,
            Error::MissingField(Field::Code) => "missing code"@,
            Error::UnknownTypeCode => "invalid code character"@,
            Error::WrongFieldCount => "wrong number of values"@,
            Error::TimestampParseError => "invalid timestamp"@,
            Error::NumericParseError { .. } => "invalid numeric value"@,
            Error::SchemaMismatch => "invalid code"@,
            Error::OutOfOrderInsertion => "inserted value not ordered"@,
            Error::DatabaseNotFound => "database not found"@,
            Error::MalformedKey => "malformed key"@,
            Error::Utf8DecodeError => "stored code is not valid UTF-8"@,
            Error::TruncatedValue => "stored value is too short"@,
            Error::TimestampOutOfRange => "stored timestamp is out of range"@,
            Error::InvalidPattern => "invalid filter pattern"@,
        }
    }

    /// A human-readable description of this failure.
    pub fn message(&self) -> (text: &'static str)
        ensures
            text@ == self.spec_message(),
    {
        match self {
            Error::MissingField(Field::Name) => "missing text",
            Error::MissingField(Field::Timestamp) => "missing date",
            Error::MissingField(Field::Code) => "missing code",
            Error::UnknownTypeCode => "invalid code character",
            Error::WrongFieldCount => "wrong number of values",
            Error::TimestampParseError => "invalid timestamp",
            Error::NumericParseError { .. } => "invalid numeric value",
            Error::SchemaMismatch => "invalid code",
            Error::OutOfOrderInsertion => "inserted value not ordered",
            Error::DatabaseNotFound => "database not found",
            Error::MalformedKey => "malformed key",
            Error::Utf8DecodeError => "stored code is not valid UTF-8",
            Error::TruncatedValue => "stored value is too short",
            Error::TimestampOutOfRange => "stored timestamp is out of range",
            Error::InvalidPattern => "invalid filter pattern",
        }
    }
}

} // verus!
