//! The three commands and how each of them opens the database.

use crate::error::Error;
use vstd::prelude::*;

verus! {

/// What a process run does with a database.
#[derive(Debug, Clone, Copy, PartialEq, Eq, Structural)]
pub enum Command {
    /// Ingests the lines of the input stream.
    Write,
    /// Prints the points that pass the filter.
    Read,
    /// Prints the schema and the number of points.
    Infos,
}

/// The access that a run takes on the database file.
#[derive(Debug, Clone, Copy, PartialEq, Eq, Structural)]
pub enum OpenMode {
    /// One writer at a time; the file is created where it is missing.
    ReadWriteExclusive,
    /// Any number of readers, none of which takes the writer lock.
    ReadOnlyShared,
}

impl Command {
    /// The access that this command needs: only `Write` writes.
    pub open spec fn spec_open_mode(self) -> OpenMode {
        if self == Command::Write {
            OpenMode::ReadWriteExclusive
        } else {
            OpenMode::ReadOnlyShared
        }
    }

    /// The access that this command needs.
    #[verifier::when_used_as_spec(spec_open_mode)]
    pub fn open_mode(self) -> (mode: OpenMode)
        ensures
            mode == self.spec_open_mode(),
    {
        match self {
            Command::Write => OpenMode::ReadWriteExclusive,
            Command::Read | Command::Infos => OpenMode::ReadOnlyShared,
        }
    }
}

/// Turns what opening the database for reading gave into the database or
/// the failure of the command: a read needs a database that exists.
pub fn opened<T>(database: Option<T>) -> (r: Result<T, Error>)
    ensures
        match database {
            Some(found) => r == Ok::<T, Error>(found),
            None => r == Err::<T, Error>(Error::DatabaseNotFound),
        },
{
    match database {
        Some(found) => Ok(found),
        None => Err(Error::DatabaseNotFound),
    }
}

} // verus!
