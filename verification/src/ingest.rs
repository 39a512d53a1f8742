//! The ingestion pipeline: what each input line asks of the store.
//!
//! The pipeline holds the type-code string that the store was created
//! with, if it has one, and turns every line into the write that the line
//! calls for or into the failure that ends the run. It never touches the
//! store: the caller performs the writes inside one transaction, reports
//! how the engine answered each append, and commits only when every line
//! went through.

use crate::error::Error;
use crate::key::{encode_key, record_key};
use crate::line::{LineParts, LineView};
use crate::order::equal;
use crate::schema::{schema_of, Schema};
use crate::timestamp::{parse_timestamp, timestamp_of};
use crate::value::{encode_values, parse_values, parsed_values, row_bytes, Value};
use vstd::prelude::*;
use vstd::slice::slice_to_vec;
use vstd::string::StringSliceAdditionalSpecFns;
use vstd::utf8::encode_utf8;

verus! {

/// What one accepted line asks of the store.
#[derive(Debug)]
pub struct Write {
    /// The type-code string to store under the schema key before the
    /// append, where the store has no schema yet.
    pub schema: Option<Vec<u8>>,
    /// The key to append.
    pub key: Vec<u8>,
    /// The value blob to append under that key.
    pub value: Vec<u8>,
}

/// The contents of a [`Write`].
pub struct WriteView {
    pub schema: Option<Seq<u8>>,
    pub key: Seq<u8>,
    pub value: Seq<u8>,
}

impl View for Write {
    type V = WriteView;

    open spec fn view(&self) -> WriteView {
        WriteView {
            schema: match self.schema {
                Some(code) => Some(code@),
                None => None,
            },
            key: self.key@,
            value: self.value@,
        }
    }
}

/// What a line asks of a store whose type-code string is `stored`, where
/// `timestamp` is what the line's timestamp field parsed to. The checks
/// come in this order: the line's code against the stored one, the number
/// of value tokens against the length of the code, the timestamp, the
/// characters of the code, the value tokens from first to last.
pub open spec fn accepted_at(
    stored: Option<Seq<u8>>,
    line: LineView,
    timestamp: Option<u64>,
    floats: Seq<Option<Value>>,
) -> Result<WriteView, Error> {
    let code = encode_utf8(line.code);
    if stored is Some && stored != Some(code) {
        Err(Error::SchemaMismatch)
    } else if code.len() != line.values.len() {
        Err(Error::WrongFieldCount)
    } else {
        match timestamp {
            None => Err(Error::TimestampParseError),
            Some(nanos) => match schema_of(code) {
                None => Err(Error::UnknownTypeCode),
                Some(schema) => match parsed_values(schema, line.values, floats) {
                    Err(e) => Err(e),
                    Ok(values) => Ok(
                        WriteView {
                            schema: if stored is None {
                                Some(code)
                            } else {
                                None
                            },
                            key: record_key(line.name, nanos),
                            value: row_bytes(values),
                        },
                    ),
                },
            },
        }
    }
}

/// What a line asks of a store whose type-code string is `stored`.
pub open spec fn accepted(stored: Option<Seq<u8>>, line: LineView, floats: Seq<Option<Value>>)
    -> Result<WriteView, Error> {
    accepted_at(stored, line, timestamp_of(line.timestamp), floats)
}

/// The state of one write run.
#[derive(Debug)]
pub struct Ingestion {
    stored: Option<Vec<u8>>,
}

impl View for Ingestion {
    type V = Option<Seq<u8>>;

    /// The type-code string of the store as this run has left it so far.
    closed spec fn view(&self) -> Option<Seq<u8>> {
        match self.stored {
            Some(code) => Some(code@),
            None => None,
        }
    }
}

impl Ingestion {
    /// Starts a run on a store whose schema record holds `stored`, or on
    /// one without a schema record.
    pub fn begin(stored: Option<Vec<u8>>) -> (run: Ingestion)
        ensures
            run@ == match stored {
                Some(code) => Some(code@),
                None => None,
            },
    {
        Ingestion { stored }
    }

    /// Decides what a line asks of the store. `floats[i]` is what the
    /// floating-point parser made of value token `i`. On success the run
    /// goes on under the line's type-code string; on failure it is over and
    /// nothing of it may be committed.
    pub fn accept(&mut self, line: &LineParts, floats: &Vec<Option<Value>>) -> (r: Result<
        Write,
        Error,
    >)
        ensures
            match r {
                Ok(write) => accepted(old(self)@, line@, floats@) == Ok::<WriteView, Error>(write@)
                    && final(self)@ == Some(encode_utf8(line@.code)),
                Err(e) => accepted(old(self)@, line@, floats@) == Err::<WriteView, Error>(e)
                    && final(self)@ == old(self)@,
            },
    {
        let timestamp = match parse_timestamp(line.timestamp) {
            Ok(nanos) => Some(nanos),
            Err(_) => None,
        };
        self.accept_at(line, timestamp, floats)
    }

    /// Decides what a line asks of the store, given what its timestamp
    /// field parsed to: `None` where it did not parse.
    pub fn accept_at(
        &mut self,
        line: &LineParts,
        timestamp: Option<u64>,
        floats: &Vec<Option<Value>>,
    ) -> (r: Result<Write, Error>)
        ensures
            match r {
                Ok(write) => accepted_at(old(self)@, line@, timestamp, floats@) == Ok::<
                    WriteView,
                    Error,
                >(write@) && final(self)@ == Some(encode_utf8(line@.code)),
                Err(e) => accepted_at(old(self)@, line@, timestamp, floats@) == Err::<
                    WriteView,
                    Error,
                >(e) && final(self)@ == old(self)@,
            },
    {
        let code = line.code.as_bytes();
        let establishes = match &self.stored {
            Some(stored) => {
                if !equal(stored.as_slice(), code) {
                    return Err(Error::SchemaMismatch);
                }
                false
            },
            None => true,
        };
        if code.len() != line.values.len() {
            return Err(Error::WrongFieldCount);
        }
        let nanos = match timestamp {
            Some(nanos) => nanos,
            None => {
                return Err(Error::TimestampParseError);
            },
        };
        let schema = Schema::parse(code)?;
        let values = parse_values(&schema, &line.values, floats)?;
        let write = Write {
            schema: if establishes {
                Some(slice_to_vec(code))
            } else {
                None
            },
            key: encode_key(line.name, nanos),
            value: encode_values(&values),
        };
        if establishes {
            self.stored = Some(slice_to_vec(code));
        }
        Ok(write)
    }

    /// Turns the engine's answer to an append into the outcome of the line:
    /// a key that the engine refused was not in order.
    pub fn appended(stored: bool) -> (r: Result<(), Error>)
        ensures
            r == if stored {
                Ok::<(), Error>(())
            } else {
                Err::<(), Error>(Error::OutOfOrderInsertion)
            },
    {
        if stored {
            Ok(())
        } else {
            Err(Error::OutOfOrderInsertion)
        }
    }
}

} // verus!
