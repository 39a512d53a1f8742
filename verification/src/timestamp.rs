//! Timestamps: calendar text on the outside, unsigned nanoseconds in a key.
//!
//! The text form is `YYYY-MM-DDTHH:MM:SS[.fraction]`. Parsing counts signed
//! nanoseconds since the epoch and stores the count's 64 bits as an unsigned
//! number, so an instant before 1970 is stored as a number above every
//! instant after it.

use crate::bigendian::as_unsigned;
use crate::error::Error;
use chrono::{DateTime, NaiveDateTime};
use std::fmt::Write;
use vstd::prelude::*;

verus! {

/// Nanoseconds in a second.
pub const ONE_BILLION: u64 = 1_000_000_000;

/// The text form of a timestamp, as a `strftime` pattern.
pub const DATETIME_FORMAT: &'static str = "%FT%T%.f";

/// The characters of [`DATETIME_FORMAT`].
pub open spec fn datetime_format() -> Seq<char> {
    DATETIME_FORMAT@
}

/// The signed nanoseconds since the epoch that `text` denotes under the
/// pattern `format`; `None` where the text does not match the pattern, names
/// no instant, or names one whose count does not fit 64 bits.
pub uninterp spec fn datetime_nanos(text: Seq<char>, format: Seq<char>) -> Option<i64>;

/// The text, under the pattern `format`, of the instant `secs` seconds and
/// `nanos` nanoseconds after the epoch; `None` where the calendar has no
/// such instant or the pattern is not one.
pub uninterp spec fn datetime_text(secs: i64, nanos: u32, format: Seq<char>) -> Option<Seq<char>>;

/// `chrono::NaiveDateTime::parse_from_str`, then `and_utc` and
/// `DateTime::timestamp_nanos_opt` on what it gives: the nanosecond count of
/// the instant that the text denotes.
#[verifier::external_body]
fn parse_datetime(text: &str, format: &str) -> (r: Option<i64>)
    ensures
        r == datetime_nanos(text@, format@),
{
    match NaiveDateTime::parse_from_str(text, format) {
        Ok(instant) => instant.and_utc().timestamp_nanos_opt(),
        Err(_) => None,
    }
}

/// `chrono::DateTime::from_timestamp`, then `naive_utc` and
/// `NaiveDateTime::format` on what it gives: the text of an instant.
#[verifier::external_body]
fn format_datetime(secs: i64, nanos: u32, format: &str) -> (r: Option<String>)
    ensures
        r is Some == datetime_text(secs, nanos, format@) is Some,
        r matches Some(text) ==> datetime_text(secs, nanos, format@) == Some(text@),
{
    let mut text = String::new();
    match DateTime::from_timestamp(secs, nanos) {
        Some(instant) => match write!(text, "{}", instant.naive_utc().format(format)) {
            Ok(()) => Some(text),
            Err(_) => None,
        },
        None => None,
    }
}

/// The unsigned number that holds the 64 bits of a signed nanosecond count.
pub open spec fn stored_nanos(count: i64) -> u64 {
    as_unsigned(count as int, 0x1_0000_0000_0000_0000) as u64
}

/// The stored timestamp that `text` denotes, if it denotes one.
pub open spec fn timestamp_of(text: Seq<char>) -> Option<u64> {
    match datetime_nanos(text, datetime_format()) {
        Some(count) => Some(stored_nanos(count)),
        None => None,
    }
}

/// The whole seconds and the nanoseconds beyond them in a stored timestamp.
pub open spec fn clock_parts(nanos: u64) -> (i64, u32) {
    ((nanos / ONE_BILLION) as i64, (nanos % ONE_BILLION) as u32)
}

/// The text of a stored timestamp, if the calendar reaches it.
pub open spec fn timestamp_text(nanos: u64) -> Option<Seq<char>> {
    datetime_text(clock_parts(nanos).0, clock_parts(nanos).1, datetime_format())
}

/// Reinterprets a signed nanosecond count as the unsigned number stored in a key.
pub fn to_stored(count: i64) -> (nanos: u64)
    ensures
        nanos == stored_nanos(count),
        count >= 0 ==> nanos == count,
        count < 0 ==> nanos == count + 0x1_0000_0000_0000_0000,
{
    if count >= 0 {
        count as u64
    } else {
        ((count + 0x7fff_ffff_ffff_ffff) + 1) as u64 + 0x8000_0000_0000_0000
    }
}

/// Splits a stored timestamp into whole seconds and nanoseconds.
pub fn split_nanos(nanos: u64) -> (parts: (i64, u32))
    ensures
        parts == clock_parts(nanos),
        0 <= parts.0 <= 18_446_744_073,
        parts.1 < ONE_BILLION,
        parts.0 * ONE_BILLION + parts.1 == nanos,
{
    ((nanos / ONE_BILLION) as i64, (nanos % ONE_BILLION) as u32)
}

/// Parses the text form of a timestamp into the number stored in a key.
pub fn parse_timestamp(text: &str) -> (r: Result<u64, Error>)
    ensures
        match r {
            Ok(nanos) => timestamp_of(text@) == Some(nanos),
            Err(e) => e == Error::TimestampParseError && timestamp_of(text@) is None,
        },
{
    match parse_datetime(text, DATETIME_FORMAT) {
        Some(count) => Ok(to_stored(count)),
        None => Err(Error::TimestampParseError),
    }
}

/// Writes a stored timestamp in its text form.
pub fn format_timestamp(nanos: u64) -> (r: Result<String, Error>)
    ensures
        match r {
            Ok(text) => timestamp_text(nanos) == Some(text@),
            Err(e) => e == Error::TimestampOutOfRange && timestamp_text(nanos) is None,
        },
{
    let (secs, rest) = split_nanos(nanos);
    match format_datetime(secs, rest, DATETIME_FORMAT) {
        Some(text) => Ok(text),
        None => Err(Error::TimestampOutOfRange),
    }
}

} // verus!
