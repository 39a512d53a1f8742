//! The query engine: which stored records a read visits and which it keeps.
//!
//! Without a filter, or with a glob pattern, a read visits every record
//! behind the schema record. With a literal name it visits only the span of
//! keys between that name at time zero and that name at the greatest time.
//! Every visited record is decoded, and kept where its name passes the
//! filter.

use crate::error::Error;
use crate::bigendian::lemma_be_bytes_len;
use crate::key::{
    decode_key, encode_key, key_parts, lemma_key_order_is_time_order, lemma_sentinel_is_least,
    record_key, sentinel, sentinel_key,
};
use crate::order::{
    bytes_at_most, bytes_less, equal, lemma_less_asymmetric, lemma_less_irreflexive, less,
};
use crate::schema::{schema_of, total_width, Code, Schema};
use crate::timestamp::{format_timestamp, timestamp_text};
use crate::value::{decode_values, row_of, Value};
use crate::line::{format_line, line_text, string_texts};
use glob::Pattern;
use vstd::prelude::*;
use vstd::string::StringSliceAdditionalSpecFns;
use vstd::utf8::encode_utf8;

verus! {

/// Whether a character is special in a glob pattern outside brackets.
pub open spec fn is_meta(c: char) -> bool {
    c == '?' || c == '*' || c == '[' || c == ']'
}

/// Whether a filter holds no glob metacharacter, so that it names one series.
pub open spec fn is_literal(filter: Seq<char>) -> bool {
    forall|i: int| 0 <= i < filter.len() ==> !is_meta(#[trigger] filter[i])
}

/// The text with each glob metacharacter put between brackets.
pub open spec fn escaped(text: Seq<char>) -> Seq<char>
    decreases text.len(),
{
    if text.len() == 0 {
        Seq::empty()
    } else if is_meta(text.last()) {
        escaped(text.drop_last()) + seq!['[', text.last(), ']']
    } else {
        escaped(text.drop_last()).push(text.last())
    }
}

/// Whether `name` matches the glob `pattern` under the default match
/// options; `None` where `pattern` is not a well-formed glob.
pub uninterp spec fn glob_match(pattern: Seq<char>, name: Seq<char>) -> Option<bool>;

/// `glob::Pattern::escape`: every `?`, `*`, `[` and `]` is put between
/// brackets, every other character is kept.
#[verifier::external_body]
fn glob_escape(text: &str) -> (r: String)
    ensures
        r@ == escaped(text@),
{
    Pattern::escape(text)
}

/// `glob::Pattern::new`, then `Pattern::matches` on what it gives: whether
/// the name matches the pattern.
#[verifier::external_body]
fn glob_matches(pattern: &str, name: &str) -> (r: Option<bool>)
    ensures
        r == glob_match(pattern@, name@),
{
    match Pattern::new(pattern) {
        Ok(compiled) => Some(compiled.matches(name)),
        Err(_) => None,
    }
}

/// Escaping never shortens a text, keeps a literal text as it is, and
/// lengthens every other.
pub proof fn lemma_escaped(text: Seq<char>)
    ensures
        escaped(text).len() >= text.len(),
        is_literal(text) ==> escaped(text) == text,
        !is_literal(text) ==> escaped(text).len() > text.len(),
        (escaped(text) == text) == is_literal(text),
    decreases text.len(),
{
    if text.len() > 0 {
        let front = text.drop_last();
        lemma_escaped(front);
        if is_meta(text.last()) {
            assert(!is_literal(text));
        } else if is_literal(front) {
            assert forall|i: int| 0 <= i < text.len() implies !is_meta(#[trigger] text[i]) by {
                if i < front.len() {
                    assert(front[i] == text[i]);
                }
            }
            assert(escaped(text) =~= text);
        } else {
            let i = choose|i: int| 0 <= i < front.len() && is_meta(#[trigger] front[i]);
            assert(text[i] == front[i]);
        }
    } else {
        assert(escaped(text) =~= text);
    }
}

/// How a read walks the store.
#[derive(Debug, Clone, Copy)]
pub enum Scan<'a> {
    /// Every record.
    All,
    /// The records of the one series of this name.
    Series(&'a str),
    /// The records whose series name matches this glob pattern.
    Matching(&'a str),
}

/// The span of keys that a read visits.
#[derive(Debug)]
pub struct Bounds {
    /// Where the span begins.
    pub first: Vec<u8>,
    /// Whether the span holds `first` itself.
    pub first_included: bool,
    /// The last key of the span; `None` where it runs to the end of the store.
    pub last: Option<Vec<u8>>,
}

impl<'a> Scan<'a> {
    /// The scan that a filter calls for.
    pub open spec fn spec_plan(filter: Option<&'a str>) -> Scan<'a> {
        match filter {
            None => Scan::All,
            Some(text) => if is_literal(text@) {
                Scan::Series(text)
            } else {
                Scan::Matching(text)
            },
        }
    }

    /// Where the span of this scan begins: at the earliest key of the
    /// series, or at the schema key.
    pub open spec fn first_key(self) -> Seq<u8> {
        match self {
            Scan::Series(name) => record_key(name@, 0),
            _ => sentinel_key(),
        }
    }

    /// Whether the span holds its first key: never where that is the schema key.
    pub open spec fn first_included(self) -> bool {
        self.first_key() != sentinel_key()
    }

    /// The last key of the span, where it has one.
    pub open spec fn last_key(self) -> Option<Seq<u8>> {
        match self {
            Scan::Series(name) => Some(record_key(name@, u64::MAX)),
            _ => None,
        }
    }

    /// Whether this scan visits the record stored under `key`.
    pub open spec fn visits(self, key: Seq<u8>) -> bool {
        &&& bytes_less(self.first_key(), key) || (self.first_included() && self.first_key() == key)
        &&& match self.last_key() {
            Some(last) => bytes_at_most(key, last),
            None => true,
        }
    }

    /// Whether this scan keeps the records of series `name`: `None` where
    /// the pattern of the scan is not a well-formed glob.
    pub open spec fn keeps(self, name: Seq<char>) -> Option<bool> {
        match self {
            Scan::All => Some(true),
            Scan::Series(series) => Some(name == series@),
            Scan::Matching(pattern) => glob_match(pattern@, name),
        }
    }

    /// Chooses the scan for a filter: everything without one, one series
    /// for a literal name, a pattern match otherwise.
    pub fn plan(filter: Option<&'a str>) -> (scan: Scan<'a>)
        ensures
            scan == Self::spec_plan(filter),
    {
        match filter {
            None => Scan::All,
            Some(text) => {
                let escaped_text = glob_escape(text);
                proof {
                    lemma_escaped(text@);
                    vstd::utf8::encode_utf8_decode_utf8(text@);
                    vstd::utf8::encode_utf8_decode_utf8(escaped_text@);
                }
                if equal(escaped_text.as_str().as_bytes(), text.as_bytes()) {
                    Scan::Series(text)
                } else {
                    Scan::Matching(text)
                }
            },
        }
    }

    /// The span of keys to visit.
    pub fn bounds(&self) -> (span: Bounds)
        ensures
            span.first@ == self.first_key(),
            span.first_included == self.first_included(),
            match span.last {
                Some(last) => self.last_key() == Some(last@),
                None => self.last_key() is None,
            },
    {
        match self {
            Scan::Series(name) => {
                let first = encode_key(name, 0);
                let schema_key = sentinel();
                let first_included = !equal(first.as_slice(), schema_key.as_slice());
                Bounds { first, first_included, last: Some(encode_key(name, u64::MAX)) }
            },
            _ => Bounds { first: sentinel(), first_included: false, last: None },
        }
    }

    /// Whether the span of this scan holds `key`.
    pub fn reaches(&self, key: &[u8]) -> (r: bool)
        ensures
            r == self.visits(key@),
    {
        let span = self.bounds();
        let begun = less(span.first.as_slice(), key) || (span.first_included && equal(
            span.first.as_slice(),
            key,
        ));
        let ended = match &span.last {
            Some(last) => !(equal(key, last.as_slice()) || less(key, last.as_slice())),
            None => false,
        };
        begun && !ended
    }

    /// Whether the records of series `name` are kept.
    pub fn selects(&self, name: &str) -> (r: Result<bool, Error>)
        ensures
            match r {
                Ok(kept) => self.keeps(name@) == Some(kept),
                Err(e) => e == Error::InvalidPattern && self.keeps(name@) is None,
            },
    {
        match self {
            Scan::All => Ok(true),
            Scan::Series(series) => {
                proof {
                    vstd::utf8::encode_utf8_decode_utf8(name@);
                    vstd::utf8::encode_utf8_decode_utf8(series@);
                }
                Ok(equal(name.as_bytes(), series.as_bytes()))
            },
            Scan::Matching(pattern) => match glob_matches(pattern, name) {
                Some(kept) => Ok(kept),
                None => Err(Error::InvalidPattern),
            },
        }
    }
}

/// A decoded data point.
#[derive(Debug)]
pub struct Row<'a> {
    pub name: &'a str,
    pub nanos: u64,
    pub values: Vec<Value>,
}

/// The contents of a [`Row`].
pub struct RowView {
    pub name: Seq<char>,
    pub nanos: u64,
    pub values: Seq<Value>,
}

impl<'a> View for Row<'a> {
    type V = RowView;

    open spec fn view(&self) -> RowView {
        RowView { name: self.name@, nanos: self.nanos, values: self.values@ }
    }
}

/// What a read makes of one visited record: the decoded point where the
/// scan keeps its series, `None` where it does not, and a failure where
/// the key is malformed, the pattern is none, or the value blob ends early.
pub open spec fn record_read(scan: Scan, schema: Seq<Code>, key: Seq<u8>, value: Seq<u8>) -> Result<
    Option<RowView>,
    Error,
> {
    match key_parts(key) {
        None => Err(Error::MalformedKey),
        Some((name, nanos)) => match scan.keeps(name) {
            None => Err(Error::InvalidPattern),
            Some(false) => Ok(None),
            Some(true) => if total_width(schema) <= value.len() {
                Ok(Some(RowView { name, nanos, values: row_of(schema, value) }))
            } else {
                Err(Error::TruncatedValue)
            },
        },
    }
}

/// The output line of a data point, given the texts of its values; `None`
/// where the calendar does not reach its timestamp.
pub open spec fn row_line(row: RowView, values: Seq<Seq<char>>) -> Option<Seq<char>> {
    match timestamp_text(row.nanos) {
        Some(timestamp) => Some(line_text(row.name, timestamp, values)),
        None => None,
    }
}

impl<'a> Row<'a> {
    /// Writes the output line of this point. `values` holds the text of
    /// each of its values, in order.
    pub fn line(&self, values: &Vec<String>) -> (r: Result<String, Error>)
        ensures
            match r {
                Ok(line) => row_line(self@, string_texts(values@)) == Some(line@),
                Err(e) => e == Error::TimestampOutOfRange && row_line(
                    self@,
                    string_texts(values@),
                ) is None,
            },
    {
        let timestamp = format_timestamp(self.nanos)?;
        Ok(format_line(self.name, timestamp.as_str(), values))
    }
}

/// The state of one read: the schema of the store and the scan chosen.
#[derive(Debug)]
pub struct Reader<'a> {
    schema: Schema,
    scan: Scan<'a>,
}

impl<'a> Reader<'a> {
    /// The schema that the store was created with.
    pub closed spec fn schema(&self) -> Seq<Code> {
        self.schema@
    }

    /// The scan that the filter called for.
    pub closed spec fn scan(&self) -> Scan<'a> {
        self.scan
    }

    /// Prepares a read of a store whose first record holds `stored`, the
    /// type-code string under the schema key. A store without any record
    /// has nothing to read: the result is `None`.
    pub fn open(stored: Option<&[u8]>, filter: Option<&'a str>) -> (r: Result<
        Option<Reader<'a>>,
        Error,
    >)
        ensures
            match (stored, r) {
                (None, Ok(None)) => true,
                (Some(code), Ok(Some(reader))) => schema_of(code@) == Some(reader.schema())
                    && reader.scan() == Scan::spec_plan(filter),
                (Some(code), Err(e)) => e == Error::UnknownTypeCode && schema_of(code@) is None,
                _ => false,
            },
    {
        match stored {
            None => Ok(None),
            Some(code) => {
                let schema = Schema::parse(code)?;
                Ok(Some(Reader { schema, scan: Scan::plan(filter) }))
            },
        }
    }

    /// The span of keys to visit.
    pub fn bounds(&self) -> (span: Bounds)
        ensures
            span.first@ == self.scan().first_key(),
            span.first_included == self.scan().first_included(),
            match span.last {
                Some(last) => self.scan().last_key() == Some(last@),
                None => self.scan().last_key() is None,
            },
    {
        self.scan.bounds()
    }

    /// Decodes one visited record and decides whether the read keeps it.
    pub fn read<'b>(&self, key: &'b [u8], value: &[u8]) -> (r: Result<Option<Row<'b>>, Error>)
        ensures
            match r {
                Ok(Some(row)) => record_read(self.scan(), self.schema(), key@, value@) == Ok::<
                    Option<RowView>,
                    Error,
                >(Some(row@)),
                Ok(None) => record_read(self.scan(), self.schema(), key@, value@) == Ok::<
                    Option<RowView>,
                    Error,
                >(None),
                Err(e) => record_read(self.scan(), self.schema(), key@, value@) == Err::<
                    Option<RowView>,
                    Error,
                >(e),
            },
    {
        let (name, nanos) = decode_key(key)?;
        if !self.scan.selects(name)? {
            return Ok(None);
        }
        let values = decode_values(&self.schema, value)?;
        Ok(Some(Row { name, nanos, values }))
    }
}

/// A scan of one series visits every record of that series.
pub proof fn lemma_series_is_visited(series: &str, nanos: u64)
    requires
        record_key(series@, nanos) != sentinel_key(),
    ensures
        Scan::Series(series).visits(record_key(series@, nanos)),
{
    lemma_key_order_is_time_order(series@, 0, nanos);
    lemma_key_order_is_time_order(series@, nanos, u64::MAX);
}

/// A scan without a series to bound it visits every record whose key
/// holds a timestamp.
pub proof fn lemma_all_is_visited(scan: Scan, key: Seq<u8>)
    requires
        !(scan is Series),
        key.len() >= 8,
        key != sentinel_key(),
    ensures
        scan.visits(key),
{
    lemma_sentinel_is_least(key);
}

/// No scan visits the schema record.
pub proof fn law_schema_record_is_skipped(scan: Scan)
    ensures
        !scan.visits(sentinel_key()),
{
    lemma_less_irreflexive(sentinel_key());
    if let Scan::Series(name) = scan {
        if bytes_less(record_key(name@, 0), sentinel_key()) {
            lemma_key_order_is_time_order(name@, 0, 0);
            lemma_be_bytes_len(0, 8);
            lemma_sentinel_is_least(record_key(name@, 0));
            lemma_less_asymmetric(record_key(name@, 0), sentinel_key());
        }
    }
}

} // verus!
