//! The metadata report: the schema of a store and the number of its points.

use crate::decimal::{decimal_text, render_u64};
use crate::error::Error;
use crate::key::utf8_text;
use vstd::prelude::*;
use vstd::string::StringExecFns;
use vstd::utf8::{decode_utf8, valid_utf8};

verus! {

/// What a metadata query reports.
#[derive(Debug)]
pub struct Info {
    /// The type-code string of the store, where it has one.
    pub schema: Option<String>,
    /// The number of data points: every record but the schema record.
    pub entries: u64,
}

/// The contents of an [`Info`].
pub struct InfoView {
    pub schema: Option<Seq<char>>,
    pub entries: u64,
}

impl View for Info {
    type V = InfoView;

    open spec fn view(&self) -> InfoView {
        InfoView {
            schema: match self.schema {
                Some(text) => Some(text@),
                None => None,
            },
            entries: self.entries,
        }
    }
}

/// The number of data points among `total` records, one of which is the
/// schema record unless there is none at all.
pub open spec fn entries_among(total: u64) -> u64 {
    if total == 0 {
        0
    } else {
        (total - 1) as u64
    }
}

/// What there is to report of a store that holds `total` records and
/// `stored` under its schema key.
pub open spec fn described(stored: Option<Seq<u8>>, total: u64) -> Result<InfoView, Error> {
    match stored {
        Some(code) => if valid_utf8(code) {
            Ok(InfoView { schema: Some(decode_utf8(code)), entries: entries_among(total) })
        } else {
            Err(Error::Utf8DecodeError)
        },
        None => Ok(InfoView { schema: None, entries: entries_among(total) }),
    }
}

/// The lines of a report: the schema line, where there is a schema, then
/// the entry count.
pub open spec fn report_lines(info: InfoView) -> Seq<Seq<char>> {
    let count = "number of entries: "@ + decimal_text(info.entries as int);
    match info.schema {
        Some(code) => seq!["values code: "@ + code, count],
        None => seq![count],
    }
}

/// Gathers what a metadata query reports of a store that holds `total`
/// records and `stored` under its schema key.
pub fn describe(stored: Option<&[u8]>, total: u64) -> (r: Result<Info, Error>)
    ensures
        match r {
            Ok(info) => described(
                match stored {
                    Some(code) => Some(code@),
                    None => None,
                },
                total,
            ) == Ok::<InfoView, Error>(info@),
            Err(e) => described(
                match stored {
                    Some(code) => Some(code@),
                    None => None,
                },
                total,
            ) == Err::<InfoView, Error>(e),
        },
{
    let entries = total.saturating_sub(1);
    match stored {
        Some(code) => match utf8_text(code) {
            Some(text) => Ok(Info { schema: Some(String::from_str(text)), entries }),
            None => Err(Error::Utf8DecodeError),
        },
        None => Ok(Info { schema: None, entries }),
    }
}

impl Info {
    /// The lines of the report, without line terminators.
    pub fn lines(&self) -> (lines: Vec<String>)
        ensures
            lines@.len() == report_lines(self@).len(),
            forall|i: int|
                0 <= i < lines@.len() ==> lines@[i]@ == #[trigger] report_lines(self@)[i],
    {
        let mut lines: Vec<String> = Vec::new();
        match &self.schema {
            Some(code) => {
                let mut line = String::from_str("values code: ");
                line.append(code.as_str());
                lines.push(line);
            },
            None => {},
        }
        let mut count = String::from_str("number of entries: ");
        let digits = render_u64(self.entries);
        count.append(digits.as_str());
        lines.push(count);
        lines
    }
}

} // verus!
