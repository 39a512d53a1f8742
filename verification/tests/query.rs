use fanfare::error::Error;
use fanfare::key::{encode_key, sentinel};
use fanfare::query::{Reader, Scan};
use fanfare::value::Value;

#[test]
fn no_filter_scans_everything() {
    assert!(matches!(Scan::plan(None), Scan::All));
}

#[test]
fn a_filter_without_metacharacters_names_one_series() {
    assert!(matches!(Scan::plan(Some("air-1")), Scan::Series("air-1")));
    assert!(matches!(Scan::plan(Some("a!b")), Scan::Series("a!b")));
    assert!(matches!(Scan::plan(Some("")), Scan::Series("")));
}

#[test]
fn a_filter_with_a_metacharacter_is_a_pattern() {
    for text in ["air-*", "air-?", "air-[12]", "a]", "*"] {
        assert!(matches!(Scan::plan(Some(text)), Scan::Matching(t) if t == text));
    }
}

#[test]
fn full_scan_starts_behind_the_schema_key() {
    let span = Scan::All.bounds();
    assert_eq!(span.first, sentinel());
    assert!(!span.first_included);
    assert_eq!(span.last, None);
    let span = Scan::Matching("a*").bounds();
    assert_eq!(span.first, sentinel());
    assert!(!span.first_included);
    assert_eq!(span.last, None);
}

#[test]
fn series_scan_spans_the_times_of_the_series() {
    let span = Scan::Series("air-1").bounds();
    assert_eq!(span.first, encode_key("air-1", 0));
    assert!(span.first_included);
    assert_eq!(span.last, Some(encode_key("air-1", u64::MAX)));
}

#[test]
fn series_scan_of_the_empty_name_leaves_the_schema_key_out() {
    let span = Scan::Series("").bounds();
    assert_eq!(span.first, sentinel());
    assert!(!span.first_included);
    assert_eq!(span.last, Some(vec![0xff; 8]));
}

#[test]
fn no_scan_reaches_the_schema_key() {
    for scan in [Scan::All, Scan::Series(""), Scan::Series("a"), Scan::Matching("*")] {
        assert!(!scan.reaches(&sentinel()));
    }
}

#[test]
fn series_scan_reaches_every_time_of_its_series() {
    let scan = Scan::Series("air-1");
    for nanos in [0, 1, 979_387_754_026_490_000, u64::MAX] {
        assert!(scan.reaches(&encode_key("air-1", nanos)));
    }
    assert!(!scan.reaches(&encode_key("air-0", 5)));
    assert!(!scan.reaches(&encode_key("air-2", 5)));
    assert!(!scan.reaches(&encode_key("air", u64::MAX)));
}

#[test]
fn series_scan_may_reach_longer_names_that_it_does_not_keep() {
    let scan = Scan::Series("air");
    let key = encode_key("air-1", 5);
    assert!(scan.reaches(&key));
    assert_eq!(scan.selects("air-1"), Ok(false));
}

#[test]
fn full_scan_reaches_every_other_key() {
    for key in [encode_key("", 1), encode_key("\0", 0), encode_key("a", 0), encode_key("zz", u64::MAX)] {
        assert!(Scan::All.reaches(&key));
        assert!(Scan::Matching("q*").reaches(&key));
    }
}

#[test]
fn all_keeps_every_name() {
    assert_eq!(Scan::All.selects("anything"), Ok(true));
    assert_eq!(Scan::All.selects(""), Ok(true));
}

#[test]
fn series_keeps_its_own_name_only() {
    let scan = Scan::Series("air-1");
    assert_eq!(scan.selects("air-1"), Ok(true));
    assert_eq!(scan.selects("air-10"), Ok(false));
    assert_eq!(scan.selects("air-"), Ok(false));
    assert_eq!(scan.selects("AIR-1"), Ok(false));
    assert_eq!(scan.selects(""), Ok(false));
}

#[test]
fn pattern_keeps_the_names_that_match() {
    let scan = Scan::Matching("air-*");
    assert_eq!(scan.selects("air-1"), Ok(true));
    assert_eq!(scan.selects("air-"), Ok(true));
    assert_eq!(scan.selects("air-north-2"), Ok(true));
    assert_eq!(scan.selects("air"), Ok(false));
    assert_eq!(scan.selects("sea-1"), Ok(false));
    let scan = Scan::Matching("air-?");
    assert_eq!(scan.selects("air-1"), Ok(true));
    assert_eq!(scan.selects("air-10"), Ok(false));
    let scan = Scan::Matching("air-[12]");
    assert_eq!(scan.selects("air-1"), Ok(true));
    assert_eq!(scan.selects("air-2"), Ok(true));
    assert_eq!(scan.selects("air-3"), Ok(false));
    let scan = Scan::Matching("air-[!12]");
    assert_eq!(scan.selects("air-3"), Ok(true));
    assert_eq!(scan.selects("air-1"), Ok(false));
}

#[test]
fn a_malformed_pattern_is_an_error() {
    assert_eq!(Scan::Matching("air-[1").selects("air-1"), Err(Error::InvalidPattern));
    assert_eq!(Scan::Matching("a***b").selects("ab"), Err(Error::InvalidPattern));
}

#[test]
fn a_store_without_records_has_nothing_to_read() {
    assert!(Reader::open(None, None).unwrap().is_none());
    assert!(Reader::open(None, Some("air-1")).unwrap().is_none());
}

#[test]
fn a_stored_code_with_an_unknown_character_cannot_be_read() {
    assert_eq!(Reader::open(Some(b"fz"), None).unwrap_err(), Error::UnknownTypeCode);
}

#[test]
fn reader_decodes_a_record() {
    let reader = Reader::open(Some(b"ui"), None).unwrap().unwrap();
    let key = encode_key("air-1", 42);
    let row = reader.read(&key, &[0, 0, 0, 7, 0xff, 0xff, 0xff, 0xff]).unwrap().unwrap();
    assert_eq!(row.name, "air-1");
    assert_eq!(row.nanos, 42);
    assert_eq!(row.values, vec![Value::Unsigned(7), Value::Signed(-1)]);
}

#[test]
fn reader_drops_records_of_other_series() {
    let reader = Reader::open(Some(b"u"), Some("air-1")).unwrap().unwrap();
    assert!(reader.read(&encode_key("air-1", 1), &[0, 0, 0, 7]).unwrap().is_some());
    assert!(reader.read(&encode_key("air-10", 1), &[0, 0, 0, 7]).unwrap().is_none());
    let reader = Reader::open(Some(b"u"), Some("air-*")).unwrap().unwrap();
    assert!(reader.read(&encode_key("air-10", 1), &[0, 0, 0, 7]).unwrap().is_some());
    assert!(reader.read(&encode_key("sea-1", 1), &[0, 0, 0, 7]).unwrap().is_none());
}

#[test]
fn reader_bounds_are_those_of_its_scan() {
    let reader = Reader::open(Some(b"u"), Some("air-1")).unwrap().unwrap();
    let span = reader.bounds();
    assert_eq!(span.first, encode_key("air-1", 0));
    assert!(span.first_included);
    assert_eq!(span.last, Some(encode_key("air-1", u64::MAX)));
    let reader = Reader::open(Some(b"u"), Some("air-?")).unwrap().unwrap();
    let span = reader.bounds();
    assert_eq!(span.first, sentinel());
    assert!(!span.first_included);
    assert_eq!(span.last, None);
}

#[test]
fn reader_reports_corrupt_records() {
    let reader = Reader::open(Some(b"uu"), None).unwrap().unwrap();
    assert_eq!(reader.read(&[1, 2, 3], &[0; 8]).unwrap_err(), Error::MalformedKey);
    assert_eq!(
        reader.read(&[0xff, 0, 0, 0, 0, 0, 0, 0, 1], &[0; 8]).unwrap_err(),
        Error::MalformedKey
    );
    assert_eq!(reader.read(&encode_key("a", 1), &[0; 7]).unwrap_err(), Error::TruncatedValue);
    let reader = Reader::open(Some(b"u"), Some("a[")).unwrap().unwrap();
    assert_eq!(reader.read(&encode_key("a", 1), &[0; 4]).unwrap_err(), Error::InvalidPattern);
}

#[test]
fn a_dropped_record_is_not_decoded() {
    let reader = Reader::open(Some(b"uu"), Some("air-1")).unwrap().unwrap();
    assert!(reader.read(&encode_key("sea-1", 1), &[]).unwrap().is_none());
}

#[test]
fn row_line_joins_name_time_and_values() {
    let reader = Reader::open(Some(b"ui"), None).unwrap().unwrap();
    let key = encode_key("air-1", 979_387_754_026_490_000);
    let row = reader.read(&key, &[0, 0, 0, 7, 0xff, 0xff, 0xff, 0xff]).unwrap().unwrap();
    let texts: Vec<String> = row.values.iter().map(|v| v.render().unwrap()).collect();
    assert_eq!(row.line(&texts).unwrap(), "air-1 2001-01-13T12:09:14.026490 7 -1");
}
