use fanfare::error::Error;
use fanfare::schema::{Code, Schema};

#[test]
fn code_from_reads_the_six_symbols() {
    assert_eq!(Code::from(b'f'), Some(Code::Float));
    assert_eq!(Code::from(b'F'), Some(Code::Double));
    assert_eq!(Code::from(b'u'), Some(Code::Unsigned));
    assert_eq!(Code::from(b'U'), Some(Code::UnsignedLong));
    assert_eq!(Code::from(b'i'), Some(Code::Signed));
    assert_eq!(Code::from(b'I'), Some(Code::SignedLong));
}

#[test]
fn code_from_refuses_other_bytes() {
    assert_eq!(Code::from(b'x'), None);
    assert_eq!(Code::from(b' '), None);
    assert_eq!(Code::from(0), None);
    assert_eq!(Code::from(0xff), None);
}

#[test]
fn symbol_is_the_inverse_of_from() {
    for c in 0..=255u8 {
        if let Some(code) = Code::from(c) {
            assert_eq!(code.symbol(), c);
        }
    }
}

#[test]
fn widths_are_four_or_eight() {
    assert_eq!(Code::Float.width(), 4);
    assert_eq!(Code::Double.width(), 8);
    assert_eq!(Code::Unsigned.width(), 4);
    assert_eq!(Code::UnsignedLong.width(), 8);
    assert_eq!(Code::Signed.width(), 4);
    assert_eq!(Code::SignedLong.width(), 8);
}

#[test]
fn only_the_two_float_codes_are_float() {
    assert!(Code::Float.is_float());
    assert!(Code::Double.is_float());
    assert!(!Code::Unsigned.is_float());
    assert!(!Code::UnsignedLong.is_float());
    assert!(!Code::Signed.is_float());
    assert!(!Code::SignedLong.is_float());
}

#[test]
fn schema_parse_keeps_order() {
    let schema = Schema::parse(b"fUi").unwrap();
    assert_eq!(schema.len(), 3);
    assert_eq!(schema.code(0), Code::Float);
    assert_eq!(schema.code(1), Code::UnsignedLong);
    assert_eq!(schema.code(2), Code::Signed);
    assert_eq!(schema.total_width(), Some(16));
}

#[test]
fn schema_parse_of_nothing_is_empty() {
    let schema = Schema::parse(b"").unwrap();
    assert_eq!(schema.len(), 0);
    assert_eq!(schema.total_width(), Some(0));
}

#[test]
fn schema_parse_fails_on_any_unknown_character() {
    assert_eq!(Schema::parse(b"fx").unwrap_err(), Error::UnknownTypeCode);
    assert_eq!(Schema::parse(b"xf").unwrap_err(), Error::UnknownTypeCode);
    assert_eq!(Schema::parse(b"f f").unwrap_err(), Error::UnknownTypeCode);
}

#[test]
fn schema_holds_more_columns_than_fit_inline() {
    let schema = Schema::parse(b"fFuUiIfFuUiI").unwrap();
    assert_eq!(schema.len(), 12);
    assert_eq!(schema.code(8), Code::Unsigned);
    assert_eq!(schema.code(11), Code::SignedLong);
    assert_eq!(schema.total_width(), Some(72));
}
