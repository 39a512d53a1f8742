use fanfare::error::{Error, Field};
use fanfare::line::{format_line, parse_line, separates, split_fields};
use fanfare::schema::{Code, Schema};
use fanfare::timestamp::{format_timestamp, parse_timestamp, split_nanos, to_stored};
use fanfare::value::{parse_values, Value};

#[test]
fn split_fields_cuts_at_any_run_of_whitespace() {
    assert_eq!(split_fields("a b  c"), vec!["a", "b", "c"]);
    assert_eq!(split_fields("  lead and trail \t\n"), vec!["lead", "and", "trail"]);
    assert_eq!(split_fields("one"), vec!["one"]);
    assert_eq!(split_fields("tab\tseparated\u{3000}wide"), vec!["tab", "separated", "wide"]);
}

#[test]
fn split_fields_of_blank_lines_is_empty() {
    assert!(split_fields("").is_empty());
    assert!(split_fields("   \t ").is_empty());
}

#[test]
fn split_fields_agrees_with_split_whitespace() {
    for line in ["", " ", "a", " a", "a ", "a b", "é  ü\u{a0}x", "x\u{2003}y z\r\n", "\u{85}q"] {
        let expected: Vec<&str> = line.split_whitespace().collect();
        assert_eq!(split_fields(line), expected);
    }
}

#[test]
fn parse_line_names_the_parts() {
    let parts = parse_line("oceanic-airlines 2001-01-13T12:09:14.026490 ff 37.686751 -122.602227")
        .unwrap();
    assert_eq!(parts.name, "oceanic-airlines");
    assert_eq!(parts.timestamp, "2001-01-13T12:09:14.026490");
    assert_eq!(parts.code, "ff");
    assert_eq!(parts.values, vec!["37.686751", "-122.602227"]);
}

#[test]
fn parse_line_allows_no_values() {
    let parts = parse_line("n t c").unwrap();
    assert_eq!(parts.name, "n");
    assert_eq!(parts.timestamp, "t");
    assert_eq!(parts.code, "c");
    assert!(parts.values.is_empty());
}

#[test]
fn parse_line_reports_the_first_missing_field() {
    assert_eq!(parse_line("").unwrap_err(), Error::MissingField(Field::Name));
    assert_eq!(parse_line("   ").unwrap_err(), Error::MissingField(Field::Name));
    assert_eq!(parse_line("air-1").unwrap_err(), Error::MissingField(Field::Timestamp));
    assert_eq!(
        parse_line("air-1 2001-01-13T12:09:14").unwrap_err(),
        Error::MissingField(Field::Code)
    );
}

#[test]
fn format_line_puts_one_space_between_fields() {
    let values = vec!["1".to_string(), "-2".to_string()];
    assert_eq!(format_line("air", "2001-01-13T12:09:14", &values), "air 2001-01-13T12:09:14 1 -2");
    assert_eq!(format_line("air", "t", &Vec::new()), "air t");
    assert_eq!(format_line("air", "t", &vec!["x".to_string()]), "air t x");
}

#[test]
fn parse_timestamp_counts_nanoseconds_since_the_epoch() {
    assert_eq!(parse_timestamp("1970-01-01T00:00:00"), Ok(0));
    assert_eq!(parse_timestamp("1970-01-01T00:00:01.5"), Ok(1_500_000_000));
    assert_eq!(parse_timestamp("2001-01-13T12:09:14.026490"), Ok(979_387_754_026_490_000));
    assert_eq!(parse_timestamp("2001-01-13T12:09:15.000000"), Ok(979_387_755_000_000_000));
    assert_eq!(parse_timestamp("1970-01-01T00:00:00.000000001"), Ok(1));
}

#[test]
fn parse_timestamp_stores_instants_before_the_epoch_above_all_others() {
    assert_eq!(parse_timestamp("1969-12-31T23:59:59"), Ok(u64::MAX - 999_999_999));
    assert_eq!(parse_timestamp("1969-12-31T23:59:59.999999999"), Ok(u64::MAX));
    let before = parse_timestamp("1969-12-31T23:59:59").unwrap();
    let after = parse_timestamp("2262-01-01T00:00:00").unwrap();
    assert!(before > after);
}

#[test]
fn parse_timestamp_refuses_other_text() {
    for text in ["", "yesterday", "2001-01-13", "2001-01-13 12:09:14", "2001-13-01T00:00:00",
        "2001-01-13T12:09:14Z", "2001-01-13T25:00:00", "979387754"]
    {
        assert_eq!(parse_timestamp(text), Err(Error::TimestampParseError));
    }
}

#[test]
fn parse_timestamp_refuses_instants_beyond_64_bits() {
    assert_eq!(parse_timestamp("2262-04-11T23:47:16.854775807"), Ok(i64::MAX as u64));
    assert_eq!(parse_timestamp("2262-04-11T23:47:16.854775808"), Err(Error::TimestampParseError));
    assert_eq!(parse_timestamp("3000-01-01T00:00:00"), Err(Error::TimestampParseError));
    assert_eq!(parse_timestamp("1600-01-01T00:00:00"), Err(Error::TimestampParseError));
}

#[test]
fn to_stored_keeps_the_bits() {
    assert_eq!(to_stored(0), 0);
    assert_eq!(to_stored(1), 1);
    assert_eq!(to_stored(i64::MAX), i64::MAX as u64);
    assert_eq!(to_stored(-1), u64::MAX);
    assert_eq!(to_stored(i64::MIN), 1 << 63);
    for v in [-5i64, 17, i64::MIN + 1] {
        assert_eq!(to_stored(v), v as u64);
    }
}

#[test]
fn split_nanos_gives_seconds_and_remainder() {
    assert_eq!(split_nanos(0), (0, 0));
    assert_eq!(split_nanos(999_999_999), (0, 999_999_999));
    assert_eq!(split_nanos(1_000_000_000), (1, 0));
    assert_eq!(split_nanos(979_387_754_026_490_000), (979_387_754, 26_490_000));
    assert_eq!(split_nanos(u64::MAX), (18_446_744_073, 709_551_615));
}

#[test]
fn format_timestamp_writes_calendar_text() {
    assert_eq!(format_timestamp(0).unwrap(), "1970-01-01T00:00:00");
    assert_eq!(format_timestamp(979_387_754_026_490_000).unwrap(), "2001-01-13T12:09:14.026490");
    assert_eq!(format_timestamp(979_387_755_000_000_000).unwrap(), "2001-01-13T12:09:15");
    assert_eq!(format_timestamp(1_500_000_000).unwrap(), "1970-01-01T00:00:01.500");
    assert_eq!(format_timestamp(1).unwrap(), "1970-01-01T00:00:00.000000001");
}

#[test]
fn format_timestamp_reaches_the_greatest_stored_time() {
    assert_eq!(format_timestamp(u64::MAX).unwrap(), "2554-07-21T23:34:33.709551615");
}

#[test]
fn parse_timestamp_undoes_format_timestamp() {
    for nanos in [0u64, 1, 1_000, 1_000_000, 979_387_754_026_490_000, i64::MAX as u64] {
        let text = format_timestamp(nanos).unwrap();
        assert_eq!(parse_timestamp(&text), Ok(nanos));
    }
}

#[test]
fn integers_parse_as_their_type() {
    assert_eq!(Value::parse(Code::Unsigned, "0", None), Some(Value::Unsigned(0)));
    assert_eq!(Value::parse(Code::Unsigned, "4294967295", None), Some(Value::Unsigned(u32::MAX)));
    assert_eq!(Value::parse(Code::Unsigned, "+7", None), Some(Value::Unsigned(7)));
    assert_eq!(Value::parse(Code::Unsigned, "007", None), Some(Value::Unsigned(7)));
    assert_eq!(
        Value::parse(Code::UnsignedLong, "18446744073709551615", None),
        Some(Value::UnsignedLong(u64::MAX))
    );
    assert_eq!(Value::parse(Code::Signed, "-2147483648", None), Some(Value::Signed(i32::MIN)));
    assert_eq!(Value::parse(Code::Signed, "+2147483647", None), Some(Value::Signed(i32::MAX)));
    assert_eq!(Value::parse(Code::Signed, "-0", None), Some(Value::Signed(0)));
    assert_eq!(
        Value::parse(Code::SignedLong, "-9223372036854775808", None),
        Some(Value::SignedLong(i64::MIN))
    );
    assert_eq!(
        Value::parse(Code::SignedLong, "9223372036854775807", None),
        Some(Value::SignedLong(i64::MAX))
    );
}

#[test]
fn integers_refuse_what_is_not_a_number_of_their_type() {
    for token in ["", "+", "-", "12x", "x12", "1.0", "1e3", " 1", "1 ", "1_000", "0x10", "--1", "+-1", "١٢"] {
        for code in [Code::Unsigned, Code::UnsignedLong, Code::Signed, Code::SignedLong] {
            assert_eq!(Value::parse(code, token, None), None);
        }
    }
    assert_eq!(Value::parse(Code::Unsigned, "-1", None), None);
    assert_eq!(Value::parse(Code::Unsigned, "-0", None), None);
    assert_eq!(Value::parse(Code::UnsignedLong, "-1", None), None);
    assert_eq!(Value::parse(Code::Unsigned, "4294967296", None), None);
    assert_eq!(Value::parse(Code::UnsignedLong, "18446744073709551616", None), None);
    assert_eq!(Value::parse(Code::Signed, "2147483648", None), None);
    assert_eq!(Value::parse(Code::Signed, "-2147483649", None), None);
    assert_eq!(Value::parse(Code::SignedLong, "9223372036854775808", None), None);
    assert_eq!(Value::parse(Code::SignedLong, "-9223372036854775809", None), None);
}

#[test]
fn integer_columns_ignore_the_float_parser() {
    assert_eq!(Value::parse(Code::Unsigned, "5", Some(Value::Float(1))), Some(Value::Unsigned(5)));
    assert_eq!(Value::parse(Code::Signed, "x", Some(Value::Signed(1))), None);
}

#[test]
fn float_columns_take_what_the_float_parser_gave() {
    let single = Value::Float(1.5f32.to_bits());
    let double = Value::Double(1.5f64.to_bits());
    assert_eq!(Value::parse(Code::Float, "1.5", Some(single)), Some(single));
    assert_eq!(Value::parse(Code::Double, "1.5", Some(double)), Some(double));
    assert_eq!(Value::parse(Code::Float, "1.5", None), None);
    assert_eq!(Value::parse(Code::Float, "1.5", Some(double)), None);
    assert_eq!(Value::parse(Code::Double, "1.5", Some(single)), None);
    assert_eq!(Value::parse(Code::Double, "1.5", Some(Value::Unsigned(1))), None);
}

#[test]
fn integers_render_in_decimal() {
    assert_eq!(Value::Unsigned(0).render(), Some("0".to_string()));
    assert_eq!(Value::Unsigned(u32::MAX).render(), Some("4294967295".to_string()));
    assert_eq!(Value::UnsignedLong(u64::MAX).render(), Some("18446744073709551615".to_string()));
    assert_eq!(Value::Signed(-1).render(), Some("-1".to_string()));
    assert_eq!(Value::Signed(i32::MIN).render(), Some("-2147483648".to_string()));
    assert_eq!(Value::SignedLong(i64::MIN).render(), Some("-9223372036854775808".to_string()));
    assert_eq!(Value::SignedLong(1_000).render(), Some("1000".to_string()));
}

#[test]
fn floats_have_no_text_of_their_own() {
    assert_eq!(Value::Float(0).render(), None);
    assert_eq!(Value::Double(0).render(), None);
}

#[test]
fn parsing_the_text_of_an_integer_gives_it_back() {
    let values = [
        Value::Unsigned(0),
        Value::Unsigned(u32::MAX),
        Value::UnsignedLong(u64::MAX),
        Value::Signed(i32::MIN),
        Value::Signed(-7),
        Value::SignedLong(i64::MIN),
        Value::SignedLong(i64::MAX),
    ];
    for v in values {
        let text = v.render().unwrap();
        assert_eq!(Value::parse(v.code(), &text, None), Some(v));
    }
}

#[test]
fn parse_values_goes_column_by_column() {
    let schema = Schema::parse(b"ufI").unwrap();
    let tokens = vec!["7", "1.5", "-9"];
    let floats = vec![None, Some(Value::Float(1.5f32.to_bits())), None];
    assert_eq!(
        parse_values(&schema, &tokens, &floats),
        Ok(vec![Value::Unsigned(7), Value::Float(0x3fc0_0000), Value::SignedLong(-9)])
    );
}

#[test]
fn parse_values_reports_the_first_bad_column() {
    let schema = Schema::parse(b"ufI").unwrap();
    let floats = vec![None, Some(Value::Float(0)), None];
    assert_eq!(
        parse_values(&schema, &vec!["7", "0", "nine"], &floats),
        Err(Error::NumericParseError { field: 2 })
    );
    assert_eq!(
        parse_values(&schema, &vec!["-7", "0", "nine"], &floats),
        Err(Error::NumericParseError { field: 0 })
    );
    assert_eq!(
        parse_values(&schema, &vec!["7", "zero", "nine"], &vec![None, None, None]),
        Err(Error::NumericParseError { field: 1 })
    );
    assert_eq!(
        parse_values(&schema, &vec!["7", "0", "9"], &Vec::new()),
        Err(Error::NumericParseError { field: 1 })
    );
}

#[test]
fn parse_values_wants_one_token_per_column() {
    let schema = Schema::parse(b"uu").unwrap();
    assert_eq!(parse_values(&schema, &vec!["1"], &Vec::new()), Err(Error::WrongFieldCount));
    assert_eq!(
        parse_values(&schema, &vec!["1", "2", "3"], &Vec::new()),
        Err(Error::WrongFieldCount)
    );
    assert_eq!(
        parse_values(&schema, &vec!["1", "2"], &Vec::new()),
        Ok(vec![Value::Unsigned(1), Value::Unsigned(2)])
    );
}

#[test]
fn integer_parsing_agrees_with_the_standard_parser() {
    let tokens = [
        "", "0", "00", "1", "9", "10", "+", "-", "+0", "-0", "+1", "-1", "++1", "--1", "+-1", "-+1",
        "1+", "1-", "12a", "a12", "1 2", " 12", "12 ", "1.5", "1e5", "0x1f", "1_000", "٣", "１２",
        "4294967295", "4294967296", "+4294967295", "-4294967295", "04294967295", "42949672950",
        "18446744073709551615", "18446744073709551616", "018446744073709551615",
        "184467440737095516150", "99999999999999999999", "2147483647", "2147483648", "-2147483648",
        "-2147483649", "9223372036854775807", "9223372036854775808", "-9223372036854775808",
        "-9223372036854775809", "-09223372036854775808", "000000000000000000000000000000000000001",
        "-000000000000000000000000000000000000001", "340282366920938463463374607431768211456",
    ];
    for token in tokens {
        assert_eq!(
            Value::parse(Code::Unsigned, token, None),
            token.parse::<u32>().ok().map(Value::Unsigned),
            "{:?} as u32",
            token
        );
        assert_eq!(
            Value::parse(Code::UnsignedLong, token, None),
            token.parse::<u64>().ok().map(Value::UnsignedLong),
            "{:?} as u64",
            token
        );
        assert_eq!(
            Value::parse(Code::Signed, token, None),
            token.parse::<i32>().ok().map(Value::Signed),
            "{:?} as i32",
            token
        );
        assert_eq!(
            Value::parse(Code::SignedLong, token, None),
            token.parse::<i64>().ok().map(Value::SignedLong),
            "{:?} as i64",
            token
        );
    }
}

#[test]
fn integer_rendering_agrees_with_the_standard_formatter() {
    for v in [0u64, 1, 9, 10, 11, 99, 100, 101, 4294967295, 4294967296, u64::MAX - 1, u64::MAX] {
        assert_eq!(Value::UnsignedLong(v).render(), Some(v.to_string()));
    }
    for v in [0u32, 7, 10, 1_000_000, u32::MAX] {
        assert_eq!(Value::Unsigned(v).render(), Some(v.to_string()));
    }
    for v in [0i64, 1, -1, 9, -9, 10, -10, i64::MAX, i64::MIN, i64::MIN + 1] {
        assert_eq!(Value::SignedLong(v).render(), Some(v.to_string()));
    }
    for v in [0i32, -1, 10, -10, i32::MAX, i32::MIN] {
        assert_eq!(Value::Signed(v).render(), Some(v.to_string()));
    }
}

#[test]
fn separators_are_the_white_space_characters() {
    for code in 0..=0x10ffffu32 {
        if let Some(c) = char::from_u32(code) {
            assert_eq!(separates(c), c.is_whitespace(), "U+{:04X}", code);
        }
    }
}
