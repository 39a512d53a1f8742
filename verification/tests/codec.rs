use fanfare::bigendian::{
    get_i32, get_i64, get_u32, get_u64, put_i32, put_i64, put_u32, put_u64,
};
use fanfare::error::Error;
use fanfare::key::{decode_key, encode_key, sentinel};
use fanfare::order::{equal, less};
use fanfare::schema::{Code, Schema};
use fanfare::value::{decode_values, encode_values, Value};

#[test]
fn put_writes_most_significant_byte_first() {
    let mut out = vec![0xaa];
    put_u32(&mut out, 0x0102_0304);
    assert_eq!(out, vec![0xaa, 1, 2, 3, 4]);
    let mut out = Vec::new();
    put_u64(&mut out, 0x0102_0304_0506_0708);
    assert_eq!(out, vec![1, 2, 3, 4, 5, 6, 7, 8]);
}

#[test]
fn put_agrees_with_to_be_bytes() {
    for v in [0u64, 1, 255, 256, 979_387_754_026_490_000, u64::MAX] {
        let mut out = Vec::new();
        put_u64(&mut out, v);
        assert_eq!(out, v.to_be_bytes().to_vec());
    }
    for v in [0u32, 1, 0x8000_0000, u32::MAX] {
        let mut out = Vec::new();
        put_u32(&mut out, v);
        assert_eq!(out, v.to_be_bytes().to_vec());
    }
    for v in [0i32, 1, -1, i32::MIN, i32::MAX, -1_000_000] {
        let mut out = Vec::new();
        put_i32(&mut out, v);
        assert_eq!(out, v.to_be_bytes().to_vec());
    }
    for v in [0i64, 1, -1, i64::MIN, i64::MAX, -1_000_000_000] {
        let mut out = Vec::new();
        put_i64(&mut out, v);
        assert_eq!(out, v.to_be_bytes().to_vec());
    }
}

#[test]
fn get_reads_at_an_offset() {
    let bytes = [9, 0, 0, 1, 0, 0xff, 0xff, 0xff, 0xfe, 7];
    assert_eq!(get_u32(&bytes, 1), 256);
    assert_eq!(get_u32(&bytes, 5), 0xffff_fffe);
    assert_eq!(get_i32(&bytes, 5), -2);
    assert_eq!(get_u64(&bytes, 1), 0x0000_0100_ffff_fffe);
    assert_eq!(get_i64(&[0xff; 8], 0), -1);
    assert_eq!(get_i64(&[0x80, 0, 0, 0, 0, 0, 0, 0], 0), i64::MIN);
}

#[test]
fn get_undoes_put() {
    for v in [0i64, 5, -5, i64::MIN, i64::MAX] {
        let mut out = vec![1, 2, 3];
        put_i64(&mut out, v);
        assert_eq!(get_i64(&out, 3), v);
    }
    for v in [0i32, 5, -5, i32::MIN, i32::MAX] {
        let mut out = vec![1];
        put_i32(&mut out, v);
        assert_eq!(get_i32(&out, 1), v);
    }
}

#[test]
fn key_is_name_then_big_endian_time() {
    assert_eq!(
        encode_key("ab", 0x0102_0304_0506_0708),
        vec![b'a', b'b', 1, 2, 3, 4, 5, 6, 7, 8]
    );
    assert_eq!(encode_key("", 1), vec![0, 0, 0, 0, 0, 0, 0, 1]);
    assert_eq!(encode_key("é", 0), vec![0xc3, 0xa9, 0, 0, 0, 0, 0, 0, 0, 0]);
}

#[test]
fn sentinel_is_eight_zero_bytes() {
    assert_eq!(sentinel(), vec![0u8; 8]);
    assert_eq!(sentinel(), encode_key("", 0));
}

#[test]
fn decode_key_splits_the_last_eight_bytes() {
    let key = [b'a', b'i', b'r', 0, 0, 0, 0, 0, 0, 1, 0];
    assert_eq!(decode_key(&key), Ok(("air", 256)));
    assert_eq!(decode_key(&[0u8; 8]), Ok(("", 0)));
    assert_eq!(decode_key(&[0xff; 8]), Ok(("", u64::MAX)));
}

#[test]
fn decode_key_undoes_encode_key() {
    for (name, nanos) in [("oceanic-airlines", 979_387_754_026_490_000u64), ("é-1", 0), ("x", u64::MAX)] {
        let key = encode_key(name, nanos);
        assert_eq!(decode_key(&key), Ok((name, nanos)));
    }
}

#[test]
fn decode_key_refuses_short_keys() {
    assert_eq!(decode_key(&[]), Err(Error::MalformedKey));
    assert_eq!(decode_key(&[1, 2, 3, 4, 5, 6, 7]), Err(Error::MalformedKey));
}

#[test]
fn decode_key_refuses_names_that_are_not_utf8() {
    let key = [0xff, 0xfe, 0, 0, 0, 0, 0, 0, 0, 1];
    assert_eq!(decode_key(&key), Err(Error::MalformedKey));
    let truncated = [0xc3, 0, 0, 0, 0, 0, 0, 0, 1];
    assert_eq!(decode_key(&truncated), Err(Error::MalformedKey));
}

#[test]
fn less_is_lexicographic() {
    assert!(less(b"a", b"b"));
    assert!(!less(b"b", b"a"));
    assert!(less(b"a", b"ab"));
    assert!(!less(b"ab", b"a"));
    assert!(!less(b"ab", b"ab"));
    assert!(less(b"", b"a"));
    assert!(!less(b"", b""));
    assert!(less(&[1, 255], &[2, 0]));
    assert!(less(&[0, 200], &[0, 201]));
}

#[test]
fn less_agrees_with_slice_order() {
    let samples: [&[u8]; 6] = [b"", b"a", b"ab", b"b", &[0, 0], &[255]];
    for a in samples {
        for b in samples {
            assert_eq!(less(a, b), a < b);
            assert_eq!(equal(a, b), a == b);
        }
    }
}

#[test]
fn keys_of_one_series_sort_by_time() {
    let times = [0u64, 1, 255, 256, 65_535, 65_536, 1 << 40, u64::MAX - 1, u64::MAX];
    for a in times {
        for b in times {
            assert_eq!(less(&encode_key("air-1", a), &encode_key("air-1", b)), a < b);
        }
    }
}

#[test]
fn sentinel_sorts_before_every_other_key() {
    for key in [encode_key("", 1), encode_key("a", 0), encode_key("\0", 0), encode_key("zz", 5)] {
        assert!(less(&sentinel(), &key));
    }
}

#[test]
fn values_are_laid_out_in_order_at_fixed_width() {
    let row = vec![
        Value::Unsigned(1),
        Value::SignedLong(-2),
        Value::Float(0x4216_bf3c),
        Value::Double(0x3ff8_0000_0000_0000),
        Value::Signed(-1),
        Value::UnsignedLong(258),
    ];
    let bytes = encode_values(&row);
    assert_eq!(
        bytes,
        vec![
            0, 0, 0, 1, //
            0xff, 0xff, 0xff, 0xff, 0xff, 0xff, 0xff, 0xfe, //
            0x42, 0x16, 0xbf, 0x3c, //
            0x3f, 0xf8, 0, 0, 0, 0, 0, 0, //
            0xff, 0xff, 0xff, 0xff, //
            0, 0, 0, 0, 0, 0, 1, 2,
        ]
    );
}

#[test]
fn float_bits_are_those_of_the_float() {
    let row = vec![Value::Float(37.686751f32.to_bits()), Value::Double((-122.602227f64).to_bits())];
    let mut expected = 37.686751f32.to_be_bytes().to_vec();
    expected.extend_from_slice(&(-122.602227f64).to_be_bytes());
    assert_eq!(encode_values(&row), expected);
}

#[test]
fn decode_values_undoes_encode_values() {
    let row = vec![
        Value::Unsigned(u32::MAX),
        Value::SignedLong(i64::MIN),
        Value::Float(0xc2f5_3457),
        Value::Double(u64::MAX),
        Value::Signed(i32::MIN),
        Value::UnsignedLong(0),
    ];
    let schema = Schema::parse(b"uIfFiU").unwrap();
    assert_eq!(decode_values(&schema, &encode_values(&row)), Ok(row));
}

#[test]
fn decode_values_reads_each_field_at_its_offset() {
    let schema = Schema::parse(b"iU").unwrap();
    let bytes = [0xff, 0xff, 0xff, 0xfd, 0, 0, 0, 0, 0, 0, 0, 9];
    assert_eq!(
        decode_values(&schema, &bytes),
        Ok(vec![Value::Signed(-3), Value::UnsignedLong(9)])
    );
}

#[test]
fn decode_values_ignores_trailing_bytes() {
    let schema = Schema::parse(b"u").unwrap();
    assert_eq!(decode_values(&schema, &[0, 0, 0, 7, 1, 2, 3]), Ok(vec![Value::Unsigned(7)]));
}

#[test]
fn decode_values_refuses_a_blob_that_ends_early() {
    let schema = Schema::parse(b"uU").unwrap();
    assert_eq!(decode_values(&schema, &[0, 0, 0, 7, 1, 2, 3]), Err(Error::TruncatedValue));
    assert_eq!(decode_values(&schema, &[]), Err(Error::TruncatedValue));
}

#[test]
fn value_knows_its_code() {
    assert_eq!(Value::Float(0).code(), Code::Float);
    assert_eq!(Value::Double(0).code(), Code::Double);
    assert_eq!(Value::Unsigned(0).code(), Code::Unsigned);
    assert_eq!(Value::UnsignedLong(0).code(), Code::UnsignedLong);
    assert_eq!(Value::Signed(0).code(), Code::Signed);
    assert_eq!(Value::SignedLong(0).code(), Code::SignedLong);
}

#[test]
fn value_decode_reads_one_field() {
    let bytes = [0, 0, 0, 0, 0x80, 0, 0, 0];
    assert_eq!(Value::decode(Code::Signed, &bytes, 4), Value::Signed(i32::MIN));
    assert_eq!(Value::decode(Code::Float, &bytes, 4), Value::Float(0x8000_0000));
    assert_eq!(Value::decode(Code::UnsignedLong, &bytes, 0), Value::UnsignedLong(0x8000_0000));
}
