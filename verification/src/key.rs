//! The composite key: a series name followed by a big-endian timestamp.
//!
//! Keys of one series are contiguous in byte order and sorted by time. The
//! key of the empty name at time zero is reserved for the schema record and
//! sorts before every other key.

use crate::bigendian::{
    be_bytes, be_value, get_u64, lemma_be_bytes_len, lemma_be_value_bound,
    lemma_be_value_of_bytes, lemma_span_values, put_u64,
};
use crate::error::Error;
use crate::order::{
    bytes_at_most, bytes_less, lemma_less_common_prefix, lemma_less_is_numeric,
    lemma_zeros_are_least,
};
use vstd::prelude::*;
use vstd::slice::slice_subrange;
use vstd::string::StringSliceAdditionalSpecFns;
use vstd::utf8::{decode_utf8, encode_utf8, valid_utf8};

verus! {

/// Number of bytes a timestamp occupies at the end of a key.
pub const TIMESTAMP_WIDTH: usize = 8;

/// The stored key of a point of series `name` at `nanos`.
pub open spec fn record_key(name: Seq<char>, nanos: u64) -> Seq<u8> {
    encode_utf8(name) + be_bytes(nanos as nat, 8)
}

/// The key of the schema record: the empty name at time zero.
pub open spec fn sentinel_key() -> Seq<u8> {
    record_key(Seq::empty(), 0)
}

/// The name and timestamp that a stored key splits into, when it is well formed.
pub open spec fn key_parts(key: Seq<u8>) -> Option<(Seq<char>, u64)> {
    if key.len() >= 8 && valid_utf8(key.subrange(0, key.len() - 8)) {
        Some(
            (
                decode_utf8(key.subrange(0, key.len() - 8)),
                be_value(key.subrange(key.len() - 8, key.len() as int)) as u64,
            ),
        )
    } else {
        None
    }
}

/// `core::str::from_utf8`: the text that the bytes encode, exactly when they
/// are well-formed UTF-8.
#[verifier::external_body]
pub(crate) fn utf8_text(bytes: &[u8]) -> (r: Option<&str>)
    ensures
        r is Some == valid_utf8(bytes@),
        r matches Some(text) ==> text@ == decode_utf8(bytes@),
{
    core::str::from_utf8(bytes).ok()
}

/// Builds the stored key of a point.
pub fn encode_key(name: &str, nanos: u64) -> (key: Vec<u8>)
    ensures
        key@ == record_key(name@, nanos),
{
    let mut key: Vec<u8> = Vec::new();
    key.extend_from_slice(name.as_bytes());
    put_u64(&mut key, nanos);
    key
}

/// Builds the key of the schema record.
pub fn sentinel() -> (key: Vec<u8>)
    ensures
        key@ == sentinel_key(),
{
    proof {
        reveal_strlit("");
    }
    assert(""@ =~= Seq::<char>::empty());
    encode_key("", 0)
}

/// Splits a stored key into series name and timestamp.
pub fn decode_key(key: &[u8]) -> (r: Result<(&str, u64), Error>)
    ensures
        match r {
            Ok((name, nanos)) => key_parts(key@) == Some((name@, nanos)),
            Err(e) => e == Error::MalformedKey && key_parts(key@) is None,
        },
{
    if key.len() < TIMESTAMP_WIDTH {
        return Err(Error::MalformedKey);
    }
    let split = key.len() - TIMESTAMP_WIDTH;
    match utf8_text(slice_subrange(key, 0, split)) {
        Some(name) => {
            let nanos = get_u64(key, split);
            Ok((name, nanos))
        },
        None => Err(Error::MalformedKey),
    }
}

/// Decoding a key gives back the name and timestamp it was built from.
pub proof fn lemma_key_round_trip(name: Seq<char>, nanos: u64)
    ensures
        key_parts(record_key(name, nanos)) == Some((name, nanos)),
{
    let key = record_key(name, nanos);
    let stamp = be_bytes(nanos as nat, 8);
    lemma_be_bytes_len(nanos as nat, 8);
    lemma_span_values();
    lemma_be_value_of_bytes(nanos as nat, 8);
    assert(key.subrange(0, key.len() - 8) =~= encode_utf8(name));
    assert(key.subrange(key.len() - 8, key.len() as int) =~= stamp);
    vstd::utf8::encode_utf8_valid_utf8(name);
    vstd::utf8::encode_utf8_decode_utf8(name);
}

/// Within one series, keys sort as their timestamps do.
pub proof fn lemma_key_order_is_time_order(name: Seq<char>, earlier: u64, later: u64)
    ensures
        bytes_less(record_key(name, earlier), record_key(name, later)) == (earlier < later),
        record_key(name, earlier) == record_key(name, later) <==> earlier == later,
{
    let a = be_bytes(earlier as nat, 8);
    let b = be_bytes(later as nat, 8);
    lemma_be_bytes_len(earlier as nat, 8);
    lemma_be_bytes_len(later as nat, 8);
    lemma_span_values();
    lemma_be_value_of_bytes(earlier as nat, 8);
    lemma_be_value_of_bytes(later as nat, 8);
    lemma_less_is_numeric(a, b);
    lemma_less_common_prefix(encode_utf8(name), a, b);
    if record_key(name, earlier) == record_key(name, later) {
        lemma_key_round_trip(name, earlier);
        lemma_key_round_trip(name, later);
    }
}

/// The schema key sorts at or before every key long enough to hold a timestamp.
pub proof fn lemma_sentinel_is_least(key: Seq<u8>)
    requires
        key.len() >= 8,
    ensures
        bytes_at_most(sentinel_key(), key),
{
    lemma_sentinel_is_zeros();
    lemma_zeros_are_least(sentinel_key(), key);
}

/// The schema key is eight zero bytes.
pub proof fn lemma_sentinel_is_zeros()
    ensures
        sentinel_key().len() == 8,
        forall|i: int| 0 <= i < 8 ==> sentinel_key()[i] == 0,
{
    reveal_with_fuel(be_bytes, 9);
    assert(encode_utf8(Seq::<char>::empty()) =~= Seq::<u8>::empty()) by {
        reveal_with_fuel(encode_utf8, 1);
    }
    assert(sentinel_key() =~= be_bytes(0, 8));
}

} // verus!
