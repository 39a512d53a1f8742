//! Fixed-width big-endian integers: the byte layout of timestamps and values.

use byteorder::{BigEndian, ByteOrder};
use vstd::prelude::*;
use vstd::slice::slice_subrange;

verus! {

/// The number that a byte string spells in base 256, most significant byte first.
pub open spec fn be_value(bytes: Seq<u8>) -> nat
    decreases bytes.len(),
{
    if bytes.len() == 0 {
        0
    } else {
        be_value(bytes.drop_last()) * 256 + bytes.last() as nat
    }
}

/// The `width` low-order base-256 digits of `value`, most significant first.
pub open spec fn be_bytes(value: nat, width: nat) -> Seq<u8>
    decreases width,
{
    if width == 0 {
        Seq::empty()
    } else {
        be_bytes(value / 256, (width - 1) as nat).push((value % 256) as u8)
    }
}

/// 256 to the power `width`: the number of distinct strings of that many bytes.
pub open spec fn span(width: nat) -> nat
    decreases width,
{
    if width == 0 {
        1
    } else {
        256 * span((width - 1) as nat)
    }
}

/// A number below `modulus` read as two's complement: the upper half is negative.
pub open spec fn as_signed(value: nat, modulus: nat) -> int {
    if 2 * value >= modulus {
        value - modulus
    } else {
        value as int
    }
}

/// The two's complement pattern of `value` below `modulus`.
pub open spec fn as_unsigned(value: int, modulus: nat) -> nat {
    if value < 0 {
        (value + modulus) as nat
    } else {
        value as nat
    }
}

pub proof fn lemma_span_values()
    ensures
        span(0) == 1,
        span(1) == 0x100,
        span(2) == 0x1_0000,
        span(3) == 0x100_0000,
        span(4) == 0x1_0000_0000,
        span(5) == 0x100_0000_0000,
        span(6) == 0x1_0000_0000_0000,
        span(7) == 0x100_0000_0000_0000,
        span(8) == 0x1_0000_0000_0000_0000,
{
    reveal_with_fuel(span, 10);
}

/// A big-endian encoding has exactly the width asked for.
pub proof fn lemma_be_bytes_len(value: nat, width: nat)
    ensures
        be_bytes(value, width).len() == width,
    decreases width,
{
    if width > 0 {
        lemma_be_bytes_len(value / 256, (width - 1) as nat);
    }
}

/// Every byte string spells a number below 256 to the power of its length.
pub proof fn lemma_be_value_bound(bytes: Seq<u8>)
    ensures
        be_value(bytes) < span(bytes.len()),
    decreases bytes.len(),
{
    if bytes.len() > 0 {
        lemma_be_value_bound(bytes.drop_last());
    }
}

/// Decoding undoes encoding for every value that fits the width.
pub proof fn lemma_be_value_of_bytes(value: nat, width: nat)
    requires
        value < span(width),
    ensures
        be_value(be_bytes(value, width)) == value,
    decreases width,
{
    if width > 0 {
        let rest = be_bytes(value / 256, (width - 1) as nat);
        lemma_be_value_of_bytes(value / 256, (width - 1) as nat);
        assert(be_bytes(value, width).drop_last() =~= rest);
    }
}

/// Encoding undoes decoding: a byte string is the only spelling of its value at its length.
pub proof fn lemma_be_bytes_of_value(bytes: Seq<u8>)
    ensures
        be_bytes(be_value(bytes), bytes.len()) == bytes,
    decreases bytes.len(),
{
    if bytes.len() > 0 {
        let front = bytes.drop_last();
        lemma_be_bytes_of_value(front);
        let v = be_value(bytes);
        assert(v / 256 == be_value(front));
        assert(v % 256 == bytes.last() as nat);
        assert(be_bytes(v, bytes.len()) =~= bytes);
    } else {
        assert(be_bytes(0, 0) =~= bytes);
    }
}

/// The value of a byte string in terms of its first byte and the rest.
pub proof fn lemma_be_value_first(bytes: Seq<u8>)
    requires
        bytes.len() > 0,
    ensures
        be_value(bytes) == bytes[0] as nat * span((bytes.len() - 1) as nat) + be_value(
            bytes.drop_first(),
        ),
    decreases bytes.len(),
{
    let tail = bytes.drop_first();
    if bytes.len() == 1 {
        assert(bytes.drop_last() =~= Seq::<u8>::empty());
        assert(tail =~= Seq::<u8>::empty());
        assert(span(0) == 1);
        assert(bytes[0] as nat * span(0) == bytes[0] as nat);
    } else {
        let front = bytes.drop_last();
        lemma_be_value_first(front);
        assert(front.drop_first() =~= tail.drop_last());
        let a = bytes[0] as int;
        let s = span((bytes.len() - 2) as nat) as int;
        let x = be_value(front.drop_first()) as int;
        assert(be_value(tail) == x * 256 + bytes.last() as nat);
        assert((a * s + x) * 256 == a * (256 * s) + x * 256) by (nonlinear_arith);
        assert(a * span((bytes.len() - 1) as nat) == a * (256 * s));
    }
}

/// `byteorder::BigEndian::read_u32`: the first four bytes, read most significant first.
#[verifier::external_body]
fn read_u32(buf: &[u8]) -> (v: u32)
    requires
        buf@.len() >= 4,
    ensures
        v as nat == be_value(buf@.subrange(0, 4)),
{
    BigEndian::read_u32(buf)
}

/// `byteorder::BigEndian::read_u64`: the first eight bytes, read most significant first.
#[verifier::external_body]
fn read_u64(buf: &[u8]) -> (v: u64)
    requires
        buf@.len() >= 8,
    ensures
        v as nat == be_value(buf@.subrange(0, 8)),
{
    BigEndian::read_u64(buf)
}

/// `byteorder::BigEndian::read_i32`: the first four bytes, read most significant first
/// as a two's complement number.
#[verifier::external_body]
fn read_i32(buf: &[u8]) -> (v: i32)
    requires
        buf@.len() >= 4,
    ensures
        v as int == as_signed(be_value(buf@.subrange(0, 4)), 0x1_0000_0000),
{
    BigEndian::read_i32(buf)
}

/// `byteorder::BigEndian::read_i64`: the first eight bytes, read most significant first
/// as a two's complement number.
#[verifier::external_body]
fn read_i64(buf: &[u8]) -> (v: i64)
    requires
        buf@.len() >= 8,
    ensures
        v as int == as_signed(be_value(buf@.subrange(0, 8)), 0x1_0000_0000_0000_0000),
{
    BigEndian::read_i64(buf)
}

/// Reads the unsigned 32-bit number stored at `at`.
pub fn get_u32(bytes: &[u8], at: usize) -> (v: u32)
    requires
        at + 4 <= bytes@.len(),
    ensures
        v as nat == be_value(bytes@.subrange(at as int, at + 4)),
{
    let tail = slice_subrange(bytes, at, bytes.len());
    assert(tail@.subrange(0, 4) =~= bytes@.subrange(at as int, at + 4));
    read_u32(tail)
}

/// Reads the unsigned 64-bit number stored at `at`.
pub fn get_u64(bytes: &[u8], at: usize) -> (v: u64)
    requires
        at + 8 <= bytes@.len(),
    ensures
        v as nat == be_value(bytes@.subrange(at as int, at + 8)),
{
    let tail = slice_subrange(bytes, at, bytes.len());
    assert(tail@.subrange(0, 8) =~= bytes@.subrange(at as int, at + 8));
    read_u64(tail)
}

/// Reads the signed 32-bit number stored at `at`.
pub fn get_i32(bytes: &[u8], at: usize) -> (v: i32)
    requires
        at + 4 <= bytes@.len(),
    ensures
        v as int == as_signed(be_value(bytes@.subrange(at as int, at + 4)), 0x1_0000_0000),
{
    let tail = slice_subrange(bytes, at, bytes.len());
    assert(tail@.subrange(0, 4) =~= bytes@.subrange(at as int, at + 4));
    read_i32(tail)
}

/// Reads the signed 64-bit number stored at `at`.
pub fn get_i64(bytes: &[u8], at: usize) -> (v: i64)
    requires
        at + 8 <= bytes@.len(),
    ensures
        v as int == as_signed(
            be_value(bytes@.subrange(at as int, at + 8)),
            0x1_0000_0000_0000_0000,
        ),
{
    let tail = slice_subrange(bytes, at, bytes.len());
    assert(tail@.subrange(0, 8) =~= bytes@.subrange(at as int, at + 8));
    read_i64(tail)
}

/// Appends the `width` low-order bytes of `v`, most significant first.
fn put_be(out: &mut Vec<u8>, v: u64, width: usize)
    ensures
        final(out)@ == old(out)@ + be_bytes(v as nat, width as nat),
    decreases width,
{
    if width > 0 {
        put_be(out, v / 0x100, width - 1);
        out.push((v % 0x100) as u8);
        assert(out@ =~= old(out)@ + be_bytes(v as nat, width as nat));
    } else {
        assert(out@ =~= old(out)@ + be_bytes(v as nat, 0));
    }
}

/// Appends the four bytes of `v`, most significant first.
pub fn put_u32(out: &mut Vec<u8>, v: u32)
    ensures
        final(out)@ == old(out)@ + be_bytes(v as nat, 4),
{
    put_be(out, v as u64, 4);
}

/// Appends the eight bytes of `v`, most significant first.
pub fn put_u64(out: &mut Vec<u8>, v: u64)
    ensures
        final(out)@ == old(out)@ + be_bytes(v as nat, 8),
{
    put_be(out, v, 8);
}

/// Appends the four bytes of `v` in two's complement, most significant first.
pub fn put_i32(out: &mut Vec<u8>, v: i32)
    ensures
        final(out)@ == old(out)@ + be_bytes(as_unsigned(v as int, 0x1_0000_0000), 4),
{
    let pattern: u32 = if v >= 0 {
        v as u32
    } else {
        ((v + 0x7fff_ffff) + 1) as u32 + 0x8000_0000
    };
    put_u32(out, pattern);
}

/// Appends the eight bytes of `v` in two's complement, most significant first.
pub fn put_i64(out: &mut Vec<u8>, v: i64)
    ensures
        final(out)@ == old(out)@ + be_bytes(as_unsigned(v as int, 0x1_0000_0000_0000_0000), 8),
{
    let pattern: u64 = if v >= 0 {
        v as u64
    } else {
        ((v + 0x7fff_ffff_ffff_ffff) + 1) as u64 + 0x8000_0000_0000_0000
    };
    put_u64(out, pattern);
}

} // verus!
