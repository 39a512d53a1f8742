//! Typed values and their fixed-width binary layout.
//!
//! A value blob is the concatenation of its fields in schema order, each in
//! big-endian at the width of its type. Floating-point fields are carried as
//! their IEEE-754 bit patterns.

use crate::bigendian::{
    as_signed, as_unsigned, be_bytes, be_value, get_i32, get_i64, get_u32, get_u64,
    lemma_be_bytes_len, lemma_be_value_of_bytes, lemma_span_values, put_i32, put_i64, put_u32,
    put_u64,
};
use crate::decimal::{
    decimal_text, lemma_parse_inverts_render, parse_in_range, parse_signed, parse_unsigned,
    render_i64, render_u64,
};
use crate::error::Error;
use crate::line::texts;
use crate::schema::{lemma_total_width_monotonic, total_width, Code, Schema};
use vstd::prelude::*;

verus! {

/// One field of a data point.
#[derive(Debug, Clone, Copy, PartialEq, Eq, Structural)]
pub enum Value {
    /// The bit pattern of a 32-bit float.
    Float(u32),
    /// The bit pattern of a 64-bit float.
    Double(u64),
    Unsigned(u32),
    UnsignedLong(u64),
    Signed(i32),
    SignedLong(i64),
}

impl Value {
    /// The column type that holds this value.
    pub open spec fn spec_code(self) -> Code {
        match self {
            Value::Float(_) => Code::Float,
            Value::Double(_) => Code::Double,
            Value::Unsigned(_) => Code::Unsigned,
            Value::UnsignedLong(_) => Code::UnsignedLong,
            Value::Signed(_) => Code::Signed,
            Value::SignedLong(_) => Code::SignedLong,
        }
    }

    /// The stored bytes of this value.
    pub open spec fn spec_bytes(self) -> Seq<u8> {
        match self {
            Value::Float(bits) => be_bytes(bits as nat, 4),
            Value::Double(bits) => be_bytes(bits as nat, 8),
            Value::Unsigned(v) => be_bytes(v as nat, 4),
            Value::UnsignedLong(v) => be_bytes(v as nat, 8),
            Value::Signed(v) => be_bytes(as_unsigned(v as int, 0x1_0000_0000), 4),
            Value::SignedLong(v) => be_bytes(as_unsigned(v as int, 0x1_0000_0000_0000_0000), 8),
        }
    }

    /// The decimal text of an integer value; floating-point values have
    /// none here, their text is made from the bit pattern elsewhere.
    pub open spec fn spec_text(self) -> Option<Seq<char>> {
        match self {
            Value::Float(_) | Value::Double(_) => None,
            Value::Unsigned(v) => Some(decimal_text(v as int)),
            Value::UnsignedLong(v) => Some(decimal_text(v as int)),
            Value::Signed(v) => Some(decimal_text(v as int)),
            Value::SignedLong(v) => Some(decimal_text(v as int)),
        }
    }

    /// The column type that holds this value.
    #[verifier::when_used_as_spec(spec_code)]
    pub fn code(self) -> (c: Code)
        ensures
            c == self.spec_code(),
    {
        match self {
            Value::Float(_) => Code::Float,
            Value::Double(_) => Code::Double,
            Value::Unsigned(_) => Code::Unsigned,
            Value::UnsignedLong(_) => Code::UnsignedLong,
            Value::Signed(_) => Code::Signed,
            Value::SignedLong(_) => Code::SignedLong,
        }
    }

    /// Appends the stored bytes of this value to `out`.
    pub fn encode(self, out: &mut Vec<u8>)
        ensures
            final(out)@ == old(out)@ + self.spec_bytes(),
    {
        match self {
            Value::Float(bits) => put_u32(out, bits),
            Value::Double(bits) => put_u64(out, bits),
            Value::Unsigned(v) => put_u32(out, v),
            Value::UnsignedLong(v) => put_u64(out, v),
            Value::Signed(v) => put_i32(out, v),
            Value::SignedLong(v) => put_i64(out, v),
        }
    }

    /// Reads the value of type `code` stored at `at`.
    pub fn decode(code: Code, bytes: &[u8], at: usize) -> (v: Value)
        requires
            at + code.spec_width() <= bytes@.len(),
        ensures
            v == value_of(code, bytes@.subrange(at as int, at + code.spec_width())),
    {
        match code {
            Code::Float => Value::Float(get_u32(bytes, at)),
            Code::Double => Value::Double(get_u64(bytes, at)),
            Code::Unsigned => Value::Unsigned(get_u32(bytes, at)),
            Code::UnsignedLong => Value::UnsignedLong(get_u64(bytes, at)),
            Code::Signed => Value::Signed(get_i32(bytes, at)),
            Code::SignedLong => Value::SignedLong(get_i64(bytes, at)),
        }
    }

    /// Parses the token of an integer column, or takes what the
    /// floating-point parser made of the token of a floating-point column.
    pub fn parse(code: Code, token: &str, float: Option<Value>) -> (r: Option<Value>)
        ensures
            r == field_value(code, token@, float),
    {
        match code {
            Code::Float | Code::Double => match float {
                Some(v) => if v.code() == code {
                    Some(v)
                } else {
                    None
                },
                None => None,
            },
            Code::Unsigned => match parse_unsigned(token, 0xffff_ffff) {
                Some(v) => Some(Value::Unsigned(v as u32)),
                None => None,
            },
            Code::UnsignedLong => match parse_unsigned(token, u64::MAX) {
                Some(v) => Some(Value::UnsignedLong(v)),
                None => None,
            },
            Code::Signed => match parse_signed(token, -0x8000_0000, 0x7fff_ffff) {
                Some(v) => Some(Value::Signed(v as i32)),
                None => None,
            },
            Code::SignedLong => match parse_signed(token, i64::MIN, i64::MAX) {
                Some(v) => Some(Value::SignedLong(v)),
                None => None,
            },
        }
    }

    /// The decimal text of an integer value; `None` for a floating-point value.
    pub fn render(self) -> (r: Option<String>)
        ensures
            r is Some == self.spec_text() is Some,
            r matches Some(text) ==> self.spec_text() == Some(text@),
    {
        match self {
            Value::Float(_) | Value::Double(_) => None,
            Value::Unsigned(v) => Some(render_u64(v as u64)),
            Value::UnsignedLong(v) => Some(render_u64(v)),
            Value::Signed(v) => Some(render_i64(v as i64)),
            Value::SignedLong(v) => Some(render_i64(v)),
        }
    }
}

/// The value of type `code` that exactly `code.spec_width()` bytes hold.
pub open spec fn value_of(code: Code, bytes: Seq<u8>) -> Value {
    match code {
        Code::Float => Value::Float(be_value(bytes) as u32),
        Code::Double => Value::Double(be_value(bytes) as u64),
        Code::Unsigned => Value::Unsigned(be_value(bytes) as u32),
        Code::UnsignedLong => Value::UnsignedLong(be_value(bytes) as u64),
        Code::Signed => Value::Signed(as_signed(be_value(bytes), 0x1_0000_0000) as i32),
        Code::SignedLong => Value::SignedLong(
            as_signed(be_value(bytes), 0x1_0000_0000_0000_0000) as i64,
        ),
    }
}

/// What a token of a column of type `code` denotes. For a floating-point
/// column the token's value is `float`, as the floating-point parser gave it.
pub open spec fn field_value(code: Code, token: Seq<char>, float: Option<Value>) -> Option<Value> {
    match code {
        Code::Float | Code::Double => match float {
            Some(v) if v.spec_code() == code => Some(v),
            _ => None,
        },
        Code::Unsigned => match parse_in_range(token, 0, u32::MAX as int) {
            Some(x) => Some(Value::Unsigned(x as u32)),
            None => None,
        },
        Code::UnsignedLong => match parse_in_range(token, 0, u64::MAX as int) {
            Some(x) => Some(Value::UnsignedLong(x as u64)),
            None => None,
        },
        Code::Signed => match parse_in_range(token, i32::MIN as int, i32::MAX as int) {
            Some(x) => Some(Value::Signed(x as i32)),
            None => None,
        },
        Code::SignedLong => match parse_in_range(token, i64::MIN as int, i64::MAX as int) {
            Some(x) => Some(Value::SignedLong(x as i64)),
            None => None,
        },
    }
}

/// What the floating-point parser made of token `i`, if anything.
pub open spec fn float_at(floats: Seq<Option<Value>>, i: int) -> Option<Value> {
    if 0 <= i < floats.len() {
        floats[i]
    } else {
        None
    }
}

/// The row that the tokens denote under `schema`, or the failure of the
/// first token that denotes no value of its column's type.
pub open spec fn parsed_row(
    schema: Seq<Code>,
    tokens: Seq<Seq<char>>,
    floats: Seq<Option<Value>>,
) -> Result<Seq<Value>, Error>
    decreases schema.len(),
{
    if schema.len() == 0 {
        Ok(Seq::empty())
    } else {
        let i = schema.len() - 1;
        match parsed_row(schema.drop_last(), tokens, floats) {
            Err(e) => Err(e),
            Ok(front) => match field_value(schema[i], tokens[i], float_at(floats, i)) {
                Some(v) => Ok(front.push(v)),
                None => Err(Error::NumericParseError { field: i as usize }),
            },
        }
    }
}

/// What parsing a line's value tokens under `schema` gives: a row, or
/// `WrongFieldCount` where there is not one token per column, or the
/// failure of the first token that does not parse.
pub open spec fn parsed_values(
    schema: Seq<Code>,
    tokens: Seq<Seq<char>>,
    floats: Seq<Option<Value>>,
) -> Result<Seq<Value>, Error> {
    if tokens.len() != schema.len() {
        Err(Error::WrongFieldCount)
    } else {
        parsed_row(schema, tokens, floats)
    }
}

/// The column types of a row of values.
pub open spec fn codes_of(values: Seq<Value>) -> Seq<Code> {
    Seq::new(values.len(), |i: int| values[i].spec_code())
}

/// The value blob of a row: the bytes of each value, in order.
pub open spec fn row_bytes(values: Seq<Value>) -> Seq<u8>
    decreases values.len(),
{
    if values.len() == 0 {
        Seq::empty()
    } else {
        row_bytes(values.drop_last()) + values.last().spec_bytes()
    }
}

/// The row that a value blob holds under `schema`, each field read at the
/// offset that the fields before it leave. Meaningful where the blob is at
/// least `total_width(schema)` long.
pub open spec fn row_of(schema: Seq<Code>, bytes: Seq<u8>) -> Seq<Value> {
    Seq::new(
        schema.len(),
        |i: int|
            value_of(
                schema[i],
                bytes.subrange(
                    total_width(schema.take(i)) as int,
                    (total_width(schema.take(i)) + schema[i].spec_width()) as int,
                ),
            ),
    )
}

/// Parses the value tokens of a line, one per column of `schema`.
/// `floats[i]` is what the floating-point parser made of token `i`; it is
/// consulted for floating-point columns only.
pub fn parse_values(schema: &Schema, tokens: &Vec<&str>, floats: &Vec<Option<Value>>) -> (r:
    Result<Vec<Value>, Error>)
    ensures
        match r {
            Ok(values) => parsed_values(schema@, texts(tokens@), floats@) == Ok::<
                Seq<Value>,
                Error,
            >(values@),
            Err(e) => parsed_values(schema@, texts(tokens@), floats@) == Err::<Seq<Value>, Error>(
                e,
            ),
        },
{
    let n = schema.len();
    if tokens.len() != n {
        return Err(Error::WrongFieldCount);
    }
    let mut values: Vec<Value> = Vec::new();
    let mut i: usize = 0;
    while i < n
        invariant
            n == schema@.len(),
            n == tokens@.len(),
            i <= n,
            parsed_row(schema@.take(i as int), texts(tokens@), floats@) == Ok::<
                Seq<Value>,
                Error,
            >(values@),
        decreases n - i,
    {
        let float = if i < floats.len() {
            floats[i]
        } else {
            None
        };
        proof {
            let next = schema@.take(i + 1);
            assert(next.drop_last() =~= schema@.take(i as int));
            assert(next[i as int] == schema@[i as int]);
            assert(texts(tokens@)[i as int] == tokens@[i as int]@);
            lemma_parsed_row_prefix(schema@, texts(tokens@), floats@, i + 1);
        }
        match Value::parse(schema.code(i), tokens[i], float) {
            Some(v) => values.push(v),
            None => {
                return Err(Error::NumericParseError { field: i });
            },
        }
        i += 1;
    }
    assert(schema@.take(i as int) =~= schema@);
    Ok(values)
}

/// A failure among the first columns is the failure of the whole row.
pub proof fn lemma_parsed_row_prefix(
    schema: Seq<Code>,
    tokens: Seq<Seq<char>>,
    floats: Seq<Option<Value>>,
    n: int,
)
    requires
        0 <= n <= schema.len(),
    ensures
        parsed_row(schema.take(n), tokens, floats) matches Err(e) ==> parsed_row(
            schema,
            tokens,
            floats,
        ) == Err::<Seq<Value>, Error>(e),
    decreases schema.len(),
{
    if n < schema.len() {
        let front = schema.drop_last();
        lemma_parsed_row_prefix(front, tokens, floats, n);
        assert(front.take(n) =~= schema.take(n));
    } else {
        assert(schema.take(n) =~= schema);
    }
}

/// Builds the value blob of a row.
pub fn encode_values(values: &Vec<Value>) -> (bytes: Vec<u8>)
    ensures
        bytes@ == row_bytes(values@),
{
    let mut bytes: Vec<u8> = Vec::new();
    let mut i: usize = 0;
    while i < values.len()
        invariant
            i <= values@.len(),
            bytes@ == row_bytes(values@.take(i as int)),
        decreases values@.len() - i,
    {
        values[i].encode(&mut bytes);
        proof {
            let next = values@.take(i + 1);
            assert(next.drop_last() =~= values@.take(i as int));
            assert(next.last() == values@[i as int]);
        }
        i += 1;
    }
    assert(values@.take(i as int) =~= values@);
    bytes
}

/// Reads the row that a value blob holds under `schema`. Bytes beyond the
/// last field are ignored; a blob that ends early is refused.
pub fn decode_values(schema: &Schema, bytes: &[u8]) -> (r: Result<Vec<Value>, Error>)
    ensures
        match r {
            Ok(values) => total_width(schema@) <= bytes@.len() && values@ == row_of(
                schema@,
                bytes@,
            ),
            Err(e) => e == Error::TruncatedValue && total_width(schema@) > bytes@.len(),
        },
{
    let n = schema.len();
    let mut values: Vec<Value> = Vec::new();
    let mut at: usize = 0;
    let mut i: usize = 0;
    while i < n
        invariant
            n == schema@.len(),
            i <= n,
            at == total_width(schema@.take(i as int)),
            at <= bytes@.len(),
            values@.len() == i,
            forall|j: int| 0 <= j < i ==> values@[j] == #[trigger] row_of(schema@, bytes@)[j],
        decreases n - i,
    {
        let code = schema.code(i);
        let width = code.width();
        proof {
            let next = schema@.take(i + 1);
            assert(next.drop_last() =~= schema@.take(i as int));
            assert(next.last() == schema@[i as int]);
            lemma_total_width_monotonic(schema@, i + 1);
        }
        if width > bytes.len() - at {
            return Err(Error::TruncatedValue);
        }
        values.push(Value::decode(code, bytes, at));
        at = at + width;
        i += 1;
    }
    assert(schema@.take(i as int) =~= schema@);
    assert(values@ =~= row_of(schema@, bytes@));
    Ok(values)
}

/// A row's blob is as long as the total width of its column types.
pub proof fn lemma_row_bytes_len(values: Seq<Value>)
    ensures
        row_bytes(values).len() == total_width(codes_of(values)),
    decreases values.len(),
{
    if values.len() > 0 {
        let front = values.drop_last();
        lemma_row_bytes_len(front);
        assert(codes_of(values).drop_last() =~= codes_of(front));
        assert(codes_of(values).last() == values.last().spec_code());
        lemma_value_bytes(values.last());
    }
}

/// A value's bytes have the width of its type and decode to the value.
pub proof fn lemma_value_bytes(v: Value)
    ensures
        v.spec_bytes().len() == v.spec_code().spec_width(),
        value_of(v.spec_code(), v.spec_bytes()) == v,
{
    lemma_span_values();
    match v {
        Value::Float(bits) => {
            lemma_be_bytes_len(bits as nat, 4);
            lemma_be_value_of_bytes(bits as nat, 4);
        },
        Value::Double(bits) => {
            lemma_be_bytes_len(bits as nat, 8);
            lemma_be_value_of_bytes(bits as nat, 8);
        },
        Value::Unsigned(x) => {
            lemma_be_bytes_len(x as nat, 4);
            lemma_be_value_of_bytes(x as nat, 4);
        },
        Value::UnsignedLong(x) => {
            lemma_be_bytes_len(x as nat, 8);
            lemma_be_value_of_bytes(x as nat, 8);
        },
        Value::Signed(x) => {
            let u = as_unsigned(x as int, 0x1_0000_0000);
            lemma_be_bytes_len(u, 4);
            lemma_be_value_of_bytes(u, 4);
        },
        Value::SignedLong(x) => {
            let u = as_unsigned(x as int, 0x1_0000_0000_0000_0000);
            lemma_be_bytes_len(u, 8);
            lemma_be_value_of_bytes(u, 8);
        },
    }
}

/// Decoding the blob of a row under the row's own column types gives the
/// row back, whatever bytes follow the blob.
pub proof fn lemma_row_round_trip(values: Seq<Value>, trailing: Seq<u8>)
    ensures
        total_width(codes_of(values)) == row_bytes(values).len(),
        row_of(codes_of(values), row_bytes(values) + trailing) == values,
{
    let schema = codes_of(values);
    let bytes = row_bytes(values) + trailing;
    lemma_row_bytes_len(values);
    assert forall|i: int| 0 <= i < values.len() implies #[trigger] row_of(schema, bytes)[i]
        == values[i] by {
        lemma_row_field(values, trailing, i);
    }
    assert(row_of(schema, bytes) =~= values);
}

/// Field `i` of a row's blob lies at the total width of the fields before it.
proof fn lemma_row_field(values: Seq<Value>, trailing: Seq<u8>, i: int)
    requires
        0 <= i < values.len(),
    ensures
        ({
            let at = total_width(codes_of(values).take(i)) as int;
            (row_bytes(values) + trailing).subrange(
                at,
                at + values[i].spec_code().spec_width() as int,
            )
                == values[i].spec_bytes()
        }),
        row_of(codes_of(values), row_bytes(values) + trailing)[i] == values[i],
    decreases values.len(),
{
    let front = values.drop_last();
    let last = values.last();
    let at = total_width(codes_of(values).take(i)) as int;
    let width = values[i].spec_code().spec_width();
    lemma_row_bytes_len(front);
    lemma_value_bytes(last);
    lemma_value_bytes(values[i]);
    if i == values.len() - 1 {
        assert(codes_of(values).take(i) =~= codes_of(front));
        assert((row_bytes(values) + trailing).subrange(at, at + width as int) =~= last.spec_bytes());
    } else {
        lemma_row_field(front, last.spec_bytes() + trailing, i);
        assert(codes_of(values).take(i) =~= codes_of(front).take(i));
        assert(row_bytes(values) + trailing =~= row_bytes(front) + (last.spec_bytes()
            + trailing));
    }
}

/// Parsing the text of an integer value as its own column type gives the value back.
pub proof fn law_integer_text_round_trip(v: Value, float: Option<Value>)
    requires
        !v.spec_code().spec_is_float(),
    ensures
        v.spec_text() matches Some(text) && field_value(v.spec_code(), text, float) == Some(v),
{
    match v {
        Value::Unsigned(x) => lemma_parse_inverts_render(x as int, 0, u32::MAX as int),
        Value::UnsignedLong(x) => lemma_parse_inverts_render(x as int, 0, u64::MAX as int),
        Value::Signed(x) => lemma_parse_inverts_render(x as int, i32::MIN as int, i32::MAX as int),
        Value::SignedLong(x) => lemma_parse_inverts_render(
            x as int,
            i64::MIN as int,
            i64::MAX as int,
        ),
        _ => {},
    }
}

} // verus!
