//! Value type codes and the schema they form.

use crate::error::Error;
use smallvec::SmallVec;
use vstd::prelude::*;

verus! {

/// One scalar column type, named by a single character:
/// `f` 32-bit float, `F` 64-bit float, `u` 32-bit unsigned, `U` 64-bit
/// unsigned, `i` 32-bit signed, `I` 64-bit signed.
#[derive(Debug, Clone, Copy, PartialEq, Eq, Structural)]
pub enum Code {
    Float,
    Double,
    Unsigned,
    UnsignedLong,
    Signed,
    SignedLong,
}

/// ASCII `f`.
pub const SYMBOL_FLOAT: u8 = 102;

/// ASCII `F`.
pub const SYMBOL_DOUBLE: u8 = 70;

/// ASCII `u`.
pub const SYMBOL_UNSIGNED: u8 = 117;

/// ASCII `U`.
pub const SYMBOL_UNSIGNED_LONG: u8 = 85;

/// ASCII `i`.
pub const SYMBOL_SIGNED: u8 = 105;

/// ASCII `I`.
pub const SYMBOL_SIGNED_LONG: u8 = 73;

/// The code that a character byte names, if it names one.
pub open spec fn code_of(c: u8) -> Option<Code> {
    if c == SYMBOL_FLOAT {
        Some(Code::Float)
    } else if c == SYMBOL_DOUBLE {
        Some(Code::Double)
    } else if c == SYMBOL_UNSIGNED {
        Some(Code::Unsigned)
    } else if c == SYMBOL_UNSIGNED_LONG {
        Some(Code::UnsignedLong)
    } else if c == SYMBOL_SIGNED {
        Some(Code::Signed)
    } else if c == SYMBOL_SIGNED_LONG {
        Some(Code::SignedLong)
    } else {
        None
    }
}

impl Code {
    /// Number of bytes a value of this type occupies in a stored record.
    pub open spec fn spec_width(self) -> nat {
        match self {
            Code::Float | Code::Unsigned | Code::Signed => 4,
            Code::Double | Code::UnsignedLong | Code::SignedLong => 8,
        }
    }

    /// The character byte that names this code.
    pub open spec fn spec_symbol(self) -> u8 {
        match self {
            Code::Float => SYMBOL_FLOAT,
            Code::Double => SYMBOL_DOUBLE,
            Code::Unsigned => SYMBOL_UNSIGNED,
            Code::UnsignedLong => SYMBOL_UNSIGNED_LONG,
            Code::Signed => SYMBOL_SIGNED,
            Code::SignedLong => SYMBOL_SIGNED_LONG,
        }
    }

    /// Whether values of this type are IEEE-754 floating point.
    pub open spec fn spec_is_float(self) -> bool {
        self == Code::Float || self == Code::Double
    }

    /// Reads a type code from its character byte.
    pub fn from(c: u8) -> (r: Option<Code>)
        ensures
            r == code_of(c),
    {
        if c == SYMBOL_FLOAT {
            Some(Code::Float)
        } else if c == SYMBOL_DOUBLE {
            Some(Code::Double)
        } else if c == SYMBOL_UNSIGNED {
            Some(Code::Unsigned)
        } else if c == SYMBOL_UNSIGNED_LONG {
            Some(Code::UnsignedLong)
        } else if c == SYMBOL_SIGNED {
            Some(Code::Signed)
        } else if c == SYMBOL_SIGNED_LONG {
            Some(Code::SignedLong)
        } else {
            None
        }
    }

    /// Number of bytes a value of this type occupies in a stored record.
    pub fn width(self) -> (w: usize)
        ensures
            w == self.spec_width(),
    {
        match self {
            Code::Float | Code::Unsigned | Code::Signed => 4,
            Code::Double | Code::UnsignedLong | Code::SignedLong => 8,
        }
    }

    /// The character byte that names this code.
    #[verifier::when_used_as_spec(spec_symbol)]
    pub fn symbol(self) -> (c: u8)
        ensures
            c == self.spec_symbol(),
    {
        match self {
            Code::Float => SYMBOL_FLOAT,
            Code::Double => SYMBOL_DOUBLE,
            Code::Unsigned => SYMBOL_UNSIGNED,
            Code::UnsignedLong => SYMBOL_UNSIGNED_LONG,
            Code::Signed => SYMBOL_SIGNED,
            Code::SignedLong => SYMBOL_SIGNED_LONG,
        }
    }

    /// Whether values of this type are IEEE-754 floating point.
    #[verifier::when_used_as_spec(spec_is_float)]
    pub fn is_float(self) -> (b: bool)
        ensures
            b == self.spec_is_float(),
    {
        match self {
            Code::Float | Code::Double => true,
            _ => false,
        }
    }
}

/// A `smallvec::SmallVec` of codes, which keeps up to eight of them inline.
/// The verifier does not look inside: what the list holds is [`code_list`].
#[verifier::external_body]
#[derive(Debug)]
pub struct CodeList {
    items: SmallVec<[Code; 8]>,
}

/// The codes that a list holds, first to last.
pub uninterp spec fn code_list(list: CodeList) -> Seq<Code>;

/// `SmallVec::new`: the new vector holds nothing.
#[verifier::external_body]
fn codes_new() -> (list: CodeList)
    ensures
        code_list(list) == Seq::<Code>::empty(),
{
    CodeList { items: SmallVec::new() }
}

/// `SmallVec::push`: the item is added behind those already held.
#[verifier::external_body]
fn codes_push(list: &mut CodeList, code: Code)
    ensures
        code_list(*final(list)) == code_list(*old(list)).push(code),
{
    list.items.push(code)
}

/// `SmallVec::len`: the number of items held.
#[verifier::external_body]
fn codes_len(list: &CodeList) -> (n: usize)
    ensures
        n == code_list(*list).len(),
{
    list.items.len()
}

/// Indexing a `SmallVec`: the item at a position below its length.
#[verifier::external_body]
fn codes_get(list: &CodeList, i: usize) -> (code: Code)
    requires
        i < code_list(*list).len(),
    ensures
        code == code_list(*list)[i as int],
{
    list.items[i]
}

/// An ordered list of value types, one per value column.
#[derive(Debug)]
pub struct Schema {
    codes: CodeList,
}

impl View for Schema {
    type V = Seq<Code>;

    closed spec fn view(&self) -> Seq<Code> {
        code_list(self.codes)
    }
}

/// The codes named by a string of character bytes, when each byte names one.
pub open spec fn schema_of(symbols: Seq<u8>) -> Option<Seq<Code>> {
    if forall|i: int| 0 <= i < symbols.len() ==> code_of(#[trigger] symbols[i]) is Some {
        Some(Seq::new(symbols.len(), |i: int| code_of(symbols[i])->0))
    } else {
        None
    }
}

/// Sum of the widths of the given codes: the length of a stored value blob.
pub open spec fn total_width(codes: Seq<Code>) -> nat
    decreases codes.len(),
{
    if codes.len() == 0 {
        0
    } else {
        total_width(codes.drop_last()) + codes.last().spec_width()
    }
}

impl Schema {
    /// Parses a type-code string. Fails where a byte names no code.
    pub fn parse(symbols: &[u8]) -> (r: Result<Schema, Error>)
        ensures
            match r {
                Ok(schema) => schema_of(symbols@) == Some(schema@),
                Err(e) => e == Error::UnknownTypeCode && schema_of(symbols@) is None,
            },
    {
        let mut codes = codes_new();
        let mut i: usize = 0;
        while i < symbols.len()
            invariant
                i <= symbols.len(),
                code_list(codes).len() == i,
                forall|j: int|
                    0 <= j < i ==> code_of(#[trigger] symbols@[j]) == Some(code_list(codes)[j]),
            decreases symbols.len() - i,
        {
            match Code::from(symbols[i]) {
                Some(code) => codes_push(&mut codes, code),
                None => {
                    return Err(Error::UnknownTypeCode);
                },
            }
            i += 1;
        }
        let schema = Schema { codes };
        assert(schema@ =~= schema_of(symbols@)->0);
        Ok(schema)
    }

    /// Number of value columns.
    pub fn len(&self) -> (n: usize)
        ensures
            n == self@.len(),
    {
        codes_len(&self.codes)
    }

    /// Length of a value blob under this schema: the sum of its column
    /// widths, or `None` where the sum is beyond `usize`.
    pub fn total_width(&self) -> (r: Option<usize>)
        ensures
            match r {
                Some(w) => w == total_width(self@),
                None => total_width(self@) > usize::MAX,
            },
    {
        let n = self.len();
        let mut w: usize = 0;
        let mut i: usize = 0;
        while i < n
            invariant
                n == self@.len(),
                i <= n,
                w == total_width(self@.take(i as int)),
            decreases n - i,
        {
            proof {
                let next = self@.take(i + 1);
                assert(next.drop_last() =~= self@.take(i as int));
                assert(next.last() == self@[i as int]);
                lemma_total_width_monotonic(self@, i + 1);
            }
            let width = self.code(i).width();
            if width > usize::MAX - w {
                return None;
            }
            w = w + width;
            i += 1;
        }
        assert(self@.take(i as int) =~= self@);
        Some(w)
    }

    /// The type of column `i`.
    pub fn code(&self, i: usize) -> (c: Code)
        requires
            i < self@.len(),
        ensures
            c == self@[i as int],
    {
        codes_get(&self.codes, i)
    }
}

/// A prefix of a schema is no wider than the schema.
pub proof fn lemma_total_width_monotonic(schema: Seq<Code>, n: int)
    requires
        0 <= n <= schema.len(),
    ensures
        total_width(schema.take(n)) <= total_width(schema),
    decreases schema.len(),
{
    if n < schema.len() {
        let front = schema.drop_last();
        lemma_total_width_monotonic(front, n);
        assert(front.take(n) =~= schema.take(n));
    } else {
        assert(schema.take(n) =~= schema);
    }
}

} // verus!
