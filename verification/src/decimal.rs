//! Decimal text of the four integer column types.
//!
//! Parsing accepts an optional sign followed by ASCII digits only (`+` for
//! every type, `-` for the signed ones) and refuses anything that does not fit
//! the type. Rendering writes no sign for non-negative numbers and no leading
//! zeros.

use vstd::prelude::*;
use vstd::string::{StrSliceExecFns, StringExecFns};

verus! {

/// Whether `c` is one of the ten ASCII digits.
pub open spec fn is_digit(c: char) -> bool {
    '0' <= c <= '9'
}

/// The number that an ASCII digit stands for.
pub open spec fn digit_value(c: char) -> nat {
    (c as int - '0' as int) as nat
}

/// The ASCII digit that stands for a number below ten.
pub open spec fn digit_char(d: nat) -> char {
    (d + '0' as nat) as char
}

/// Whether every character is an ASCII digit.
pub open spec fn all_digits(text: Seq<char>) -> bool {
    forall|i: int| 0 <= i < text.len() ==> is_digit(#[trigger] text[i])
}

/// The number that a string of digits spells in base ten.
pub open spec fn digits_value(text: Seq<char>) -> nat
    decreases text.len(),
{
    if text.len() == 0 {
        0
    } else {
        digits_value(text.drop_last()) * 10 + digit_value(text.last())
    }
}

/// The digits of `n` in base ten, without leading zeros.
pub open spec fn digits_of(n: nat) -> Seq<char>
    decreases n,
{
    if n < 10 {
        seq![digit_char(n)]
    } else {
        digits_of(n / 10).push(digit_char(n % 10))
    }
}

/// The decimal text of an integer: a minus sign for negative numbers, then the digits.
pub open spec fn decimal_text(x: int) -> Seq<char> {
    if x < 0 {
        seq!['-'] + digits_of((-x) as nat)
    } else {
        digits_of(x as nat)
    }
}

/// The number that `text` denotes, when it is an optional sign followed by
/// at least one digit and nothing else. A minus sign counts only where
/// `signed` allows it.
pub open spec fn decimal_value(text: Seq<char>, signed: bool) -> Option<int> {
    let negative = signed && text.len() > 0 && text[0] == '-';
    let digits = if text.len() > 0 && (text[0] == '+' || negative) {
        text.drop_first()
    } else {
        text
    };
    if digits.len() > 0 && all_digits(digits) {
        Some(
            if negative {
                -(digits_value(digits) as int)
            } else {
                digits_value(digits) as int
            },
        )
    } else {
        None
    }
}

/// What parsing `text` as an integer between `min` and `max` gives.
pub open spec fn parse_in_range(text: Seq<char>, min: int, max: int) -> Option<int> {
    match decimal_value(text, min < 0) {
        Some(x) if min <= x <= max => Some(x),
        _ => None,
    }
}

/// A string of digits spells at least what any shorter beginning of it spells.
pub proof fn lemma_digits_value_grows(text: Seq<char>, n: int)
    requires
        0 <= n <= text.len(),
    ensures
        digits_value(text.take(n)) <= digits_value(text),
    decreases text.len(),
{
    if n < text.len() {
        let front = text.drop_last();
        lemma_digits_value_grows(front, n);
        assert(front.take(n) =~= text.take(n));
        assert(digits_value(front) * 10 >= digits_value(front)) by (nonlinear_arith);
    } else {
        assert(text.take(n) =~= text);
    }
}

/// Reads the digits that follow the first `skip` characters of `text`.
/// Gives their value where there is at least one digit, nothing but digits,
/// and the value is at most `limit`.
fn parse_digits(text: &str, skip: usize, limit: u64) -> (r: Option<u64>)
    requires
        skip <= text@.len(),
    ensures
        ({
            let digits = text@.skip(skip as int);
            r == if digits.len() > 0 && all_digits(digits) && digits_value(digits) <= limit {
                Some(digits_value(digits) as u64)
            } else {
                None
            }
        }),
{
    let n = text.unicode_len();
    let ghost digits = text@.skip(skip as int);
    let mut value: u64 = 0;
    let mut i: usize = 0;
    assert(digits.take(0) =~= Seq::<char>::empty());
    for c in it: text.chars()
        invariant
            n == text@.len(),
            skip <= n,
            i == it.index(),
            it.seq() == text@,
            i <= n,
            digits == text@.skip(skip as int),
            i >= skip ==> all_digits(digits.take(i - skip)) && value == digits_value(
                digits.take(i - skip),
            ) && value <= limit,
            i <= skip ==> value == 0,
    {
        if i >= skip {
            let ghost seen = digits.take(i - skip);
            let ghost next = digits.take(i - skip + 1);
            assert(next.drop_last() =~= seen);
            assert(next.last() == c);
            assert(digits[i - skip] == c);
            if c < '0' || c > '9' {
                return None;
            }
            let digit = (c as u32 - '0' as u32) as u64;
            assert(digit == digit_value(c));
            proof {
                lemma_digits_value_grows(digits, i - skip + 1);
            }
            if digit > limit || value > (limit - digit) / 10 {
                return None;
            }
            value = value * 10 + digit;
            assert(all_digits(next)) by {
                assert forall|j: int| 0 <= j < next.len() implies is_digit(#[trigger] next[j]) by {
                    if j < seen.len() {
                        assert(next[j] == seen[j]);
                    }
                }
            }
        }
        i += 1;
    }
    if i == skip {
        return None;
    }
    assert(digits.take(i - skip) =~= digits);
    Some(value)
}

/// Where the digits of `text` begin: behind a leading `+`, or behind a
/// leading `-` where `signed` allows one.
fn sign_of(text: &str, signed: bool) -> (r: (bool, usize))
    ensures
        r.0 == (signed && text@.len() > 0 && text@[0] == '-'),
        r.1 == if text@.len() > 0 && (text@[0] == '+' || r.0) {
            1usize
        } else {
            0usize
        },
{
    if text.unicode_len() == 0 {
        return (false, 0);
    }
    let first = text.get_char(0);
    if first == '+' {
        (false, 1)
    } else if signed && first == '-' {
        (true, 1)
    } else {
        (false, 0)
    }
}

/// Parses the decimal text of an unsigned number that is at most `max`.
pub fn parse_unsigned(text: &str, max: u64) -> (r: Option<u64>)
    ensures
        match r {
            Some(v) => parse_in_range(text@, 0, max as int) == Some(v as int),
            None => parse_in_range(text@, 0, max as int) is None,
        },
{
    let (_, skip) = sign_of(text, false);
    assert(skip == 1 ==> text@.skip(1) =~= text@.drop_first());
    assert(skip == 0 ==> text@.skip(0) =~= text@);
    parse_digits(text, skip, max)
}

/// Parses the decimal text of a signed number between `min` and `max`.
pub fn parse_signed(text: &str, min: i64, max: i64) -> (r: Option<i64>)
    ensures
        match r {
            Some(v) => parse_in_range(text@, min as int, max as int) == Some(v as int),
            None => parse_in_range(text@, min as int, max as int) is None,
        },
{
    let (negative, skip) = sign_of(text, min < 0);
    assert(skip == 1 ==> text@.skip(1) =~= text@.drop_first());
    assert(skip == 0 ==> text@.skip(0) =~= text@);
    if negative {
        let limit: u64 = if min == i64::MIN {
            0x8000_0000_0000_0000
        } else {
            (-min) as u64
        };
        match parse_digits(text, skip, limit) {
            Some(magnitude) => {
                let value = if magnitude == 0x8000_0000_0000_0000 {
                    i64::MIN
                } else {
                    -(magnitude as i64)
                };
                if value <= max {
                    Some(value)
                } else {
                    None
                }
            },
            None => None,
        }
    } else if max < 0 {
        None
    } else {
        match parse_digits(text, skip, max as u64) {
            Some(magnitude) => if magnitude as i64 >= min {
                Some(magnitude as i64)
            } else {
                None
            },
            None => None,
        }
    }
}

/// The text of one digit.
fn digit_text(d: u64) -> (text: &'static str)
    requires
        d < 10,
    ensures
        text@ == seq![digit_char(d as nat)],
{
    proof {
        reveal_strlit("0");
        reveal_strlit("1");
        reveal_strlit("2");
        reveal_strlit("3");
        reveal_strlit("4");
        reveal_strlit("5");
        reveal_strlit("6");
        reveal_strlit("7");
        reveal_strlit("8");
        reveal_strlit("9");
    }
    let text = if d == 0 {
        "0"
    } else if d == 1 {
        "1"
    } else if d == 2 {
        "2"
    } else if d == 3 {
        "3"
    } else if d == 4 {
        "4"
    } else if d == 5 {
        "5"
    } else if d == 6 {
        "6"
    } else if d == 7 {
        "7"
    } else if d == 8 {
        "8"
    } else {
        "9"
    };
    assert(text@ =~= seq![digit_char(d as nat)]);
    text
}

/// Writes an unsigned number in decimal.
pub fn render_u64(v: u64) -> (text: String)
    ensures
        text@ == decimal_text(v as int),
    decreases v,
{
    if v < 10 {
        String::from_str(digit_text(v))
    } else {
        let mut text = render_u64(v / 10);
        text.append(digit_text(v % 10));
        assert(text@ =~= digits_of(v as nat));
        text
    }
}

/// Writes a signed number in decimal.
pub fn render_i64(v: i64) -> (text: String)
    ensures
        text@ == decimal_text(v as int),
{
    if v >= 0 {
        render_u64(v as u64)
    } else {
        let magnitude: u64 = if v == i64::MIN {
            0x8000_0000_0000_0000
        } else {
            (-v) as u64
        };
        proof {
            reveal_strlit("-");
        }
        let mut text = String::from_str("-");
        let digits = render_u64(magnitude);
        text.append(digits.as_str());
        assert(text@ =~= decimal_text(v as int));
        text
    }
}

/// The digits of a number are digits, at least one of them, and spell that number.
pub proof fn lemma_digits_of(n: nat)
    ensures
        digits_of(n).len() > 0,
        all_digits(digits_of(n)),
        digits_value(digits_of(n)) == n,
    decreases n,
{
    if n < 10 {
        let text = digits_of(n);
        assert(text.drop_last() =~= Seq::<char>::empty());
        assert(digits_value(text.drop_last()) == 0);
        assert(text.last() == digit_char(n));
    } else {
        lemma_digits_of(n / 10);
        let text = digits_of(n);
        assert(text.drop_last() =~= digits_of(n / 10));
        assert(text.last() == digit_char(n % 10));
        assert forall|i: int| 0 <= i < text.len() implies is_digit(#[trigger] text[i]) by {
            if i < text.len() - 1 {
                assert(text[i] == digits_of(n / 10)[i]);
            }
        }
    }
}

/// Parsing the decimal text of a number gives the number back, for every
/// number of the range parsed into.
pub proof fn lemma_parse_inverts_render(x: int, min: int, max: int)
    requires
        min <= x <= max,
    ensures
        parse_in_range(decimal_text(x), min, max) == Some(x),
{
    let text = decimal_text(x);
    if x < 0 {
        let digits = digits_of((-x) as nat);
        lemma_digits_of((-x) as nat);
        assert(text[0] == '-');
        assert(text.drop_first() =~= digits);
    } else {
        lemma_digits_of(x as nat);
        assert(is_digit(text[0]));
    }
}

} // verus!
