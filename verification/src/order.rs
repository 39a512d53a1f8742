//! Byte-lexicographic order: the only ordering the storage engine offers.

use crate::bigendian::{be_value, lemma_be_value_bound, lemma_be_value_first, span};
use vstd::prelude::*;

verus! {

/// `a` sorts strictly before `b`, byte by byte, a proper prefix before its extensions.
pub open spec fn bytes_less(a: Seq<u8>, b: Seq<u8>) -> bool
    decreases a.len(),
{
    if b.len() == 0 {
        false
    } else if a.len() == 0 {
        true
    } else if a[0] != b[0] {
        a[0] < b[0]
    } else {
        bytes_less(a.drop_first(), b.drop_first())
    }
}

/// `a` sorts before `b` or is `b`.
pub open spec fn bytes_at_most(a: Seq<u8>, b: Seq<u8>) -> bool {
    a == b || bytes_less(a, b)
}

/// No byte string sorts before itself.
pub proof fn lemma_less_irreflexive(a: Seq<u8>)
    ensures
        !bytes_less(a, a),
    decreases a.len(),
{
    if a.len() > 0 {
        lemma_less_irreflexive(a.drop_first());
    }
}

/// Of two byte strings, never both sort before the other.
pub proof fn lemma_less_asymmetric(a: Seq<u8>, b: Seq<u8>)
    ensures
        !(bytes_less(a, b) && bytes_less(b, a)),
    decreases a.len(),
{
    if a.len() > 0 && b.len() > 0 && a[0] == b[0] {
        lemma_less_asymmetric(a.drop_first(), b.drop_first());
    }
}

/// The order is transitive.
pub proof fn lemma_less_transitive(a: Seq<u8>, b: Seq<u8>, c: Seq<u8>)
    requires
        bytes_less(a, b),
        bytes_less(b, c),
    ensures
        bytes_less(a, c),
    decreases a.len(),
{
    if a.len() > 0 && b.len() > 0 && c.len() > 0 && a[0] == b[0] && b[0] == c[0] {
        lemma_less_transitive(a.drop_first(), b.drop_first(), c.drop_first());
    }
}

/// A shared prefix does not change how two byte strings compare.
pub proof fn lemma_less_common_prefix(prefix: Seq<u8>, a: Seq<u8>, b: Seq<u8>)
    ensures
        bytes_less(prefix + a, prefix + b) == bytes_less(a, b),
    decreases prefix.len(),
{
    if prefix.len() == 0 {
        assert(prefix + a =~= a);
        assert(prefix + b =~= b);
    } else {
        let rest = prefix.drop_first();
        lemma_less_common_prefix(rest, a, b);
        assert((prefix + a).drop_first() =~= rest + a);
        assert((prefix + b).drop_first() =~= rest + b);
        assert((prefix + a)[0] == (prefix + b)[0]);
    }
}

/// Between byte strings of one length, lexicographic order is the order of
/// the numbers they spell most significant byte first.
pub proof fn lemma_less_is_numeric(a: Seq<u8>, b: Seq<u8>)
    requires
        a.len() == b.len(),
    ensures
        bytes_less(a, b) == (be_value(a) < be_value(b)),
    decreases a.len(),
{
    if a.len() > 0 {
        let ra = a.drop_first();
        let rb = b.drop_first();
        lemma_less_is_numeric(ra, rb);
        lemma_be_value_first(a);
        lemma_be_value_first(b);
        lemma_be_value_bound(ra);
        lemma_be_value_bound(rb);
        let s = span((a.len() - 1) as nat) as int;
        let x = a[0] as int;
        let y = b[0] as int;
        if x < y {
            assert(x * s + s <= y * s) by (nonlinear_arith)
                requires
                    x < y,
                    s >= 0,
            ;
        } else if y < x {
            assert(y * s + s <= x * s) by (nonlinear_arith)
                requires
                    y < x,
                    s >= 0,
            ;
        }
    }
}

/// A string of zero bytes sorts at or before everything at least as long.
pub proof fn lemma_zeros_are_least(zeros: Seq<u8>, other: Seq<u8>)
    requires
        forall|i: int| 0 <= i < zeros.len() ==> zeros[i] == 0,
        zeros.len() <= other.len(),
    ensures
        bytes_at_most(zeros, other),
    decreases zeros.len(),
{
    if zeros.len() == 0 {
        if other.len() == 0 {
            assert(zeros =~= other);
        }
    } else if other[0] == 0 {
        lemma_zeros_are_least(zeros.drop_first(), other.drop_first());
        if zeros.drop_first() == other.drop_first() {
            assert(zeros =~= seq![zeros[0]] + zeros.drop_first());
            assert(other =~= seq![other[0]] + other.drop_first());
        }
    }
}

/// Compares two byte strings in lexicographic order.
pub fn less(a: &[u8], b: &[u8]) -> (r: bool)
    ensures
        r == bytes_less(a@, b@),
{
    let mut i: usize = 0;
    assert(a@.subrange(0, a@.len() as int) =~= a@);
    assert(b@.subrange(0, b@.len() as int) =~= b@);
    while i < a.len() && i < b.len()
        invariant
            i <= a@.len(),
            i <= b@.len(),
            bytes_less(a@, b@) == bytes_less(
                a@.subrange(i as int, a@.len() as int),
                b@.subrange(i as int, b@.len() as int),
            ),
        decreases a@.len() - i,
    {
        let ghost ra = a@.subrange(i as int, a@.len() as int);
        let ghost rb = b@.subrange(i as int, b@.len() as int);
        assert(ra[0] == a@[i as int]);
        assert(rb[0] == b@[i as int]);
        if a[i] != b[i] {
            return a[i] < b[i];
        }
        assert(ra.drop_first() =~= a@.subrange(i + 1, a@.len() as int));
        assert(rb.drop_first() =~= b@.subrange(i + 1, b@.len() as int));
        i += 1;
    }
    let ghost ra = a@.subrange(i as int, a@.len() as int);
    let ghost rb = b@.subrange(i as int, b@.len() as int);
    assert(ra.len() == 0 || rb.len() == 0);
    i < b.len()
}

/// Whether two byte strings are the same.
pub fn equal(a: &[u8], b: &[u8]) -> (r: bool)
    ensures
        r == (a@ == b@),
{
    if a.len() != b.len() {
        return false;
    }
    let mut i: usize = 0;
    while i < a.len()
        invariant
            a@.len() == b@.len(),
            i <= a@.len(),
            forall|j: int| 0 <= j < i ==> a@[j] == b@[j],
        decreases a@.len() - i,
    {
        if a[i] != b[i] {
            return false;
        }
        i += 1;
    }
    assert(a@ =~= b@);
    true
}

} // verus!
