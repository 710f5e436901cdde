//! Decimal rendering of the per-stream file index.
//!
//! A persisted frame's file name carries its index as a zero-padded decimal
//! field of at least [`INDEX_WIDTH`] digits; an index that needs more digits
//! keeps them all, so the field widens rather than truncates.

use vstd::prelude::*;
use crate::bytes::push_all;

verus! {

/// Minimum width of the index field in a persisted frame's file name.
pub const INDEX_WIDTH: usize = 7;

/// The ASCII decimal digits of `n`, most significant first.
pub open spec fn spec_decimal(n: nat) -> Seq<u8>
    decreases n,
{
    if n < 10 {
        seq![(48 + n) as u8]
    } else {
        spec_decimal(n / 10) + seq![(48 + n % 10) as u8]
    }
}

/// The number that a sequence of ASCII digits denotes, read left to right.
pub open spec fn spec_decimal_value(s: Seq<u8>) -> nat
    decreases s.len(),
{
    if s.len() == 0 {
        0
    } else {
        spec_decimal_value(s.drop_last()) * 10 + (s.last() - 48) as nat
    }
}

/// `n` in decimal, zero-padded on the left to at least `INDEX_WIDTH` digits.
pub open spec fn spec_padded_index(n: nat) -> Seq<u8> {
    if spec_decimal(n).len() >= INDEX_WIDTH {
        spec_decimal(n)
    } else {
        Seq::new((INDEX_WIDTH - spec_decimal(n).len()) as nat, |i: int| 48u8) + spec_decimal(n)
    }
}

/// Rendering an index in decimal is faithful: the digit sequence denotes
/// exactly the number it was rendered from.
pub proof fn lemma_decimal_round_trip(n: nat)
    ensures
        spec_decimal_value(spec_decimal(n)) == n,
    decreases n,
{
    if n < 10 {
        let s = spec_decimal(n);
        assert(s =~= seq![(48 + n) as u8]);
        assert(s.drop_last() =~= Seq::<u8>::empty());
        assert(spec_decimal_value(Seq::<u8>::empty()) == 0);
        assert((48 + n) as u8 == 48 + n);
        assert(spec_decimal_value(s) == (s.last() - 48) as nat);
    } else {
        let s = spec_decimal(n);
        lemma_decimal_round_trip(n / 10);
        assert(s.drop_last() =~= spec_decimal(n / 10));
        assert(s.last() == (48 + n % 10) as u8);
        assert((48 + n % 10) as u8 == 48 + n % 10);
        assert(spec_decimal_value(s) == n / 10 * 10 + (n % 10));
        assert(n / 10 * 10 + n % 10 == n) by (nonlinear_arith);
    }
}

/// A leading zero does not change the number a digit sequence denotes.
proof fn lemma_leading_zero(s: Seq<u8>)
    ensures
        spec_decimal_value(seq![48u8] + s) == spec_decimal_value(s),
    decreases s.len(),
{
    if s.len() == 0 {
        assert((seq![48u8] + s) =~= seq![48u8]);
        assert(seq![48u8].drop_last() =~= Seq::<u8>::empty());
        assert(spec_decimal_value(Seq::<u8>::empty()) == 0);
        assert(spec_decimal_value(seq![48u8]) == (48u8 - 48) as nat);
    } else {
        assert((seq![48u8] + s).drop_last() =~= seq![48u8] + s.drop_last());
        assert((seq![48u8] + s).last() == s.last());
        lemma_leading_zero(s.drop_last());
        assert(spec_decimal_value(seq![48u8] + s)
            == spec_decimal_value(s.drop_last()) * 10 + (s.last() - 48) as nat);
    }
}

/// Any run of leading zeros leaves the denoted number unchanged.
proof fn lemma_leading_zeros(k: nat, s: Seq<u8>)
    ensures
        spec_decimal_value(Seq::new(k, |i: int| 48u8) + s) == spec_decimal_value(s),
    decreases k,
{
    if k > 0 {
        assert(Seq::new(k, |i: int| 48u8) + s
            =~= seq![48u8] + (Seq::new((k - 1) as nat, |i: int| 48u8) + s));
        lemma_leading_zero(Seq::new((k - 1) as nat, |i: int| 48u8) + s);
        lemma_leading_zeros((k - 1) as nat, s);
    } else {
        assert(Seq::new(k, |i: int| 48u8) + s =~= s);
    }
}

/// Zero-padding is faithful too: the padded index field still denotes
/// exactly the index it was rendered from.
pub proof fn lemma_padded_index_round_trip(n: nat)
    ensures
        spec_decimal_value(spec_padded_index(n)) == n,
{
    lemma_decimal_round_trip(n);
    if spec_decimal(n).len() < INDEX_WIDTH {
        lemma_leading_zeros((INDEX_WIDTH - spec_decimal(n).len()) as nat, spec_decimal(n));
    }
}

/// The decimal digits of `n` as bytes, most significant first.
pub fn decimal_digits(n: u64) -> (r: Vec<u8>)
    ensures
        r@ == spec_decimal(n as nat),
    decreases n,
{
    if n < 10 {
        let mut v: Vec<u8> = Vec::new();
        v.push(48 + n as u8);
        proof {
            assert(v@ =~= spec_decimal(n as nat));
        }
        v
    } else {
        let mut v = decimal_digits(n / 10);
        v.push(48 + (n % 10) as u8);
        proof {
            assert(v@ =~= spec_decimal(n as nat));
        }
        v
    }
}

/// The index field of a persisted frame's file name: `n` in decimal,
/// zero-padded on the left to at least `INDEX_WIDTH` digits.
pub fn padded_index(n: u64) -> (r: Vec<u8>)
    ensures
        r@ == spec_padded_index(n as nat),
{
    let digits = decimal_digits(n);
    if digits.len() >= INDEX_WIDTH {
        digits
    } else {
        let pad: usize = INDEX_WIDTH - digits.len();
        let mut v: Vec<u8> = Vec::new();
        let mut i: usize = 0;
        while i < pad
            invariant
                i <= pad,
                v@ == Seq::new(i as nat, |j: int| 48u8),
            decreases pad - i,
        {
            v.push(48);
            proof {
                assert(Seq::new(i as nat, |j: int| 48u8).push(48u8)
                    =~= Seq::new((i + 1) as nat, |j: int| 48u8));
            }
            i += 1;
        }
        push_all(&mut v, &digits);
        v
    }
}

} // verus!
