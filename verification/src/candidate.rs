//! Candidate inputs: a naming scheme followed by an ordinal in decimal, and
//! the split of the ordinals among the workers of a partitioned search.

use vstd::prelude::*;
use vstd::slice::slice_to_vec;

verus! {

/// The ASCII code of the decimal digit `d`.
pub open spec fn digit_byte(d: nat) -> u8
    recommends
        d < 10,
{
    (48 + d) as u8
}

/// The decimal rendering of `n` in ASCII, most significant digit first and
/// without leading zeros.
pub open spec fn decimal_digits(n: nat) -> Seq<u8>
    decreases n,
{
    if n < 10 {
        seq![digit_byte(n)]
    } else {
        decimal_digits(n / 10).push(digit_byte(n % 10))
    }
}

/// The number that a string of ASCII decimal digits denotes.
pub open spec fn decimal_value(digits: Seq<u8>) -> nat
    decreases digits.len(),
{
    if digits.len() == 0 {
        0
    } else {
        decimal_value(digits.drop_last()) * 10 + (digits.last() - 48) as nat
    }
}

/// The candidate that a naming scheme assigns to an ordinal: the scheme's
/// bytes followed by the ordinal in decimal.
pub open spec fn candidate_bytes(scheme: Seq<u8>, ordinal: nat) -> Seq<u8> {
    scheme + decimal_digits(ordinal)
}

/// Reading back the decimal rendering of a number gives the number.
pub proof fn lemma_decimal_round_trip(n: nat)
    ensures
        decimal_value(decimal_digits(n)) == n,
    decreases n,
{
    if n < 10 {
        let d = decimal_digits(n);
        assert(d.drop_last() =~= Seq::<u8>::empty());
        assert(decimal_value(d.drop_last()) == 0);
    } else {
        let d = decimal_digits(n);
        lemma_decimal_round_trip(n / 10);
        assert(d.drop_last() =~= decimal_digits(n / 10));
    }
}

/// Different numbers have different decimal renderings.
pub proof fn lemma_decimal_digits_injective(a: nat, b: nat)
    requires
        decimal_digits(a) == decimal_digits(b),
    ensures
        a == b,
{
    lemma_decimal_round_trip(a);
    lemma_decimal_round_trip(b);
}

/// Under one naming scheme, different ordinals give different candidates.
pub proof fn lemma_candidates_distinct(scheme: Seq<u8>, a: nat, b: nat)
    requires
        a != b,
    ensures
        candidate_bytes(scheme, a) != candidate_bytes(scheme, b),
{
    let ca = candidate_bytes(scheme, a);
    let cb = candidate_bytes(scheme, b);
    if ca == cb {
        let n = scheme.len() as int;
        assert(ca.subrange(n, ca.len() as int) =~= decimal_digits(a));
        assert(cb.subrange(n, cb.len() as int) =~= decimal_digits(b));
        lemma_decimal_digits_injective(a, b);
    }
}

/// Appends the decimal rendering of `n` to `out`.
pub fn push_decimal(out: &mut Vec<u8>, n: u64)
    ensures
        final(out)@ == old(out)@ + decimal_digits(n as nat),
    decreases n,
{
    if n >= 10 {
        push_decimal(out, n / 10);
    }
    let digit: u8 = (n % 10) as u8;
    out.push(48u8 + digit);
    proof {
        let n_nat = n as nat;
        if n >= 10 {
            assert(final(out)@ =~= old(out)@ + decimal_digits(n_nat / 10).push(digit_byte(n_nat % 10)));
        } else {
            assert(final(out)@ =~= old(out)@ + seq![digit_byte(n_nat)]);
        }
    }
}

/// Builds the candidate for `ordinal` under the naming scheme `scheme`.
pub fn candidate(scheme: &[u8], ordinal: u64) -> (bytes: Vec<u8>)
    ensures
        bytes@ == candidate_bytes(scheme@, ordinal as nat),
{
    let mut bytes = slice_to_vec(scheme);
    push_decimal(&mut bytes, ordinal);
    bytes
}

} // verus!
