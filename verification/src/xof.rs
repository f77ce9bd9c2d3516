//! SHAKE128 as an extendable-output function, truncated to short digests.

use sha3::digest::ExtendableOutput;
use vstd::prelude::*;

verus! {

/// The first `out_len` bytes that SHAKE128 produces for `input`.
///
/// The function is left uninterpreted: the searches rely only on its being a
/// function of the input and the requested length.
pub uninterp spec fn shake128_output(input: Seq<u8>, out_len: nat) -> Seq<u8>;

/// Calls `sha3::Shake128::digest_xof`, which absorbs `input` into a fresh
/// SHAKE128 state and fills the whole output buffer from it. The contract
/// claims that the `N` bytes written are `shake128_output(input, N)`; nothing
/// about the hash itself is proved.
#[verifier::external_body]
fn shake128_fill<const N: usize>(input: &[u8]) -> (output: [u8; N])
    ensures
        output@ == shake128_output(input@, N as nat),
{
    let mut output = [0u8; N];
    sha3::Shake128::digest_xof(input, &mut output);
    output
}

/// Determinism: the digest depends on nothing but the input and the length
/// asked for, so computing it again gives the same bytes.
pub proof fn lemma_digest_is_deterministic(first: Seq<u8>, second: Seq<u8>, out_len: nat)
    requires
        first == second,
    ensures
        shake128_output(first, out_len) == shake128_output(second, out_len),
{
}

/// SHAKE128 of `input`, truncated to 4 bytes.
pub fn shake128_4bytes(input: &[u8]) -> (output: [u8; 4])
    ensures
        output@ == shake128_output(input@, 4),
{
    shake128_fill::<4>(input)
}

/// SHAKE128 of `input`, truncated to 5 bytes.
pub fn shake128_5bytes(input: &[u8]) -> (output: [u8; 5])
    ensures
        output@ == shake128_output(input@, 5),
{
    shake128_fill::<5>(input)
}

} // verus!
