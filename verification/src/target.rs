//! What a digest must look like for a search to stop: equal to a given
//! digest, or equal to it on a known prefix and on the leading bits of one
//! more byte.

use crate::xof::shake128_4bytes;
use crate::xof::shake128_5bytes;
use crate::xof::shake128_output;
use vstd::prelude::*;
use vstd::slice::slice_to_vec;

verus! {

/// The four digest bytes that the partial-preimage search looks for.
pub const TARGET_PREFIX: [u8; 4] = [0x79, 0x45, 0x52, 0x69];

/// How many leading bits of the fifth digest byte are known.
pub const EXTRA_BITS: u8 = 2;

/// The value of those leading bits.
pub const EXTRA_BITS_VALUE: u8 = 0b01;

/// The `bits` most significant bits of `byte`, as a number.
pub open spec fn top_bits(byte: u8, bits: u8) -> u8
    recommends
        1 <= bits <= 8,
{
    byte >> ((8 - bits) as u8)
}

/// Whether a 5-byte digest agrees with `prefix` on its first four bytes and
/// with `value` on the `bits` leading bits of its fifth byte.
pub open spec fn partial_match(hash: Seq<u8>, prefix: Seq<u8>, bits: u8, value: u8) -> bool {
    &&& hash.len() == 5
    &&& hash.subrange(0, 4) == prefix
    &&& top_bits(hash[4], bits) == value
}

/// Whether two byte strings are the same.
pub fn bytes_equal(a: &[u8], b: &[u8]) -> (same: bool)
    ensures
        same == (a@ == b@),
{
    if a.len() != b.len() {
        return false;
    }
    let mut i: usize = 0;
    while i < a.len()
        invariant
            a@.len() == b@.len(),
            i <= a@.len(),
            a@.subrange(0, i as int) == b@.subrange(0, i as int),
        decreases a@.len() - i,
    {
        if a[i] != b[i] {
            return false;
        }
        assert(a@.subrange(0, i + 1) =~= a@.subrange(0, i as int).push(a@[i as int]));
        assert(b@.subrange(0, i + 1) =~= b@.subrange(0, i as int).push(b@[i as int]));
        i += 1;
    }
    assert(a@ =~= a@.subrange(0, i as int));
    assert(b@ =~= b@.subrange(0, i as int));
    true
}

/// The `bits` most significant bits of `byte`.
pub fn leading_bits(byte: u8, bits: u8) -> (value: u8)
    requires
        1 <= bits <= 8,
    ensures
        value == top_bits(byte, bits),
{
    byte >> (8 - bits)
}

/// Whether a 5-byte digest agrees with `prefix` on its first four bytes and
/// with `value` on the `bits` leading bits of its fifth byte.
pub fn matches_prefix(hash: &[u8; 5], prefix: &[u8; 4], bits: u8, value: u8) -> (matched: bool)
    requires
        1 <= bits <= 8,
    ensures
        matched == partial_match(hash@, prefix@, bits, value),
{
    if hash[0] != prefix[0] || hash[1] != prefix[1] || hash[2] != prefix[2] || hash[3]
        != prefix[3] {
        assert(hash@.subrange(0, 4)[0] == hash@[0]);
        assert(hash@.subrange(0, 4)[1] == hash@[1]);
        assert(hash@.subrange(0, 4)[2] == hash@[2]);
        assert(hash@.subrange(0, 4)[3] == hash@[3]);
        return false;
    }
    assert(hash@.subrange(0, 4) =~= prefix@);
    leading_bits(hash[4], bits) == value
}

/// Whether a 5-byte digest meets the 34-bit target of the partial-preimage
/// search: its first four bytes are `TARGET_PREFIX` and the two leading bits
/// of its fifth byte are `EXTRA_BITS_VALUE`.
pub fn hash_matches(hash: &[u8; 5]) -> (matched: bool)
    ensures
        matched == partial_match(hash@, TARGET_PREFIX@, EXTRA_BITS, EXTRA_BITS_VALUE),
        matched == (hash[0] == 0x79 && hash[1] == 0x45 && hash[2] == 0x52 && hash[3] == 0x69
            && hash[4] >> 6 == 1),
{
    let matched = matches_prefix(hash, &TARGET_PREFIX, EXTRA_BITS, EXTRA_BITS_VALUE);
    proof {
        lemma_target_prefix_match(hash@);
    }
    matched
}

/// The fixed 34-bit target, byte by byte.
pub proof fn lemma_target_prefix_match(hash: Seq<u8>)
    requires
        hash.len() == 5,
    ensures
        partial_match(hash, TARGET_PREFIX@, EXTRA_BITS, EXTRA_BITS_VALUE) == (hash[0] == 0x79
            && hash[1] == 0x45 && hash[2] == 0x52 && hash[3] == 0x69 && hash[4] >> 6 == 1),
{
    let head = hash.subrange(0, 4);
    assert(head[0] == hash[0] && head[1] == hash[1] && head[2] == hash[2] && head[3] == hash[3]);
    if hash[0] == 0x79 && hash[1] == 0x45 && hash[2] == 0x52 && hash[3] == 0x69 {
        assert(head =~= TARGET_PREFIX@);
    }
}

/// The six low bits of the fifth byte are unconstrained: a digest that meets
/// the fixed target still meets it whatever those bits are changed to.
pub proof fn lemma_low_bits_unconstrained(hash: Seq<u8>, low: u8)
    requires
        partial_match(hash, TARGET_PREFIX@, EXTRA_BITS, EXTRA_BITS_VALUE),
        low < 64,
    ensures
        partial_match(
            hash.update(4, (hash[4] & 0xC0) | low),
            TARGET_PREFIX@,
            EXTRA_BITS,
            EXTRA_BITS_VALUE,
        ),
{
    let byte = hash[4];
    let changed = hash.update(4, (byte & 0xC0) | low);
    assert(((byte & 0xC0) | low) >> 6 == byte >> 6) by (bit_vector)
        requires
            low < 64,
    ;
    assert(changed.subrange(0, 4) =~= hash.subrange(0, 4));
}

/// What a search looks for.
#[derive(Clone, Debug, PartialEq, Eq)]
pub enum Target {
    /// A second preimage: a candidate other than `original` whose 4-byte
    /// digest is `digest`.
    SecondPreimage { original: Vec<u8>, digest: [u8; 4] },
    /// A partial preimage: a candidate whose 5-byte digest starts with
    /// `prefix` and whose fifth byte has `extra_value` in its `extra_bits`
    /// leading bits.
    PartialPreimage { prefix: [u8; 4], extra_bits: u8, extra_value: u8 },
}

/// A target as a mathematical value.
pub enum TargetView {
    SecondPreimage { original: Seq<u8>, digest: Seq<u8> },
    PartialPreimage { prefix: Seq<u8>, extra_bits: u8, extra_value: u8 },
}

/// What a target makes of one candidate.
#[derive(Clone, Debug, PartialEq, Eq)]
pub enum Probe {
    /// The candidate is the original input itself and was not hashed.
    Skipped,
    /// The candidate was hashed and its digest does not meet the target.
    Miss,
    /// The candidate was hashed and its digest, held here, meets the target.
    Hit(Vec<u8>),
}

/// The second-preimage target for `original`: its own 4-byte digest, to be
/// reached from another input.
pub open spec fn second_preimage_of(original: Seq<u8>) -> TargetView {
    TargetView::SecondPreimage { original, digest: shake128_output(original, 4) }
}

/// The fixed 34-bit partial-preimage target.
pub open spec fn fixed_partial_preimage() -> TargetView {
    TargetView::PartialPreimage {
        prefix: TARGET_PREFIX@,
        extra_bits: EXTRA_BITS,
        extra_value: EXTRA_BITS_VALUE,
    }
}

impl TargetView {
    /// A partial-preimage target needs between one and eight known bits in
    /// the fifth byte.
    pub open spec fn wf(self) -> bool {
        match self {
            TargetView::SecondPreimage { .. } => true,
            TargetView::PartialPreimage { extra_bits, .. } => 1 <= extra_bits <= 8,
        }
    }

    /// The number of digest bytes that the target is compared with.
    pub open spec fn digest_len(self) -> nat {
        match self {
            TargetView::SecondPreimage { .. } => 4,
            TargetView::PartialPreimage { .. } => 5,
        }
    }

    /// Whether the candidate is left out of the search unhashed.
    pub open spec fn excludes(self, candidate: Seq<u8>) -> bool {
        match self {
            TargetView::SecondPreimage { original, .. } => candidate == original,
            TargetView::PartialPreimage { .. } => false,
        }
    }

    /// Whether a digest meets the target.
    pub open spec fn admits(self, digest: Seq<u8>) -> bool {
        match self {
            TargetView::SecondPreimage { digest: wanted, .. } => digest == wanted,
            TargetView::PartialPreimage { prefix, extra_bits, extra_value } => partial_match(
                digest,
                prefix,
                extra_bits,
                extra_value,
            ),
        }
    }

    /// The digest that the search computes for a candidate.
    pub open spec fn digest_of(self, candidate: Seq<u8>) -> Seq<u8> {
        shake128_output(candidate, self.digest_len())
    }

    /// Whether a candidate ends the search: it is not left out, and its
    /// digest meets the target.
    pub open spec fn accepts(self, candidate: Seq<u8>) -> bool {
        !self.excludes(candidate) && self.admits(self.digest_of(candidate))
    }
}

impl View for Target {
    type V = TargetView;

    open spec fn view(&self) -> TargetView {
        match *self {
            Target::SecondPreimage { original, digest } => TargetView::SecondPreimage {
                original: original@,
                digest: digest@,
            },
            Target::PartialPreimage { prefix, extra_bits, extra_value } => {
                TargetView::PartialPreimage { prefix: prefix@, extra_bits, extra_value }
            },
        }
    }
}

impl Target {
    /// The second-preimage target for `original`, with its digest computed
    /// once.
    pub fn second_preimage(original: &[u8]) -> (target: Target)
        ensures
            target@ == second_preimage_of(original@),
    {
        Target::SecondPreimage { original: slice_to_vec(original), digest: shake128_4bytes(original) }
    }

    /// The fixed 34-bit partial-preimage target.
    pub fn partial_preimage() -> (target: Target)
        ensures
            target@ == fixed_partial_preimage(),
    {
        Target::PartialPreimage {
            prefix: TARGET_PREFIX,
            extra_bits: EXTRA_BITS,
            extra_value: EXTRA_BITS_VALUE,
        }
    }

    /// Whether a 4-byte digest meets a second-preimage target, or a 5-byte
    /// digest a partial-preimage target; a digest of another length meets
    /// neither.
    pub fn admits_digest(&self, digest: &[u8]) -> (admitted: bool)
        requires
            self@.wf(),
        ensures
            admitted == (digest@.len() == self@.digest_len() && self@.admits(digest@)),
    {
        match self {
            Target::SecondPreimage { digest: wanted, .. } => {
                digest.len() == 4 && bytes_equal(digest, wanted.as_slice())
            },
            Target::PartialPreimage { prefix, extra_bits, extra_value } => {
                if digest.len() != 5 {
                    return false;
                }
                let hash: [u8; 5] = [digest[0], digest[1], digest[2], digest[3], digest[4]];
                assert(hash@ =~= digest@);
                matches_prefix(&hash, prefix, *extra_bits, *extra_value)
            },
        }
    }

    /// Examines one candidate: leaves it out if it is the original input,
    /// else hashes it and compares the digest with the target.
    pub fn probe(&self, candidate: &[u8]) -> (probe: Probe)
        requires
            self@.wf(),
        ensures
            probe is Skipped <==> self@.excludes(candidate@),
            probe is Hit <==> self@.accepts(candidate@),
            probe is Hit ==> probe->Hit_0@ == self@.digest_of(candidate@),
    {
        match self {
            Target::SecondPreimage { original, .. } => {
                if bytes_equal(candidate, original.as_slice()) {
                    return Probe::Skipped;
                }
                let hash = shake128_4bytes(candidate);
                if self.admits_digest(hash.as_slice()) {
                    Probe::Hit(slice_to_vec(hash.as_slice()))
                } else {
                    Probe::Miss
                }
            },
            Target::PartialPreimage { .. } => {
                let hash = shake128_5bytes(candidate);
                if self.admits_digest(hash.as_slice()) {
                    Probe::Hit(slice_to_vec(hash.as_slice()))
                } else {
                    Probe::Miss
                }
            },
        }
    }
}

} // verus!
