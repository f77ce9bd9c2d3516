//! The collision search: one sequential walk through the ordinals that
//! remembers every digest seen and stops at the first digest seen twice.

use crate::candidate::candidate_bytes;
use crate::candidate::lemma_candidates_distinct;
use crate::generator::CandidateGenerator;
use crate::xof::shake128_4bytes;
use crate::xof::shake128_output;
use std::collections::HashMap;
use vstd::prelude::*;
use vstd::set_lib::lemma_int_range;
use vstd::set_lib::lemma_len_subset;
use vstd::set_lib::set_int_range;
use vstd::slice::slice_to_vec;

verus! {

/// The naming scheme of the collision search: the bytes of `message_`.
pub const MESSAGE_SCHEME: [u8; 8] = [0x6d, 0x65, 0x73, 0x73, 0x61, 0x67, 0x65, 0x5f];

/// The 4-byte digest of the candidate for `ordinal`.
pub open spec fn digest4(scheme: Seq<u8>, ordinal: nat) -> Seq<u8> {
    shake128_output(candidate_bytes(scheme, ordinal), 4)
}

/// No two ordinals below `bound` have candidates with the same 4-byte digest.
pub open spec fn collision_free(scheme: Seq<u8>, bound: nat) -> bool {
    forall|i: nat, j: nat|
        i < j < bound ==> #[trigger] digest4(scheme, i) != #[trigger] digest4(scheme, j)
}

/// A 4-byte digest read as a big-endian number.
pub open spec fn digest_key(digest: Seq<u8>) -> u32
    recommends
        digest.len() == 4,
{
    (digest[0] * 0x100_0000 + digest[1] * 0x1_0000 + digest[2] * 0x100 + digest[3]) as u32
}

/// Digests with the same number are the same digest.
pub proof fn lemma_digest_key_injective(a: Seq<u8>, b: Seq<u8>)
    requires
        a.len() == 4,
        b.len() == 4,
        digest_key(a) == digest_key(b),
    ensures
        a == b,
{
    assert(a[0] == b[0] && a[1] == b[1] && a[2] == b[2] && a[3] == b[3]);
    assert(a =~= b);
}

/// Two candidates with the same 4-byte digest, as the collision search
/// found them.
#[derive(Clone, Debug, PartialEq, Eq)]
pub struct Collision {
    /// The candidate that was stored when the digest was first seen.
    pub first: Vec<u8>,
    /// The candidate that produced the digest again.
    pub second: Vec<u8>,
    /// The digest that both share.
    pub digest: [u8; 4],
    /// The number of digests computed up to and including that of the
    /// second candidate: one more than its ordinal.
    pub attempts: u64,
}

impl Collision {
    /// The ordinal of the second candidate. The search computes one digest
    /// for each ordinal from 0 on, so this is one less than the attempts.
    pub open spec fn ordinal(self) -> nat {
        (self.attempts - 1) as nat
    }
}

/// The digests seen so far, each with the first candidate that produced it.
///
/// The set only grows: the search drops it as a whole once it has found a
/// collision.
pub struct SeenSet {
    entries: HashMap<u32, Vec<u8>>,
}

impl SeenSet {
    /// The set as a map from 4-byte digests to candidates.
    pub closed spec fn view(self) -> Map<Seq<u8>, Seq<u8>> {
        Map::new(
            |digest: Seq<u8>| digest.len() == 4 && self.entries@.contains_key(digest_key(digest)),
            |digest: Seq<u8>| self.entries@[digest_key(digest)]@,
        )
    }

    /// The empty set.
    pub fn new() -> (seen: SeenSet)
        ensures
            seen@ == Map::<Seq<u8>, Seq<u8>>::empty(),
    {
        let seen = SeenSet { entries: HashMap::new() };
        assert(seen@ =~= Map::<Seq<u8>, Seq<u8>>::empty());
        seen
    }

    /// The number under which a digest is kept.
    fn key_of(digest: &[u8; 4]) -> (key: u32)
        ensures
            key == digest_key(digest@),
    {
        let b0: u32 = digest[0] as u32;
        let b1: u32 = digest[1] as u32;
        let b2: u32 = digest[2] as u32;
        let b3: u32 = digest[3] as u32;
        b0 * 0x100_0000 + b1 * 0x1_0000 + b2 * 0x100 + b3
    }

    /// The candidate that was stored for `digest`, if any.
    pub fn get(&self, digest: &[u8; 4]) -> (found: Option<&Vec<u8>>)
        ensures
            match found {
                Some(candidate) => self@.contains_key(digest@) && candidate@ == self@[digest@],
                None => !self@.contains_key(digest@),
            },
    {
        let key = SeenSet::key_of(digest);
        self.entries.get(&key)
    }

    /// Stores `candidate` for `digest`, in place of what was stored for it.
    pub fn insert(&mut self, digest: [u8; 4], candidate: Vec<u8>)
        ensures
            final(self)@ == old(self)@.insert(digest@, candidate@),
    {
        let key = SeenSet::key_of(&digest);
        let _ = self.entries.insert(key, candidate);
        proof {
            assert forall|other: Seq<u8>|
                other.len() == 4 && digest_key(other) == digest_key(digest@) implies other
                == digest@ by {
                lemma_digest_key_injective(other, digest@);
            }
            assert(final(self)@ =~= old(self)@.insert(digest@, candidate@));
        }
    }

    /// Takes in one candidate with its digest; `attempts` is the number of
    /// digests computed so far, this one included. If the digest has been
    /// seen before, the set stays as it is and the result is the collision:
    /// the candidate stored for the digest, this one, and the attempts.
    /// Otherwise the candidate is stored for the digest and the search goes
    /// on.
    pub fn observe(&mut self, attempts: u64, candidate: Vec<u8>, digest: [u8; 4]) -> (clash: Option<
        Collision,
    >)
        ensures
            match clash {
                Some(collision) => {
                    &&& old(self)@.contains_key(digest@)
                    &&& collision.first@ == old(self)@[digest@]
                    &&& collision.second@ == candidate@
                    &&& collision.digest == digest
                    &&& collision.attempts == attempts
                    &&& final(self)@ == old(self)@
                },
                None => {
                    &&& !old(self)@.contains_key(digest@)
                    &&& final(self)@ == old(self)@.insert(digest@, candidate@)
                },
            },
    {
        let stored = match self.get(&digest) {
            Some(previous) => Some(slice_to_vec(previous.as_slice())),
            None => None,
        };
        match stored {
            Some(first) => Some(Collision { first, second: candidate, digest, attempts }),
            None => {
                self.insert(digest, candidate);
                None
            },
        }
    }
}

/// The number of values that a 4-byte digest can take.
pub const DIGEST_VALUES: u64 = 0x1_0000_0000;

/// The digests of the ordinals below `bound` have 4 bytes each.
pub open spec fn four_bytes_each(scheme: Seq<u8>, bound: nat) -> bool {
    forall|j: nat| j < bound ==> (#[trigger] digest4(scheme, j)).len() == 4
}

/// Pigeonhole: ordinals whose 4-byte digests all differ are no more than
/// there are 4-byte values.
pub proof fn lemma_distinct_digests_are_few(scheme: Seq<u8>, bound: nat)
    requires
        collision_free(scheme, bound),
        four_bytes_each(scheme, bound),
    ensures
        bound <= DIGEST_VALUES,
{
    let keys = Seq::new(bound, |j: int| digest_key(digest4(scheme, j as nat)) as int);
    assert forall|i: int, j: int| 0 <= i < keys.len() && 0 <= j < keys.len() && i != j implies keys[i]
        != keys[j] by {
        if keys[i] == keys[j] {
            assert(digest4(scheme, i as nat).len() == 4);
            assert(digest4(scheme, j as nat).len() == 4);
            lemma_digest_key_injective(digest4(scheme, i as nat), digest4(scheme, j as nat));
        }
    }
    keys.unique_seq_to_set();
    lemma_int_range(0, DIGEST_VALUES as int);
    assert forall|key: int| keys.to_set().contains(key) implies set_int_range(
        0,
        DIGEST_VALUES as int,
    ).contains(key) by {
        let j = choose|j: int| 0 <= j < keys.len() && keys[j] == key;
        assert(keys[j] == digest_key(digest4(scheme, j as nat)) as int);
    }
    lemma_len_subset(keys.to_set(), set_int_range(0, DIGEST_VALUES as int));
}

/// What the collision search over the ordinals below `limit` returns.
///
/// Without a collision below `limit` it returns nothing; this can only be
/// if `limit` is no more than the number of 4-byte values. Otherwise it
/// returns the candidate of the first ordinal whose digest an earlier one
/// has had, as `second`, the candidate of that earlier ordinal as `first`,
/// the digest of both, and the number of digests computed: one for each
/// ordinal up to that of `second`, which is never more than one above the
/// number of 4-byte values. The two candidates differ.
pub open spec fn first_collision(found: Option<Collision>, scheme: Seq<u8>, limit: nat) -> bool {
    match found {
        Some(collision) => {
            &&& 1 <= collision.attempts <= limit
            &&& collision.attempts <= DIGEST_VALUES + 1
            &&& collision_free(scheme, collision.ordinal())
            &&& collision.second@ == candidate_bytes(scheme, collision.ordinal())
            &&& collision.digest@ == digest4(scheme, collision.ordinal())
            &&& exists|i: nat|
                i < collision.ordinal() && collision.first@ == candidate_bytes(scheme, i)
                    && #[trigger] digest4(scheme, i) == collision.digest@
            &&& collision.first@ != collision.second@
            &&& shake128_output(collision.first@, 4) == collision.digest@
            &&& shake128_output(collision.second@, 4) == collision.digest@
        },
        None => collision_free(scheme, limit) && limit <= DIGEST_VALUES,
    }
}

/// Searches the candidates of the ordinals `0, 1, 2, ...` below `limit` for
/// the first whose 4-byte digest an earlier one has had.
///
/// Without a collision below `limit` the search examines `limit` candidates
/// and keeps all of them in memory. Every candidate examined counts as one
/// attempt, the one that ends the search included.
pub fn find_collision(scheme: &[u8], limit: u64) -> (found: Option<Collision>)
    ensures
        first_collision(found, scheme@, limit as nat),
{
    let mut generator = CandidateGenerator::new(scheme, 0, 1, limit);
    let mut seen = SeenSet::new();
    let ghost mut origin: Map<Seq<u8>, nat> = Map::empty();
    loop
        invariant
            generator.wf(),
            generator.scheme() == scheme@,
            generator.worker() == 0,
            generator.stride() == 1,
            generator.limit() == limit,
            generator.frontier() <= limit,
            generator.frontier() <= DIGEST_VALUES,
            collision_free(scheme@, generator.frontier()),
            four_bytes_each(scheme@, generator.frontier()),
            origin.dom() == seen@.dom(),
            forall|j: nat|
                j < generator.frontier() ==> seen@.contains_key(#[trigger] digest4(scheme@, j)),
            forall|digest: Seq<u8>| #[trigger]
                seen@.contains_key(digest) ==> {
                    &&& origin[digest] < generator.frontier()
                    &&& digest4(scheme@, origin[digest]) == digest
                    &&& seen@[digest] == candidate_bytes(scheme@, origin[digest])
                },
        decreases limit - generator.frontier(),
    {
        match generator.next_candidate() {
            None => {
                return None;
            },
            Some((counter, message)) => {
                let hash = shake128_4bytes(message.as_slice());
                match seen.observe(counter + 1, message, hash) {
                    Some(collision) => {
                        proof {
                            let i = origin[hash@];
                            assert(digest4(scheme@, i) == hash@);
                            lemma_candidates_distinct(scheme@, i, counter as nat);
                        }
                        return Some(collision);
                    },
                    None => {
                        proof {
                            origin = origin.insert(hash@, counter as nat);
                            assert(collision_free(scheme@, (counter + 1) as nat));
                            assert(four_bytes_each(scheme@, (counter + 1) as nat));
                            lemma_distinct_digests_are_few(scheme@, (counter + 1) as nat);
                        }
                    },
                }
            },
        }
    }
}

/// The collision search over the candidates `message_0, message_1, ...`.
///
/// The search has no end of its own: `limit` bounds the ordinals it
/// examines, and every digest seen stays in memory until it returns.
pub fn run_challenge_a(limit: u64) -> (found: Option<Collision>)
    ensures
        first_collision(found, MESSAGE_SCHEME@, limit as nat),
{
    find_collision(MESSAGE_SCHEME.as_slice(), limit)
}

} // verus!
