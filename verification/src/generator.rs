//! The candidate generator: the lazy sequence of one worker's candidates,
//! in the order of its ordinals.

use crate::candidate::candidate;
use crate::candidate::candidate_bytes;
use crate::partition::lemma_partition_ordinal_assigned;
use crate::partition::lemma_partition_step;
use crate::partition::lemma_round_bound;
use crate::partition::partition_ordinal;
use vstd::prelude::*;
use vstd::slice::slice_to_vec;

verus! {

/// The candidates of worker `worker` of `stride`, for the ordinals
/// `worker, worker + stride, worker + 2 * stride, ...` below `limit`.
///
/// The generator holds no more than its position: the candidate for an
/// ordinal is computed afresh from the naming scheme and the ordinal each
/// time.
pub struct CandidateGenerator {
    scheme: Vec<u8>,
    worker: u64,
    stride: u64,
    limit: u64,
    next: u64,
    live: bool,
    round: Ghost<nat>,
}

impl CandidateGenerator {
    /// The naming scheme.
    pub closed spec fn scheme(self) -> Seq<u8> {
        self.scheme@
    }

    /// The worker's identity.
    pub closed spec fn worker(self) -> nat {
        self.worker as nat
    }

    /// The number of workers that share the ordinals.
    pub closed spec fn stride(self) -> nat {
        self.stride as nat
    }

    /// The bound below which the ordinals lie.
    pub closed spec fn limit(self) -> nat {
        self.limit as nat
    }

    /// The number of candidates handed out so far.
    pub closed spec fn round(self) -> nat {
        self.round@
    }

    /// The worker's identity lies below the stride, and the stored position
    /// is that of the current round.
    pub closed spec fn wf(self) -> bool {
        let ordinal = partition_ordinal(self.worker as nat, self.stride as nat, self.round@);
        &&& self.worker < self.stride
        &&& self.live ==> self.next == ordinal && ordinal < self.limit
        &&& !self.live ==> ordinal >= self.limit
    }

    /// The ordinal of the candidate that comes next, if one is left.
    pub open spec fn upcoming(self) -> Option<nat> {
        let ordinal = partition_ordinal(self.worker(), self.stride(), self.round());
        if ordinal < self.limit() {
            Some(ordinal)
        } else {
            None
        }
    }

    /// The ordinal that follows `ordinal` in the worker's walk, if it lies
    /// below the limit.
    pub open spec fn following(self, ordinal: nat) -> Option<nat> {
        if ordinal + self.stride() < self.limit() {
            Some(ordinal + self.stride())
        } else {
            None
        }
    }

    /// Whether `self` walks the same ordinals as `other`: they agree on the
    /// naming scheme, the worker, the stride and the limit, and differ at
    /// most in how far they have come.
    pub open spec fn same_walk(self, other: CandidateGenerator) -> bool {
        &&& self.scheme() == other.scheme()
        &&& self.worker() == other.worker()
        &&& self.stride() == other.stride()
        &&& self.limit() == other.limit()
    }

    /// The bound below which all of the worker's candidates have been
    /// handed out.
    pub open spec fn frontier(self) -> nat {
        match self.upcoming() {
            Some(ordinal) => ordinal,
            None => self.limit(),
        }
    }

    /// With the limit at `rounds * stride`, the generator hands out a
    /// candidate in each of its first `rounds` rounds and none after them.
    pub proof fn lemma_rounds_until_exhausted(self, rounds: nat)
        requires
            self.wf(),
            self.limit() == rounds * self.stride(),
        ensures
            self.upcoming() is Some <==> self.round() < rounds,
    {
        let ordinal = partition_ordinal(self.worker(), self.stride(), self.round());
        lemma_partition_ordinal_assigned(self.worker(), self.stride(), self.round());
        lemma_round_bound(self.stride(), rounds, ordinal);
    }

    /// The generator of worker `worker` of `stride`, before its first
    /// candidate.
    pub fn new(scheme: &[u8], worker: u64, stride: u64, limit: u64) -> (generator:
        CandidateGenerator)
        requires
            worker < stride,
        ensures
            generator.wf(),
            generator.scheme() == scheme@,
            generator.worker() == worker,
            generator.stride() == stride,
            generator.limit() == limit,
            generator.round() == 0,
    {
        assert(partition_ordinal(worker as nat, stride as nat, 0) == worker) by (nonlinear_arith);
        CandidateGenerator {
            scheme: slice_to_vec(scheme),
            worker,
            stride,
            limit,
            next: worker,
            live: worker < limit,
            round: Ghost(0),
        }
    }

    /// Hands out the next ordinal with its candidate, or `None` once the
    /// worker's ordinals below the limit are used up.
    pub fn next_candidate(&mut self) -> (item: Option<(u64, Vec<u8>)>)
        requires
            old(self).wf(),
        ensures
            final(self).wf(),
            final(self).same_walk(*old(self)),
            match old(self).upcoming() {
                Some(ordinal) => {
                    &&& item matches Some(pair)
                    &&& pair.0 == ordinal
                    &&& pair.1@ == candidate_bytes(old(self).scheme(), ordinal)
                    &&& final(self).round() == old(self).round() + 1
                    &&& final(self).upcoming() == old(self).following(ordinal)
                },
                None => item is None && final(self).round() == old(self).round(),
            },
    {
        if !self.live {
            return None;
        }
        let ordinal = self.next;
        let bytes = candidate(self.scheme.as_slice(), ordinal);
        proof {
            lemma_partition_step(self.worker as nat, self.stride as nat, self.round@);
        }
        if self.limit - ordinal > self.stride {
            self.next = ordinal + self.stride;
        } else {
            self.live = false;
        }
        self.round = Ghost((self.round@ + 1) as nat);
        Some((ordinal, bytes))
    }
}

} // verus!
