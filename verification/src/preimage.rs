//! The partial-preimage search: find an input whose 5-byte digest agrees
//! with a target of which only 34 bits are known.

use crate::candidate::candidate_bytes;
use crate::search::describes;
use crate::search::run_worker;
use crate::search::WorkerExit;
use crate::search::WORKERS;
use crate::signal::SearchSignal;
use crate::target::fixed_partial_preimage;
use crate::target::lemma_target_prefix_match;
use crate::target::partial_match;
use crate::target::Target;
use crate::target::EXTRA_BITS;
use crate::target::EXTRA_BITS_VALUE;
use crate::target::TARGET_PREFIX;
use crate::xof::shake128_output;
use vstd::prelude::*;

verus! {

/// The naming scheme of the partial-preimage search: the bytes of
/// `password_`.
pub const PASSWORD_SCHEME: [u8; 9] = [0x70, 0x61, 0x73, 0x73, 0x77, 0x6f, 0x72, 0x64, 0x5f];

/// Whether the 5-byte digest of `candidate` meets the fixed 34-bit target.
pub open spec fn is_partial_preimage(candidate: Seq<u8>) -> bool {
    partial_match(shake128_output(candidate, 5), TARGET_PREFIX@, EXTRA_BITS, EXTRA_BITS_VALUE)
}

/// The fixed target accepts exactly the candidates whose 5-byte digest
/// meets it.
pub proof fn lemma_accepts_partial_preimages(candidate: Seq<u8>)
    ensures
        fixed_partial_preimage().accepts(candidate) == is_partial_preimage(candidate),
{
}

/// The share of worker `thread_id` in the partial-preimage search over the
/// candidates `password_0, password_1, ...`.
///
/// The search runs `WORKERS` of these side by side, one per thread, all on
/// the same signal. `limit` bounds the ordinals examined.
pub fn run_challenge_c(signal: &SearchSignal, thread_id: u64, limit: u64) -> (exit: WorkerExit)
    requires
        thread_id < WORKERS,
    ensures
        describes(
            exit,
            fixed_partial_preimage(),
            PASSWORD_SCHEME@,
            thread_id as nat,
            WORKERS as nat,
            limit as nat,
        ),
        exit matches WorkerExit::Reported(finding) ==> {
            &&& finding.candidate@ == candidate_bytes(PASSWORD_SCHEME@, finding.ordinal as nat)
            &&& finding.digest@ == shake128_output(finding.candidate@, 5)
            &&& finding.digest@.len() == 5
            &&& finding.digest@.subrange(0, 4) == TARGET_PREFIX@
            &&& finding.digest@[4] >> 6 == 1
        },
{
    let target = Target::partial_preimage();
    let exit = run_worker(signal, &target, PASSWORD_SCHEME.as_slice(), thread_id, WORKERS, limit);
    proof {
        if exit is Reported {
            lemma_target_prefix_match(exit->Reported_0.digest@);
        }
    }
    exit
}

} // verus!
