//! The second-preimage search: given one input, find another with the same
//! 4-byte digest.

use crate::candidate::candidate_bytes;
use crate::search::describes;
use crate::search::run_worker;
use crate::search::WorkerExit;
use crate::search::WORKERS;
use crate::signal::SearchSignal;
use crate::target::second_preimage_of;
use crate::target::Target;
use crate::xof::shake128_output;
use vstd::prelude::*;

verus! {

/// The input whose digest is to be reached again: the bytes of
/// `Aluno: Rubens Rabelo Soares`.
pub const TARGET_INPUT: [u8; 27] = [
    0x41, 0x6c, 0x75, 0x6e, 0x6f, 0x3a, 0x20, 0x52, 0x75, 0x62, 0x65, 0x6e, 0x73, 0x20,
    0x52, 0x61, 0x62, 0x65, 0x6c, 0x6f, 0x20, 0x53, 0x6f, 0x61, 0x72, 0x65, 0x73,
];

/// The naming scheme of the second-preimage search: the bytes of
/// `candidate_`.
pub const CANDIDATE_SCHEME: [u8; 10] = [0x63, 0x61, 0x6e, 0x64, 0x69, 0x64, 0x61, 0x74, 0x65, 0x5f];

/// Whether `candidate` is a second preimage of `original`: another input
/// with the same 4-byte digest.
pub open spec fn is_second_preimage(original: Seq<u8>, candidate: Seq<u8>) -> bool {
    candidate != original && shake128_output(candidate, 4) == shake128_output(original, 4)
}

/// A second-preimage target accepts exactly the second preimages of its
/// original.
pub proof fn lemma_accepts_second_preimages(original: Seq<u8>, candidate: Seq<u8>)
    ensures
        second_preimage_of(original).accepts(candidate) == is_second_preimage(
            original,
            candidate,
        ),
{
}

/// The share of worker `thread_id` in the second-preimage search for
/// `TARGET_INPUT` over the candidates `candidate_0, candidate_1, ...`.
///
/// The search runs `WORKERS` of these side by side, one per thread, all on
/// the same signal. `limit` bounds the ordinals examined.
pub fn run_challenge_b(signal: &SearchSignal, thread_id: u64, limit: u64) -> (exit: WorkerExit)
    requires
        thread_id < WORKERS,
    ensures
        describes(
            exit,
            second_preimage_of(TARGET_INPUT@),
            CANDIDATE_SCHEME@,
            thread_id as nat,
            WORKERS as nat,
            limit as nat,
        ),
        exit matches WorkerExit::Reported(finding) ==> {
            &&& finding.candidate@ == candidate_bytes(CANDIDATE_SCHEME@, finding.ordinal as nat)
            &&& is_second_preimage(TARGET_INPUT@, finding.candidate@)
            &&& finding.digest@ == shake128_output(TARGET_INPUT@, 4)
        },
{
    let target = Target::second_preimage(TARGET_INPUT.as_slice());
    run_worker(signal, &target, CANDIDATE_SCHEME.as_slice(), thread_id, WORKERS, limit)
}

} // verus!
