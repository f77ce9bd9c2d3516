//! The search that the preimage scenarios share: one worker's walk through
//! its share of the ordinals, until it finds a match, learns that another
//! worker has found one, or runs out of ordinals.

use crate::candidate::candidate_bytes;
use crate::generator::CandidateGenerator;
use crate::partition::assigned;
use crate::partition::lemma_next_assigned;
use crate::partition::lemma_partition_ordinal_assigned;
use crate::protocol::on_match;
use crate::signal::SearchSignal;
use crate::target::Probe;
use crate::target::Target;
use crate::target::TargetView;
use vstd::arithmetic::div_mod::lemma_small_mod;
use vstd::prelude::*;

verus! {

/// A candidate that meets the target, as the reporting worker hands it on.
#[derive(Clone, Debug, PartialEq, Eq)]
pub struct Finding {
    /// The ordinal of the candidate.
    pub ordinal: u64,
    /// The candidate itself.
    pub candidate: Vec<u8>,
    /// Its digest, 4 or 5 bytes as the target asks.
    pub digest: Vec<u8>,
    /// The attempt counter as the reporter read it after setting the flag.
    pub attempts: u64,
}

/// How a worker leaves the `Searching` state.
#[derive(Clone, Debug, PartialEq, Eq)]
pub enum WorkerExit {
    /// It found a match and was the one to set the flag: it went through
    /// `Reporting` and hands on the result.
    Reported(Finding),
    /// It found a match at `ordinal`, but the flag was already set: another
    /// worker reports, and this one is done.
    Outrun { ordinal: u64 },
    /// It saw the flag set before examining its next candidate.
    Cancelled,
    /// None of its ordinals below the limit gave a match.
    Exhausted,
}

/// The number of workers that the preimage searches run side by side.
pub const WORKERS: u64 = 8;

/// Whether the candidate for `ordinal` ends the search.
pub open spec fn is_hit(target: TargetView, scheme: Seq<u8>, ordinal: nat) -> bool {
    target.accepts(candidate_bytes(scheme, ordinal))
}

/// No ordinal below `bound` that falls to the worker gives a match.
pub open spec fn no_hit_below(
    target: TargetView,
    scheme: Seq<u8>,
    worker: nat,
    stride: nat,
    bound: nat,
) -> bool {
    forall|ordinal: nat|
        ordinal < bound && assigned(worker, stride, ordinal) ==> !#[trigger] is_hit(
            target,
            scheme,
            ordinal,
        )
}

/// `ordinal` is the first of the worker's ordinals that gives a match.
pub open spec fn first_hit(
    target: TargetView,
    scheme: Seq<u8>,
    worker: nat,
    stride: nat,
    ordinal: nat,
) -> bool {
    &&& assigned(worker, stride, ordinal)
    &&& is_hit(target, scheme, ordinal)
    &&& no_hit_below(target, scheme, worker, stride, ordinal)
}

/// What an exit says of the search it ends.
///
/// A worker that reports or is outrun has found the first match among its
/// own ordinals, below the limit; a reporter hands on that candidate and its
/// digest. An exhausted worker has no match among its ordinals below the
/// limit. A cancelled worker says nothing: it stopped because another had
/// set the flag.
pub open spec fn describes(
    exit: WorkerExit,
    target: TargetView,
    scheme: Seq<u8>,
    worker: nat,
    stride: nat,
    limit: nat,
) -> bool {
    match exit {
        WorkerExit::Reported(finding) => {
            &&& finding.ordinal < limit
            &&& first_hit(target, scheme, worker, stride, finding.ordinal as nat)
            &&& finding.candidate@ == candidate_bytes(scheme, finding.ordinal as nat)
            &&& finding.digest@ == target.digest_of(finding.candidate@)
        },
        WorkerExit::Outrun { ordinal } => {
            &&& ordinal < limit
            &&& first_hit(target, scheme, worker, stride, ordinal as nat)
        },
        WorkerExit::Cancelled => true,
        WorkerExit::Exhausted => no_hit_below(target, scheme, worker, stride, limit),
    }
}

impl WorkerExit {
    /// What a worker that has found a match does once its test-and-set of
    /// the flag has returned: it reports if the flag was unset before, and
    /// is done either way.
    pub fn after_test_and_set(previous: bool, finding: Finding) -> (exit: WorkerExit)
        ensures
            !previous ==> exit == WorkerExit::Reported(finding),
            previous ==> exit == (WorkerExit::Outrun { ordinal: finding.ordinal }),
            exit is Reported <==> on_match(previous) is Reporting,
    {
        if previous {
            WorkerExit::Outrun { ordinal: finding.ordinal }
        } else {
            WorkerExit::Reported(finding)
        }
    }
}

/// Whether `exit` is one of the two ways in which a worker leaves on a match
/// at `ordinal`: reporting that candidate with its digest, or outrun.
pub open spec fn ends_on_hit(
    exit: WorkerExit,
    target: TargetView,
    scheme: Seq<u8>,
    ordinal: nat,
) -> bool {
    match exit {
        WorkerExit::Reported(finding) => {
            &&& finding.ordinal == ordinal
            &&& finding.candidate@ == candidate_bytes(scheme, ordinal)
            &&& finding.digest@ == target.digest_of(finding.candidate@)
        },
        WorkerExit::Outrun { ordinal: found } => found == ordinal,
        _ => false,
    }
}

/// One turn of a searching worker, given what its poll of the flag
/// returned. The result is the worker's exit, or `None` if it goes on
/// searching.
///
/// If the flag was set, the worker is cancelled and takes no candidate.
/// Otherwise it takes its next candidate: without one it is exhausted; a
/// candidate that does not end the search leaves it searching; on one that
/// does, it sets the flag and leaves, reporting if the flag was unset before.
/// Every digest computed is counted.
pub fn turn(
    signal: &SearchSignal,
    target: &Target,
    generator: &mut CandidateGenerator,
    flag_set: bool,
) -> (exit: Option<WorkerExit>)
    requires
        target@.wf(),
        old(generator).wf(),
    ensures
        final(generator).wf(),
        final(generator).same_walk(*old(generator)),
        flag_set ==> exit == Some(WorkerExit::Cancelled) && final(generator).round() == old(
            generator,
        ).round(),
        !flag_set ==> match old(generator).upcoming() {
            None => exit == Some(WorkerExit::Exhausted) && final(generator).round() == old(
                generator,
            ).round(),
            Some(ordinal) => {
                &&& final(generator).round() == old(generator).round() + 1
                &&& final(generator).upcoming() == old(generator).following(ordinal)
                &&& if is_hit(target@, old(generator).scheme(), ordinal) {
                    exit matches Some(left) && ends_on_hit(
                        left,
                        target@,
                        old(generator).scheme(),
                        ordinal,
                    )
                } else {
                    exit is None
                }
            },
        },
{
    if flag_set {
        return Some(WorkerExit::Cancelled);
    }
    match generator.next_candidate() {
        None => Some(WorkerExit::Exhausted),
        Some((ordinal, bytes)) => {
            match target.probe(bytes.as_slice()) {
                Probe::Hit(digest) => {
                    signal.count_attempt();
                    let previous = signal.test_and_set();
                    let attempts = signal.attempts();
                    Some(
                        WorkerExit::after_test_and_set(
                            previous,
                            Finding { ordinal, candidate: bytes, digest, attempts },
                        ),
                    )
                },
                Probe::Miss => {
                    signal.count_attempt();
                    None
                },
                Probe::Skipped => None,
            }
        },
    }
}

/// If no worker has a match among its ordinals below `limit`, no ordinal
/// below `limit` gives a match: the workers leave no candidate out.
pub proof fn lemma_workers_leave_nothing_out(
    target: TargetView,
    scheme: Seq<u8>,
    stride: nat,
    limit: nat,
)
    requires
        stride > 0,
        forall|worker: nat| worker < stride ==> no_hit_below(target, scheme, worker, stride, limit),
    ensures
        forall|ordinal: nat| ordinal < limit ==> !is_hit(target, scheme, ordinal),
{
    assert forall|ordinal: nat| ordinal < limit implies !is_hit(target, scheme, ordinal) by {
        let worker = ordinal % stride;
        assert(no_hit_below(target, scheme, worker, stride, limit));
        assert(assigned(worker, stride, ordinal));
    }
}

/// Runs worker `worker` of `stride`: examines the candidates of the ordinals
/// `worker, worker + stride, ...` below `limit` in turn.
///
/// Before each candidate the worker polls the flag and stops if it is set.
/// Every digest it computes is counted. On a match it sets the flag; it
/// reports only if the flag was unset before, and stops in either case.
pub fn run_worker(
    signal: &SearchSignal,
    target: &Target,
    scheme: &[u8],
    worker: u64,
    stride: u64,
    limit: u64,
) -> (exit: WorkerExit)
    requires
        target@.wf(),
        worker < stride,
    ensures
        describes(exit, target@, scheme@, worker as nat, stride as nat, limit as nat),
{
    let mut generator = CandidateGenerator::new(scheme, worker, stride, limit);
    proof {
        assert forall|lower: nat|
            lower < generator.frontier() && assigned(
                worker as nat,
                stride as nat,
                lower,
            ) implies !is_hit(target@, scheme@, lower) by {
            lemma_partition_ordinal_assigned(worker as nat, stride as nat, 0);
            lemma_small_mod(lower, stride as nat);
        }
    }
    loop
        invariant
            target@.wf(),
            worker < stride,
            generator.wf(),
            generator.scheme() == scheme@,
            generator.worker() == worker,
            generator.stride() == stride,
            generator.limit() == limit,
            no_hit_below(target@, scheme@, worker as nat, stride as nat, generator.frontier()),
        decreases limit - generator.frontier(),
    {
        let ghost round = generator.round();
        let ghost before = generator.frontier();
        let flag_set = signal.is_set();
        match turn(signal, target, &mut generator, flag_set) {
            Some(exit) => {
                proof {
                    lemma_partition_ordinal_assigned(worker as nat, stride as nat, round);
                }
                return exit;
            },
            None => {
                proof {
                    lemma_partition_ordinal_assigned(worker as nat, stride as nat, round);
                    assert(!is_hit(target@, scheme@, before));
                    assert forall|lower: nat|
                        lower < generator.frontier() && assigned(
                            worker as nat,
                            stride as nat,
                            lower,
                        ) implies !is_hit(target@, scheme@, lower) by {
                        if lower > before {
                            lemma_next_assigned(worker as nat, stride as nat, before, lower);
                        }
                    }
                }
            },
        }
    }
}

} // verus!
