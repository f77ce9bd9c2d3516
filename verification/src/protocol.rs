//! The termination protocol as a state machine: the workers of one search,
//! the flag they share, and the steps that they take in any order.
//!
//! A worker searches until it finds a match or sees the flag set. On a match
//! it tests and sets the flag in one step; the worker that finds the flag
//! unset reports, every other worker is done without a report.

use vstd::prelude::*;

verus! {

/// The state of one worker.
pub enum WorkerState {
    /// Examining candidates; the state in which every worker starts.
    Searching,
    /// Handing on the result; entered only by the worker that set the flag.
    Reporting,
    /// Finished; no step leads out of this state.
    Done,
}

/// A step of one worker.
pub enum WorkerStep {
    /// Poll the flag before the next candidate: a searching worker that
    /// sees it set is done.
    Poll,
    /// Find a match, then test and set the flag: a searching worker reports
    /// if the flag was unset, and is done if it was set.
    Match,
    /// Run out of candidates: a searching worker is done.
    Exhaust,
    /// Finish the report: a reporting worker is done.
    Finish,
}

/// The state of a search: the flag, the workers, and the number of reports
/// begun so far.
pub struct SearchState {
    pub flag: bool,
    pub workers: Seq<WorkerState>,
    pub reports: nat,
}

/// A test-and-set on the flag, as a function on values: the flag afterwards,
/// and what the caller learns it was before.
pub open spec fn test_and_set(flag: bool) -> (bool, bool) {
    (true, flag)
}

/// Where a searching worker goes on a match, given what its test-and-set
/// returned: it reports if the flag was unset before, and is done otherwise.
pub open spec fn on_match(previous: bool) -> WorkerState {
    if previous {
        WorkerState::Done
    } else {
        WorkerState::Reporting
    }
}

/// The search before its first step: the flag unset, every worker
/// searching, nothing reported.
pub open spec fn initial(workers: nat) -> SearchState {
    SearchState {
        flag: false,
        workers: Seq::new(workers, |i: int| WorkerState::Searching),
        reports: 0,
    }
}

/// The state with one worker moved to another state.
pub open spec fn moved(state: SearchState, worker: int, to: WorkerState) -> SearchState {
    SearchState { workers: state.workers.update(worker, to), ..state }
}

/// The state after worker `worker` has taken `step`. A step that the worker
/// cannot take in its state, or a step of a worker that does not exist,
/// leaves the state as it is.
pub open spec fn after_step(state: SearchState, worker: int, step: WorkerStep) -> SearchState {
    if !(0 <= worker < state.workers.len()) {
        state
    } else {
        match (state.workers[worker], step) {
            (WorkerState::Searching, WorkerStep::Poll) => if state.flag {
                moved(state, worker, WorkerState::Done)
            } else {
                state
            },
            (WorkerState::Searching, WorkerStep::Match) => {
                let (flag, previous) = test_and_set(state.flag);
                let reports = if on_match(previous) is Reporting {
                    state.reports + 1
                } else {
                    state.reports
                };
                moved(SearchState { flag, reports, ..state }, worker, on_match(previous))
            },
            (WorkerState::Searching, WorkerStep::Exhaust) => moved(
                state,
                worker,
                WorkerState::Done,
            ),
            (WorkerState::Reporting, WorkerStep::Finish) => moved(state, worker, WorkerState::Done),
            _ => state,
        }
    }
}

/// The state after the steps of a schedule, taken one after the other. Each
/// entry names the worker that takes the step.
pub open spec fn after_schedule(
    state: SearchState,
    schedule: Seq<(int, WorkerStep)>,
) -> SearchState
    decreases schedule.len(),
{
    if schedule.len() == 0 {
        state
    } else {
        after_step(after_schedule(state, schedule.drop_last()), schedule.last().0, schedule.last().1)
    }
}

/// What holds of every state that a search reaches: a report has begun
/// exactly if the flag is set, there is never more than one, and no two
/// workers report.
pub open spec fn single_report(state: SearchState) -> bool {
    &&& state.reports == if state.flag {
        1nat
    } else {
        0nat
    }
    &&& forall|i: int|
        0 <= i < state.workers.len() && state.workers[i] is Reporting ==> state.flag
    &&& forall|i: int, j: int|
        0 <= i < state.workers.len() && 0 <= j < state.workers.len()
            && state.workers[i] is Reporting && state.workers[j] is Reporting ==> i == j
}

/// No step breaks `single_report`, and no step unsets the flag.
pub proof fn lemma_step_keeps_single_report(state: SearchState, worker: int, step: WorkerStep)
    requires
        single_report(state),
    ensures
        single_report(after_step(state, worker, step)),
        after_step(state, worker, step).workers.len() == state.workers.len(),
        state.flag ==> after_step(state, worker, step).flag,
{
}

/// At most one report: whatever steps the workers take and in whatever
/// order, the search never begins a second report, and it has begun one
/// exactly if the flag is set.
pub proof fn lemma_at_most_one_report(workers: nat, schedule: Seq<(int, WorkerStep)>)
    ensures
        single_report(after_schedule(initial(workers), schedule)),
        after_schedule(initial(workers), schedule).reports <= 1,
        after_schedule(initial(workers), schedule).workers.len() == workers,
    decreases schedule.len(),
{
    if schedule.len() > 0 {
        lemma_at_most_one_report(workers, schedule.drop_last());
        lemma_step_keeps_single_report(
            after_schedule(initial(workers), schedule.drop_last()),
            schedule.last().0,
            schedule.last().1,
        );
    }
}

/// Once a searching worker has found a match, the flag is set and stays
/// set: after any further steps exactly one report has begun.
pub proof fn lemma_match_gives_one_report(
    workers: nat,
    before: Seq<(int, WorkerStep)>,
    worker: int,
    after: Seq<(int, WorkerStep)>,
)
    requires
        0 <= worker < workers,
        after_schedule(initial(workers), before).workers[worker] is Searching,
    ensures
        after_schedule(
            initial(workers),
            before.push((worker, WorkerStep::Match)) + after,
        ).reports == 1,
    decreases after.len(),
{
    let matched = before.push((worker, WorkerStep::Match));
    let whole = matched + after;
    lemma_at_most_one_report(workers, before);
    if after.len() == 0 {
        assert(whole =~= matched);
        assert(matched.drop_last() =~= before);
        lemma_at_most_one_report(workers, matched);
    } else {
        lemma_match_gives_one_report(workers, before, worker, after.drop_last());
        assert(whole.drop_last() =~= matched + after.drop_last());
        lemma_at_most_one_report(workers, whole.drop_last());
        lemma_step_keeps_single_report(
            after_schedule(initial(workers), whole.drop_last()),
            whole.last().0,
            whole.last().1,
        );
        lemma_at_most_one_report(workers, whole);
    }
}

} // verus!
