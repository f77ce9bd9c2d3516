//! Stride partitioning: worker `w` of `T` examines the ordinals
//! `w, w + T, w + 2T, ...`, so that the workers together examine every ordinal
//! exactly once.

use vstd::arithmetic::div_mod::lemma_fundamental_div_mod;
use vstd::arithmetic::div_mod::lemma_fundamental_div_mod_converse;
use vstd::arithmetic::div_mod::lemma_mod_add_multiples_vanish;
use vstd::multiset::Multiset;
use vstd::prelude::*;

verus! {

/// The ordinal that worker `worker` examines in round `round` when the
/// ordinals are split among `stride` workers.
pub open spec fn partition_ordinal(worker: nat, stride: nat, round: nat) -> nat {
    worker + round * stride
}

/// Whether `ordinal` falls to worker `worker` of `stride`.
pub open spec fn assigned(worker: nat, stride: nat, ordinal: nat) -> bool {
    stride > 0 && ordinal % stride == worker
}

/// The ordinals that one worker examines in its first `rounds` rounds, in
/// the order in which it examines them.
pub open spec fn worker_ordinals(worker: nat, stride: nat, rounds: nat) -> Seq<nat> {
    Seq::new(rounds, |round: int| partition_ordinal(worker, stride, round as nat))
}

/// The ordinals that the workers `0 .. workers` examine in their first
/// `rounds` rounds, each counted as often as it is examined.
pub open spec fn examined_by_first(workers: nat, stride: nat, rounds: nat) -> Multiset<nat>
    decreases workers,
{
    if workers == 0 {
        Multiset::empty()
    } else {
        examined_by_first((workers - 1) as nat, stride, rounds).add(
            worker_ordinals((workers - 1) as nat, stride, rounds).to_multiset(),
        )
    }
}

/// The ordinals that all `stride` workers examine in their first `rounds`
/// rounds, each counted as often as it is examined.
pub open spec fn examined(stride: nat, rounds: nat) -> Multiset<nat> {
    examined_by_first(stride, stride, rounds)
}

/// The ordinals `0 .. bound`, each once.
pub open spec fn ordinals_below(bound: nat) -> Multiset<nat> {
    Seq::new(bound, |i: int| i as nat).to_multiset()
}

/// The ordinal of a worker's round falls to that worker, and to that round:
/// the round is the ordinal's quotient by the stride.
pub proof fn lemma_partition_ordinal_assigned(worker: nat, stride: nat, round: nat)
    requires
        worker < stride,
    ensures
        assigned(worker, stride, partition_ordinal(worker, stride, round)),
        partition_ordinal(worker, stride, round) / stride == round,
{
    lemma_fundamental_div_mod_converse(
        partition_ordinal(worker, stride, round) as int,
        stride as int,
        round as int,
        worker as int,
    );
}

/// An ordinal that falls to a worker is the ordinal of one of its rounds.
pub proof fn lemma_assigned_is_partition_ordinal(worker: nat, stride: nat, ordinal: nat)
    requires
        assigned(worker, stride, ordinal),
    ensures
        ordinal == partition_ordinal(worker, stride, ordinal / stride),
{
    lemma_fundamental_div_mod(ordinal as int, stride as int);
    assert(stride * (ordinal / stride) == (ordinal / stride) * stride) by (nonlinear_arith);
}

/// A worker's rounds lie a stride apart.
pub proof fn lemma_partition_step(worker: nat, stride: nat, round: nat)
    ensures
        partition_ordinal(worker, stride, round + 1) == partition_ordinal(worker, stride, round)
            + stride,
{
    assert((round + 1) * stride == round * stride + stride) by (nonlinear_arith);
}

/// A worker's ordinals lie a stride apart: the one after `ordinal` is
/// `ordinal + stride`, and none lies in between.
pub proof fn lemma_next_assigned(worker: nat, stride: nat, ordinal: nat, later: nat)
    requires
        assigned(worker, stride, ordinal),
        assigned(worker, stride, later),
        ordinal < later,
    ensures
        assigned(worker, stride, ordinal + stride),
        later >= ordinal + stride,
{
    lemma_mod_add_multiples_vanish(ordinal as int, stride as int);
    lemma_fundamental_div_mod(ordinal as int, stride as int);
    lemma_fundamental_div_mod(later as int, stride as int);
    let q = ordinal / stride;
    let r = later / stride;
    assert(r > q) by (nonlinear_arith)
        requires
            stride * r > stride * q,
            stride > 0,
    ;
    assert(stride * r >= stride * q + stride) by (nonlinear_arith)
        requires
            r >= q + 1,
            stride > 0,
    ;
}

/// No ordinal is examined twice: two rounds of two workers that reach the
/// same ordinal are the same round of the same worker.
pub proof fn lemma_partition_disjoint(
    stride: nat,
    worker_a: nat,
    round_a: nat,
    worker_b: nat,
    round_b: nat,
)
    requires
        worker_a < stride,
        worker_b < stride,
        partition_ordinal(worker_a, stride, round_a) == partition_ordinal(
            worker_b,
            stride,
            round_b,
        ),
    ensures
        worker_a == worker_b,
        round_a == round_b,
{
    lemma_partition_ordinal_assigned(worker_a, stride, round_a);
    lemma_partition_ordinal_assigned(worker_b, stride, round_b);
}

/// An ordinal lies below `rounds * stride` exactly if its round does below
/// `rounds`.
pub proof fn lemma_round_bound(stride: nat, rounds: nat, ordinal: nat)
    requires
        stride > 0,
    ensures
        ordinal < rounds * stride <==> ordinal / stride < rounds,
{
    let q = ordinal / stride;
    lemma_fundamental_div_mod(ordinal as int, stride as int);
    assert(0 <= ordinal % stride < stride);
    if q < rounds {
        assert(stride * q + stride <= rounds * stride) by (nonlinear_arith)
            requires
                q + 1 <= rounds,
        ;
    } else {
        assert(stride * q >= rounds * stride) by (nonlinear_arith)
            requires
                q >= rounds,
        ;
    }
}

/// How often one worker examines an ordinal in its first `rounds` rounds:
/// once if the ordinal falls to it and lies below `rounds * stride`, never
/// otherwise.
pub proof fn lemma_worker_examines_once(worker: nat, stride: nat, rounds: nat, ordinal: nat)
    requires
        worker < stride,
    ensures
        worker_ordinals(worker, stride, rounds).to_multiset().count(ordinal) == if assigned(
            worker,
            stride,
            ordinal,
        ) && ordinal < rounds * stride {
            1nat
        } else {
            0nat
        },
{
    let s = worker_ordinals(worker, stride, rounds);
    assert forall|i: int, j: int| 0 <= i < s.len() && 0 <= j < s.len() && i != j implies s[i]
        != s[j] by {
        if s[i] == s[j] {
            lemma_partition_disjoint(stride, worker, i as nat, worker, j as nat);
        }
    }
    assert(s.no_duplicates());
    s.lemma_multiset_has_no_duplicates();
    s.to_multiset_ensures();
    lemma_round_bound(stride, rounds, ordinal);
    if assigned(worker, stride, ordinal) && ordinal < rounds * stride {
        let round = ordinal / stride;
        lemma_assigned_is_partition_ordinal(worker, stride, ordinal);
        assert(s[round as int] == ordinal);
        assert(s.contains(ordinal));
    } else {
        if s.contains(ordinal) {
            let i = choose|i: int| 0 <= i < s.len() && s[i] == ordinal;
            lemma_partition_ordinal_assigned(worker, stride, i as nat);
        }
    }
}

/// How often the workers `0 .. workers` examine an ordinal in their first
/// `rounds` rounds: once if it falls to one of them and lies below
/// `rounds * stride`, never otherwise.
pub proof fn lemma_first_workers_examine_once(
    workers: nat,
    stride: nat,
    rounds: nat,
    ordinal: nat,
)
    requires
        workers <= stride,
        stride > 0,
    ensures
        examined_by_first(workers, stride, rounds).count(ordinal) == if ordinal % stride < workers
            && ordinal < rounds * stride {
            1nat
        } else {
            0nat
        },
    decreases workers,
{
    if workers > 0 {
        let last = (workers - 1) as nat;
        lemma_first_workers_examine_once(last, stride, rounds, ordinal);
        lemma_worker_examines_once(last, stride, rounds, ordinal);
    }
}

/// Partition coverage: in their first `rounds` rounds the `stride` workers
/// examine exactly the ordinals below `rounds * stride`, each of them once.
pub proof fn lemma_partition_coverage(stride: nat, rounds: nat)
    requires
        stride > 0,
    ensures
        examined(stride, rounds) == ordinals_below(rounds * stride),
        forall|ordinal: nat|
            #[trigger] examined(stride, rounds).count(ordinal) == if ordinal < rounds * stride {
                1nat
            } else {
                0nat
            },
{
    let bound = rounds * stride;
    let range = Seq::new(bound, |i: int| i as nat);
    assert(range.no_duplicates());
    range.lemma_multiset_has_no_duplicates();
    range.to_multiset_ensures();
    assert forall|ordinal: nat|
        #[trigger] examined(stride, rounds).count(ordinal) == if ordinal < rounds * stride {
            1nat
        } else {
            0nat
        } by {
        lemma_first_workers_examine_once(stride, stride, rounds, ordinal);
    }
    assert forall|ordinal: nat|
        examined(stride, rounds).count(ordinal) == #[trigger] ordinals_below(bound).count(
            ordinal,
        ) by {
        if ordinal < bound {
            assert(range[ordinal as int] == ordinal);
            assert(range.contains(ordinal));
        } else {
            if range.contains(ordinal) {
                let i = choose|i: int| 0 <= i < range.len() && range[i] == ordinal;
            }
        }
    }
    assert(examined(stride, rounds) =~= ordinals_below(bound));
}

} // verus!
