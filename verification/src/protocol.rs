//! The lock protocol among many threads, as a transition system.
//!
//! Each thread takes one atomic step on the shared word at a time, in any
//! order. This module states what a step is, and proves that however the steps
//! interleave, a writer that was admitted is alone: no other writer and no
//! reader holds the lock with it.

use crate::lock::{lemma_unit_is_power, lowered, raised, unit, writers_of};
use vstd::prelude::*;

verus! {

/// Where a thread stands in the protocol.
pub enum Phase {
    /// Not registered in the word.
    Idle,
    /// Registered as a reader, waiting until no writer is registered.
    ReadWaiting,
    /// Holds the lock, shared with other readers.
    Reading,
    /// Registered as a writer but not admitted: about to withdraw.
    Retreating,
    /// Holds the lock, alone.
    Writing,
}

/// The lock word together with the phase of every thread.
pub struct World {
    pub word: usize,
    pub phases: Seq<Phase>,
}

/// What a thread in `phase` has added to the word.
pub open spec fn weight(phase: Phase) -> nat {
    match phase {
        Phase::Idle => 0,
        Phase::ReadWaiting | Phase::Reading => 1,
        Phase::Retreating | Phase::Writing => unit(),
    }
}

/// What all the threads together have added to the word.
pub open spec fn total(phases: Seq<Phase>) -> nat
    decreases phases.len(),
{
    if phases.len() == 0 {
        0
    } else {
        total(phases.drop_last()) + weight(phases.last())
    }
}

/// The phase of a reader that has just observed `seen`.
pub open spec fn reader_phase(seen: usize) -> Phase {
    if writers_of(seen) == 0 {
        Phase::Reading
    } else {
        Phase::ReadWaiting
    }
}

/// The phase of a writer whose registration observed `seen` just before it.
pub open spec fn writer_phase(seen: usize) -> Phase {
    if seen == 0 {
        Phase::Writing
    } else {
        Phase::Retreating
    }
}

/// Thread `who` takes one atomic step that leads from `before` to `after`.
///
/// An idle thread registers as a reader or as a writer. A waiting reader looks
/// at the word again. A reader that holds the lock gives it back. A writer gives
/// the lock back, or withdraws if it was not admitted. No other thread moves.
pub open spec fn step(before: World, who: int, after: World) -> bool {
    &&& 0 <= who < before.phases.len()
    &&& after.phases == before.phases.update(who, after.phases[who])
    &&& match before.phases[who] {
        Phase::Idle => {
            ||| {
                &&& after.word == raised(before.word, 1)
                &&& after.phases[who] == reader_phase(before.word)
            }
            ||| {
                &&& after.word == raised(before.word, unit() as usize)
                &&& after.phases[who] == writer_phase(before.word)
            }
        },
        Phase::ReadWaiting => {
            &&& after.word == before.word
            &&& after.phases[who] == reader_phase(before.word)
        },
        Phase::Reading => {
            &&& after.word == lowered(before.word, 1)
            &&& after.phases[who] == Phase::Idle
        },
        Phase::Retreating | Phase::Writing => {
            &&& after.word == lowered(before.word, unit() as usize)
            &&& after.phases[who] == Phase::Idle
        },
    }
}

/// A writer that holds the lock is alone: nobody else writes, nobody reads.
pub open spec fn exclusive(phases: Seq<Phase>) -> bool {
    forall|i: int, j: int|
        0 <= i < phases.len() && 0 <= j < phases.len() && i != j && phases[i] == Phase::Writing
            ==> phases[j] != Phase::Writing && phases[j] != Phase::Reading
}

/// The word says exactly who is registered, there are fewer threads than one
/// half of the word can count, and a writer that holds the lock is alone.
pub open spec fn consistent(world: World) -> bool {
    &&& world.phases.len() < unit()
    &&& world.word == total(world.phases)
    &&& exclusive(world.phases)
}

/// The start: the word is zero and every thread is idle.
pub open spec fn initial(world: World) -> bool {
    &&& world.phases.len() < unit()
    &&& world.word == 0
    &&& forall|i: int| 0 <= i < world.phases.len() ==> world.phases[i] == Phase::Idle
}

/// Some thread takes one step that leads from `before` to `after`.
pub open spec fn follows(before: World, after: World) -> bool {
    exists|who: int| #[trigger] step(before, who, after)
}

/// A history of the lock: it starts at rest, and each world follows from the
/// one before by a step of some thread.
pub open spec fn is_run(trace: Seq<World>) -> bool {
    &&& trace.len() > 0
    &&& initial(trace[0])
    &&& forall|k: int| 0 < k < trace.len() ==> follows(trace[k - 1], #[trigger] trace[k])
}

/// No thread has added more to the word than all of them together.
pub proof fn lemma_weight_within_total(phases: Seq<Phase>, i: int)
    requires
        0 <= i < phases.len(),
    ensures
        weight(phases[i]) <= total(phases),
    decreases phases.len(),
{
    if i < phases.len() - 1 {
        lemma_weight_within_total(phases.drop_last(), i);
    }
}

/// A thread that changes its phase changes the total by its own weight only.
pub proof fn lemma_total_update(phases: Seq<Phase>, i: int, phase: Phase)
    requires
        0 <= i < phases.len(),
    ensures
        total(phases.update(i, phase)) + weight(phases[i]) == total(phases) + weight(phase),
    decreases phases.len(),
{
    let changed = phases.update(i, phase);
    if i == phases.len() - 1 {
        assert(changed.drop_last() =~= phases.drop_last());
    } else {
        assert(changed.drop_last() =~= phases.drop_last().update(i, phase));
        lemma_total_update(phases.drop_last(), i, phase);
    }
}

/// Each thread adds at most one writer's unit.
pub proof fn lemma_total_bound(phases: Seq<Phase>)
    ensures
        total(phases) <= phases.len() * unit(),
    decreases phases.len(),
{
    if phases.len() > 0 {
        lemma_total_bound(phases.drop_last());
        assert((phases.len() - 1) * unit() + unit() == phases.len() * unit())
            by (nonlinear_arith);
    }
}

/// Threads that are all idle have added nothing.
pub proof fn lemma_total_idle(phases: Seq<Phase>)
    requires
        forall|i: int| 0 <= i < phases.len() ==> phases[i] == Phase::Idle,
    ensures
        total(phases) == 0,
    decreases phases.len(),
{
    if phases.len() > 0 {
        lemma_total_idle(phases.drop_last());
    }
}

/// With fewer threads than one half of the word can count, what they have
/// added fits in the word.
pub proof fn lemma_total_fits(phases: Seq<Phase>)
    requires
        phases.len() < unit(),
    ensures
        total(phases) <= usize::MAX,
{
    lemma_total_bound(phases);
    assert(phases.len() * unit() <= (unit() - 1) * unit()) by (nonlinear_arith)
        requires
            phases.len() <= unit() - 1,
    ;
    assert((unit() - 1) * unit() + unit() == unit() * unit()) by (nonlinear_arith);
    lemma_unit_is_power();
}

/// A step from a consistent world leads to a consistent world.
pub proof fn lemma_step_keeps_consistent(before: World, who: int, after: World)
    requires
        consistent(before),
        step(before, who, after),
    ensures
        consistent(after),
{
    let was = before.phases[who];
    let now = after.phases[who];
    lemma_total_update(before.phases, who, now);
    lemma_weight_within_total(before.phases, who);
    lemma_total_fits(before.phases);
    lemma_total_fits(after.phases);
    assert forall|i: int, j: int|
        0 <= i < after.phases.len() && 0 <= j < after.phases.len() && i != j && after.phases[i]
            == Phase::Writing implies after.phases[j] != Phase::Writing && after.phases[j]
        != Phase::Reading by {
        lemma_weight_within_total(before.phases, i);
        lemma_weight_within_total(before.phases, j);
    }
}

/// However the steps of the threads interleave, every world of a run is
/// consistent. In particular a writer that holds the lock is alone in it.
pub proof fn lemma_run_consistent(trace: Seq<World>, k: int)
    requires
        is_run(trace),
        0 <= k < trace.len(),
    ensures
        consistent(trace[k]),
        exclusive(trace[k].phases),
    decreases k,
{
    if k == 0 {
        lemma_total_idle(trace[0].phases);
    } else {
        lemma_run_consistent(trace, k - 1);
        assert(follows(trace[k - 1], trace[k]));
        let who = choose|who: int| #[trigger] step(trace[k - 1], who, trace[k]);
        lemma_step_keeps_consistent(trace[k - 1], who, trace[k]);
    }
}

/// While a writer is registered, whether it holds the lock or is about to
/// withdraw, a reader that looks at the word is not admitted.
pub proof fn lemma_reader_waits_for_writer(world: World, writer: int)
    requires
        consistent(world),
        0 <= writer < world.phases.len(),
        world.phases[writer] == Phase::Writing || world.phases[writer] == Phase::Retreating,
    ensures
        reader_phase(world.word) == Phase::ReadWaiting,
{
    lemma_weight_within_total(world.phases, writer);
    assert(world.word >= unit());
    assert(writers_of(world.word) >= 1) by (nonlinear_arith)
        requires
            world.word >= unit(),
            unit() > 0,
            writers_of(world.word) == (world.word as nat) / unit(),
    ;
}

/// Threads of which none is registered as a writer have added one each at
/// most.
pub proof fn lemma_total_of_readers(phases: Seq<Phase>)
    requires
        forall|i: int|
            0 <= i < phases.len() ==> phases[i] != Phase::Writing && phases[i]
                != Phase::Retreating,
    ensures
        total(phases) <= phases.len(),
    decreases phases.len(),
{
    if phases.len() > 0 {
        lemma_total_of_readers(phases.drop_last());
    }
}

/// While no writer is registered, a reader that looks at the word is admitted,
/// however many other readers hold the lock.
pub proof fn lemma_readers_share(world: World)
    requires
        consistent(world),
        forall|i: int|
            0 <= i < world.phases.len() ==> world.phases[i] != Phase::Writing && world.phases[i]
                != Phase::Retreating,
    ensures
        reader_phase(world.word) == Phase::Reading,
{
    lemma_total_of_readers(world.phases);
    assert(writers_of(world.word) == 0) by (nonlinear_arith)
        requires
            world.word < unit(),
            writers_of(world.word) == (world.word as nat) / unit(),
    ;
}

/// A writer that registers is admitted exactly when every thread is idle.
pub proof fn lemma_writer_needs_rest(world: World)
    requires
        consistent(world),
    ensures
        writer_phase(world.word) == Phase::Writing <==> forall|i: int|
            0 <= i < world.phases.len() ==> world.phases[i] == Phase::Idle,
{
    if world.word == 0 {
        assert forall|i: int| 0 <= i < world.phases.len() implies world.phases[i]
            == Phase::Idle by {
            lemma_weight_within_total(world.phases, i);
        }
    }
    if forall|i: int| 0 <= i < world.phases.len() ==> world.phases[i] == Phase::Idle {
        lemma_total_idle(world.phases);
    }
}

} // verus!
