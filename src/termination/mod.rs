use vstd::prelude::*;

use crate::generation::Generation;

pub mod epoch;
pub mod fitness_convergence;
pub mod fitness_threshold;
pub mod iterations;

pub use self::epoch::Epoch;
pub use self::fitness_convergence::FitnessConvergence;
pub use self::fitness_threshold::FitnessThreshold;
pub use self::iterations::Iterations;

verus! {

/// A predicate, checked once per generation, that decides when evolution stops.
///
/// A check sees the best fitness of the generation; `stops` is its answer and `next` the
/// state it leaves behind.
pub trait Termination: Sized {
    spec fn stops(&self, best: i64) -> bool;

    spec fn next(&self, best: i64) -> Self;

    fn reached<T: Copy>(&mut self, generation: &Generation<T>) -> (r: bool)
        requires
            generation@.len() > 0,
        ensures
            r == old(self).stops(generation@[0].fitness),
            *final(self) == old(self).next(generation@[0].fitness),
    ;
}

/// The state of `t` after checks on the best fitness values `bests[0..i]`.
pub open spec fn state_after<Tm: Termination>(t: Tm, bests: Seq<i64>, i: nat) -> Tm
    decreases i,
{
    if i == 0 {
        t
    } else {
        state_after(t, bests, (i - 1) as nat).next(bests[i - 1])
    }
}

/// Checks of `t` on the best fitness values `bests` answer "go on" for the first `n` and
/// "stop" for the last one.
pub open spec fn stops_after<Tm: Termination>(t: Tm, bests: Seq<i64>, n: nat) -> bool {
    &&& bests.len() == n + 1
    &&& forall|i: nat| i < n ==> !(#[trigger] state_after(t, bests, i)).stops(bests[i as int])
    &&& state_after(t, bests, n).stops(bests[n as int])
}

} // verus!

verus! {

/// The state after `i` checks depends only on the first `i` best fitness values.
pub proof fn lemma_state_after_prefix<Tm: Termination>(t: Tm, a: Seq<i64>, b: Seq<i64>, i: nat)
    requires
        i <= a.len(),
        i <= b.len(),
        forall|k: int| 0 <= k < i ==> a[k] == b[k],
    ensures
        state_after(t, a, i) == state_after(t, b, i),
    decreases i,
{
    if i > 0 {
        lemma_state_after_prefix(t, a, b, (i - 1) as nat);
    }
}

} // verus!
