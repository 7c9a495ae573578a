use vstd::prelude::*;

use crate::generation::Generation;
use crate::termination::{state_after, Termination};

verus! {

/// Stops once the best fitness has stayed within `epsilon` of its previous value for
/// `target_generations` generations in a row.
#[derive(Clone, Copy, Debug)]
pub struct FitnessConvergence {
    previous: Option<i64>,
    target_generations: usize,
    elapsed_generations: usize,
    epsilon: u64,
}

/// `a` and `b` differ by at most `epsilon`.
pub open spec fn within(a: i64, b: i64, epsilon: u64) -> bool {
    -(epsilon as int) <= a - b <= epsilon as int
}

/// The number of checks in a row, ending with the check of `bests[i]`, whose best fitness
/// stayed within `epsilon` of the one before.
pub open spec fn streak(bests: Seq<i64>, epsilon: u64, i: nat) -> nat
    decreases i,
{
    if i == 0 {
        0
    } else if within(bests[i - 1], bests[i as int], epsilon) {
        streak(bests, epsilon, (i - 1) as nat) + 1
    } else {
        0
    }
}

/// `n`, or `usize::MAX` where `n` is larger.
pub open spec fn capped(n: nat) -> nat {
    if n < usize::MAX {
        n
    } else {
        usize::MAX as nat
    }
}

impl FitnessConvergence {
    pub fn new(target_generations: usize, epsilon: u64) -> (r: Self)
        ensures
            r == Self::new_spec(target_generations, epsilon),
            r.target() == target_generations,
            r.tolerance() == epsilon,
            r.last_best() is None,
    {
        FitnessConvergence {
            previous: None,
            target_generations,
            elapsed_generations: 0,
            epsilon,
        }
    }

    pub closed spec fn target(self) -> usize {
        self.target_generations
    }

    pub closed spec fn tolerance(self) -> u64 {
        self.epsilon
    }

    /// The best fitness of the last check, if any.
    pub closed spec fn last_best(self) -> Option<i64> {
        self.previous
    }

    /// The current run of checks within tolerance (capped at `usize::MAX`).
    pub closed spec fn run(self) -> nat {
        self.elapsed_generations as nat
    }
}

impl Termination for FitnessConvergence {
    open spec fn stops(&self, best: i64) -> bool {
        match self.last_best() {
            None => false,
            Some(previous) => within(previous, best, self.tolerance()) && capped(self.run() + 1)
                >= self.target(),
        }
    }

    closed spec fn next(&self, best: i64) -> Self {
        FitnessConvergence {
            previous: Some(best),
            elapsed_generations: match self.previous {
                None => self.elapsed_generations,
                Some(previous) => if within(previous, best, self.epsilon) {
                    capped((self.elapsed_generations + 1) as nat) as usize
                } else {
                    0
                },
            },
            ..*self
        }
    }

    fn reached<T: Copy>(&mut self, generation: &Generation<T>) -> (r: bool) {
        let best = generation.best().fitness;
        let previous = match self.previous {
            None => {
                self.previous = Some(best);
                return false;
            },
            Some(previous) => previous,
        };
        self.previous = Some(best);
        let difference = previous as i128 - best as i128;
        if -(self.epsilon as i128) <= difference && difference <= self.epsilon as i128 {
            if self.elapsed_generations < usize::MAX {
                self.elapsed_generations = self.elapsed_generations + 1;
            }
            self.elapsed_generations >= self.target_generations
        } else {
            self.elapsed_generations = 0;
            false
        }
    }
}

/// Fitness convergence stops on the check of `bests[i]` exactly when that best fitness is
/// within `epsilon` of the one before and the streak of such checks ending there has reached
/// `target`; any check out of tolerance starts the streak again from zero.
pub proof fn lemma_convergence_streak(target: usize, epsilon: u64, bests: Seq<i64>, i: nat)
    requires
        i < bests.len(),
    ensures
        state_after(FitnessConvergence::new_spec(target, epsilon), bests, i).stops(
            bests[i as int],
        ) <==> (i >= 1 && within(bests[i - 1], bests[i as int], epsilon) && streak(
            bests,
            epsilon,
            i,
        ) >= target),
{
    lemma_convergence_state(target, epsilon, bests, i);
}

impl FitnessConvergence {
    /// The state that `new(target_generations, epsilon)` builds.
    pub closed spec fn new_spec(target_generations: usize, epsilon: u64) -> Self {
        FitnessConvergence {
            previous: None,
            target_generations,
            elapsed_generations: 0,
            epsilon,
        }
    }
}

proof fn lemma_convergence_state(target: usize, epsilon: u64, bests: Seq<i64>, i: nat)
    requires
        i <= bests.len(),
    ensures
        ({
            let s = state_after(FitnessConvergence::new_spec(target, epsilon), bests, i);
            &&& s.target() == target
            &&& s.tolerance() == epsilon
            &&& i == 0 ==> s.last_best() is None
            &&& i >= 1 ==> s.last_best() == Some(bests[i - 1])
            &&& i >= 1 ==> s.run() == capped(streak(bests, epsilon, (i - 1) as nat))
            &&& i == 0 ==> s.run() == 0
        }),
    decreases i,
{
    if i > 0 {
        lemma_convergence_state(target, epsilon, bests, (i - 1) as nat);
    }
}

} // verus!
