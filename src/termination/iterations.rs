use vstd::prelude::*;

use crate::generation::Generation;
use crate::termination::{state_after, stops_after, Termination};

verus! {

/// Stops after a fixed number of generations.
#[derive(Clone, Copy, Debug)]
pub struct Iterations {
    iterations: isize,
}

impl Iterations {
    /// Stops once `iterations` generations have been evolved; zero evolves none.
    pub fn new(iterations: isize) -> (r: Self)
        ensures
            r == Self::counting(iterations),
            r.left() == iterations,
    {
        Iterations { iterations }
    }

    /// The state that `new(n)` builds.
    pub closed spec fn counting(n: isize) -> Self {
        Iterations { iterations: n }
    }

    /// The number of checks that answer "go on" before one answers "stop".
    pub closed spec fn left(self) -> int {
        self.iterations as int
    }
}

impl Termination for Iterations {
    open spec fn stops(&self, best: i64) -> bool {
        self.left() == 0
    }

    closed spec fn next(&self, best: i64) -> Self {
        if self.iterations > isize::MIN {
            Iterations { iterations: (self.iterations - 1) as isize }
        } else {
            *self
        }
    }

    fn reached<T: Copy>(&mut self, generation: &Generation<T>) -> (r: bool) {
        if self.iterations > isize::MIN {
            self.iterations = self.iterations - 1;
        }
        self.iterations == -1
    }
}

/// `Iterations::new(n)` with `n >= 0` stops on its check after exactly `n` others, whatever
/// the generations: a run under it evolves exactly `n` generations.
pub proof fn lemma_iterations_exact(n: isize, bests: Seq<i64>, m: nat)
    requires
        n >= 0,
        stops_after(Iterations::counting(n), bests, m),
    ensures
        m == n,
{
    let t = Iterations::counting(n);
    if m < n {
        lemma_iterations_left(n, bests, m);
    } else if m > n {
        lemma_iterations_left(n, bests, n as nat);
        assert(!state_after(t, bests, n as nat).stops(bests[n as int]));
    }
}

/// `Iterations::new(n)` with `n >= 0` answers "go on" to its first `n` checks and "stop" to the
/// next one, whatever the generations.
pub proof fn lemma_iterations_stops_after(n: isize, bests: Seq<i64>)
    requires
        n >= 0,
        bests.len() == n + 1,
    ensures
        stops_after(Iterations::counting(n), bests, n as nat),
{
    assert forall|i: nat| i < n implies !(#[trigger] state_after(Iterations::counting(n), bests, i)).stops(
        bests[i as int],
    ) by {
        lemma_iterations_left(n, bests, i);
    }
    lemma_iterations_left(n, bests, n as nat);
}

/// After `i <= n` checks, `Iterations::new(n)` has `n - i` left.
proof fn lemma_iterations_left(n: isize, bests: Seq<i64>, i: nat)
    requires
        n >= 0,
        i <= n,
    ensures
        state_after(Iterations::counting(n), bests, i).left() == n - i,
    decreases i,
{
    if i > 0 {
        lemma_iterations_left(n, bests, (i - 1) as nat);
    }
}

} // verus!
