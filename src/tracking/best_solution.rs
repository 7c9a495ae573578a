use vstd::prelude::*;

use crate::chromosome::Chromosome;
use crate::generation::Generation;
use crate::tracking::Tracking;
use crate::utility::copied;

verus! {

/// Keeps the best chromosome seen so far, replaced only by a strictly fitter one.
#[derive(Clone, Debug)]
pub struct BestSolution<T> {
    pub best: Option<Chromosome<T>>,
}

impl<T: Copy> BestSolution<T> {
    pub fn new() -> (r: Self)
        ensures
            r.best is None,
    {
        BestSolution { best: None }
    }

    /// The genes and fitness of the best chromosome seen; a generation must have been
    /// registered.
    pub fn best(&self) -> (r: (Vec<T>, i64))
        requires
            self.best is Some,
        ensures
            r.0@ == self.best->Some_0.genes@,
            r.1 == self.best->Some_0.fitness,
    {
        let best = self.best.as_ref().unwrap();
        (copied(&best.genes), best.fitness)
    }
}

impl<T: Copy> Tracking<T> for BestSolution<T> {
    /// The best chromosome is replaced only by a strictly fitter best of `generation`.
    open spec fn registers(&self, generation: Generation<T>, next: Self) -> bool {
        &&& next.best is Some
        &&& match self.best {
            Some(b) => if generation@[0].fitness > b.fitness {
                next.best->Some_0.genes@ == generation@[0].genes@ && next.best->Some_0.fitness
                    == generation@[0].fitness
            } else {
                next.best == self.best
            },
            None => next.best->Some_0.genes@ == generation@[0].genes@ && next.best->Some_0.fitness
                == generation@[0].fitness,
        }
    }

    fn register(&mut self, generation: &Generation<T>)
    {
        let top = generation.best();
        let replace = match &self.best {
            Some(best) => top.fitness > best.fitness,
            None => true,
        };
        if replace {
            self.best = Some(top.duplicate());
        }
    }
}

} // verus!
