use vstd::prelude::*;

use crate::generation::Generation;
use crate::termination::Termination;

verus! {

/// Stops once the best fitness reaches a threshold.
#[derive(Clone, Copy, Debug)]
pub struct FitnessThreshold {
    pub threshold: i64,
}

impl FitnessThreshold {
    pub fn new(threshold: i64) -> (r: Self)
        ensures
            r.threshold == threshold,
    {
        FitnessThreshold { threshold }
    }
}

impl Termination for FitnessThreshold {
    open spec fn stops(&self, best: i64) -> bool {
        best >= self.threshold
    }

    open spec fn next(&self, best: i64) -> Self {
        *self
    }

    fn reached<T: Copy>(&mut self, generation: &Generation<T>) -> (r: bool) {
        generation.best().fitness >= self.threshold
    }
}

} // verus!
