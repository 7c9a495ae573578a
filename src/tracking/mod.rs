use vstd::prelude::*;

use crate::generation::Generation;

pub mod best_solution;

pub use self::best_solution::BestSolution;

verus! {

/// Bookkeeping called once per generation, the initial one included.
pub trait Tracking<T>: Sized {
    /// `next` is a state that this tracker may reach by registering `generation`.
    spec fn registers(&self, generation: Generation<T>, next: Self) -> bool;

    fn register(&mut self, generation: &Generation<T>)
        requires
            generation@.len() > 0,
        ensures
            old(self).registers(*generation, *final(self)),
    ;
}

} // verus!
