use vstd::prelude::*;

use crate::chromosome::Chromosome;
use crate::generation::Generation;

pub mod elitist;
pub mod fitness_based;
pub mod pure_reinsert;
pub mod uniform;

pub use self::elitist::Elitist;
pub use self::fitness_based::FitnessBased;
pub use self::pure_reinsert::Pure;
pub use self::uniform::UniformReinsertion;

verus! {

/// A policy that merges the prior generation and the offspring into the next generation.
pub trait Reinsertion<T> {
    /// `next` is a generation that this policy may build from `parents` and `offspring`.
    spec fn merges(
        &self,
        parents: Seq<Chromosome<T>>,
        offspring: Seq<Chromosome<T>>,
        next: Seq<Chromosome<T>>,
    ) -> bool;

    fn reinsert(&self, parents: &Generation<T>, offspring: Vec<Chromosome<T>>) -> (r: Generation<
        T,
    >)
        ensures
            self.merges(parents@, offspring@, r@),
    ;
}

} // verus!
