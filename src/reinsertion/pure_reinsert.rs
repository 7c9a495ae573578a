use vstd::prelude::*;

use crate::chromosome::Chromosome;
use crate::generation::{scored_genomes, Generation};
use crate::reinsertion::Reinsertion;

verus! {

/// The offspring replace the prior generation entirely.
#[derive(Clone, Copy, Debug)]
pub struct Pure;

impl Pure {
    pub fn new() -> Self {
        Pure
    }
}

impl<T: Copy> Reinsertion<T> for Pure {
    open spec fn merges(
        &self,
        parents: Seq<Chromosome<T>>,
        offspring: Seq<Chromosome<T>>,
        next: Seq<Chromosome<T>>,
    ) -> bool {
        &&& (scored_genomes(next).to_multiset() == scored_genomes(offspring).to_multiset())
    }

    fn reinsert(&self, parents: &Generation<T>, offspring: Vec<Chromosome<T>>) -> (r: Generation<
        T,
    >)
    {
        Generation::from_chromosomes(offspring)
    }
}

} // verus!
