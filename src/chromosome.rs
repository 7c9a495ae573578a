use vstd::prelude::*;

use crate::utility::copied;

verus! {

/// One candidate solution: its gene sequence and its fitness, higher being better.
#[derive(Clone, Debug)]
pub struct Chromosome<T> {
    pub genes: Vec<T>,
    pub fitness: i64,
}

impl<T: Copy> Chromosome<T> {
    pub fn new(genes: Vec<T>, fitness: i64) -> (r: Self)
        ensures
            r.genes@ == genes@,
            r.fitness == fitness,
    {
        Chromosome { genes, fitness }
    }

    /// A chromosome of `genes` that has not been scored yet (fitness zero).
    pub fn from_genes(genes: Vec<T>) -> (r: Self)
        ensures
            r.genes@ == genes@,
            r.fitness == 0,
    {
        Chromosome { genes, fitness: 0 }
    }

    pub fn genes(&self) -> (r: &[T])
        ensures
            r@ == self.genes@,
    {
        self.genes.as_slice()
    }

    /// A copy of this chromosome.
    pub fn duplicate(&self) -> (r: Self)
        ensures
            r.genes@ == self.genes@,
            r.fitness == self.fitness,
    {
        Chromosome { genes: copied(&self.genes), fitness: self.fitness }
    }
}

} // verus!
