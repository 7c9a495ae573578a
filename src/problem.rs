use vstd::prelude::*;

use crate::random::shuffle;
use crate::utility::{copied, is_permutation_of};

verus! {

/// A source of initial populations.
pub trait Problem<T> {
    fn generate_population(&self, size: usize) -> (r: Vec<Vec<T>>)
        ensures
            r@.len() == size,
    ;
}

/// A problem that can also draw a single gene for a given place.
pub trait UniformProblem<T>: Problem<T> {
    /// `gene` is one that the problem may draw for the place `index`.
    spec fn gene_at(&self, index: usize, gene: T) -> bool;

    fn generate_gene(&self, index: usize) -> (r: T)
        ensures
            self.gene_at(index, r),
    ;
}

/// A problem whose solutions are the orderings of a fixed set of values.
#[derive(Clone, Debug)]
pub struct Permutation<T> {
    pub values: Vec<T>,
}

impl<T: Copy> Permutation<T> {
    pub fn new(values: Vec<T>) -> (r: Self)
        ensures
            r.values@ == values@,
    {
        Permutation { values }
    }
}

impl<T: Copy> Problem<T> for Permutation<T> {
    /// `size` random orderings of the values.
    fn generate_population(&self, size: usize) -> (r: Vec<Vec<T>>)
        ensures
            forall|i: int| 0 <= i < size ==> is_permutation_of(#[trigger] r@[i]@, self.values@),
    {
        let mut population: Vec<Vec<T>> = Vec::with_capacity(size);
        while population.len() < size
            invariant
                population@.len() <= size,
                forall|i: int|
                    0 <= i < population@.len() ==> is_permutation_of(
                        #[trigger] population@[i]@,
                        self.values@,
                    ),
            decreases size - population@.len(),
        {
            let mut genes = copied(&self.values);
            shuffle(&mut genes);
            population.push(genes);
        }
        population
    }
}

} // verus!
