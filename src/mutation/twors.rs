use vstd::prelude::*;

use crate::mutation::{swap_genes, swapped, Mutation};
use crate::random::{happens, random_in, Ratio};

verus! {

/// Exchanges two genes at random places, once per sequence when the rate gate passes.
#[derive(Clone, Copy, Debug)]
pub struct Twors;

impl Twors {
    pub fn new() -> Self {
        Twors
    }
}

impl<T: Copy> Mutation<T> for Twors {
    open spec fn mutated(&self, genes: Seq<T>, mutation_rate: Ratio, r: Seq<T>) -> bool {
        &&& (r.to_multiset() == genes.to_multiset())
        &&& (r == genes || exists|i: int, j: int|
                0 <= i < j < genes.len() && r == swapped(genes, i, j))
        &&& (mutation_rate.is_always() && genes.len() >= 2 ==> exists|i: int, j: int|
                0 <= i < j < genes.len() && r == swapped(genes, i, j))
    }

    fn mutate(&self, genes: Vec<T>, mutation_rate: Ratio) -> (r: Vec<T>)
    {
        let mut genes = genes;
        if genes.len() >= 2 && happens(mutation_rate) {
            let i = random_in(0, genes.len() - 1);
            let j = random_in(i + 1, genes.len());
            swap_genes(&mut genes, i, j);
        }
        genes
    }
}

} // verus!
