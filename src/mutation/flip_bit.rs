use vstd::prelude::*;

use crate::mutation::Mutation;
use crate::random::{happens, random_in, Ratio};

verus! {

/// Negates the gene at one random place, once per sequence when the rate gate passes.
#[derive(Clone, Copy, Debug)]
pub struct FlipBit;

impl FlipBit {
    pub fn new() -> Self {
        FlipBit
    }
}

impl Mutation<bool> for FlipBit {
    open spec fn mutated(&self, genes: Seq<bool>, mutation_rate: Ratio, r: Seq<bool>) -> bool {
        &&& (r == genes || exists|p: int| 0 <= p < genes.len() && r == genes.update(p, !genes[p]))
        &&& (mutation_rate.is_always() && genes.len() > 0 ==> exists|p: int|
                0 <= p < genes.len() && r == genes.update(p, !genes[p]))
    }

    fn mutate(&self, genes: Vec<bool>, mutation_rate: Ratio) -> (r: Vec<bool>)
    {
        let mut genes = genes;
        if genes.len() > 0 && happens(mutation_rate) {
            let position = random_in(0, genes.len());
            let flipped = !genes[position];
            genes.set(position, flipped);
        }
        genes
    }
}

} // verus!
