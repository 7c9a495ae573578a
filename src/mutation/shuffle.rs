use vstd::prelude::*;

use crate::mutation::Mutation;
use crate::random::{happens, shuffle, Ratio};

verus! {

/// Puts the whole sequence in a random order when the rate gate passes.
#[derive(Clone, Copy, Debug)]
pub struct Shuffle;

impl Shuffle {
    pub fn new() -> Self {
        Shuffle
    }
}

impl<T: Copy> Mutation<T> for Shuffle {
    open spec fn mutated(&self, genes: Seq<T>, mutation_rate: Ratio, r: Seq<T>) -> bool {
        &&& (r.to_multiset() == genes.to_multiset())
    }

    fn mutate(&self, genes: Vec<T>, mutation_rate: Ratio) -> (r: Vec<T>)
    {
        let mut genes = genes;
        if happens(mutation_rate) {
            let ghost before = genes@;
            shuffle(&mut genes);
            proof {
                vstd::seq_lib::to_multiset_len(genes@);
                vstd::seq_lib::to_multiset_len(before);
            }
        }
        genes
    }
}

} // verus!
