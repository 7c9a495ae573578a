use vstd::prelude::*;

use crate::mutation::Mutation;
use crate::problem::UniformProblem;
use crate::random::{happens, Ratio};

verus! {

/// Each gene, gated by the rate on its own, is replaced by a fresh one from the problem's
/// generator for its place.
#[derive(Clone, Copy, Debug)]
pub struct UniformMutation<P> {
    pub problem: P,
}

impl<P> UniformMutation<P> {
    pub fn new(problem: P) -> (r: Self)
        ensures
            r.problem == problem,
    {
        UniformMutation { problem }
    }
}

impl<T: Copy, P: UniformProblem<T>> Mutation<T> for UniformMutation<P> {
    open spec fn mutated(&self, genes: Seq<T>, mutation_rate: Ratio, r: Seq<T>) -> bool {
        &&& (forall|i: int|
                0 <= i < r.len() ==> r[i] == genes[i] || self.problem.gene_at(
                    i as usize,
                    #[trigger] r[i],
                ))
        &&& (mutation_rate.is_always() ==> forall|i: int|
                0 <= i < r.len() ==> self.problem.gene_at(i as usize, #[trigger] r[i]))
    }

    fn mutate(&self, genes: Vec<T>, mutation_rate: Ratio) -> (r: Vec<T>)
    {
        let mut genes = genes;
        let ghost s = genes@;
        let mut i: usize = 0;
        while i < genes.len()
            invariant
                genes@.len() == s.len(),
                i <= genes@.len(),
                mutation_rate.is_never() ==> genes@ == s,
                forall|k: int| i <= k < genes@.len() ==> genes@[k] == s[k],
                forall|k: int|
                    0 <= k < i ==> genes@[k] == s[k] || self.problem.gene_at(
                        k as usize,
                        #[trigger] genes@[k],
                    ),
                mutation_rate.is_always() ==> forall|k: int|
                    0 <= k < i ==> self.problem.gene_at(k as usize, #[trigger] genes@[k]),
            decreases genes@.len() - i,
        {
            if happens(mutation_rate) {
                let fresh = self.problem.generate_gene(i);
                genes.set(i, fresh);
            }
            i = i + 1;
        }
        genes
    }
}

} // verus!
