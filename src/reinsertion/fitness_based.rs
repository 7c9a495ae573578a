use vstd::prelude::*;

use crate::chromosome::Chromosome;
use crate::generation::{genome_vecs, scored_by, scored_genomes, sorted_by_fitness, Generation};
use crate::reinsertion::Reinsertion;

verus! {

/// Where the offspring outnumber the prior generation, they are scored anew and only the
/// fittest, as many as the prior generation held, are kept.
pub struct FitnessBased<'a, T, F: Fn(&Vec<T>) -> i64> {
    fitness: &'a F,
    gene: std::marker::PhantomData<T>,
}

impl<'a, T, F: Fn(&Vec<T>) -> i64> FitnessBased<'a, T, F> {
    #[verifier::type_invariant]
    closed spec fn total(self) -> bool {
        forall|g: &Vec<T>| self.fitness.requires((g,))
    }

    /// Scores with `fitness`, which must accept every gene sequence.
    pub fn new(fitness: &'a F) -> (r: Self)
        requires
            forall|g: &Vec<T>| fitness.requires((g,)),
        ensures
            r.scorer() == fitness,
    {
        FitnessBased { fitness, gene: std::marker::PhantomData }
    }

    pub closed spec fn scorer(&self) -> &'a F {
        self.fitness
    }
}

impl<'a, T: Copy, F: Fn(&Vec<T>) -> i64> Reinsertion<T> for FitnessBased<'a, T, F> {
    open spec fn merges(
        &self,
        parents: Seq<Chromosome<T>>,
        offspring: Seq<Chromosome<T>>,
        next: Seq<Chromosome<T>>,
    ) -> bool {
        &&& (offspring.len() <= parents.len() ==> scored_genomes(next).to_multiset()
                == scored_genomes(offspring).to_multiset())
        &&& (offspring.len() > parents.len() ==> next.len() == parents.len() && exists|
                arranged: Seq<Chromosome<T>>,
                scored: Seq<Chromosome<T>>,
                ranked: Seq<Chromosome<T>>,
            |
                {
                    &&& arranged.to_multiset() == offspring.to_multiset()
                    &&& scored_by(*self.scorer(), genome_vecs(arranged), scored)
                    &&& ranked.to_multiset() == scored.to_multiset()
                    &&& sorted_by_fitness(ranked)
                    &&& scored_genomes(next).to_multiset() == scored_genomes(
                        ranked.subrange(0, parents.len() as int),
                    ).to_multiset()
                })
    }

    fn reinsert(&self, parents: &Generation<T>, offspring: Vec<Chromosome<T>>) -> (r: Generation<
        T,
    >)
    {
        proof {
            use_type_invariant(self);
        }
        let size = parents.size();
        if offspring.len() > size {
            let mut ranked = Generation::from_chromosomes(offspring);
            let ghost arranged = ranked@;
            ranked.reevaluate(self.fitness);
            let top = ranked.top(size);
            let r = Generation::from_chromosomes(top);
            proof {
                let scored = choose|scored: Seq<Chromosome<T>>|
                    scored_by(*self.scorer(), genome_vecs(arranged), scored)
                        && ranked@.to_multiset() == scored.to_multiset();
                assert(ranked@.to_multiset() == scored.to_multiset());
            }
            r
        } else {
            Generation::from_chromosomes(offspring)
        }
    }
}

} // verus!
