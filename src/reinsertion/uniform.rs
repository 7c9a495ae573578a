use vstd::prelude::*;

use crate::chromosome::Chromosome;
use crate::generation::{scored_genomes, Generation};
use crate::random::random_in;
use crate::reinsertion::Reinsertion;

verus! {

/// Where the offspring fall short of the prior generation's size, prior chromosomes drawn
/// uniformly at random, with replacement, fill the gap.
#[derive(Clone, Copy, Debug)]
pub struct UniformReinsertion;

impl UniformReinsertion {
    pub fn new() -> Self {
        UniformReinsertion
    }
}

impl<T: Copy> Reinsertion<T> for UniformReinsertion {
    open spec fn merges(
        &self,
        parents: Seq<Chromosome<T>>,
        offspring: Seq<Chromosome<T>>,
        next: Seq<Chromosome<T>>,
    ) -> bool {
        &&& (next.len() == if offspring.len() < parents.len() {
                parents.len()
            } else {
                offspring.len()
            })
        &&& (exists|drawn: Seq<(Seq<T>, i64)>|
                {
                    &&& drawn.len() == next.len() - offspring.len()
                    &&& forall|i: int|
                        0 <= i < drawn.len() ==> scored_genomes(parents).contains(
                            #[trigger] drawn[i],
                        )
                    &&& scored_genomes(next).to_multiset() == (scored_genomes(offspring)
                        + drawn).to_multiset()
                })
    }

    fn reinsert(&self, parents: &Generation<T>, offspring: Vec<Chromosome<T>>) -> (r: Generation<
        T,
    >)
    {
        let mut offspring = offspring;
        let ghost given = offspring@;
        let size = parents.size();
        let mut drawn: Vec<Chromosome<T>> = Vec::new();
        if offspring.len() < size {
            let diff = size - offspring.len();
            let ghost mut idx: Seq<int> = Seq::empty();
            while drawn.len() < diff
                invariant
                    diff <= size == parents@.len(),
                    drawn@.len() <= diff,
                    idx.len() == drawn@.len(),
                    forall|i: int|
                        0 <= i < drawn@.len() ==> 0 <= #[trigger] idx[i] < parents@.len()
                            && drawn@[i].genes@ == parents@[idx[i]].genes@ && drawn@[i].fitness
                            == parents@[idx[i]].fitness,
                decreases diff - drawn@.len(),
            {
                let k = random_in(0, size);
                let c = parents.get(k).duplicate();
                drawn.push(c);
                proof {
                    idx = idx.push(k as int);
                }
            }
            proof {
                assert forall|i: int| 0 <= i < drawn@.len() implies scored_genomes(
                    parents@,
                ).contains(#[trigger] scored_genomes(drawn@)[i]) by {
                    assert(scored_genomes(parents@)[idx[i]] == scored_genomes(drawn@)[i]);
                }
            }
        }
        let ghost picked = drawn@;
        offspring.append(&mut drawn);
        let r = Generation::from_chromosomes(offspring);
        proof {
            assert(scored_genomes(offspring@) =~= scored_genomes(given) + scored_genomes(picked));
            vstd::seq_lib::to_multiset_len(scored_genomes(r@));
            vstd::seq_lib::to_multiset_len(scored_genomes(offspring@));
        }
        r
    }
}

} // verus!
