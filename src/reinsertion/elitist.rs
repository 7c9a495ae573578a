use vstd::prelude::*;

use crate::chromosome::Chromosome;
use crate::generation::{scored_genomes, Generation};
use crate::reinsertion::Reinsertion;

verus! {

/// Where the offspring fall short of the prior generation's size, the fittest prior
/// chromosomes fill the gap.
#[derive(Clone, Copy, Debug)]
pub struct Elitist;

impl Elitist {
    pub fn new() -> Self {
        Elitist
    }
}

/// What elitist reinsertion keeps of `parents` for `offspring` offspring: the fittest
/// `parents.len() - offspring` prior chromosomes, none where the offspring suffice.
pub open spec fn survivors<T>(parents: Seq<Chromosome<T>>, offspring: nat) -> Seq<Chromosome<T>> {
    if offspring < parents.len() {
        parents.subrange(0, parents.len() - offspring)
    } else {
        Seq::empty()
    }
}

impl<T: Copy> Reinsertion<T> for Elitist {
    /// With prior size `P` and `O < P` offspring the result holds exactly `P` chromosomes: all
    /// the offspring and the `P - O` fittest prior ones; otherwise just the offspring.
    open spec fn merges(
        &self,
        parents: Seq<Chromosome<T>>,
        offspring: Seq<Chromosome<T>>,
        next: Seq<Chromosome<T>>,
    ) -> bool {
        &&& (next.len() == if offspring.len() < parents.len() {
                parents.len()
            } else {
                offspring.len()
            })
        &&& (scored_genomes(next).to_multiset() == scored_genomes(
                offspring + survivors(parents, offspring.len()),
            ).to_multiset())
    }

    fn reinsert(&self, parents: &Generation<T>, offspring: Vec<Chromosome<T>>) -> (r: Generation<
        T,
    >)
    {
        let mut offspring = offspring;
        let ghost given = offspring@;
        let size = parents.size();
        if offspring.len() < size {
            let diff = size - offspring.len();
            let mut top = parents.top(diff);
            let ghost kept = top@;
            offspring.append(&mut top);
            proof {
                assert(scored_genomes(offspring@) =~= scored_genomes(given) + scored_genomes(
                    kept,
                ));
                assert(scored_genomes(given + survivors(parents@, given.len())) =~= scored_genomes(
                    given,
                ) + scored_genomes(parents@.subrange(0, diff as int)));
            }
        } else {
            proof {
                assert(given + survivors(parents@, given.len()) =~= given);
            }
        }
        let r = Generation::from_chromosomes(offspring);
        proof {
            vstd::seq_lib::to_multiset_len(scored_genomes(r@));
            vstd::seq_lib::to_multiset_len(scored_genomes(offspring@));
        }
        r
    }
}

} // verus!
