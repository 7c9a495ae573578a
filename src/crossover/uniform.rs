use vstd::prelude::*;

use crate::crossover::{genes_of, Crossover, CrossoverError};
use crate::random::{happens, Ratio};

verus! {

/// Uniform crossover: at each place, with the given probability, the children trade genes.
#[derive(Clone, Copy, Debug)]
pub struct UniformCrossover {
    pub probability: Ratio,
}

impl UniformCrossover {
    pub fn new(probability: Ratio) -> (r: Self)
        ensures
            r.probability == probability,
    {
        UniformCrossover { probability }
    }
}

/// `c1` and `c2` hold, at each place, the genes of `p1` and `p2` there, traded or not.
pub open spec fn traded_per_place<T>(p1: Seq<T>, p2: Seq<T>, c1: Seq<T>, c2: Seq<T>) -> bool {
    &&& c1.len() == p1.len()
    &&& c2.len() == p1.len()
    &&& forall|i: int|
        0 <= i < p1.len() ==> (c1[i] == p1[i] && c2[i] == p2[i]) || (c1[i] == p2[i] && c2[i]
            == p1[i])
}

impl<T: Copy> Crossover<T> for UniformCrossover {
    open spec fn arity(&self) -> nat {
        2
    }

    open spec fn brood(&self) -> nat {
        2
    }

    open spec fn crossed(&self, parents: Seq<Vec<T>>, r: Result<Vec<Vec<T>>, CrossoverError>) -> bool {
        &&& (parents.len() < 2 ==> r == Err::<Vec<Vec<T>>, CrossoverError>(
                CrossoverError::ParentCount,
            ))
        &&& (parents.len() >= 2 && parents[0]@.len() != parents[1]@.len() ==> r == Err::<
                Vec<Vec<T>>,
                CrossoverError,
            >(CrossoverError::LengthMismatch))
        &&& (parents.len() >= 2 && parents[0]@.len() == parents[1]@.len() ==> (r matches Ok(c)
                && c.len() == 2 && traded_per_place(parents[0]@, parents[1]@, c@[0]@, c@[1]@)
                && (self.probability.is_never() ==> genes_of(c@) == seq![
                parents[0]@,
                parents[1]@,
            ]) && (self.probability.is_always() ==> genes_of(c@) == seq![
                parents[1]@,
                parents[0]@,
            ])))
    }

    open spec fn accepts(&self, parents: Seq<Vec<T>>) -> bool {
        &&& parents.len() >= 2
        &&& parents[0]@.len() == parents[1]@.len()
    }

    open spec fn exact_checks(&self) -> bool {
        true
    }

    fn check_parents(&self, parents: &Vec<Vec<T>>) -> (r: Result<(), CrossoverError>) {
        if parents.len() < 2 {
            return Err(CrossoverError::ParentCount);
        }
        let length = parents[0].len();
        if length != parents[1].len() {
            return Err(CrossoverError::LengthMismatch);
        }
        Ok(())
    }

    fn parents(&self) -> usize {
        2
    }

    fn children(&self) -> usize {
        2
    }

    fn cross(&self, parents: &Vec<Vec<T>>) -> (r: Result<Vec<Vec<T>>, CrossoverError>)
    {
        if parents.len() < 2 {
            return Err(CrossoverError::ParentCount);
        }
        let parent1 = &parents[0];
        let parent2 = &parents[1];
        let length = parent1.len();
        if length != parent2.len() {
            return Err(CrossoverError::LengthMismatch);
        }
        let mut child1: Vec<T> = Vec::with_capacity(length);
        let mut child2: Vec<T> = Vec::with_capacity(length);
        let mut i: usize = 0;
        while i < length
            invariant
                i <= length == parent1@.len() == parent2@.len(),
                child1@.len() == i,
                child2@.len() == i,
                forall|k: int|
                    0 <= k < i ==> (child1@[k] == parent1@[k] && child2@[k] == parent2@[k]) || (
                    child1@[k] == parent2@[k] && child2@[k] == parent1@[k]),
                self.probability.is_never() ==> child1@ == parent1@.subrange(0, i as int)
                    && child2@ == parent2@.subrange(0, i as int),
                self.probability.is_always() ==> child1@ == parent2@.subrange(0, i as int)
                    && child2@ == parent1@.subrange(0, i as int),
            decreases length - i,
        {
            if happens(self.probability) {
                child1.push(parent2[i]);
                child2.push(parent1[i]);
            } else {
                child1.push(parent1[i]);
                child2.push(parent2[i]);
            }
            i = i + 1;
            assert(parent1@.subrange(0, i as int) =~= parent1@.subrange(0, i - 1).push(
                parent1@[i - 1],
            ));
            assert(parent2@.subrange(0, i as int) =~= parent2@.subrange(0, i - 1).push(
                parent2@[i - 1],
            ));
        }
        assert(parent1@.subrange(0, length as int) =~= parent1@);
        assert(parent2@.subrange(0, length as int) =~= parent2@);
        let children = vec![child1, child2];
        assert(genes_of(children@) =~= seq![children@[0]@, children@[1]@]);
        Ok(children)
    }
}

} // verus!
