use vstd::prelude::*;

use crate::crossover::{genes_of, Crossover, CrossoverError};
use crate::utility::{lawful_eq, same};

verus! {

/// Three-parent crossover: where the first two parents agree the child takes their gene,
/// elsewhere the third parent's.
#[derive(Clone, Copy, Debug)]
pub struct ThreeParent;

impl ThreeParent {
    pub fn new() -> Self {
        ThreeParent
    }
}

/// The child of three-parent crossover of `p1`, `p2` and `p3`.
pub open spec fn three_parent_child<T>(p1: Seq<T>, p2: Seq<T>, p3: Seq<T>) -> Seq<T> {
    Seq::new(p1.len(), |i: int| if p1[i] == p2[i] { p1[i] } else { p3[i] })
}

/// The outcome of three-parent crossover on `parents`.
pub open spec fn three_parent_outcome<T>(
    parents: Seq<Vec<T>>,
    r: Result<Vec<Vec<T>>, CrossoverError>,
) -> bool {
    if parents.len() < 3 {
        r == Err::<Vec<Vec<T>>, CrossoverError>(CrossoverError::ParentCount)
    } else if parents[0]@.len() != parents[1]@.len() || parents[0]@.len() != parents[2]@.len() {
        r == Err::<Vec<Vec<T>>, CrossoverError>(CrossoverError::LengthMismatch)
    } else {
        r matches Ok(c) && genes_of(c@) == seq![
            three_parent_child(parents[0]@, parents[1]@, parents[2]@),
        ]
    }
}

impl<T: Copy + PartialEq> Crossover<T> for ThreeParent {
    open spec fn arity(&self) -> nat {
        3
    }

    open spec fn brood(&self) -> nat {
        1
    }

    open spec fn crossed(&self, parents: Seq<Vec<T>>, r: Result<Vec<Vec<T>>, CrossoverError>) -> bool {
        &&& r matches Ok(c) ==> c.len() == 1
        &&& lawful_eq::<T>() ==> three_parent_outcome(parents, r)
    }

    open spec fn accepts(&self, parents: Seq<Vec<T>>) -> bool {
        &&& parents.len() >= 3
        &&& parents[0]@.len() == parents[1]@.len()
        &&& parents[0]@.len() == parents[2]@.len()
    }

    open spec fn exact_checks(&self) -> bool {
        true
    }

    fn check_parents(&self, parents: &Vec<Vec<T>>) -> (r: Result<(), CrossoverError>) {
        if parents.len() < 3 {
            return Err(CrossoverError::ParentCount);
        }
        let length = parents[0].len();
        if length != parents[1].len() || length != parents[2].len() {
            return Err(CrossoverError::LengthMismatch);
        }
        Ok(())
    }

    fn parents(&self) -> usize {
        3
    }

    fn children(&self) -> usize {
        1
    }

    fn cross(&self, parents: &Vec<Vec<T>>) -> (r: Result<Vec<Vec<T>>, CrossoverError>)
    {
        if parents.len() < 3 {
            return Err(CrossoverError::ParentCount);
        }
        let parent1 = &parents[0];
        let parent2 = &parents[1];
        let parent3 = &parents[2];
        let length = parent1.len();
        if length != parent2.len() || length != parent3.len() {
            return Err(CrossoverError::LengthMismatch);
        }
        let mut child: Vec<T> = Vec::with_capacity(length);
        let mut i: usize = 0;
        while i < length
            invariant
                i <= length == parent1@.len() == parent2@.len() == parent3@.len(),
                child@.len() == i,
                lawful_eq::<T>() ==> child@ == three_parent_child(
                    parent1@,
                    parent2@,
                    parent3@,
                ).subrange(0, i as int),
            decreases length - i,
        {
            if same(&parent1[i], &parent2[i]) {
                child.push(parent1[i]);
            } else {
                child.push(parent3[i]);
            }
            i = i + 1;
            proof {
                if lawful_eq::<T>() {
                    assert(child@ =~= three_parent_child(parent1@, parent2@, parent3@).subrange(
                        0,
                        i as int,
                    ));
                }
            }
        }
        let children = vec![child];
        proof {
            if lawful_eq::<T>() {
                let whole = three_parent_child(parent1@, parent2@, parent3@);
                assert(whole.subrange(0, length as int) =~= whole);
                assert(genes_of(children@) =~= seq![
                    three_parent_child(parent1@, parent2@, parent3@),
                ]);
            }
        }
        Ok(children)
    }
}

} // verus!
