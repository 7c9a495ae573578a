use vstd::prelude::*;

use crate::crossover::{genes_of, Crossover, CrossoverError};
use crate::random::random_in;
use crate::utility::extend_from;

verus! {

/// One-point crossover: the children trade the genes from a split point on.
#[derive(Clone, Copy, Debug)]
pub struct OnePoint {
    pub preset_split: Option<usize>,
}

/// The children of one-point crossover of `p1` and `p2` at `split`.
pub open spec fn one_point_children<T>(p1: Seq<T>, p2: Seq<T>, split: int) -> Seq<Seq<T>> {
    seq![
        p1.subrange(0, split) + p2.subrange(split, p2.len() as int),
        p2.subrange(0, split) + p1.subrange(split, p1.len() as int),
    ]
}

/// The outcome of one-point crossover with the preset split `preset` on `parents`.
pub open spec fn one_point_outcome<T>(
    preset: Option<usize>,
    parents: Seq<Vec<T>>,
    r: Result<Vec<Vec<T>>, CrossoverError>,
) -> bool {
    if parents.len() < 2 {
        r == Err::<Vec<Vec<T>>, CrossoverError>(CrossoverError::ParentCount)
    } else if parents[0]@.len() != parents[1]@.len() {
        r == Err::<Vec<Vec<T>>, CrossoverError>(CrossoverError::LengthMismatch)
    } else {
        let p1 = parents[0]@;
        let p2 = parents[1]@;
        match preset {
            Some(split) => if split > p1.len() {
                r == Err::<Vec<Vec<T>>, CrossoverError>(CrossoverError::SplitOutOfRange)
            } else {
                r matches Ok(c) && genes_of(c@) == one_point_children(p1, p2, split as int)
            },
            None => if p1.len() == 0 {
                r == Err::<Vec<Vec<T>>, CrossoverError>(CrossoverError::TooShort)
            } else {
                r matches Ok(c) && exists|split: int|
                    0 <= split < p1.len() && genes_of(c@) == one_point_children(p1, p2, split)
            },
        }
    }
}

impl OnePoint {
    /// One-point crossover at a split drawn anew for each crossover.
    pub fn new() -> (r: Self)
        ensures
            r.preset_split is None,
    {
        OnePoint { preset_split: None }
    }

    /// One-point crossover always at `split`.
    pub fn with_preset_split(split: usize) -> (r: Self)
        ensures
            r.preset_split == Some(split),
    {
        OnePoint { preset_split: Some(split) }
    }
}

impl<T: Copy> Crossover<T> for OnePoint {
    open spec fn arity(&self) -> nat {
        2
    }

    open spec fn brood(&self) -> nat {
        2
    }

    open spec fn crossed(&self, parents: Seq<Vec<T>>, r: Result<Vec<Vec<T>>, CrossoverError>) -> bool {
        &&& one_point_outcome(self.preset_split, parents, r)
    }

    open spec fn accepts(&self, parents: Seq<Vec<T>>) -> bool {
        &&& parents.len() >= 2
        &&& parents[0]@.len() == parents[1]@.len()
        &&& match self.preset_split {
            Some(split) => split <= parents[0]@.len(),
            None => parents[0]@.len() > 0,
        }
    }

    open spec fn exact_checks(&self) -> bool {
        true
    }

    fn check_parents(&self, parents: &Vec<Vec<T>>) -> (r: Result<(), CrossoverError>) {
        if parents.len() < 2 {
            return Err(CrossoverError::ParentCount);
        }
        let length = parents[0].len();
        if length != parents[1].len() {
            return Err(CrossoverError::LengthMismatch);
        }
        match self.preset_split {
            Some(split) => {
                if split > length {
                    return Err(CrossoverError::SplitOutOfRange);
                }
            },
            None => {
                if length == 0 {
                    return Err(CrossoverError::TooShort);
                }
            },
        }
        Ok(())
    }

    fn parents(&self) -> usize {
        2
    }

    fn children(&self) -> usize {
        2
    }

    fn cross(&self, parents: &Vec<Vec<T>>) -> (r: Result<Vec<Vec<T>>, CrossoverError>)
    {
        if parents.len() < 2 {
            return Err(CrossoverError::ParentCount);
        }
        let parent1 = &parents[0];
        let parent2 = &parents[1];
        let length = parent1.len();
        if length != parent2.len() {
            return Err(CrossoverError::LengthMismatch);
        }
        let split = match self.preset_split {
            Some(split) => {
                if split > length {
                    return Err(CrossoverError::SplitOutOfRange);
                }
                split
            },
            None => {
                if length == 0 {
                    return Err(CrossoverError::TooShort);
                }
                random_in(0, length)
            },
        };
        let mut child1: Vec<T> = Vec::with_capacity(length);
        extend_from(&mut child1, parent1, 0, split);
        extend_from(&mut child1, parent2, split, length);
        let mut child2: Vec<T> = Vec::with_capacity(length);
        extend_from(&mut child2, parent2, 0, split);
        extend_from(&mut child2, parent1, split, length);
        let children = vec![child1, child2];
        proof {
            assert(genes_of(children@) =~= one_point_children(parent1@, parent2@, split as int));
            if self.preset_split is None {
                assert(split < length);
                assert(exists|s: int|
                    0 <= s < parent1@.len() && genes_of(children@) == one_point_children(
                        parent1@,
                        parent2@,
                        s,
                    ));
            }
        }
        Ok(children)
    }
}

} // verus!
