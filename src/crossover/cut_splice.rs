use vstd::prelude::*;

use crate::crossover::{genes_of, Crossover, CrossoverError};
use crate::random::random_in;
use crate::utility::extend_from;

verus! {

/// An operator that results in a change in the length of the children.
///
/// It chooses the split points on the parents independently and joins the resulting
/// segments, whatever the lengths of the parents; so it can be used for parents of
/// differing lengths.
#[derive(Clone, Copy, Debug)]
pub struct CutAndSplice {
    pub preset_split: Option<(usize, usize)>,
}

/// The children of cut-and-splice on `p1` cut at `split1` and `p2` cut at `split2`.
pub open spec fn cut_splice_children<T>(p1: Seq<T>, p2: Seq<T>, split1: int, split2: int) -> Seq<
    Seq<T>,
> {
    seq![
        p1.subrange(0, split1) + p2.subrange(split2, p2.len() as int),
        p2.subrange(0, split2) + p1.subrange(split1, p1.len() as int),
    ]
}

/// The outcome of cut-and-splice with the preset split points `preset` on `parents`.
pub open spec fn cut_splice_outcome<T>(
    preset: Option<(usize, usize)>,
    parents: Seq<Vec<T>>,
    r: Result<Vec<Vec<T>>, CrossoverError>,
) -> bool {
    if parents.len() < 2 {
        r == Err::<Vec<Vec<T>>, CrossoverError>(CrossoverError::ParentCount)
    } else {
        let p1 = parents[0]@;
        let p2 = parents[1]@;
        match preset {
            Some(split) => if split.0 > p1.len() || split.1 > p2.len() {
                r == Err::<Vec<Vec<T>>, CrossoverError>(CrossoverError::SplitOutOfRange)
            } else {
                r matches Ok(c) && genes_of(c@) == cut_splice_children(
                    p1,
                    p2,
                    split.0 as int,
                    split.1 as int,
                )
            },
            None => if p1.len() == 0 || p2.len() == 0 {
                r == Err::<Vec<Vec<T>>, CrossoverError>(CrossoverError::TooShort)
            } else {
                r matches Ok(c) && exists|split1: int, split2: int|
                    0 <= split1 < p1.len() && 0 <= split2 < p2.len() && genes_of(c@)
                        == cut_splice_children(p1, p2, split1, split2)
            },
        }
    }
}

impl CutAndSplice {
    /// Cut-and-splice at split points drawn anew, independently, for each crossover.
    pub fn new() -> (r: Self)
        ensures
            r.preset_split is None,
    {
        CutAndSplice { preset_split: None }
    }

    /// Cut-and-splice that always cuts the first parent at `first` and the second at
    /// `second`.
    pub fn with_preset_split(first: usize, second: usize) -> (r: Self)
        ensures
            r.preset_split == Some((first, second)),
    {
        CutAndSplice { preset_split: Some((first, second)) }
    }
}

impl<T: Copy> Crossover<T> for CutAndSplice {
    open spec fn arity(&self) -> nat {
        2
    }

    open spec fn brood(&self) -> nat {
        2
    }

    open spec fn crossed(&self, parents: Seq<Vec<T>>, r: Result<Vec<Vec<T>>, CrossoverError>) -> bool {
        &&& cut_splice_outcome(self.preset_split, parents, r)
    }

    open spec fn accepts(&self, parents: Seq<Vec<T>>) -> bool {
        &&& parents.len() >= 2
        &&& match self.preset_split {
            Some(split) => split.0 <= parents[0]@.len() && split.1 <= parents[1]@.len(),
            None => parents[0]@.len() > 0 && parents[1]@.len() > 0,
        }
    }

    open spec fn exact_checks(&self) -> bool {
        true
    }

    fn check_parents(&self, parents: &Vec<Vec<T>>) -> (r: Result<(), CrossoverError>) {
        if parents.len() < 2 {
            return Err(CrossoverError::ParentCount);
        }
        let length1 = parents[0].len();
        let length2 = parents[1].len();
        match self.preset_split {
            Some(split) => {
                if split.0 > length1 || split.1 > length2 {
                    return Err(CrossoverError::SplitOutOfRange);
                }
            },
            None => {
                if length1 == 0 || length2 == 0 {
                    return Err(CrossoverError::TooShort);
                }
            },
        }
        Ok(())
    }

    fn parents(&self) -> usize {
        2
    }

    fn children(&self) -> usize {
        2
    }

    fn cross(&self, parents: &Vec<Vec<T>>) -> (r: Result<Vec<Vec<T>>, CrossoverError>)
    {
        if parents.len() < 2 {
            return Err(CrossoverError::ParentCount);
        }
        let parent1 = &parents[0];
        let parent2 = &parents[1];
        let length1 = parent1.len();
        let length2 = parent2.len();
        let (split1, split2) = match self.preset_split {
            Some(split) => {
                if split.0 > length1 || split.1 > length2 {
                    return Err(CrossoverError::SplitOutOfRange);
                }
                split
            },
            None => {
                if length1 == 0 || length2 == 0 {
                    return Err(CrossoverError::TooShort);
                }
                (random_in(0, length1), random_in(0, length2))
            },
        };
        let mut child1: Vec<T> = Vec::new();
        extend_from(&mut child1, parent1, 0, split1);
        extend_from(&mut child1, parent2, split2, length2);
        let mut child2: Vec<T> = Vec::new();
        extend_from(&mut child2, parent2, 0, split2);
        extend_from(&mut child2, parent1, split1, length1);
        let children = vec![child1, child2];
        proof {
            assert(genes_of(children@) =~= cut_splice_children(
                parent1@,
                parent2@,
                split1 as int,
                split2 as int,
            ));
        }
        Ok(children)
    }
}

} // verus!
