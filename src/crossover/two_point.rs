use vstd::prelude::*;

use crate::crossover::{genes_of, Crossover, CrossoverError};
use crate::random::range_indexes;
use crate::utility::extend_from;

verus! {

/// Two-point crossover: the children trade the genes between two split points.
#[derive(Clone, Copy, Debug)]
pub struct TwoPoint {
    pub preset_split: Option<(usize, usize)>,
}

/// The children of two-point crossover of `p1` and `p2` between `start` and `end`.
pub open spec fn two_point_children<T>(p1: Seq<T>, p2: Seq<T>, start: int, end: int) -> Seq<
    Seq<T>,
> {
    seq![
        p1.subrange(0, start) + p2.subrange(start, end) + p1.subrange(end, p1.len() as int),
        p2.subrange(0, start) + p1.subrange(start, end) + p2.subrange(end, p2.len() as int),
    ]
}

/// The outcome of two-point crossover with the preset split `preset` on `parents`.
pub open spec fn two_point_outcome<T>(
    preset: Option<(usize, usize)>,
    parents: Seq<Vec<T>>,
    r: Result<Vec<Vec<T>>, CrossoverError>,
) -> bool {
    if parents.len() < 2 {
        r == Err::<Vec<Vec<T>>, CrossoverError>(CrossoverError::ParentCount)
    } else if parents[0]@.len() != parents[1]@.len() {
        r == Err::<Vec<Vec<T>>, CrossoverError>(CrossoverError::LengthMismatch)
    } else {
        let p1 = parents[0]@;
        let p2 = parents[1]@;
        match preset {
            Some(split) => if !(split.0 <= split.1 <= p1.len()) {
                r == Err::<Vec<Vec<T>>, CrossoverError>(CrossoverError::SplitOutOfRange)
            } else {
                r matches Ok(c) && genes_of(c@) == two_point_children(
                    p1,
                    p2,
                    split.0 as int,
                    split.1 as int,
                )
            },
            None => if p1.len() < 2 {
                r == Err::<Vec<Vec<T>>, CrossoverError>(CrossoverError::TooShort)
            } else {
                r matches Ok(c) && exists|start: int, end: int|
                    0 <= start < end <= p1.len() && genes_of(c@) == two_point_children(
                        p1,
                        p2,
                        start,
                        end,
                    )
            },
        }
    }
}

impl TwoPoint {
    /// Two-point crossover between split points drawn anew for each crossover.
    pub fn new() -> (r: Self)
        ensures
            r.preset_split is None,
    {
        TwoPoint { preset_split: None }
    }

    /// Two-point crossover always between the ends of `range`, which must not be empty.
    pub fn with_preset_split(range: std::ops::Range<usize>) -> (r: Self)
        requires
            range.start < range.end,
        ensures
            r.preset_split == Some((range.start, range.end)),
    {
        TwoPoint { preset_split: Some((range.start, range.end)) }
    }
}

impl<T: Copy> Crossover<T> for TwoPoint {
    open spec fn arity(&self) -> nat {
        2
    }

    open spec fn brood(&self) -> nat {
        2
    }

    open spec fn crossed(&self, parents: Seq<Vec<T>>, r: Result<Vec<Vec<T>>, CrossoverError>) -> bool {
        &&& two_point_outcome(self.preset_split, parents, r)
    }

    open spec fn accepts(&self, parents: Seq<Vec<T>>) -> bool {
        &&& parents.len() >= 2
        &&& parents[0]@.len() == parents[1]@.len()
        &&& match self.preset_split {
            Some(split) => split.0 <= split.1 <= parents[0]@.len(),
            None => parents[0]@.len() >= 2,
        }
    }

    open spec fn exact_checks(&self) -> bool {
        true
    }

    fn check_parents(&self, parents: &Vec<Vec<T>>) -> (r: Result<(), CrossoverError>) {
        if parents.len() < 2 {
            return Err(CrossoverError::ParentCount);
        }
        let length = parents[0].len();
        if length != parents[1].len() {
            return Err(CrossoverError::LengthMismatch);
        }
        match self.preset_split {
            Some(split) => {
                if !(split.0 <= split.1 && split.1 <= length) {
                    return Err(CrossoverError::SplitOutOfRange);
                }
            },
            None => {
                if length < 2 {
                    return Err(CrossoverError::TooShort);
                }
            },
        }
        Ok(())
    }

    fn parents(&self) -> usize {
        2
    }

    fn children(&self) -> usize {
        2
    }

    fn cross(&self, parents: &Vec<Vec<T>>) -> (r: Result<Vec<Vec<T>>, CrossoverError>)
    {
        if parents.len() < 2 {
            return Err(CrossoverError::ParentCount);
        }
        let parent1 = &parents[0];
        let parent2 = &parents[1];
        let length = parent1.len();
        if length != parent2.len() {
            return Err(CrossoverError::LengthMismatch);
        }
        let (start, end) = match self.preset_split {
            Some(split) => {
                if !(split.0 <= split.1 && split.1 <= length) {
                    return Err(CrossoverError::SplitOutOfRange);
                }
                split
            },
            None => {
                if length < 2 {
                    return Err(CrossoverError::TooShort);
                }
                range_indexes(length)
            },
        };
        let mut child1: Vec<T> = Vec::with_capacity(length);
        extend_from(&mut child1, parent1, 0, start);
        extend_from(&mut child1, parent2, start, end);
        extend_from(&mut child1, parent1, end, length);
        let mut child2: Vec<T> = Vec::with_capacity(length);
        extend_from(&mut child2, parent2, 0, start);
        extend_from(&mut child2, parent1, start, end);
        extend_from(&mut child2, parent2, end, length);
        let children = vec![child1, child2];
        proof {
            assert(genes_of(children@) =~= two_point_children(
                parent1@,
                parent2@,
                start as int,
                end as int,
            ));
            if self.preset_split is None {
                assert(start < end <= length);
                assert(exists|s: int, e: int|
                    0 <= s < e <= parent1@.len() && genes_of(children@) == two_point_children(
                        parent1@,
                        parent2@,
                        s,
                        e,
                    ));
            }
        }
        Ok(children)
    }
}

} // verus!
