use vstd::prelude::*;

use crate::crossover::{genes_of, Crossover, CrossoverError};
use crate::random::range_indexes;
use crate::utility::{
    all_distinct, contains, extend_from, is_permutation_pair, lawful_eq, permutation_pair, slice_of,
};

verus! {

/// Order-1 crossover: a child keeps a swath of one parent in place and fills the other
/// places, in order, with the other parent's genes that are not in the swath.
#[derive(Clone, Copy, Debug)]
pub struct Order1 {
    pub preset_split: Option<(usize, usize)>,
}

/// The genes of `p2` that are not in `swath`, in order.
pub open spec fn outside_swath<T>(p2: Seq<T>, swath: Seq<T>) -> Seq<T> {
    p2.filter(|g: T| !swath.contains(g))
}

/// The order-1 child of `p1` and `p2` with the swath `start..end`: up to `start` of `p2`'s
/// genes outside the swath, the swath, then the rest of them.
pub open spec fn order1_child<T>(p1: Seq<T>, p2: Seq<T>, start: int, end: int) -> Seq<T> {
    let swath = p1.subrange(start, end);
    let rest = outside_swath(p2, swath);
    let head = if start <= rest.len() {
        start
    } else {
        rest.len() as int
    };
    rest.subrange(0, head) + swath + rest.subrange(head, rest.len() as int)
}

/// The outcome of order-1 crossover with the preset swath `preset` on `parents`.
pub open spec fn order1_outcome<T>(
    preset: Option<(usize, usize)>,
    parents: Seq<Vec<T>>,
    r: Result<Vec<Vec<T>>, CrossoverError>,
) -> bool {
    if parents.len() < 2 {
        r == Err::<Vec<Vec<T>>, CrossoverError>(CrossoverError::ParentCount)
    } else if parents[0]@.len() != parents[1]@.len() {
        r == Err::<Vec<Vec<T>>, CrossoverError>(CrossoverError::LengthMismatch)
    } else {
        let p1 = parents[0]@;
        let p2 = parents[1]@;
        let n = p1.len();
        match preset {
            Some(split) => if !(split.0 < split.1 <= n) {
                r == Err::<Vec<Vec<T>>, CrossoverError>(CrossoverError::SplitOutOfRange)
            } else {
                order1_pair_outcome(p1, p2, split.0 as int, split.1 as int, r)
            },
            None => if n < 2 {
                r == Err::<Vec<Vec<T>>, CrossoverError>(CrossoverError::TooShort)
            } else {
                exists|start: int, end: int|
                    0 <= start < end <= n && order1_pair_outcome(p1, p2, start, end, r)
            },
        }
    }
}

/// The outcome of order-1 crossover of `p1` and `p2` with the swath `start..end`: an error
/// where either child comes out short of filler genes.
pub open spec fn order1_pair_outcome<T>(
    p1: Seq<T>,
    p2: Seq<T>,
    start: int,
    end: int,
    r: Result<Vec<Vec<T>>, CrossoverError>,
) -> bool {
    let c1 = order1_child(p1, p2, start, end);
    let c2 = order1_child(p2, p1, start, end);
    if c1.len() < p1.len() || c2.len() < p1.len() {
        r == Err::<Vec<Vec<T>>, CrossoverError>(CrossoverError::NotEnoughGenes)
    } else {
        r matches Ok(c) && genes_of(c@) == seq![c1, c2]
    }
}

impl Order1 {
    /// Order-1 crossover with a swath drawn anew for each crossover.
    pub fn new() -> (r: Self)
        ensures
            r.preset_split is None,
    {
        Order1 { preset_split: None }
    }

    /// Order-1 crossover that always uses the swath `range`, which must not be empty.
    pub fn with_preset_split(range: std::ops::Range<usize>) -> (r: Self)
        requires
            range.start < range.end,
        ensures
            r.preset_split == Some((range.start, range.end)),
    {
        Order1 { preset_split: Some((range.start, range.end)) }
    }
}

/// One order-1 child: `parent1`'s swath `split` in place, the other places filled in order
/// with `parent2`'s genes outside the swath.
pub fn order1<T: Copy + PartialEq>(parent1: &Vec<T>, parent2: &Vec<T>, split: (usize, usize)) -> (r:
    Vec<T>)
    requires
        split.0 <= split.1 <= parent1@.len(),
    ensures
        lawful_eq::<T>() ==> r@ == order1_child(
            parent1@,
            parent2@,
            split.0 as int,
            split.1 as int,
        ),
{
    let (start, end) = split;
    let swath = slice_of(parent1, start, end);
    let ghost pred = |g: T| !swath@.contains(g);
    let mut rest: Vec<T> = Vec::with_capacity(parent2.len());
    let mut k: usize = 0;
    while k < parent2.len()
        invariant
            k <= parent2@.len(),
            swath@ == parent1@.subrange(start as int, end as int),
            pred == (|g: T| !swath@.contains(g)),
            lawful_eq::<T>() ==> rest@ == parent2@.subrange(0, k as int).filter(pred),
        decreases parent2@.len() - k,
    {
        if !contains(&swath, &parent2[k]) {
            rest.push(parent2[k]);
        }
        proof {
            let s = parent2@.subrange(0, k + 1);
            assert(s.drop_last() =~= parent2@.subrange(0, k as int));
            reveal(Seq::filter);
        }
        k = k + 1;
    }
    assert(parent2@.subrange(0, parent2@.len() as int) =~= parent2@);
    let head = if start <= rest.len() {
        start
    } else {
        rest.len()
    };
    let mut child: Vec<T> = Vec::with_capacity(parent1.len());
    extend_from(&mut child, &rest, 0, head);
    extend_from(&mut child, &swath, 0, swath.len());
    extend_from(&mut child, &rest, head, rest.len());
    proof {
        assert(swath@.subrange(0, swath@.len() as int) =~= swath@);
    }
    child
}

impl<T: Copy + PartialEq> Crossover<T> for Order1 {
    open spec fn arity(&self) -> nat {
        2
    }

    open spec fn brood(&self) -> nat {
        2
    }

    open spec fn crossed(&self, parents: Seq<Vec<T>>, r: Result<Vec<Vec<T>>, CrossoverError>) -> bool {
        &&& r matches Ok(c) ==> c.len() == 2
        &&& lawful_eq::<T>() ==> order1_outcome(self.preset_split, parents, r)
    }

    open spec fn accepts(&self, parents: Seq<Vec<T>>) -> bool {
        &&& parents.len() >= 2
        &&& parents[0]@.len() == parents[1]@.len()
        &&& lawful_eq::<T>() ==> permutation_pair(parents[0]@, parents[1]@)
        &&& match self.preset_split {
            Some(split) => split.0 < split.1 <= parents[0]@.len(),
            None => parents[0]@.len() >= 2,
        }
    }

    open spec fn exact_checks(&self) -> bool {
        lawful_eq::<T>()
    }

    fn check_parents(&self, parents: &Vec<Vec<T>>) -> (r: Result<(), CrossoverError>) {
        if parents.len() < 2 {
            return Err(CrossoverError::ParentCount);
        }
        let length = parents[0].len();
        if length != parents[1].len() {
            return Err(CrossoverError::LengthMismatch);
        }
        if !all_distinct(&parents[0]) || !all_distinct(&parents[1]) {
            return Err(CrossoverError::DuplicateGenes);
        }
        if !is_permutation_pair(&parents[0], &parents[1]) {
            return Err(CrossoverError::GeneSetMismatch);
        }
        match self.preset_split {
            Some(split) => {
                if !(split.0 < split.1 && split.1 <= length) {
                    return Err(CrossoverError::SplitOutOfRange);
                }
            },
            None => {
                if length < 2 {
                    return Err(CrossoverError::TooShort);
                }
            },
        }
        Ok(())
    }

    fn parents(&self) -> usize {
        2
    }

    fn children(&self) -> usize {
        2
    }

    fn cross(&self, parents: &Vec<Vec<T>>) -> (r: Result<Vec<Vec<T>>, CrossoverError>)
    {
        if parents.len() < 2 {
            return Err(CrossoverError::ParentCount);
        }
        let parent1 = &parents[0];
        let parent2 = &parents[1];
        let length = parent1.len();
        if length != parent2.len() {
            return Err(CrossoverError::LengthMismatch);
        }
        let (start, end) = match self.preset_split {
            Some(split) => {
                if !(split.0 < split.1 && split.1 <= length) {
                    return Err(CrossoverError::SplitOutOfRange);
                }
                split
            },
            None => {
                if length < 2 {
                    return Err(CrossoverError::TooShort);
                }
                range_indexes(length)
            },
        };
        let child1 = order1(parent1, parent2, (start, end));
        let child2 = order1(parent2, parent1, (start, end));
        if child1.len() < length || child2.len() < length {
            let result = Err(CrossoverError::NotEnoughGenes);
            proof {
                if lawful_eq::<T>() {
                    assert(order1_pair_outcome(
                        parent1@,
                        parent2@,
                        start as int,
                        end as int,
                        result,
                    ));
                }
            }
            return result;
        }
        let ghost first = child1@;
        let ghost second = child2@;
        let children = vec![child1, child2];
        let result = Ok(children);
        proof {
            assert(genes_of(children@) =~= seq![first, second]);
            if lawful_eq::<T>() {
                assert(order1_pair_outcome(parent1@, parent2@, start as int, end as int, result));
            }
        }
        result
    }
}

} // verus!
