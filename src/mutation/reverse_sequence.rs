use vstd::prelude::*;

use crate::mutation::{reverse_range, reversed_range, Mutation};
use crate::random::{happens, random_in, Ratio};

verus! {

/// Reverses the genes of one sub-range.
#[derive(Clone, Copy, Debug)]
pub struct ReverseSequence {
    pub preset_split: Option<(usize, usize)>,
}

impl ReverseSequence {
    /// Reverses a sub-range drawn anew for each sequence.
    pub fn new() -> (r: Self)
        ensures
            r.preset_split is None,
    {
        ReverseSequence { preset_split: None }
    }

    /// Always reverses the sub-range `range`, which must not be empty; a sequence that ends
    /// before the range does is left as it is.
    pub fn with_preset_split(range: std::ops::Range<usize>) -> (r: Self)
        requires
            range.start < range.end,
        ensures
            r.preset_split == Some((range.start, range.end)),
    {
        ReverseSequence { preset_split: Some((range.start, range.end)) }
    }
}

impl<T: Copy> Mutation<T> for ReverseSequence {
    open spec fn mutated(&self, genes: Seq<T>, mutation_rate: Ratio, r: Seq<T>) -> bool {
        &&& (r.to_multiset() == genes.to_multiset())
        &&& (r == genes || exists|from: int, to: int|
                0 <= from < to <= genes.len() && r == reversed_range(genes, from, to))
        &&& (self.preset_split matches Some(split) ==> r == genes || r == reversed_range(
                genes,
                split.0 as int,
                split.1 as int,
            ))
        &&& (mutation_rate.is_always() ==> match self.preset_split {
                Some(split) => split.0 < split.1 <= genes.len() ==> r == reversed_range(
                    genes,
                    split.0 as int,
                    split.1 as int,
                ),
                None => genes.len() >= 2 ==> exists|from: int, to: int|
                    0 <= from < to <= genes.len() && r == reversed_range(genes, from, to),
            })
    }

    fn mutate(&self, genes: Vec<T>, mutation_rate: Ratio) -> (r: Vec<T>)
    {
        let mut genes = genes;
        if !happens(mutation_rate) {
            return genes;
        }
        let length = genes.len();
        let (from, to) = match self.preset_split {
            Some(split) => {
                if !(split.0 < split.1 && split.1 <= length) {
                    return genes;
                }
                split
            },
            None => {
                if length < 2 {
                    return genes;
                }
                let from = random_in(0, length - 1);
                let to = random_in(from, length) + 1;
                (from, to)
            },
        };
        reverse_range(&mut genes, from, to);
        genes
    }
}

} // verus!
