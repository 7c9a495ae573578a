use vstd::prelude::*;

use crate::mutation::{reverse_range, Mutation};
use crate::random::{happens, random_in, Ratio};

verus! {

/// Reverses, each on its own, the genes before a split point and the genes from it on.
#[derive(Clone, Copy, Debug)]
pub struct CentreInverse {
    pub preset_split: Option<usize>,
}

/// `s` with its two halves around `split` reversed in place.
pub open spec fn centre_inverted<T>(s: Seq<T>, split: int) -> Seq<T> {
    s.subrange(0, split).reverse() + s.subrange(split, s.len() as int).reverse()
}

impl CentreInverse {
    /// Centre inversion around a split drawn anew for each sequence.
    pub fn new() -> (r: Self)
        ensures
            r.preset_split is None,
    {
        CentreInverse { preset_split: None }
    }

    /// Centre inversion always around `split`; a sequence shorter than `split` is left as it
    /// is.
    pub fn with_preset_split(split: usize) -> (r: Self)
        ensures
            r.preset_split == Some(split),
    {
        CentreInverse { preset_split: Some(split) }
    }
}

/// Reverses `genes` before `split` and from `split` on.
pub fn centre_inverse<T: Copy>(genes: Vec<T>, split: usize) -> (r: Vec<T>)
    requires
        split <= genes@.len(),
    ensures
        r@ == centre_inverted(genes@, split as int),
        r@.to_multiset() == genes@.to_multiset(),
{
    let mut genes = genes;
    let ghost s = genes@;
    let length = genes.len();
    reverse_range(&mut genes, 0, split);
    reverse_range(&mut genes, split, length);
    assert(genes@ =~= centre_inverted(s, split as int));
    genes
}

impl<T: Copy> Mutation<T> for CentreInverse {
    open spec fn mutated(&self, genes: Seq<T>, mutation_rate: Ratio, r: Seq<T>) -> bool {
        &&& (r.to_multiset() == genes.to_multiset())
        &&& (r == genes || exists|split: int|
                0 <= split <= genes.len() && r == centre_inverted(genes, split))
        &&& (self.preset_split matches Some(split) ==> r == genes || r == centre_inverted(
                genes,
                split as int,
            ))
        &&& (mutation_rate.is_always() ==> match self.preset_split {
                Some(split) => split <= genes.len() ==> r == centre_inverted(
                    genes,
                    split as int,
                ),
                None => genes.len() > 0 ==> exists|split: int|
                    0 <= split < genes.len() && r == centre_inverted(genes, split),
            })
    }

    fn mutate(&self, genes: Vec<T>, mutation_rate: Ratio) -> (r: Vec<T>)
    {
        if !happens(mutation_rate) {
            return genes;
        }
        let split = match self.preset_split {
            Some(split) => {
                if split > genes.len() {
                    return genes;
                }
                split
            },
            None => {
                if genes.len() == 0 {
                    return genes;
                }
                random_in(0, genes.len())
            },
        };
        centre_inverse(genes, split)
    }
}

} // verus!
