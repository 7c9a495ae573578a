use vstd::prelude::*;

use crate::mutation::{swap_genes, Mutation};
use crate::random::{happens, random_in, Ratio};

verus! {

/// Rotates the genes at three distinct random places, once per sequence when the rate gate
/// passes.
#[derive(Clone, Copy, Debug)]
pub struct Thrors;

impl Thrors {
    pub fn new() -> Self {
        Thrors
    }
}

/// `s` with the gene at `k` moved to `i`, the one at `i` to `j` and the one at `j` to `k`.
pub open spec fn rotated<T>(s: Seq<T>, i: int, j: int, k: int) -> Seq<T> {
    s.update(i, s[k]).update(j, s[i]).update(k, s[j])
}

/// Three distinct places drawn at random in `0..n`.
fn distinct_places(n: usize) -> (r: (usize, usize, usize))
    requires
        n >= 3,
    ensures
        r.0 < n && r.1 < n && r.2 < n,
        r.0 != r.1 && r.1 != r.2 && r.0 != r.2,
{
    let i = random_in(0, n);
    let mut j = random_in(0, n - 1);
    if j >= i {
        j = j + 1;
    }
    let (low, high) = if i < j {
        (i, j)
    } else {
        (j, i)
    };
    let mut k = random_in(0, n - 2);
    if k >= low {
        k = k + 1;
    }
    if k >= high {
        k = k + 1;
    }
    (i, j, k)
}

impl<T: Copy> Mutation<T> for Thrors {
    open spec fn mutated(&self, genes: Seq<T>, mutation_rate: Ratio, r: Seq<T>) -> bool {
        &&& (r.to_multiset() == genes.to_multiset())
        &&& (r == genes || exists|i: int, j: int, k: int|
                0 <= i < genes.len() && 0 <= j < genes.len() && 0 <= k < genes.len() && i
                    != j && j != k && i != k && r == rotated(genes, i, j, k))
        &&& (mutation_rate.is_always() && genes.len() >= 3 ==> exists|i: int, j: int, k: int|
                0 <= i < genes.len() && 0 <= j < genes.len() && 0 <= k < genes.len() && i
                    != j && j != k && i != k && r == rotated(genes, i, j, k))
    }

    fn mutate(&self, genes: Vec<T>, mutation_rate: Ratio) -> (r: Vec<T>)
    {
        let mut genes = genes;
        if genes.len() >= 3 && happens(mutation_rate) {
            let ghost s = genes@;
            let (i, j, k) = distinct_places(genes.len());
            swap_genes(&mut genes, i, j);
            swap_genes(&mut genes, i, k);
            assert(genes@ =~= rotated(s, i as int, j as int, k as int));
        }
        genes
    }
}

} // verus!
