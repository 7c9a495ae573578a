use vstd::prelude::*;

use crate::mutation::{swap_genes, swapped, Mutation};
use crate::random::{happens, random_in, Ratio};

verus! {

/// Each of the first `n` genes, gated by the rate on its own, trades places with one of the
/// first `n` drawn at random; on a shorter sequence, `n` is its length.
#[derive(Clone, Copy, Debug)]
pub struct PartialShuffle {
    pub n: usize,
}

impl PartialShuffle {
    pub fn new(n: usize) -> (r: Self)
        ensures
            r.n == n,
    {
        PartialShuffle { n }
    }
}

/// `genes` after, for each place `i` below `swaps.len()` in turn, an exchange of the genes at
/// `i` and at `swaps[i]` where `swaps[i]` names a place.
pub open spec fn swaps_applied<T>(genes: Seq<T>, swaps: Seq<Option<usize>>) -> Seq<T>
    decreases swaps.len(),
{
    if swaps.len() == 0 {
        genes
    } else {
        let before = swaps_applied(genes, swaps.drop_last());
        match swaps.last() {
            Some(j) => swapped(before, swaps.len() - 1, j as int),
            None => before,
        }
    }
}

/// The exchanges `swaps` are usable on `len` genes: one entry per place, each naming a place
/// among the first `swaps.len()`.
pub open spec fn swaps_fit(swaps: Seq<Option<usize>>, len: nat) -> bool {
    &&& swaps.len() <= len
    &&& forall|i: int| 0 <= i < swaps.len() ==> (#[trigger] swaps[i] matches Some(j) ==> j < swaps.len())
}

/// Applies the exchanges `swaps` to `genes`, place by place.
pub fn with_swaps<T: Copy>(genes: Vec<T>, swaps: &Vec<Option<usize>>) -> (r: Vec<T>)
    requires
        swaps_fit(swaps@, genes@.len()),
    ensures
        r@ == swaps_applied(genes@, swaps@),
        r@.len() == genes@.len(),
        r@.to_multiset() == genes@.to_multiset(),
        (forall|i: int| 0 <= i < swaps@.len() ==> #[trigger] swaps@[i] is None) ==> r@ == genes@,
{
    let mut genes = genes;
    let ghost start = genes@;
    let mut i: usize = 0;
    while i < swaps.len()
        invariant
            swaps_fit(swaps@, start.len()),
            i <= swaps@.len(),
            genes@.len() == start.len(),
            genes@ == swaps_applied(start, swaps@.subrange(0, i as int)),
            genes@.to_multiset() == start.to_multiset(),
            (forall|k: int| 0 <= k < swaps@.len() ==> #[trigger] swaps@[k] is None) ==> genes@
                == start,
        decreases swaps@.len() - i,
    {
        proof {
            assert(swaps@.subrange(0, i + 1).drop_last() =~= swaps@.subrange(0, i as int));
        }
        match swaps[i] {
            Some(j) => {
                assert(swaps@[i as int] matches Some(j) ==> j < swaps@.len());
                swap_genes(&mut genes, i, j);
            },
            None => {},
        }
        i = i + 1;
    }
    proof {
        assert(swaps@.subrange(0, swaps@.len() as int) =~= swaps@);
    }
    genes
}

impl<T: Copy> Mutation<T> for PartialShuffle {
    open spec fn mutated(&self, genes: Seq<T>, mutation_rate: Ratio, r: Seq<T>) -> bool {
        &&& (r.to_multiset() == genes.to_multiset())
        &&& (exists|swaps: Seq<Option<usize>>|
                {
                    &&& swaps.len() == if self.n < genes.len() {
                        self.n as nat
                    } else {
                        genes.len()
                    }
                    &&& swaps_fit(swaps, genes.len())
                    &&& r == swaps_applied(genes, swaps)
                    &&& mutation_rate.is_never() ==> forall|i: int|
                        0 <= i < swaps.len() ==> #[trigger] swaps[i] is None
                    &&& mutation_rate.is_always() ==> forall|i: int|
                        0 <= i < swaps.len() ==> #[trigger] swaps[i] is Some
                })
    }

    fn mutate(&self, genes: Vec<T>, mutation_rate: Ratio) -> (r: Vec<T>)
    {
        let n = if self.n < genes.len() {
            self.n
        } else {
            genes.len()
        };
        let mut swaps: Vec<Option<usize>> = Vec::with_capacity(n);
        while swaps.len() < n
            invariant
                swaps@.len() <= n,
                forall|i: int| 0 <= i < swaps@.len() ==> (#[trigger] swaps@[i] matches Some(j) ==> j < n),
                mutation_rate.is_never() ==> forall|i: int|
                    0 <= i < swaps@.len() ==> #[trigger] swaps@[i] is None,
                mutation_rate.is_always() ==> forall|i: int|
                    0 <= i < swaps@.len() ==> #[trigger] swaps@[i] is Some,
            decreases n - swaps@.len(),
        {
            if happens(mutation_rate) {
                swaps.push(Some(random_in(0, n)));
            } else {
                swaps.push(None);
            }
        }
        let ghost drawn = swaps@;
        let r = with_swaps(genes, &swaps);
        proof {
            assert(swaps_fit(drawn, genes@.len()));
        }
        r
    }
}

} // verus!
