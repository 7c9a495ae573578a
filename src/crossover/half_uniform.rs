use vstd::prelude::*;

use crate::crossover::{genes_of, Crossover, CrossoverError};
use crate::random::shuffle;
use crate::utility::{copied, lawful_eq, same};

verus! {

/// Half-uniform crossover: the children trade exactly half (rounded down) of the genes at
/// which the parents differ, chosen at random.
#[derive(Clone, Copy, Debug)]
pub struct HalfUniform;

impl HalfUniform {
    pub fn new() -> Self {
        HalfUniform
    }
}

/// The children of `p1` and `p2` that trade genes exactly at the places `swaps`.
pub open spec fn traded_at<T>(p1: Seq<T>, p2: Seq<T>, swaps: Seq<usize>) -> Seq<Seq<T>> {
    seq![
        Seq::new(p1.len(), |i: int| if swaps.contains(i as usize) { p2[i] } else { p1[i] }),
        Seq::new(p2.len(), |i: int| if swaps.contains(i as usize) { p1[i] } else { p2[i] }),
    ]
}

/// The number of places at which `p1` and `p2` differ.
pub open spec fn difference_count<T>(p1: Seq<T>, p2: Seq<T>) -> nat
    decreases p1.len(),
{
    if p1.len() == 0 {
        0
    } else {
        difference_count(p1.drop_last(), p2) + if p1.last() != p2[p1.len() - 1] {
            1nat
        } else {
            0nat
        }
    }
}

/// A multiset without repeated elements is the multiset of any of its duplicate-free
/// orderings, and only of those.
proof fn lemma_reordering_keeps_distinct<A>(a: Seq<A>, b: Seq<A>)
    requires
        a.no_duplicates(),
        a.to_multiset() == b.to_multiset(),
    ensures
        b.no_duplicates(),
{
    a.lemma_multiset_has_no_duplicates();
    b.lemma_multiset_has_no_duplicates_conv();
}

/// The places at which `p1` and `p2` differ, in increasing order.
fn differing_places<T: Copy + PartialEq>(p1: &Vec<T>, p2: &Vec<T>) -> (r: Vec<usize>)
    requires
        p1@.len() == p2@.len(),
    ensures
        r@.no_duplicates(),
        forall|k: int| 0 <= k < r@.len() ==> r@[k] < p1@.len(),
        lawful_eq::<T>() ==> forall|i: int|
            0 <= i < p1@.len() ==> (r@.contains(i as usize) <==> p1@[i] != p2@[i]),
        lawful_eq::<T>() ==> r@.len() == difference_count(p1@, p2@),
{
    let mut r: Vec<usize> = Vec::new();
    let mut i: usize = 0;
    while i < p1.len()
        invariant
            i <= p1@.len() == p2@.len(),
            forall|k: int| 0 <= k < r@.len() ==> r@[k] < i,
            forall|a: int, b: int| 0 <= a < b < r@.len() ==> r@[a] < r@[b],
            lawful_eq::<T>() ==> forall|j: int|
                0 <= j < i ==> (r@.contains(j as usize) <==> p1@[j] != p2@[j]),
            lawful_eq::<T>() ==> r@.len() == difference_count(p1@.subrange(0, i as int), p2@),
        decreases p1@.len() - i,
    {
        let ghost before = r@;
        if !same(&p1[i], &p2[i]) {
            r.push(i);
        }
        proof {
            let s = p1@.subrange(0, i + 1);
            assert(s.drop_last() =~= p1@.subrange(0, i as int));
            if lawful_eq::<T>() {
                assert forall|j: int| 0 <= j < i + 1 implies (r@.contains(j as usize) <==> p1@[j]
                    != p2@[j]) by {
                    if r@.contains(j as usize) && j < i {
                        let k = choose|k: int| 0 <= k < r@.len() && r@[k] == j as usize;
                        if k == r@.len() - 1 && r@.len() > before.len() {
                            assert(r@[k] == i);
                        } else {
                            assert(before[k] == j as usize);
                        }
                    }
                    if j < i && before.contains(j as usize) {
                        let k = choose|k: int| 0 <= k < before.len() && before[k] == j as usize;
                        assert(r@[k] == j as usize);
                    }
                    if j == i && r@.contains(j as usize) {
                        let k = choose|k: int| 0 <= k < r@.len() && r@[k] == j as usize;
                        if !(k == r@.len() - 1 && r@.len() > before.len()) {
                            assert(before[k] < i);
                        }
                    }
                    if j == i && p1@[j] != p2@[j] {
                        assert(r@[r@.len() - 1] == i);
                    }
                }
            }
        }
        i = i + 1;
    }
    assert(p1@.subrange(0, p1@.len() as int) =~= p1@);
    r
}

impl<T: Copy + PartialEq> Crossover<T> for HalfUniform {
    open spec fn arity(&self) -> nat {
        2
    }

    open spec fn brood(&self) -> nat {
        2
    }

    open spec fn crossed(&self, parents: Seq<Vec<T>>, r: Result<Vec<Vec<T>>, CrossoverError>) -> bool {
        &&& (parents.len() < 2 ==> r == Err::<Vec<Vec<T>>, CrossoverError>(
                CrossoverError::ParentCount,
            ))
        &&& (parents.len() >= 2 && parents[0]@.len() != parents[1]@.len() ==> r == Err::<
                Vec<Vec<T>>,
                CrossoverError,
            >(CrossoverError::LengthMismatch))
        &&& (parents.len() >= 2 && parents[0]@.len() == parents[1]@.len() ==> r is Ok)
        &&& (lawful_eq::<T>() && parents.len() >= 2 && parents[0]@.len() == parents[1]@.len()
                ==> (r matches Ok(c) && exists|swaps: Seq<usize>|
                {
                    &&& swaps.no_duplicates()
                    &&& swaps.len() == difference_count(parents[0]@, parents[1]@) / 2
                    &&& forall|k: int|
                        0 <= k < swaps.len() ==> #[trigger] swaps[k] < parents[0]@.len()
                            && parents[0]@[swaps[k] as int] != parents[1]@[swaps[k] as int]
                    &&& genes_of(c@) == traded_at(parents[0]@, parents[1]@, swaps)
                }))
    }

    open spec fn accepts(&self, parents: Seq<Vec<T>>) -> bool {
        &&& parents.len() >= 2
        &&& parents[0]@.len() == parents[1]@.len()
    }

    open spec fn exact_checks(&self) -> bool {
        true
    }

    fn check_parents(&self, parents: &Vec<Vec<T>>) -> (r: Result<(), CrossoverError>) {
        if parents.len() < 2 {
            return Err(CrossoverError::ParentCount);
        }
        let length = parents[0].len();
        if length != parents[1].len() {
            return Err(CrossoverError::LengthMismatch);
        }
        Ok(())
    }

    fn parents(&self) -> usize {
        2
    }

    fn children(&self) -> usize {
        2
    }

    fn cross(&self, parents: &Vec<Vec<T>>) -> (r: Result<Vec<Vec<T>>, CrossoverError>)
    {
        if parents.len() < 2 {
            return Err(CrossoverError::ParentCount);
        }
        let parent1 = &parents[0];
        let parent2 = &parents[1];
        let length = parent1.len();
        if length != parent2.len() {
            return Err(CrossoverError::LengthMismatch);
        }
        let mut indices = differing_places(parent1, parent2);
        let ghost ordered = indices@;
        shuffle(&mut indices);
        proof {
            vstd::seq_lib::to_multiset_len(indices@);
            vstd::seq_lib::to_multiset_len(ordered);
            lemma_reordering_keeps_distinct(ordered, indices@);
            assert forall|k: int| 0 <= k < indices@.len() implies ordered.contains(
                #[trigger] indices@[k],
            ) by {
                vstd::seq_lib::to_multiset_contains(indices@, indices@[k]);
                vstd::seq_lib::to_multiset_contains(ordered, indices@[k]);
            }
        }
        let half = indices.len() / 2;
        let mut child1 = copied(parent1);
        let mut child2 = copied(parent2);
        let mut k: usize = 0;
        while k < half
            invariant
                half <= indices@.len(),
                k <= half,
                length == parent1@.len() == parent2@.len(),
                forall|j: int| 0 <= j < indices@.len() ==> #[trigger] indices@[j] < length,
                indices@.no_duplicates(),
                child1@.len() == length,
                child2@.len() == length,
                forall|i: int|
                    0 <= i < length ==> child1@[i] == if indices@.subrange(0, k as int).contains(
                        i as usize,
                    ) {
                        parent2@[i]
                    } else {
                        parent1@[i]
                    },
                forall|i: int|
                    0 <= i < length ==> child2@[i] == if indices@.subrange(0, k as int).contains(
                        i as usize,
                    ) {
                        parent1@[i]
                    } else {
                        parent2@[i]
                    },
            decreases half - k,
        {
            let place = indices[k];
            assert(place < length);
            child1.set(place, parent2[place]);
            child2.set(place, parent1[place]);
            proof {
                let before = indices@.subrange(0, k as int);
                let after = indices@.subrange(0, k + 1);
                assert(after =~= before.push(place));
                assert forall|i: int| 0 <= i < length implies #[trigger] after.contains(i as usize) == (
                before.contains(i as usize) || i == place) by {
                    if i == place {
                        assert(after[k as int] == place);
                    }
                    if before.contains(i as usize) {
                        let j = choose|j: int| 0 <= j < before.len() && before[j] == i as usize;
                        assert(after[j] == i as usize);
                    }
                }
            }
            k = k + 1;
        }
        let ghost first = child1@;
        let ghost second = child2@;
        let children = vec![child1, child2];
        proof {
            let swaps = indices@.subrange(0, half as int);
            assert(first =~= traded_at(parent1@, parent2@, swaps)[0]);
            assert(second =~= traded_at(parent1@, parent2@, swaps)[1]);
            assert(genes_of(children@) =~= traded_at(parent1@, parent2@, swaps));
            assert(swaps.no_duplicates());
            if lawful_eq::<T>() {
                assert forall|j: int| 0 <= j < swaps.len() implies #[trigger] swaps[j] < length
                    && parent1@[swaps[j] as int] != parent2@[swaps[j] as int] by {
                    assert(swaps[j] == indices@[j]);
                    assert(ordered.contains(indices@[j]));
                }
            }
        }
        Ok(children)
    }
}

} // verus!
