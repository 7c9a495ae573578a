use vstd::prelude::*;

use crate::crossover::{genes_of, Crossover, CrossoverError};
use crate::utility::{
    all_distinct, is_permutation_of, is_permutation_pair, lawful_eq, lemma_distinct_places_bound,
    permutation_pair, permutation_pair_symmetric, position_in, same,
};

verus! {

/// Cycle crossover (CX): the places split into cycles of the two parents; the children take
/// the cycles alternately from one parent and the other.
#[derive(Clone, Copy, Debug)]
pub struct Cycle;

impl Cycle {
    pub fn new() -> Self {
        Cycle
    }
}

/// The place in `p1` of the gene `x`.
pub open spec fn place_in<T>(p1: Seq<T>, x: T) -> int {
    choose|j: int| 0 <= j < p1.len() && p1[j] == x
}

/// The place that follows `j` in its cycle: where `p1` holds the gene that `p2` has at `j`.
pub open spec fn successor<T>(p1: Seq<T>, p2: Seq<T>, j: int) -> int {
    place_in(p1, p2[j])
}

/// `c` is one cycle of `p1` and `p2`: distinct places, each followed by the next, the last by
/// the first.
pub open spec fn is_cycle<T>(p1: Seq<T>, p2: Seq<T>, c: Seq<usize>) -> bool {
    &&& c.len() > 0
    &&& c.no_duplicates()
    &&& forall|t: int| 0 <= t < c.len() ==> (#[trigger] c[t]) < p1.len()
    &&& forall|t: int| 0 < t < c.len() ==> (#[trigger] c[t]) == successor(p1, p2, c[t - 1] as int)
    &&& c[0] == successor(p1, p2, c.last() as int)
}

/// `cycles` are all the cycles of `p1` and `p2`, each starting at its smallest place, in
/// increasing order of those places; every place belongs to exactly one.
pub open spec fn cycle_decomposition<T>(p1: Seq<T>, p2: Seq<T>, cycles: Seq<Seq<usize>>) -> bool {
    &&& forall|k: int| 0 <= k < cycles.len() ==> is_cycle(p1, p2, #[trigger] cycles[k])
    &&& forall|k: int, t: int|
        0 <= k < cycles.len() && 0 <= t < cycles[k].len() ==> cycles[k][0] <= #[trigger] cycles[k][t]
    &&& forall|a: int, b: int| 0 <= a < b < cycles.len() ==> #[trigger] cycles[a][0] < #[trigger] cycles[b][0]
    &&& forall|j: int| 0 <= j < p1.len() ==> #[trigger] in_some_cycle(cycles, j)
    &&& forall|a: int, b: int, x: usize|
        0 <= a < cycles.len() && 0 <= b < cycles.len() && #[trigger] cycles[a].contains(x) && #[trigger] cycles[b].contains(x) ==> a == b
}

/// Some cycle of `cycles` holds the place `j`.
pub open spec fn in_some_cycle(cycles: Seq<Seq<usize>>, j: int) -> bool {
    exists|k: int| 0 <= k < cycles.len() && cycles[k].contains(j as usize)
}

/// The number of the cycle that holds the place `j`.
pub open spec fn cycle_of(cycles: Seq<Seq<usize>>, j: int) -> int {
    choose|k: int| 0 <= k < cycles.len() && cycles[k].contains(j as usize)
}

/// The child that takes the even-numbered cycles from `p1` and the others from `p2`.
pub open spec fn cycle_child<T>(p1: Seq<T>, p2: Seq<T>, cycles: Seq<Seq<usize>>) -> Seq<T> {
    Seq::new(
        p1.len(),
        |j: int|
            if cycle_of(cycles, j) % 2 == 0 {
                p1[j]
            } else {
                p2[j]
            },
    )
}

/// The outcome of cycle crossover on `parents`.
pub open spec fn cycle_outcome<T>(parents: Seq<Vec<T>>, r: Result<Vec<Vec<T>>, CrossoverError>) -> bool {
    if parents.len() < 2 {
        r == Err::<Vec<Vec<T>>, CrossoverError>(CrossoverError::ParentCount)
    } else {
        let p1 = parents[0]@;
        let p2 = parents[1]@;
        if p1.len() != p2.len() {
            r == Err::<Vec<Vec<T>>, CrossoverError>(CrossoverError::LengthMismatch)
        } else if !(p1.no_duplicates() && p2.no_duplicates()) {
            r == Err::<Vec<Vec<T>>, CrossoverError>(CrossoverError::DuplicateGenes)
        } else if !permutation_pair(p1, p2) {
            r == Err::<Vec<Vec<T>>, CrossoverError>(CrossoverError::GeneSetMismatch)
        } else {
            r matches Ok(c) && exists|cycles: Seq<Seq<usize>>|
                cycle_decomposition(p1, p2, cycles) && genes_of(c@) == seq![
                    cycle_child(p1, p2, cycles),
                    cycle_child(p2, p1, cycles),
                ]
        }
    }
}

proof fn lemma_successor<T>(p1: Seq<T>, p2: Seq<T>, j: int)
    requires
        permutation_pair(p1, p2),
        0 <= j < p1.len(),
    ensures
        0 <= successor(p1, p2, j) < p1.len(),
        p1[successor(p1, p2, j)] == p2[j],
{
    permutation_pair_symmetric(p1, p2);
    assert(p1.contains(p2[j]));
}

proof fn lemma_successor_injective<T>(p1: Seq<T>, p2: Seq<T>, a: int, b: int)
    requires
        permutation_pair(p1, p2),
        0 <= a < p1.len(),
        0 <= b < p1.len(),
        successor(p1, p2, a) == successor(p1, p2, b),
    ensures
        a == b,
{
    lemma_successor(p1, p2, a);
    lemma_successor(p1, p2, b);
}

/// Within a cycle, every place that leads into it belongs to it.
proof fn lemma_cycle_preimage<T>(p1: Seq<T>, p2: Seq<T>, c: Seq<usize>, x: int)
    requires
        permutation_pair(p1, p2),
        is_cycle(p1, p2, c),
        p1.len() <= usize::MAX,
        0 <= x < p1.len(),
        c.contains(successor(p1, p2, x) as usize),
    ensures
        c.contains(x as usize),
{
    lemma_successor(p1, p2, x);
    let t = choose|t: int| 0 <= t < c.len() && c[t] == successor(p1, p2, x) as usize;
    assert(c[t] as int == successor(p1, p2, x));
    if t > 0 {
        assert(c[t] as int == successor(p1, p2, c[t - 1] as int));
        lemma_successor_injective(p1, p2, x, c[t - 1] as int);
        assert(c[t - 1] == x as usize);
    } else {
        lemma_successor_injective(p1, p2, x, c.last() as int);
        assert(c[c.len() - 1] == x as usize);
    }
}

/// A cycle that meets another one holds its first place.
proof fn lemma_cycles_meet<T>(p1: Seq<T>, p2: Seq<T>, c: Seq<usize>, d: Seq<usize>, t: int)
    requires
        permutation_pair(p1, p2),
        is_cycle(p1, p2, c),
        is_cycle(p1, p2, d),
        p1.len() <= usize::MAX,
        0 <= t < d.len(),
        c.contains(d[t]),
    ensures
        c.contains(d[0]),
    decreases t,
{
    if t > 0 {
        assert(d[t] == successor(p1, p2, d[t - 1] as int));
        lemma_cycle_preimage(p1, p2, c, d[t - 1] as int);
        lemma_cycles_meet(p1, p2, c, d, t - 1);
    }
}

/// The cycle of `parent1` and `parent2` that starts at the place `start`.
pub fn find_cycle<T: PartialEq>(start: usize, parent1: &Vec<T>, parent2: &Vec<T>) -> (r: Vec<usize>)
    requires
        start < parent1@.len(),
        parent1@.len() == parent2@.len(),
    ensures
        r@.len() > 0,
        r@[0] == start,
        forall|t: int| 0 <= t < r@.len() ==> (#[trigger] r@[t]) < parent1@.len(),
        lawful_eq::<T>() && permutation_pair(parent1@, parent2@) ==> is_cycle(
            parent1@,
            parent2@,
            r@,
        ),
{
    let ghost valid = lawful_eq::<T>() && permutation_pair(parent1@, parent2@);
    let ghost p1 = parent1@;
    let ghost p2 = parent2@;
    let length = parent1.len();
    let mut cycle: Vec<usize> = Vec::new();
    cycle.push(start);
    let mut current: &T = &parent2[start];
    let mut closed = same(current, &parent1[start]);
    while !closed && cycle.len() < length
        invariant
            length == p1.len() == p2.len(),
            p1 == parent1@,
            p2 == parent2@,
            start < length,
            valid == (lawful_eq::<T>() && permutation_pair(p1, p2)),
            1 <= cycle@.len() <= length,
            cycle@[0] == start,
            forall|t: int| 0 <= t < cycle@.len() ==> (#[trigger] cycle@[t]) < length,
            valid ==> cycle@.no_duplicates(),
            valid ==> forall|t: int|
                0 < t < cycle@.len() ==> (#[trigger] cycle@[t]) == successor(
                    p1,
                    p2,
                    cycle@[t - 1] as int,
                ),
            valid ==> *current == p2[cycle@.last() as int],
            valid ==> closed == (*current == p1[start as int]),
        decreases length - cycle@.len() + if closed {
            0int
        } else {
            1int
        },
    {
        match position_in(parent1, current, 0, length) {
            Some(upper) => {
                proof {
                    if valid {
                        let last = cycle@.last() as int;
                        lemma_successor(p1, p2, last);
                        assert(upper as int == successor(p1, p2, last));
                        assert forall|m: int| 0 <= m < cycle@.len() implies cycle@[m] != upper by {
                            if m == 0 {
                                assert(p1[upper as int] == *current);
                            } else {
                                if cycle@[m] == upper {
                                    lemma_successor_injective(
                                        p1,
                                        p2,
                                        cycle@[m - 1] as int,
                                        last,
                                    );
                                    assert(cycle@[m - 1] == cycle@[cycle@.len() - 1]);
                                }
                            }
                        }
                    }
                }
                let ghost before = cycle@;
                cycle.push(upper);
                proof {
                    if valid {
                        assert forall|a: int, b: int|
                            0 <= a < cycle@.len() && 0 <= b < cycle@.len() && a != b implies cycle@[a]
                            != cycle@[b] by {
                            if a < before.len() && b < before.len() {
                                assert(before[a] != before[b]);
                            }
                        }
                        lemma_distinct_places_bound(cycle@, length as nat);
                    }
                }
                current = &parent2[upper];
                closed = same(current, &parent1[start]);
            },
            None => {
                proof {
                    if valid {
                        let last = cycle@.last() as int;
                        lemma_successor(p1, p2, last);
                        assert(p1[successor(p1, p2, last)] == *current);
                    }
                }
                closed = true;
            },
        }
    }
    proof {
        if valid {
            let last = cycle@.last() as int;
            lemma_successor(p1, p2, last);
            if !closed {
                let u = successor(p1, p2, last);
                assert forall|m: int| 0 <= m < cycle@.len() implies cycle@[m] != u as usize by {
                    if m == 0 {
                        assert(p1[u] == *current);
                    } else if cycle@[m] == u as usize {
                        lemma_successor_injective(p1, p2, cycle@[m - 1] as int, last);
                        assert(cycle@[m - 1] == cycle@[cycle@.len() - 1]);
                    }
                }
                let longer = cycle@.push(u as usize);
                assert forall|a: int, b: int|
                    0 <= a < longer.len() && 0 <= b < longer.len() && a != b implies longer[a]
                    != longer[b] by {
                    if a < cycle@.len() && b < cycle@.len() {
                        assert(cycle@[a] != cycle@[b]);
                    }
                }
                lemma_distinct_places_bound(longer, length as nat);
            }
            assert(p1[start as int] == p2[last]);
            assert(successor(p1, p2, last) == start as int);
        }
    }
    cycle
}

/// All the cycles of `parent1` and `parent2`, each from its smallest place, in increasing
/// order of those places.
pub fn gather_cycles<T: PartialEq>(parent1: &Vec<T>, parent2: &Vec<T>) -> (r: Vec<Vec<usize>>)
    requires
        parent1@.len() == parent2@.len(),
    ensures
        forall|k: int, t: int|
            0 <= k < r@.len() && 0 <= t < r@[k]@.len() ==> #[trigger] r@[k]@[t] < parent1@.len(),
        lawful_eq::<T>() && permutation_pair(parent1@, parent2@) ==> cycle_decomposition(
            parent1@,
            parent2@,
            genes_of(r@),
        ),
{
    let ghost valid = lawful_eq::<T>() && permutation_pair(parent1@, parent2@);
    let ghost p1 = parent1@;
    let ghost p2 = parent2@;
    let length = parent1.len();
    let mut visit: Vec<bool> = Vec::with_capacity(length);
    while visit.len() < length
        invariant
            visit@.len() <= length,
            forall|j: int| 0 <= j < visit@.len() ==> visit@[j],
        decreases length - visit@.len(),
    {
        visit.push(true);
    }
    let mut cycles: Vec<Vec<usize>> = Vec::new();
    let mut i: usize = 0;
    while i < length
        invariant
            length == p1.len() == p2.len(),
            p1 == parent1@,
            p2 == parent2@,
            valid == (lawful_eq::<T>() && permutation_pair(p1, p2)),
            i <= length,
            visit@.len() == length,
            forall|k: int, t: int|
                0 <= k < cycles@.len() && 0 <= t < cycles@[k]@.len() ==> #[trigger] cycles@[k]@[t]
                    < length,
            valid ==> forall|k: int| 0 <= k < cycles@.len() ==> is_cycle(p1, p2, #[trigger] cycles@[k]@),
            valid ==> forall|k: int, t: int|
                0 <= k < cycles@.len() && 0 <= t < cycles@[k]@.len() ==> cycles@[k]@[0]
                    <= #[trigger] cycles@[k]@[t],
            valid ==> forall|k: int| 0 <= k < cycles@.len() ==> #[trigger] cycles@[k]@[0] < i,
            valid ==> forall|a: int, b: int|
                0 <= a < b < cycles@.len() ==> #[trigger] cycles@[a]@[0] < #[trigger] cycles@[b]@[0],
            valid ==> forall|j: int|
                0 <= j < length ==> (!visit@[j] <==> exists|k: int|
                    0 <= k < cycles@.len() && #[trigger] cycles@[k]@.contains(j as usize)),
            valid ==> forall|j: int| 0 <= j < i ==> !(#[trigger] visit@[j]),
            valid ==> forall|a: int, b: int, x: usize|
                0 <= a < cycles@.len() && 0 <= b < cycles@.len() && #[trigger] cycles@[a]@.contains(x)
                    && #[trigger] cycles@[b]@.contains(x) ==> a == b,
        decreases length - i,
    {
        if visit[i] {
            let cycle = find_cycle(i, parent1, parent2);
            proof {
                if valid {
                    assert forall|k: int, x: usize|
                        0 <= k < cycles@.len() && #[trigger] cycles@[k]@.contains(x) implies !cycle@.contains(x) by {
                        if cycle@.contains(x) {
                            let t = choose|t: int| 0 <= t < cycle@.len() && cycle@[t] == x;
                            lemma_cycles_meet(p1, p2, cycles@[k]@, cycle@, t);
                            assert(cycles@[k]@.contains((i as int) as usize));
                            assert(!visit@[i as int]);
                        }
                    }
                    assert forall|t: int| 0 <= t < cycle@.len() implies i <= #[trigger] cycle@[t] by {
                        if cycle@[t] < i {
                            let j = cycle@[t] as int;
                            assert(!visit@[j]);
                            let k = choose|k: int|
                                0 <= k < cycles@.len() && #[trigger] cycles@[k]@.contains(j as usize);
                            assert(cycle@.contains(j as usize));
                        }
                    }
                }
            }
            let ghost before_visit = visit@;
            let mut t: usize = 0;
            while t < cycle.len()
                invariant
                    visit@.len() == length,
                    forall|s: int| 0 <= s < cycle@.len() ==> (#[trigger] cycle@[s]) < length,
                    t <= cycle@.len(),
                    forall|j: int|
                        0 <= j < length ==> (!(#[trigger] visit@[j]) <==> (!before_visit[j]
                            || cycle@.subrange(0, t as int).contains(j as usize))),
                    before_visit.len() == length,
                decreases cycle@.len() - t,
            {
                visit.set(cycle[t], false);
                t = t + 1;
                proof {
                    let done = cycle@.subrange(0, t as int);
                    assert forall|j: int| 0 <= j < length implies #[trigger] done.contains(j as usize)
                        == (cycle@.subrange(0, t - 1).contains(j as usize) || j == cycle@[t - 1]) by {
                        if done.contains(j as usize) {
                            let s = choose|s: int| 0 <= s < done.len() && done[s] == j as usize;
                            if s < t - 1 {
                                assert(cycle@.subrange(0, t - 1)[s] == j as usize);
                            }
                        }
                        if cycle@.subrange(0, t - 1).contains(j as usize) {
                            let prefix = cycle@.subrange(0, t - 1);
                            let s = choose|s: int| 0 <= s < prefix.len() && prefix[s] == j as usize;
                            assert(done[s] == j as usize);
                        }
                        if j == cycle@[t - 1] {
                            assert(done[t - 1] == j as usize);
                        }
                    }
                }
            }
            proof {
                assert(cycle@.subrange(0, cycle@.len() as int) =~= cycle@);
            }
            let ghost old_cycles = cycles@;
            cycles.push(cycle);
            proof {
                assert forall|k: int| 0 <= k < old_cycles.len() implies cycles@[k] == old_cycles[k] by {}
                assert(cycles@[cycles@.len() - 1]@ == cycle@);
            }
        }
        i = i + 1;
    }
    let r = cycles;
    proof {
        if valid {
            let cs = genes_of(r@);
            assert forall|k: int| 0 <= k < cs.len() implies cs[k] == r@[k]@ by {}
            assert forall|j: int| 0 <= j < p1.len() implies #[trigger] in_some_cycle(cs, j) by {
                assert(!visit@[j]);
                let k = choose|k: int| 0 <= k < r@.len() && #[trigger] r@[k]@.contains(j as usize);
                assert(cs[k].contains(j as usize));
            }
        }
    }
    r
}

} // verus!

verus! {

impl<T: Copy + PartialEq> Crossover<T> for Cycle {
    open spec fn arity(&self) -> nat {
        2
    }

    open spec fn brood(&self) -> nat {
        2
    }

    open spec fn crossed(&self, parents: Seq<Vec<T>>, r: Result<Vec<Vec<T>>, CrossoverError>) -> bool {
        &&& r matches Ok(c) ==> c.len() == 2
        &&& lawful_eq::<T>() ==> cycle_outcome(parents, r)
    }

    open spec fn accepts(&self, parents: Seq<Vec<T>>) -> bool {
        &&& parents.len() >= 2
        &&& parents[0]@.len() == parents[1]@.len()
        &&& lawful_eq::<T>() ==> permutation_pair(parents[0]@, parents[1]@)
    }

    open spec fn exact_checks(&self) -> bool {
        lawful_eq::<T>()
    }

    fn check_parents(&self, parents: &Vec<Vec<T>>) -> (r: Result<(), CrossoverError>) {
        if parents.len() < 2 {
            return Err(CrossoverError::ParentCount);
        }
        let length = parents[0].len();
        if length != parents[1].len() {
            return Err(CrossoverError::LengthMismatch);
        }
        if !all_distinct(&parents[0]) || !all_distinct(&parents[1]) {
            return Err(CrossoverError::DuplicateGenes);
        }
        if !is_permutation_pair(&parents[0], &parents[1]) {
            return Err(CrossoverError::GeneSetMismatch);
        }
        Ok(())
    }

    fn parents(&self) -> usize {
        2
    }

    fn children(&self) -> usize {
        2
    }

    fn cross(&self, parents: &Vec<Vec<T>>) -> (r: Result<Vec<Vec<T>>, CrossoverError>)
    {
        if parents.len() < 2 {
            return Err(CrossoverError::ParentCount);
        }
        let parent1 = &parents[0];
        let parent2 = &parents[1];
        let length = parent1.len();
        if length != parent2.len() {
            return Err(CrossoverError::LengthMismatch);
        }
        if !all_distinct(parent1) || !all_distinct(parent2) {
            return Err(CrossoverError::DuplicateGenes);
        }
        if !is_permutation_pair(parent1, parent2) {
            return Err(CrossoverError::GeneSetMismatch);
        }
        let ghost valid = lawful_eq::<T>() && permutation_pair(parent1@, parent2@);
        let cycles = gather_cycles(parent1, parent2);
        let ghost cs = genes_of(cycles@);
        let mut owner: Vec<usize> = Vec::with_capacity(length);
        while owner.len() < length
            invariant
                owner@.len() <= length,
                forall|j: int| 0 <= j < owner@.len() ==> owner@[j] == usize::MAX,
            decreases length - owner@.len(),
        {
            owner.push(usize::MAX);
        }
        let mut k: usize = 0;
        while k < cycles.len()
            invariant
                owner@.len() == length,
                k <= cycles@.len(),
                cs == genes_of(cycles@),
                forall|a: int, t: int|
                    0 <= a < cycles@.len() && 0 <= t < cycles@[a]@.len() ==> #[trigger] cycles@[a]@[t]
                        < length,
                forall|j: int|
                    0 <= j < length && owner@[j] != usize::MAX ==> owner@[j] < cycles@.len()
                        && cs[owner@[j] as int].contains(j as usize),
                forall|a: int, t: int|
                    0 <= a < k && 0 <= t < cs[a].len() ==> owner@[#[trigger] cs[a][t] as int]
                        != usize::MAX,
            decreases cycles@.len() - k,
        {
            let cycle = &cycles[k];
            let mut t: usize = 0;
            while t < cycle.len()
                invariant
                    owner@.len() == length,
                    k < cycles@.len() <= usize::MAX,
                    cycle == cycles@[k as int],
                    cs == genes_of(cycles@),
                    forall|a: int, s: int|
                        0 <= a < cycles@.len() && 0 <= s < cycles@[a]@.len() ==> #[trigger] cycles@[a]@[s]
                            < length,
                    t <= cycle@.len(),
                    forall|j: int|
                        0 <= j < length && owner@[j] != usize::MAX ==> owner@[j] < cycles@.len()
                            && cs[owner@[j] as int].contains(j as usize),
                    forall|a: int, s: int|
                        0 <= a < k && 0 <= s < cs[a].len() ==> owner@[#[trigger] cs[a][s] as int]
                            != usize::MAX,
                    forall|s: int| 0 <= s < t ==> owner@[#[trigger] cs[k as int][s] as int] != usize::MAX,
                decreases cycle@.len() - t,
            {
                let place = cycle[t];
                proof {
                    assert(cycles@[k as int]@[t as int] < length);
                    assert(cs[k as int][t as int] == place);
                    assert(cs[k as int].contains(place));
                }
                owner.set(place, k);
                proof {
                    assert(owner@[place as int] == k);
                    assert(k != usize::MAX);
                }
                t = t + 1;
            }
            k = k + 1;
        }
        let mut child1: Vec<T> = Vec::with_capacity(length);
        let mut child2: Vec<T> = Vec::with_capacity(length);
        let mut j: usize = 0;
        while j < length
            invariant
                j <= length == parent1@.len() == parent2@.len(),
                owner@.len() == length,
                child1@.len() == j,
                child2@.len() == j,
                forall|i: int|
                    0 <= i < j ==> child1@[i] == if owner@[i] % 2 == 0 {
                        parent1@[i]
                    } else {
                        parent2@[i]
                    },
                forall|i: int|
                    0 <= i < j ==> child2@[i] == if owner@[i] % 2 == 0 {
                        parent2@[i]
                    } else {
                        parent1@[i]
                    },
            decreases length - j,
        {
            if owner[j] % 2 == 0 {
                child1.push(parent1[j]);
                child2.push(parent2[j]);
            } else {
                child1.push(parent2[j]);
                child2.push(parent1[j]);
            }
            j = j + 1;
        }
        proof {
            if valid {
                assert forall|i: int| 0 <= i < length implies owner@[i] as int == cycle_of(cs, i) by {
                    assert(in_some_cycle(cs, i));
                    let a = choose|a: int| 0 <= a < cs.len() && cs[a].contains(i as usize);
                    let s = choose|s: int| 0 <= s < cs[a].len() && cs[a][s] == i as usize;
                    assert(owner@[cs[a][s] as int] != usize::MAX);
                    let b = cycle_of(cs, i);
                    assert(cs[b].contains(i as usize));
                    assert(cs[owner@[i] as int].contains(i as usize));
                }
                assert(child1@ =~= cycle_child(parent1@, parent2@, cs));
                assert(child2@ =~= cycle_child(parent2@, parent1@, cs));
            }
        }
        let ghost first = child1@;
        let ghost second = child2@;
        let children = vec![child1, child2];
        proof {
            assert(genes_of(children@) =~= seq![first, second]);
        }
        Ok(children)
    }
}

/// The cycle that holds a place also holds the place that follows it.
proof fn lemma_successor_in_cycle<T>(p1: Seq<T>, p2: Seq<T>, c: Seq<usize>, x: usize)
    requires
        is_cycle(p1, p2, c),
        c.contains(x),
    ensures
        c.contains(successor(p1, p2, x as int) as usize),
{
    let t = choose|t: int| 0 <= t < c.len() && c[t] == x;
    if t + 1 < c.len() {
        assert(c[t + 1] == successor(p1, p2, c[t] as int));
        assert(c.contains(c[t + 1]));
    } else {
        assert(c[0] == successor(p1, p2, c.last() as int));
        assert(c.contains(c[0]));
    }
}

/// Over a cycle decomposition of two permutation parents, the child that takes the
/// even-numbered cycles from `p1` and the others from `p2` holds each gene of `p1` once.
proof fn lemma_cycle_child_permutation<T>(p1: Seq<T>, p2: Seq<T>, cycles: Seq<Seq<usize>>, c: Seq<T>, flip: bool)
    requires
        permutation_pair(p1, p2),
        p1.len() <= usize::MAX,
        cycle_decomposition(p1, p2, cycles),
        c.len() == p1.len(),
        forall|j: int|
            0 <= j < p1.len() ==> #[trigger] c[j] == if (cycle_of(cycles, j) % 2 == 0) != flip {
                p1[j]
            } else {
                p2[j]
            },
    ensures
        is_permutation_of(c, p1),
{
    permutation_pair_symmetric(p1, p2);
    assert forall|a: int, b: int| 0 <= a < c.len() && 0 <= b < c.len() && a != b implies c[a] != c[b] by {
        let ka = cycle_of(cycles, a);
        let kb = cycle_of(cycles, b);
        assert(in_some_cycle(cycles, a));
        assert(in_some_cycle(cycles, b));
        let from1a = (ka % 2 == 0) != flip;
        let from1b = (kb % 2 == 0) != flip;
        if c[a] == c[b] {
            if from1a && !from1b {
                lemma_successor(p1, p2, b);
                assert(successor(p1, p2, b) == a);
                lemma_successor_in_cycle(p1, p2, cycles[kb], b as usize);
                assert(cycles[kb].contains(a as usize));
            } else if !from1a && from1b {
                lemma_successor(p1, p2, a);
                assert(successor(p1, p2, a) == b);
                lemma_successor_in_cycle(p1, p2, cycles[ka], a as usize);
                assert(cycles[ka].contains(b as usize));
            }
        }
    }
    assert forall|j: int| 0 <= j < c.len() implies p1.contains(#[trigger] c[j]) by {
        if c[j] != p1[j] {
            assert(p1.contains(p2[j]));
        }
    }
    crate::utility::lemma_distinct_within_is_permutation(c, p1);
}

/// For duplicate-free parents of one length that hold the same genes, cycle crossover
/// succeeds and each of its two children is a reordering of those genes.
pub proof fn lemma_cycle_children_are_permutations<T: PartialEq>(
    parents: Seq<Vec<T>>,
    r: Result<Vec<Vec<T>>, CrossoverError>,
)
    requires
        lawful_eq::<T>(),
        parents.len() >= 2,
        parents[0]@.len() <= usize::MAX,
        permutation_pair(parents[0]@, parents[1]@),
        cycle_outcome(parents, r),
    ensures
        r matches Ok(c) && c.len() == 2 && is_permutation_of(c[0]@, parents[0]@)
            && is_permutation_of(c[1]@, parents[0]@),
{
    let p1 = parents[0]@;
    let p2 = parents[1]@;
    let c = r->Ok_0;
    let cycles = choose|cycles: Seq<Seq<usize>>|
        cycle_decomposition(p1, p2, cycles) && genes_of(c@) == seq![
            cycle_child(p1, p2, cycles),
            cycle_child(p2, p1, cycles),
        ];
    assert(genes_of(c@).len() == 2);
    assert(c@.len() == 2);
    assert(genes_of(c@)[0] == c@[0]@);
    assert(genes_of(c@)[1] == c@[1]@);
    lemma_cycle_child_permutation(p1, p2, cycles, c@[0]@, false);
    lemma_cycle_child_permutation(p1, p2, cycles, c@[1]@, true);
}

} // verus!
