use vstd::prelude::*;

use crate::crossover::{genes_of, Crossover, CrossoverError};
use crate::random::range_indexes;
use crate::utility::{
    all_distinct, is_permutation_of, is_permutation_pair, lawful_eq, lemma_distinct_places_bound,
    lemma_distinct_within_is_permutation, permutation_pair, permutation_pair_symmetric,
    position_in,
};

verus! {

/// Partially-mapped crossover (PMX): each child keeps a swath of one parent and takes the rest
/// from the other, remapping the genes that the swath displaced.
#[derive(Clone, Copy, Debug)]
pub struct PartiallyMapped {
    pub preset_split: Option<(usize, usize)>,
}

/// `v` stands in the swath `p1[s..e]`.
pub open spec fn in_swath<T>(p1: Seq<T>, s: int, e: int, v: T) -> bool {
    exists|j: int| s <= j < e && p1[j] == v
}

/// A place of `v` in the swath `p1[s..e]`.
pub open spec fn swath_index<T>(p1: Seq<T>, s: int, e: int, v: T) -> int {
    choose|j: int| s <= j < e && p1[j] == v
}

/// Follows the mapping of the swath from `v`: while `v` stands in `p1`'s swath, at `j`, move
/// to `p2[j]`; at most `fuel` steps.
pub open spec fn pmx_resolve<T>(p1: Seq<T>, p2: Seq<T>, s: int, e: int, v: T, fuel: nat) -> T
    decreases fuel,
{
    if fuel > 0 && in_swath(p1, s, e, v) {
        pmx_resolve(p1, p2, s, e, p2[swath_index(p1, s, e, v)], (fuel - 1) as nat)
    } else {
        v
    }
}

/// The PMX child of `p1` and `p2` with the swath `s..e`: `p1` inside the swath, and outside it
/// `p2`'s gene, remapped through the swath.
pub open spec fn pmx_child<T>(p1: Seq<T>, p2: Seq<T>, s: int, e: int) -> Seq<T> {
    Seq::new(
        p1.len(),
        |k: int|
            if s <= k < e {
                p1[k]
            } else {
                pmx_resolve(p1, p2, s, e, p2[k], (e - s) as nat)
            },
    )
}

/// The children of PMX on `p1` and `p2` with the swath `split`.
pub open spec fn pmx_children<T>(p1: Seq<T>, p2: Seq<T>, split: (usize, usize)) -> Seq<Seq<T>> {
    seq![
        pmx_child(p1, p2, split.0 as int, split.1 as int),
        pmx_child(p2, p1, split.0 as int, split.1 as int),
    ]
}

/// The swath `split` is usable on parents of length `len`.
pub open spec fn split_fits(split: (usize, usize), len: nat) -> bool {
    split.0 < split.1 <= len
}

impl PartiallyMapped {
    /// PMX with a swath drawn anew for each crossover.
    pub fn new() -> (r: Self)
        ensures
            r.preset_split is None,
    {
        PartiallyMapped { preset_split: None }
    }

    /// PMX that always uses the swath `range`, which must not be empty.
    pub fn with_preset_split(range: std::ops::Range<usize>) -> (r: Self)
        requires
            range.start < range.end,
        ensures
            r.preset_split == Some((range.start, range.end)),
    {
        PartiallyMapped { preset_split: Some((range.start, range.end)) }
    }
}

/// The outcome of PMX with the preset swath `preset` on `parents`: an error exactly for
/// unfit parents or swath, else the two children of some swath that fits, the preset one if
/// any.
pub open spec fn pmx_outcome<T>(
    preset: Option<(usize, usize)>,
    parents: Seq<Vec<T>>,
    r: Result<Vec<Vec<T>>, CrossoverError>,
) -> bool {
    if parents.len() < 2 {
        r == Err::<Vec<Vec<T>>, CrossoverError>(CrossoverError::ParentCount)
    } else {
        let p1 = parents[0]@;
        let p2 = parents[1]@;
        if p1.len() != p2.len() {
            r == Err::<Vec<Vec<T>>, CrossoverError>(CrossoverError::LengthMismatch)
        } else if !(p1.no_duplicates() && p2.no_duplicates()) {
            r == Err::<Vec<Vec<T>>, CrossoverError>(CrossoverError::DuplicateGenes)
        } else if !permutation_pair(p1, p2) {
            r == Err::<Vec<Vec<T>>, CrossoverError>(CrossoverError::GeneSetMismatch)
        } else {
            match preset {
                Some(split) => if !split_fits(split, p1.len()) {
                    r == Err::<Vec<Vec<T>>, CrossoverError>(CrossoverError::SplitOutOfRange)
                } else {
                    r matches Ok(c) && genes_of(c@) == pmx_children(p1, p2, split)
                },
                None => if p1.len() < 2 {
                    r == Err::<Vec<Vec<T>>, CrossoverError>(CrossoverError::TooShort)
                } else {
                    r matches Ok(c) && exists|split: (usize, usize)|
                        split_fits(split, p1.len()) && genes_of(c@)
                            == pmx_children(p1, p2, split)
                },
            }
        }
    }
}

/// One PMX child: `parent1`'s swath in place, the other places filled from `parent2`, each
/// gene that the swath displaced remapped to where its swath partner was.
pub fn partially_mapped<T: Copy + PartialEq>(
    parent1: &Vec<T>,
    parent2: &Vec<T>,
    split: (usize, usize),
) -> (r: Vec<T>)
    requires
        parent1.len() == parent2.len(),
        split_fits(split, parent1@.len()),
    ensures
        r@.len() == parent1@.len(),
        lawful_eq::<T>() && permutation_pair(parent1@, parent2@) ==> r@ == pmx_child(
            parent1@,
            parent2@,
            split.0 as int,
            split.1 as int,
        ),
{
    let (start, end) = split;
    let length = parent1.len();
    let ghost valid = lawful_eq::<T>() && permutation_pair(parent1@, parent2@);
    let ghost spec_child = pmx_child(parent1@, parent2@, start as int, end as int);
    let mut child: Vec<T> = Vec::with_capacity(length);
    let mut k: usize = 0;
    while k < length
        invariant
            k <= length == parent1.len() == parent2.len(),
            start < end <= length,
            valid == (lawful_eq::<T>() && permutation_pair(parent1@, parent2@)),
            spec_child == pmx_child(parent1@, parent2@, start as int, end as int),
            child@.len() == k,
            valid ==> child@ == spec_child.subrange(0, k as int),
        decreases length - k,
    {
        if start <= k && k < end {
            child.push(parent1[k]);
        } else {
            let mut value = parent2[k];
            let mut fuel: usize = end - start;
            let mut settled = false;
            while fuel > 0 && !settled
                invariant
                    start < end <= length == parent1.len() == parent2.len(),
                    k < length,
                    valid == (lawful_eq::<T>() && permutation_pair(parent1@, parent2@)),
                    fuel <= end - start,
                    valid && settled ==> !in_swath(parent1@, start as int, end as int, value),
                    valid ==> pmx_resolve(
                        parent1@,
                        parent2@,
                        start as int,
                        end as int,
                        value,
                        fuel as nat,
                    ) == pmx_resolve(
                        parent1@,
                        parent2@,
                        start as int,
                        end as int,
                        parent2@[k as int],
                        (end - start) as nat,
                    ),
                decreases fuel + if settled {
                    0int
                } else {
                    1int
                },
            {
                match position_in(parent1, &value, start, end) {
                    Some(j) => {
                        proof {
                            if valid {
                                let c = swath_index(parent1@, start as int, end as int, value);
                                assert(parent1@[c] == parent1@[j as int]);
                            }
                        }
                        value = parent2[j];
                        fuel = fuel - 1;
                    },
                    None => {
                        settled = true;
                    },
                }
            }
            child.push(value);
        }
        k = k + 1;
        proof {
            if valid {
                assert(child@ =~= spec_child.subrange(0, k as int));
            }
        }
    }
    proof {
        if valid {
            assert(child@ =~= spec_child);
        }
    }
    child
}

impl<T: Copy + PartialEq> Crossover<T> for PartiallyMapped {
    open spec fn arity(&self) -> nat {
        2
    }

    open spec fn brood(&self) -> nat {
        2
    }

    open spec fn crossed(&self, parents: Seq<Vec<T>>, r: Result<Vec<Vec<T>>, CrossoverError>) -> bool {
        &&& lawful_eq::<T>() ==> pmx_outcome(self.preset_split, parents, r)
    }

    open spec fn accepts(&self, parents: Seq<Vec<T>>) -> bool {
        &&& parents.len() >= 2
        &&& parents[0]@.len() == parents[1]@.len()
        &&& lawful_eq::<T>() ==> permutation_pair(parents[0]@, parents[1]@)
        &&& match self.preset_split {
            Some(split) => split.0 < split.1 <= parents[0]@.len(),
            None => parents[0]@.len() >= 2,
        }
    }

    open spec fn exact_checks(&self) -> bool {
        lawful_eq::<T>()
    }

    fn check_parents(&self, parents: &Vec<Vec<T>>) -> (r: Result<(), CrossoverError>) {
        if parents.len() < 2 {
            return Err(CrossoverError::ParentCount);
        }
        let length = parents[0].len();
        if length != parents[1].len() {
            return Err(CrossoverError::LengthMismatch);
        }
        if !all_distinct(&parents[0]) || !all_distinct(&parents[1]) {
            return Err(CrossoverError::DuplicateGenes);
        }
        if !is_permutation_pair(&parents[0], &parents[1]) {
            return Err(CrossoverError::GeneSetMismatch);
        }
        match self.preset_split {
            Some(split) => {
                if !(split.0 < split.1 && split.1 <= length) {
                    return Err(CrossoverError::SplitOutOfRange);
                }
            },
            None => {
                if length < 2 {
                    return Err(CrossoverError::TooShort);
                }
            },
        }
        Ok(())
    }

    fn parents(&self) -> usize {
        2
    }

    fn children(&self) -> usize {
        2
    }

    fn cross(&self, parents: &Vec<Vec<T>>) -> (r: Result<Vec<Vec<T>>, CrossoverError>)
    {
        if parents.len() < 2 {
            return Err(CrossoverError::ParentCount);
        }
        let parent1 = &parents[0];
        let parent2 = &parents[1];
        let length = parent1.len();
        if length != parent2.len() {
            return Err(CrossoverError::LengthMismatch);
        }
        if !all_distinct(parent1) || !all_distinct(parent2) {
            return Err(CrossoverError::DuplicateGenes);
        }
        if !is_permutation_pair(parent1, parent2) {
            return Err(CrossoverError::GeneSetMismatch);
        }
        let split = match self.preset_split {
            Some(split) => {
                if !(split.0 < split.1 && split.1 <= length) {
                    return Err(CrossoverError::SplitOutOfRange);
                }
                split
            },
            None => {
                if length < 2 {
                    return Err(CrossoverError::TooShort);
                }
                range_indexes(length)
            },
        };
        proof {
            if lawful_eq::<T>() {
                permutation_pair_symmetric(parent1@, parent2@);
            }
        }
        let child1 = partially_mapped(parent1, parent2, split);
        let child2 = partially_mapped(parent2, parent1, split);
        let children = vec![child1, child2];
        proof {
            if lawful_eq::<T>() {
                assert(genes_of(children@) =~= pmx_children(parent1@, parent2@, split));
            }
        }
        Ok(children)
    }
}

} // verus!

verus! {

/// One step of the swath mapping from a gene `v` of `p1`'s swath: the gene of `p2` at `v`'s
/// place.
spec fn pmx_step<T>(p1: Seq<T>, p2: Seq<T>, s: int, e: int, v: T) -> T {
    p2[swath_index(p1, s, e, v)]
}

/// `t` steps of the swath mapping from `v`.
spec fn pmx_walk<T>(p1: Seq<T>, p2: Seq<T>, s: int, e: int, v: T, t: nat) -> T
    decreases t,
{
    if t == 0 {
        v
    } else {
        pmx_step(p1, p2, s, e, pmx_walk(p1, p2, s, e, v, (t - 1) as nat))
    }
}

/// The walk from `v` stays in the swath for its first `t` genes.
spec fn stays_in_swath<T>(p1: Seq<T>, p2: Seq<T>, s: int, e: int, v: T, t: nat) -> bool {
    forall|i: nat| i < t ==> in_swath(p1, s, e, #[trigger] pmx_walk(p1, p2, s, e, v, i))
}

proof fn lemma_swath_index<T>(p1: Seq<T>, s: int, e: int, v: T)
    requires
        p1.no_duplicates(),
        0 <= s <= e <= p1.len(),
        in_swath(p1, s, e, v),
    ensures
        s <= swath_index(p1, s, e, v) < e,
        p1[swath_index(p1, s, e, v)] == v,
{
}

/// The swath mapping is one to one on the genes of the swath.
proof fn lemma_step_injective<T>(p1: Seq<T>, p2: Seq<T>, s: int, e: int, a: T, b: T)
    requires
        permutation_pair(p1, p2),
        0 <= s <= e <= p1.len(),
        in_swath(p1, s, e, a),
        in_swath(p1, s, e, b),
        pmx_step(p1, p2, s, e, a) == pmx_step(p1, p2, s, e, b),
    ensures
        a == b,
{
    lemma_swath_index(p1, s, e, a);
    lemma_swath_index(p1, s, e, b);
}

/// Two walks that meet, the shorter one inside the swath until then, meet again after
/// stepping back: the longer walk passes through the start of the shorter one.
proof fn lemma_walks_meet<T>(p1: Seq<T>, p2: Seq<T>, s: int, e: int, u: T, a: nat, w: T, b: nat)
    requires
        permutation_pair(p1, p2),
        0 <= s <= e <= p1.len(),
        a <= b,
        stays_in_swath(p1, p2, s, e, u, a),
        stays_in_swath(p1, p2, s, e, w, b),
        pmx_walk(p1, p2, s, e, u, a) == pmx_walk(p1, p2, s, e, w, b),
    ensures
        pmx_walk(p1, p2, s, e, w, (b - a) as nat) == u,
    decreases a,
{
    if a > 0 {
        let x = pmx_walk(p1, p2, s, e, u, (a - 1) as nat);
        let y = pmx_walk(p1, p2, s, e, w, (b - 1) as nat);
        assert(in_swath(p1, s, e, x));
        assert(in_swath(p1, s, e, y));
        lemma_step_injective(p1, p2, s, e, x, y);
        lemma_walks_meet(p1, p2, s, e, u, (a - 1) as nat, w, (b - 1) as nat);
    }
}

/// A walk from the gene of `p2` at a place outside the swath never comes back to that gene.
proof fn lemma_walk_leaves_start<T>(p1: Seq<T>, p2: Seq<T>, s: int, e: int, k: int, b: nat)
    requires
        permutation_pair(p1, p2),
        0 <= s <= e <= p1.len(),
        0 <= k < p1.len(),
        !(s <= k < e),
        b > 0,
        stays_in_swath(p1, p2, s, e, p2[k], b),
    ensures
        pmx_walk(p1, p2, s, e, p2[k], b) != p2[k],
{
    let y = pmx_walk(p1, p2, s, e, p2[k], (b - 1) as nat);
    assert(in_swath(p1, s, e, y));
    lemma_swath_index(p1, s, e, y);
}

/// The walk from the gene of `p2` at a place outside the swath leaves the swath within
/// `e - s` steps.
proof fn lemma_walk_exits<T>(p1: Seq<T>, p2: Seq<T>, s: int, e: int, k: int)
    requires
        permutation_pair(p1, p2),
        0 <= s <= e <= p1.len(),
        p1.len() <= usize::MAX,
        0 <= k < p1.len(),
        !(s <= k < e),
    ensures
        exists|m: nat|
            m <= e - s && stays_in_swath(p1, p2, s, e, p2[k], m) && !in_swath(
                p1,
                s,
                e,
                #[trigger] pmx_walk(p1, p2, s, e, p2[k], m),
            ),
{
    let v = p2[k];
    let n = (e - s + 1) as nat;
    if stays_in_swath(p1, p2, s, e, v, n) {
        let places = Seq::new(n, |i: int| (swath_index(p1, s, e, pmx_walk(p1, p2, s, e, v, i as nat)) - s) as usize);
        assert forall|i: int| 0 <= i < n implies (#[trigger] places[i]) < (e - s) as nat by {
            lemma_swath_index(p1, s, e, pmx_walk(p1, p2, s, e, v, i as nat));
        }
        assert(places.no_duplicates()) by {
            assert forall|a: int, b: int| 0 <= a < n && 0 <= b < n && a < b implies places[a]
                != places[b] by {
                let x = pmx_walk(p1, p2, s, e, v, a as nat);
                let y = pmx_walk(p1, p2, s, e, v, b as nat);
                lemma_swath_index(p1, s, e, x);
                lemma_swath_index(p1, s, e, y);
                if places[a] == places[b] {
                    assert(x == y);
                    assert(stays_in_swath(p1, p2, s, e, v, a as nat));
                    assert(stays_in_swath(p1, p2, s, e, v, b as nat));
                    lemma_walks_meet(p1, p2, s, e, v, a as nat, v, b as nat);
                    lemma_walk_leaves_start(p1, p2, s, e, k, (b - a) as nat);
                }
            }
        }
        lemma_distinct_places_bound(places, (e - s) as nat);
        assert(false);
    } else {
        let m = choose|m: nat| m < n && !in_swath(p1, s, e, #[trigger] pmx_walk(p1, p2, s, e, v, m));
        lemma_first_exit(p1, p2, s, e, v, m);
    }
}

/// If the walk leaves the swath by step `m`, it does so for a first time.
proof fn lemma_first_exit<T>(p1: Seq<T>, p2: Seq<T>, s: int, e: int, v: T, m: nat)
    requires
        !in_swath(p1, s, e, pmx_walk(p1, p2, s, e, v, m)),
    ensures
        exists|f: nat|
            f <= m && stays_in_swath(p1, p2, s, e, v, f) && !in_swath(
                p1,
                s,
                e,
                #[trigger] pmx_walk(p1, p2, s, e, v, f),
            ),
    decreases m,
{
    if stays_in_swath(p1, p2, s, e, v, m) {
        assert(!in_swath(p1, s, e, pmx_walk(p1, p2, s, e, v, m)));
    } else {
        let i = choose|i: nat| i < m && !in_swath(p1, s, e, #[trigger] pmx_walk(p1, p2, s, e, v, i));
        lemma_first_exit(p1, p2, s, e, v, i);
    }
}

/// With fuel to spare, following the mapping ends where the walk first leaves the swath.
proof fn lemma_resolve_is_walk<T>(p1: Seq<T>, p2: Seq<T>, s: int, e: int, v: T, m: nat, fuel: nat)
    requires
        m <= fuel,
        stays_in_swath(p1, p2, s, e, v, m),
        !in_swath(p1, s, e, pmx_walk(p1, p2, s, e, v, m)),
    ensures
        pmx_resolve(p1, p2, s, e, v, fuel) == pmx_walk(p1, p2, s, e, v, m),
    decreases m,
{
    if m > 0 {
        assert(in_swath(p1, s, e, pmx_walk(p1, p2, s, e, v, 0)));
        let next = pmx_step(p1, p2, s, e, v);
        assert forall|i: nat| i < (m - 1) as nat implies in_swath(p1, s, e, #[trigger] pmx_walk(p1, p2, s, e, next, i)) by {
            lemma_walk_shift(p1, p2, s, e, v, i);
            assert(in_swath(p1, s, e, pmx_walk(p1, p2, s, e, v, i + 1)));
        }
        lemma_walk_shift(p1, p2, s, e, v, (m - 1) as nat);
        lemma_resolve_is_walk(p1, p2, s, e, next, (m - 1) as nat, (fuel - 1) as nat);
    }
}

/// A walk of `i + 1` steps from `v` is a walk of `i` steps from `v`'s first step.
proof fn lemma_walk_shift<T>(p1: Seq<T>, p2: Seq<T>, s: int, e: int, v: T, i: nat)
    ensures
        pmx_walk(p1, p2, s, e, v, i + 1) == pmx_walk(p1, p2, s, e, pmx_step(p1, p2, s, e, v), i),
    decreases i,
{
    let next = pmx_step(p1, p2, s, e, v);
    assert(pmx_walk(p1, p2, s, e, v, i + 1) == pmx_step(p1, p2, s, e, pmx_walk(p1, p2, s, e, v, i)));
    if i == 0 {
        assert(pmx_walk(p1, p2, s, e, v, 0) == v);
        assert(pmx_walk(p1, p2, s, e, next, 0) == next);
    } else {
        lemma_walk_shift(p1, p2, s, e, v, (i - 1) as nat);
        assert(pmx_walk(p1, p2, s, e, next, i) == pmx_step(
            p1,
            p2,
            s,
            e,
            pmx_walk(p1, p2, s, e, next, (i - 1) as nat),
        ));
    }
}

/// The gene that PMX puts outside the swath at `k` is where the walk from `p2[k]` first
/// leaves the swath.
proof fn lemma_outside_gene<T>(p1: Seq<T>, p2: Seq<T>, s: int, e: int, k: int) -> (m: nat)
    requires
        permutation_pair(p1, p2),
        0 <= s <= e <= p1.len(),
        p1.len() <= usize::MAX,
        0 <= k < p1.len(),
        !(s <= k < e),
    ensures
        m <= e - s,
        stays_in_swath(p1, p2, s, e, p2[k], m),
        !in_swath(p1, s, e, pmx_walk(p1, p2, s, e, p2[k], m)),
        pmx_child(p1, p2, s, e)[k] == pmx_walk(p1, p2, s, e, p2[k], m),
{
    lemma_walk_exits(p1, p2, s, e, k);
    let m = choose|m: nat|
        m <= e - s && stays_in_swath(p1, p2, s, e, p2[k], m) && !in_swath(
            p1,
            s,
            e,
            #[trigger] pmx_walk(p1, p2, s, e, p2[k], m),
        );
    lemma_resolve_is_walk(p1, p2, s, e, p2[k], m, (e - s) as nat);
    m
}

/// Every gene of a walk from a gene of `p2` is a gene of `p1`.
proof fn lemma_walk_in_parent<T>(p1: Seq<T>, p2: Seq<T>, s: int, e: int, v: T, t: nat)
    requires
        permutation_pair(p1, p2),
        0 <= s <= e <= p1.len(),
        p2.contains(v),
        stays_in_swath(p1, p2, s, e, v, t),
    ensures
        p1.contains(pmx_walk(p1, p2, s, e, v, t)),
    decreases t,
{
    permutation_pair_symmetric(p1, p2);
    if t == 0 {
    } else {
        let x = pmx_walk(p1, p2, s, e, v, (t - 1) as nat);
        assert(stays_in_swath(p1, p2, s, e, v, (t - 1) as nat));
        assert(in_swath(p1, s, e, x));
        lemma_swath_index(p1, s, e, x);
        assert(p2.contains(p2[swath_index(p1, s, e, x)]));
    }
}

/// For parents that hold the same genes, each once, a PMX child is a reordering of the
/// first parent's genes.
pub proof fn lemma_pmx_child_is_permutation<T>(p1: Seq<T>, p2: Seq<T>, split: (usize, usize))
    requires
        permutation_pair(p1, p2),
        split_fits(split, p1.len()),
        p1.len() <= usize::MAX,
    ensures
        is_permutation_of(pmx_child(p1, p2, split.0 as int, split.1 as int), p1),
{
    let s = split.0 as int;
    let e = split.1 as int;
    let c = pmx_child(p1, p2, s, e);
    assert forall|i: int| 0 <= i < c.len() implies p1.contains(#[trigger] c[i]) by {
        if !(s <= i < e) {
            let m = lemma_outside_gene(p1, p2, s, e, i);
            assert(p2.contains(p2[i]));
            lemma_walk_in_parent(p1, p2, s, e, p2[i], m);
        }
    }
    assert forall|a: int, b: int| 0 <= a < c.len() && 0 <= b < c.len() && a < b implies c[a] != c[b] by {
        let inside_a = s <= a < e;
        let inside_b = s <= b < e;
        if inside_a && inside_b {
        } else if inside_a {
            let m = lemma_outside_gene(p1, p2, s, e, b);
            assert(in_swath(p1, s, e, p1[a]));
        } else if inside_b {
            let m = lemma_outside_gene(p1, p2, s, e, a);
            assert(in_swath(p1, s, e, p1[b]));
        } else {
            let ma = lemma_outside_gene(p1, p2, s, e, a);
            let mb = lemma_outside_gene(p1, p2, s, e, b);
            if c[a] == c[b] {
                if ma <= mb {
                    lemma_walks_meet(p1, p2, s, e, p2[a], ma, p2[b], mb);
                    if ma < mb {
                        assert(stays_in_swath(p1, p2, s, e, p2[b], (mb - ma) as nat));
                        lemma_walk_leaves_start(p1, p2, s, e, b, (mb - ma) as nat);
                        lemma_walk_onto_outside(p1, p2, s, e, p2[b], (mb - ma) as nat, a);
                    }
                } else {
                    lemma_walks_meet(p1, p2, s, e, p2[b], mb, p2[a], ma);
                    assert(stays_in_swath(p1, p2, s, e, p2[a], (ma - mb) as nat));
                    lemma_walk_onto_outside(p1, p2, s, e, p2[a], (ma - mb) as nat, b);
                }
            }
        }
    }
    assert(c.no_duplicates());
    lemma_distinct_within_is_permutation(c, p1);
}

/// A walk that stays in the swath for `t > 0` steps cannot end at the gene of `p2` at a
/// place outside the swath.
proof fn lemma_walk_onto_outside<T>(p1: Seq<T>, p2: Seq<T>, s: int, e: int, v: T, t: nat, k: int)
    requires
        permutation_pair(p1, p2),
        0 <= s <= e <= p1.len(),
        0 <= k < p1.len(),
        !(s <= k < e),
        t > 0,
        stays_in_swath(p1, p2, s, e, v, t),
    ensures
        pmx_walk(p1, p2, s, e, v, t) != p2[k],
{
    let y = pmx_walk(p1, p2, s, e, v, (t - 1) as nat);
    assert(in_swath(p1, s, e, y));
    lemma_swath_index(p1, s, e, y);
}

/// For duplicate-free parents of one length that hold the same genes, PMX with a swath that
/// fits succeeds and both children are reorderings of those genes.
pub proof fn lemma_pmx_children_are_permutations<T: PartialEq>(
    preset: Option<(usize, usize)>,
    parents: Seq<Vec<T>>,
    r: Result<Vec<Vec<T>>, CrossoverError>,
)
    requires
        parents.len() >= 2,
        parents[0]@.len() <= usize::MAX,
        permutation_pair(parents[0]@, parents[1]@),
        preset matches Some(split) ==> split_fits(split, parents[0]@.len()),
        preset is None ==> parents[0]@.len() >= 2,
        pmx_outcome(preset, parents, r),
    ensures
        r matches Ok(c) && c.len() == 2 && is_permutation_of(c[0]@, parents[0]@)
            && is_permutation_of(c[1]@, parents[0]@),
{
    let p1 = parents[0]@;
    let p2 = parents[1]@;
    let c = r->Ok_0;
    let split = match preset {
        Some(split) => split,
        None => choose|split: (usize, usize)|
            split_fits(split, p1.len()) && genes_of(c@) == pmx_children(
                p1,
                p2,
                split,
            ),
    };
    assert(genes_of(c@) == pmx_children(p1, p2, split));
    assert(genes_of(c@).len() == 2);
    assert(c@.len() == 2);
    assert(genes_of(c@)[0] == c@[0]@);
    assert(genes_of(c@)[1] == c@[1]@);
    lemma_pmx_child_is_permutation(p1, p2, split);
    permutation_pair_symmetric(p1, p2);
    lemma_pmx_child_is_permutation(p2, p1, split);
    lemma_distinct_within_is_permutation(p1, p2);
}

} // verus!
