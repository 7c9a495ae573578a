use vstd::prelude::*;

use crate::crossover::{Crossover, CrossoverError};
use crate::random::random_in;
use crate::utility::{
    all_distinct, copied, is_permutation_of, is_permutation_pair, lawful_eq,
    lemma_distinct_within_is_permutation, permutation_pair,
    same,
};

verus! {

/// Precedence-preservative crossover (PPX): the child repeatedly takes the first remaining
/// gene of a parent chosen at random, and that gene leaves both parents' remaining lists.
#[derive(Clone, Copy, Debug)]
pub struct PrecedencePreservative;

impl PrecedencePreservative {
    pub fn new() -> Self {
        PrecedencePreservative
    }
}

/// `s` without any copy of `g`.
pub open spec fn without<T>(s: Seq<T>, g: T) -> Seq<T> {
    s.filter(|x: T| x != g)
}

/// Removing a gene that a duplicate-free sequence holds leaves the others, each once.
proof fn lemma_without<T>(s: Seq<T>, g: T)
    requires
        s.no_duplicates(),
    ensures
        without(s, g).no_duplicates(),
        forall|x: T| #[trigger] without(s, g).contains(x) <==> s.contains(x) && x != g,
        without(s, g).len() == if s.contains(g) {
            s.len() - 1
        } else {
            s.len() as int
        },
    decreases s.len(),
{
    reveal(Seq::filter);
    if s.len() > 0 {
        let rest = s.drop_last();
        assert(rest.no_duplicates()) by {
            assert forall|a: int, b: int| 0 <= a < rest.len() && 0 <= b < rest.len() && a != b implies rest[a]
                != rest[b] by {
                assert(s[a] != s[b]);
            }
        }
        lemma_without(rest, g);
        assert(s =~= rest.push(s.last()));
        assert forall|x: T| s.contains(x) <==> rest.contains(x) || x == s.last() by {
            if s.contains(x) {
                let k = choose|k: int| 0 <= k < s.len() && s[k] == x;
                if k < s.len() - 1 {
                    assert(rest[k] == x);
                }
            }
            if rest.contains(x) {
                let k = choose|k: int| 0 <= k < rest.len() && rest[k] == x;
                assert(s[k] == x);
            }
        }
        assert(!rest.contains(s.last())) by {
            if rest.contains(s.last()) {
                let k = choose|k: int| 0 <= k < rest.len() && rest[k] == s.last();
                assert(s[k] == s[s.len() - 1]);
            }
        }
        let f = without(s, g);
        let fr = without(rest, g);
        if s.last() != g {
            assert(f == fr.push(s.last()));
            assert forall|x: T| #[trigger] f.contains(x) <==> fr.contains(x) || x == s.last() by {
                if f.contains(x) {
                    let k = choose|k: int| 0 <= k < f.len() && f[k] == x;
                    if k < fr.len() {
                        assert(fr[k] == x);
                    }
                }
                if fr.contains(x) {
                    let k = choose|k: int| 0 <= k < fr.len() && fr[k] == x;
                    assert(f[k] == x);
                }
                if x == s.last() {
                    assert(f[fr.len() as int] == x);
                }
            }
            assert forall|a: int, b: int| 0 <= a < f.len() && 0 <= b < f.len() && a != b implies f[a]
                != f[b] by {
                if a < fr.len() && b < fr.len() {
                    assert(fr[a] != fr[b]);
                } else if a < fr.len() {
                    assert(fr.contains(fr[a]));
                } else if b < fr.len() {
                    assert(fr.contains(fr[b]));
                }
            }
        } else {
            assert(f == fr);
        }
    }
}

/// Moves the first gene of `p0` to the end of `c`, removing every copy of it from `p0` and
/// from `p1`.
pub fn precedence_preservative<T: Copy + PartialEq>(p0: &mut Vec<T>, p1: &mut Vec<T>, c: &mut Vec<T>)
    requires
        old(p0)@.len() > 0,
    ensures
        final(c)@ == old(c)@.push(old(p0)@[0]),
        lawful_eq::<T>() ==> final(p0)@ == without(old(p0)@, old(p0)@[0]),
        lawful_eq::<T>() ==> final(p1)@ == without(old(p1)@, old(p0)@[0]),
{
    let gene = p0[0];
    remove_all(p0, gene);
    remove_all(p1, gene);
    c.push(gene);
}

/// Removes every copy of `gene` from `v`.
fn remove_all<T: Copy + PartialEq>(v: &mut Vec<T>, gene: T)
    ensures
        lawful_eq::<T>() ==> final(v)@ == without(old(v)@, gene),
{
    let mut kept: Vec<T> = Vec::with_capacity(v.len());
    let mut j: usize = 0;
    while j < v.len()
        invariant
            j <= v@.len(),
            v@ == old(v)@,
            lawful_eq::<T>() ==> kept@ == without(v@.subrange(0, j as int), gene),
        decreases v@.len() - j,
    {
        if !same(&v[j], &gene) {
            kept.push(v[j]);
        }
        proof {
            let s = v@.subrange(0, j + 1);
            assert(s.drop_last() =~= v@.subrange(0, j as int));
            reveal(Seq::filter);
        }
        j = j + 1;
    }
    proof {
        assert(v@.subrange(0, v@.len() as int) =~= v@);
    }
    *v = kept;
}

/// The child that PPX builds from `g1` and `g2` when `picks` says, step by step, whether to
/// take the first remaining gene of `g1` (true) or of `g2` (false); none where a chosen list
/// runs out first.
pub open spec fn ppx_child<T>(g1: Seq<T>, g2: Seq<T>, picks: Seq<bool>) -> Option<Seq<T>>
    decreases picks.len(),
{
    if picks.len() == 0 {
        Some(Seq::empty())
    } else {
        let from = if picks[0] {
            g1
        } else {
            g2
        };
        if from.len() == 0 {
            None
        } else {
            let g = from[0];
            match ppx_child(without(g1, g), without(g2, g), picks.drop_first()) {
                Some(rest) => Some(seq![g] + rest),
                None => None,
            }
        }
    }
}

/// `prefix` followed by `rest`, if there is a rest.
pub open spec fn glued<T>(prefix: Seq<T>, rest: Option<Seq<T>>) -> Option<Seq<T>> {
    match rest {
        Some(r) => Some(prefix + r),
        None => None,
    }
}

/// The outcome of PPX on `p1` and `p2` with the picks `picks`.
pub open spec fn ppx_outcome<T: PartialEq>(
    p1: Seq<T>,
    p2: Seq<T>,
    picks: Seq<bool>,
    r: Result<Vec<Vec<T>>, CrossoverError>,
) -> bool {
    &&& picks.len() == p2.len()
    &&& r matches Err(e) ==> e == CrossoverError::GeneSetMismatch
    &&& lawful_eq::<T>() ==> match r {
        Ok(c) => c.len() == 1 && ppx_child(p1, p2, picks) == Some(c[0]@),
        Err(_) => ppx_child(p1, p2, picks) is None,
    }
}

/// The PPX child of `parent1` and `parent2` for the picks `picks` (true: take from the
/// first parent's remaining genes, false: from the second's).
pub fn ppx_with<T: Copy + PartialEq>(parent1: &Vec<T>, parent2: &Vec<T>, picks: &Vec<bool>) -> (r: Result<Vec<T>, CrossoverError>)
    requires
        parent1@.len() == parent2@.len() == picks@.len(),
    ensures
        r matches Err(e) ==> e == CrossoverError::GeneSetMismatch,
        r matches Ok(c) ==> c@.len() == picks@.len(),
        lawful_eq::<T>() ==> match r {
            Ok(c) => ppx_child(parent1@, parent2@, picks@) == Some(c@),
            Err(_) => ppx_child(parent1@, parent2@, picks@) is None,
        },
        lawful_eq::<T>() && permutation_pair(parent1@, parent2@) ==> (r matches Ok(c)
            && is_permutation_of(c@, parent1@)),
{
    let length = parent2.len();
        let ghost valid = lawful_eq::<T>() && permutation_pair(parent1@, parent2@);
        let mut genes1 = copied(parent1);
        let mut genes2 = copied(parent2);
        let mut child: Vec<T> = Vec::with_capacity(length);
        proof {
            if valid {
                crate::utility::permutation_pair_symmetric(parent1@, parent2@);
                lemma_distinct_within_is_permutation(parent1@, parent2@);
            }
        }
        proof {
            assert(child@ =~= Seq::<T>::empty());
            assert(picks@.subrange(0, length as int) =~= picks@);
            match ppx_child(parent1@, parent2@, picks@) {
                Some(t) => {
                    assert(child@ + t =~= t);
                },
                None => {},
            }
        }
        while child.len() < length
            invariant
                length == parent1@.len() == parent2@.len() == picks@.len(),
                child@.len() <= length,
                lawful_eq::<T>() ==> ppx_child(parent1@, parent2@, picks@) == glued(
                    child@,
                    ppx_child(genes1@, genes2@, picks@.subrange(child@.len() as int, length as int)),
                ),
                valid == (lawful_eq::<T>() && permutation_pair(parent1@, parent2@)),
                valid ==> genes1@.no_duplicates() && genes2@.no_duplicates(),
                valid ==> genes1@.len() == length - child@.len(),
                valid ==> genes2@.len() == length - child@.len(),
                valid ==> forall|x: T| #[trigger] genes2@.contains(x) <==> genes1@.contains(x),
                valid ==> forall|x: T|
                    #[trigger] genes1@.contains(x) <==> parent1@.contains(x) && !child@.contains(x),
                valid ==> child@.no_duplicates(),
                valid ==> forall|i: int| 0 <= i < child@.len() ==> parent1@.contains(#[trigger] child@[i]),
            decreases length - child@.len(),
        {
            let ghost before = child@;
            let ghost g1 = genes1@;
            let ghost g2 = genes2@;
            let from_first = picks[child.len()];
            let ghost i = child@.len() as int;
            let ghost rest = picks@.subrange(i, length as int);
            proof {
                assert(rest[0] == from_first);
                assert(rest.drop_first() =~= picks@.subrange(i + 1, length as int));
            }
            if from_first {
                if genes1.len() == 0 {
                    return Err(CrossoverError::GeneSetMismatch);
                }
                assert(genes1@[0] == g1[0]);
                precedence_preservative(&mut genes1, &mut genes2, &mut child);
            } else {
                if genes2.len() == 0 {
                    return Err(CrossoverError::GeneSetMismatch);
                }
                precedence_preservative(&mut genes2, &mut genes1, &mut child);
            }
            proof {
                if lawful_eq::<T>() {
                    let g = child@.last();
                    let tail = ppx_child(genes1@, genes2@, picks@.subrange(i + 1, length as int));
                    match tail {
                        Some(t) => {
                            assert(before + (seq![g] + t) =~= child@ + t);
                        },
                        None => {},
                    }
                }
                if valid {
                    let g = child@.last();
                    assert(g1.contains(g) && g2.contains(g)) by {
                        if from_first {
                            assert(g1[0] == g);
                            assert(g1.contains(g1[0]));
                        } else {
                            assert(g2[0] == g);
                            assert(g2.contains(g2[0]));
                        }
                    }
                    lemma_without(g1, g);
                    lemma_without(g2, g);
                    assert(child@ == before.push(g));
                    assert forall|x: T| #[trigger] child@.contains(x) <==> before.contains(x) || x == g by {
                        if child@.contains(x) {
                            let k = choose|k: int| 0 <= k < child@.len() && child@[k] == x;
                            if k < before.len() {
                                assert(before[k] == x);
                            }
                        }
                        if before.contains(x) {
                            let k = choose|k: int| 0 <= k < before.len() && before[k] == x;
                            assert(child@[k] == x);
                        }
                        if x == g {
                            assert(child@[before.len() as int] == x);
                        }
                    }
                    assert forall|a: int, b: int|
                        0 <= a < child@.len() && 0 <= b < child@.len() && a != b implies child@[a]
                        != child@[b] by {
                        if a < before.len() && b < before.len() {
                            assert(before[a] != before[b]);
                        } else if a < before.len() {
                            assert(before.contains(before[a]));
                        } else if b < before.len() {
                            assert(before.contains(before[b]));
                        }
                    }
                    assert forall|i: int| 0 <= i < child@.len() implies parent1@.contains(#[trigger] child@[i]) by {
                        if i < before.len() {
                            assert(before[i] == child@[i]);
                        }
                    }
                }
            }
        }
        proof {
            if valid {
                lemma_distinct_within_is_permutation(child@, parent1@);
            }
        }
        proof {
            if valid {
                lemma_distinct_within_is_permutation(child@, parent1@);
            }
            assert(picks@.subrange(length as int, length as int) =~= Seq::<bool>::empty());
            assert(child@ + Seq::<T>::empty() =~= child@);
        }
        Ok(child)
}

/// The outcome of PPX on `parents`: for duplicate-free parents of one length that hold the
/// same genes, one child that is a reordering of those genes.
pub open spec fn precedence_outcome<T>(
    parents: Seq<Vec<T>>,
    r: Result<Vec<Vec<T>>, CrossoverError>,
) -> bool {
    if parents.len() < 2 {
        r == Err::<Vec<Vec<T>>, CrossoverError>(CrossoverError::ParentCount)
    } else if parents[0]@.len() != parents[1]@.len() {
        r == Err::<Vec<Vec<T>>, CrossoverError>(CrossoverError::LengthMismatch)
    } else {
        permutation_pair(parents[0]@, parents[1]@) ==> (r matches Ok(c) && c.len() == 1
            && is_permutation_of(c[0]@, parents[0]@) && forall|a: T, b: T|
            precedes(parents[0]@, a, b) && precedes(parents[1]@, a, b) ==> precedes(c[0]@, a, b))
    }
}

impl<T: Copy + PartialEq> Crossover<T> for PrecedencePreservative {
    open spec fn arity(&self) -> nat {
        2
    }

    open spec fn brood(&self) -> nat {
        1
    }

    open spec fn crossed(&self, parents: Seq<Vec<T>>, r: Result<Vec<Vec<T>>, CrossoverError>) -> bool {
        &&& r matches Ok(c) ==> c.len() == 1 && c[0]@.len() == parents[1]@.len()
        &&& lawful_eq::<T>() ==> precedence_outcome(parents, r)
        &&& parents.len() >= 2 && parents[0]@.len() == parents[1]@.len() ==> exists|picks: Seq<bool>|
            ppx_outcome(parents[0]@, parents[1]@, picks, r)
    }

    open spec fn accepts(&self, parents: Seq<Vec<T>>) -> bool {
        &&& parents.len() >= 2
        &&& parents[0]@.len() == parents[1]@.len()
        &&& lawful_eq::<T>() ==> permutation_pair(parents[0]@, parents[1]@)
    }

    open spec fn exact_checks(&self) -> bool {
        lawful_eq::<T>()
    }

    fn check_parents(&self, parents: &Vec<Vec<T>>) -> (r: Result<(), CrossoverError>) {
        if parents.len() < 2 {
            return Err(CrossoverError::ParentCount);
        }
        let length = parents[0].len();
        if length != parents[1].len() {
            return Err(CrossoverError::LengthMismatch);
        }
        if !all_distinct(&parents[0]) || !all_distinct(&parents[1]) {
            return Err(CrossoverError::DuplicateGenes);
        }
        if !is_permutation_pair(&parents[0], &parents[1]) {
            return Err(CrossoverError::GeneSetMismatch);
        }
        Ok(())
    }

    fn parents(&self) -> usize {
        2
    }

    fn children(&self) -> usize {
        1
    }

    fn cross(&self, parents: &Vec<Vec<T>>) -> (r: Result<Vec<Vec<T>>, CrossoverError>)
    {
        if parents.len() < 2 {
            return Err(CrossoverError::ParentCount);
        }
        let parent1 = &parents[0];
        let parent2 = &parents[1];
        let length = parent2.len();
        if parent1.len() != length {
            return Err(CrossoverError::LengthMismatch);
        }
        let mut picks: Vec<bool> = Vec::with_capacity(length);
        while picks.len() < length
            invariant
                picks@.len() <= length,
            decreases length - picks@.len(),
        {
            picks.push(random_in(0, 2) == 0);
        }
        let ghost drawn = picks@;
        match ppx_with(parent1, parent2, &picks) {
            Ok(child) => {
                let ghost only = child@;
                let children = vec![child];
                proof {
                    assert(children@[0]@ == only);
                    if lawful_eq::<T>() && permutation_pair(parent1@, parent2@) {
                        lemma_ppx_keeps_shared_order(parent1@, parent2@, drawn, only);
                    }
                    assert(ppx_outcome(parent1@, parent2@, drawn, Ok::<Vec<Vec<T>>, CrossoverError>(children)));
                }
                Ok(children)
            },
            Err(e) => {
                proof {
                    assert(ppx_outcome(parent1@, parent2@, drawn, Err::<Vec<Vec<T>>, CrossoverError>(e)));
                }
                Err(e)
            },
        }
    }
}

} // verus!

verus! {

/// `a` comes before `b` in `s`.
pub open spec fn precedes<T>(s: Seq<T>, a: T, b: T) -> bool {
    exists|i: int, j: int| 0 <= i < j < s.len() && s[i] == a && s[j] == b
}

/// Removing a gene keeps the order of the others.
proof fn lemma_without_keeps_order<T>(s: Seq<T>, g: T, i: int, j: int)
    requires
        0 <= i < j < s.len(),
        s[i] != g,
        s[j] != g,
    ensures
        precedes(without(s, g), s[i], s[j]),
    decreases s.len(),
{
    reveal(Seq::filter);
    let rest = s.drop_last();
    let w = without(rest, g);
    if j < s.len() - 1 {
        lemma_without_keeps_order(rest, g, i, j);
        let (a, b) = choose|a: int, b: int|
            0 <= a < b < w.len() && w[a] == rest[i] && w[b] == rest[j];
        assert(without(s, g)[a] == w[a]);
        assert(without(s, g)[b] == w[b]);
    } else {
        assert(without(s, g) == w.push(s[j]));
        let pred = |x: T| x != g;
        rest.lemma_filter_contains(pred, i);
        let a = choose|a: int| 0 <= a < w.len() && w[a] == rest[i];
        assert(without(s, g)[a] == s[i]);
        assert(without(s, g)[w.len() as int] == s[j]);
    }
}

/// For parents that hold the same genes, each once, a PPX child holds exactly those genes,
/// and a gene that comes before another in both parents comes before it in the child.
pub proof fn lemma_ppx_keeps_shared_order<T>(g1: Seq<T>, g2: Seq<T>, picks: Seq<bool>, c: Seq<T>)
    requires
        permutation_pair(g1, g2),
        picks.len() == g1.len(),
        ppx_child(g1, g2, picks) == Some(c),
    ensures
        forall|x: T| c.contains(x) <==> g1.contains(x),
        forall|a: T, b: T| precedes(g1, a, b) && precedes(g2, a, b) ==> precedes(c, a, b),
    decreases picks.len(),
{
    crate::utility::permutation_pair_symmetric(g1, g2);
    crate::utility::lemma_distinct_within_is_permutation(g1, g2);
    if picks.len() == 0 {
        assert(c =~= Seq::<T>::empty());
    } else {
        let from = if picks[0] {
            g1
        } else {
            g2
        };
        let g = from[0];
        assert(from.contains(g));
        assert(g1.contains(g) && g2.contains(g));
        let h1 = without(g1, g);
        let h2 = without(g2, g);
        lemma_without(g1, g);
        lemma_without(g2, g);
        let rest = ppx_child(h1, h2, picks.drop_first())->Some_0;
        assert(c == seq![g] + rest);
        assert(permutation_pair(h1, h2)) by {
            assert forall|i: int| 0 <= i < h1.len() implies h2.contains(#[trigger] h1[i]) by {
                assert(h1.contains(h1[i]));
            }
        }
        lemma_ppx_keeps_shared_order(h1, h2, picks.drop_first(), rest);
        assert forall|x: T| c.contains(x) <==> g1.contains(x) by {
            if c.contains(x) {
                let k = choose|k: int| 0 <= k < c.len() && c[k] == x;
                if k > 0 {
                    assert(rest[k - 1] == x);
                    assert(rest.contains(x));
                }
            }
            if g1.contains(x) {
                if x == g {
                    assert(c[0] == x);
                } else {
                    assert(h1.contains(x));
                    let k = choose|k: int| 0 <= k < rest.len() && rest[k] == x;
                    assert(c[k + 1] == x);
                }
            }
        }
        assert forall|a: T, b: T| precedes(g1, a, b) && precedes(g2, a, b) implies precedes(
            c,
            a,
            b,
        ) by {
            let (i1, j1) = choose|i: int, j: int| 0 <= i < j < g1.len() && g1[i] == a && g1[j] == b;
            let (i2, j2) = choose|i: int, j: int| 0 <= i < j < g2.len() && g2[i] == a && g2[j] == b;
            if b == g {
                if picks[0] {
                    assert(g1[0] == b);
                } else {
                    assert(g2[0] == b);
                }
            } else if a == g {
                assert(g1.contains(b));
                assert(h1.contains(b));
                let k = choose|k: int| 0 <= k < rest.len() && rest[k] == b;
                assert(c[0] == a);
                assert(c[k + 1] == b);
            } else {
                lemma_without_keeps_order(g1, g, i1, j1);
                lemma_without_keeps_order(g2, g, i2, j2);
                let (p, q) = choose|p: int, q: int| 0 <= p < q < rest.len() && rest[p] == a && rest[q] == b;
                assert(c[p + 1] == a);
                assert(c[q + 1] == b);
            }
        }
    }
}

} // verus!
