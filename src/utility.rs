use vstd::laws_eq::obeys_concrete_eq;
use vstd::prelude::*;

verus! {

/// `==` on genes of type `T` agrees with equality of their values, as it does for the integer
/// types, `bool` and `char`.
pub open spec fn lawful_eq<T: PartialEq>() -> bool {
    obeys_concrete_eq::<T>()
}

/// `a` is a reordering of `b`: the same genes, each as often.
pub open spec fn is_permutation_of<T>(a: Seq<T>, b: Seq<T>) -> bool {
    a.to_multiset() == b.to_multiset()
}

/// Two parents that hold the same genes, each exactly once.
pub open spec fn permutation_pair<T>(p1: Seq<T>, p2: Seq<T>) -> bool {
    &&& p1.len() == p2.len()
    &&& p1.no_duplicates()
    &&& p2.no_duplicates()
    &&& forall|i: int| 0 <= i < p1.len() ==> p2.contains(#[trigger] p1[i])
}

pub fn same<T: PartialEq>(a: &T, b: &T) -> (r: bool)
    ensures
        lawful_eq::<T>() ==> r == (*a == *b),
{
    proof {
        reveal(obeys_concrete_eq);
    }
    *a == *b
}

/// A copy of `v`, gene by gene.
pub fn copied<T: Copy>(v: &Vec<T>) -> (r: Vec<T>)
    ensures
        r@ == v@,
{
    let mut r: Vec<T> = Vec::with_capacity(v.len());
    let mut i: usize = 0;
    while i < v.len()
        invariant
            i <= v.len(),
            r@ == v@.subrange(0, i as int),
        decreases v.len() - i,
    {
        r.push(v[i]);
        i = i + 1;
    }
    assert(r@ =~= v@);
    r
}

/// The genes of `v` from `start` to `end` (exclusive), in order.
pub fn slice_of<T: Copy>(v: &Vec<T>, start: usize, end: usize) -> (r: Vec<T>)
    requires
        start <= end <= v.len(),
    ensures
        r@ == v@.subrange(start as int, end as int),
{
    let mut r: Vec<T> = Vec::with_capacity(end - start);
    let mut i: usize = start;
    while i < end
        invariant
            start <= i <= end <= v.len(),
            r@ == v@.subrange(start as int, i as int),
        decreases end - i,
    {
        r.push(v[i]);
        i = i + 1;
    }
    r
}

/// Appends the genes of `v` from `start` to `end` (exclusive) to `out`.
pub fn extend_from<T: Copy>(out: &mut Vec<T>, v: &Vec<T>, start: usize, end: usize)
    requires
        start <= end <= v.len(),
    ensures
        final(out)@ == old(out)@ + v@.subrange(start as int, end as int),
{
    let mut i: usize = start;
    while i < end
        invariant
            start <= i <= end <= v.len(),
            out@ == old(out)@ + v@.subrange(start as int, i as int),
        decreases end - i,
    {
        out.push(v[i]);
        i = i + 1;
        assert(v@.subrange(start as int, i as int) =~= v@.subrange(start as int, i - 1).push(
            v@[i - 1],
        ));
    }
}

/// Where `x` first stands in `v` between `start` and `end` (exclusive), if it does.
pub fn position_in<T: PartialEq>(v: &Vec<T>, x: &T, start: usize, end: usize) -> (r: Option<usize>)
    requires
        start <= end <= v.len(),
    ensures
        r matches Some(i) ==> start <= i < end,
        lawful_eq::<T>() ==> (r matches Some(i) ==> v@[i as int] == *x && forall|j: int|
            start <= j < i ==> v@[j] != *x),
        lawful_eq::<T>() ==> (r is None ==> forall|j: int| start <= j < end ==> v@[j] != *x),
{
    let mut i: usize = start;
    while i < end
        invariant
            start <= i <= end <= v.len(),
            lawful_eq::<T>() ==> forall|j: int| start <= j < i ==> v@[j] != *x,
        decreases end - i,
    {
        if same(&v[i], x) {
            return Some(i);
        }
        i = i + 1;
    }
    None
}

/// Whether `x` stands in `v`.
pub fn contains<T: PartialEq>(v: &Vec<T>, x: &T) -> (r: bool)
    ensures
        lawful_eq::<T>() ==> r == v@.contains(*x),
{
    match position_in(v, x, 0, v.len()) {
        Some(i) => true,
        None => false,
    }
}

/// Whether no gene stands twice in `v`.
pub fn all_distinct<T: PartialEq>(v: &Vec<T>) -> (r: bool)
    ensures
        lawful_eq::<T>() ==> r == v@.no_duplicates(),
{
    let mut i: usize = 0;
    while i < v.len()
        invariant
            i <= v.len(),
            lawful_eq::<T>() ==> forall|a: int, b: int|
                0 <= a < b < v.len() && a < i ==> v@[a] != v@[b],
        decreases v.len() - i,
    {
        if let Some(j) = position_in(v, &v[i], i + 1, v.len()) {
            return false;
        }
        i = i + 1;
    }
    true
}

/// Whether `p1` and `p2` hold the same genes, each exactly once.
pub fn is_permutation_pair<T: PartialEq>(p1: &Vec<T>, p2: &Vec<T>) -> (r: bool)
    ensures
        lawful_eq::<T>() ==> r == permutation_pair(p1@, p2@),
{
    if p1.len() != p2.len() || !all_distinct(p1) || !all_distinct(p2) {
        return false;
    }
    let mut i: usize = 0;
    while i < p1.len()
        invariant
            i <= p1.len(),
            p1.len() == p2.len(),
            lawful_eq::<T>() ==> p1@.no_duplicates() && p2@.no_duplicates(),
            lawful_eq::<T>() ==> forall|k: int| 0 <= k < i ==> p2@.contains(#[trigger] p1@[k]),
        decreases p1.len() - i,
    {
        if !contains(p2, &p1[i]) {
            return false;
        }
        i = i + 1;
    }
    true
}

/// The parents of a permutation pair may be taken in either order.
pub proof fn permutation_pair_symmetric<T>(p1: Seq<T>, p2: Seq<T>)
    requires
        permutation_pair(p1, p2),
    ensures
        permutation_pair(p2, p1),
{
    lemma_distinct_within_is_permutation(p1, p2);
    assert forall|i: int| 0 <= i < p2.len() implies p1.contains(#[trigger] p2[i]) by {
        assert(p2.contains(p2[i]));
    }
}

/// A duplicate-free sequence holds each of its genes once.
proof fn lemma_count_no_dup<T>(s: Seq<T>, x: T)
    requires
        s.no_duplicates(),
    ensures
        s.to_multiset().count(x) == if s.contains(x) {
            1nat
        } else {
            0nat
        },
{
    broadcast use vstd::seq_lib::to_multiset_contains;

    s.lemma_multiset_has_no_duplicates();
    if !s.contains(x) {
        assert(!s.to_multiset().contains(x));
    }
}

/// Two duplicate-free sequences of one length, the first within the second, are reorderings of
/// each other.
pub proof fn lemma_distinct_within_is_permutation<T>(a: Seq<T>, b: Seq<T>)
    requires
        a.no_duplicates(),
        b.no_duplicates(),
        a.len() == b.len(),
        forall|i: int| 0 <= i < a.len() ==> b.contains(#[trigger] a[i]),
    ensures
        is_permutation_of(a, b),
        forall|x: T| a.contains(x) <==> b.contains(x),
{
    broadcast use vstd::seq_lib::seq_to_set_is_finite;

    a.unique_seq_to_set();
    b.unique_seq_to_set();
    assert(a.to_set().subset_of(b.to_set())) by {
        assert forall|x: T| a.to_set().contains(x) implies b.to_set().contains(x) by {
            let i = choose|i: int| 0 <= i < a.len() && a[i] == x;
            assert(b.contains(a[i]));
        }
    }
    vstd::set_lib::lemma_subset_equality(a.to_set(), b.to_set());
    assert forall|x: T| a.contains(x) <==> b.contains(x) by {
        assert(a.to_set().contains(x) == b.to_set().contains(x));
    }
    assert forall|x: T| a.to_multiset().count(x) == b.to_multiset().count(x) by {
        lemma_count_no_dup(a, x);
        lemma_count_no_dup(b, x);
    }
    assert(a.to_multiset() =~= b.to_multiset());
}

} // verus!

verus! {

/// Mapping each element keeps two reorderings of each other reorderings of each other.
pub proof fn lemma_map_permutation<A, B>(a: Seq<A>, b: Seq<A>, f: spec_fn(A) -> B)
    requires
        a.to_multiset() == b.to_multiset(),
    ensures
        a.map_values(f).to_multiset() == b.map_values(f).to_multiset(),
    decreases a.len(),
{
    broadcast use vstd::seq_lib::group_to_multiset_ensures;

    if a.len() == 0 {
        assert(b.to_multiset().len() == 0);
        assert(a.map_values(f) =~= Seq::<B>::empty());
        assert(b.map_values(f) =~= Seq::<B>::empty());
    } else {
        let x = a.last();
        let a0 = a.drop_last();
        assert(a =~= a0.push(x));
        assert(a.to_multiset().contains(x));
        assert(b.contains(x));
        let j = choose|j: int| 0 <= j < b.len() && b[j] == x;
        let b0 = b.remove(j);
        vstd::seq_lib::to_multiset_remove(b, j);
        assert(a0.to_multiset() =~= b0.to_multiset());
        lemma_map_permutation(a0, b0, f);
        assert(a.map_values(f) =~= a0.map_values(f).push(f(x)));
        assert(b.map_values(f).remove(j) =~= b0.map_values(f));
        vstd::seq_lib::to_multiset_remove(b.map_values(f), j);
        assert(b.map_values(f).to_multiset() =~= b0.map_values(f).to_multiset().insert(f(x)));
    }
}

} // verus!

verus! {

/// A duplicate-free sequence of places below `n` has at most `n` elements.
pub proof fn lemma_distinct_places_bound(s: Seq<usize>, n: nat)
    requires
        s.no_duplicates(),
        forall|t: int| 0 <= t < s.len() ==> (#[trigger] s[t]) < n,
    ensures
        s.len() <= n,
{
    broadcast use vstd::seq_lib::seq_to_set_is_finite;

    let t = s.map_values(|x: usize| x as int);
    assert(t.no_duplicates()) by {
        assert forall|a: int, b: int| 0 <= a < t.len() && 0 <= b < t.len() && a != b implies t[a]
            != t[b] by {
            assert(s[a] != s[b]);
        }
    }
    t.unique_seq_to_set();
    vstd::set_lib::lemma_int_range(0, n as int);
    assert(t.to_set().subset_of(vstd::set_lib::set_int_range(0, n as int))) by {
        assert forall|x: int| t.to_set().contains(x) implies vstd::set_lib::set_int_range(
            0,
            n as int,
        ).contains(x) by {
            let k = choose|k: int| 0 <= k < t.len() && t[k] == x;
            assert(s[k] < n);
        }
    }
    vstd::set_lib::lemma_len_subset(t.to_set(), vstd::set_lib::set_int_range(0, n as int));
}

} // verus!

verus! {

/// A duplicate-free sequence shorter than `n` misses some place below `n`.
pub proof fn lemma_short_misses(s: Seq<usize>, n: nat)
    requires
        s.no_duplicates(),
        s.len() < n,
        n <= usize::MAX + 1,
    ensures
        exists|x: usize| x < n && !s.contains(x),
{
    broadcast use vstd::seq_lib::seq_to_set_is_finite;

    if forall|x: usize| x < n ==> s.contains(x) {
        let t = s.map_values(|x: usize| x as int);
        assert(t.no_duplicates()) by {
            assert forall|a: int, b: int| 0 <= a < t.len() && 0 <= b < t.len() && a != b implies t[a]
                != t[b] by {
                assert(s[a] != s[b]);
            }
        }
        t.unique_seq_to_set();
        vstd::set_lib::lemma_int_range(0, n as int);
        assert(vstd::set_lib::set_int_range(0, n as int).subset_of(t.to_set())) by {
            assert forall|x: int| vstd::set_lib::set_int_range(0, n as int).contains(x) implies t.to_set().contains(x) by {
                assert(s.contains(x as usize));
                let k = choose|k: int| 0 <= k < s.len() && s[k] == x as usize;
                assert(t[k] == x);
            }
        }
        vstd::set_lib::lemma_len_subset(vstd::set_lib::set_int_range(0, n as int), t.to_set());
    }
}

} // verus!

verus! {

/// The elements of `v` two by two, in order; a last odd element is left out.
pub fn pairs<T: Copy>(v: &Vec<T>) -> (r: Vec<(T, T)>)
    ensures
        r@.len() == v@.len() / 2,
        forall|i: int| 0 <= i < r@.len() ==> #[trigger] r@[i] == (v@[2 * i], v@[2 * i + 1]),
{
    let mut r: Vec<(T, T)> = Vec::with_capacity(v.len() / 2);
    let mut i: usize = 0;
    while v.len() - i > 1
        invariant
            i == 2 * r@.len(),
            i <= v@.len(),
            forall|k: int| 0 <= k < r@.len() ==> #[trigger] r@[k] == (v@[2 * k], v@[2 * k + 1]),
        decreases v@.len() - i,
    {
        r.push((v[i], v[i + 1]));
        i = i + 2;
    }
    r
}

/// The elements of `v` three by three, in order; one or two last elements are left out.
pub fn triples<T: Copy>(v: &Vec<T>) -> (r: Vec<(T, T, T)>)
    ensures
        r@.len() == v@.len() / 3,
        forall|i: int|
            0 <= i < r@.len() ==> #[trigger] r@[i] == (v@[3 * i], v@[3 * i + 1], v@[3 * i + 2]),
{
    let mut r: Vec<(T, T, T)> = Vec::with_capacity(v.len() / 3);
    let mut i: usize = 0;
    while v.len() - i > 2
        invariant
            i == 3 * r@.len(),
            i <= v@.len(),
            forall|k: int|
                0 <= k < r@.len() ==> #[trigger] r@[k] == (v@[3 * k], v@[3 * k + 1], v@[3 * k
                    + 2]),
        decreases v@.len() - i,
    {
        r.push((v[i], v[i + 1], v[i + 2]));
        i = i + 3;
    }
    r
}

} // verus!
