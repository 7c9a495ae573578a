use vstd::prelude::*;

use crate::random::Ratio;

pub mod centre_inverse;
pub mod flip_bit;
pub mod partial_shuffle;
pub mod reverse_sequence;
pub mod shuffle;
pub mod thrors;
pub mod twors;
pub mod uniform;

pub use self::centre_inverse::CentreInverse;
pub use self::flip_bit::FlipBit;
pub use self::partial_shuffle::PartialShuffle;
pub use self::reverse_sequence::ReverseSequence;
pub use self::shuffle::Shuffle;
pub use self::thrors::Thrors;
pub use self::twors::Twors;
pub use self::uniform::UniformMutation;

verus! {

/// An operator that perturbs one gene sequence, gated by the mutation rate.
pub trait Mutation<T> {
    /// `r` is a result that this operator may give for `genes` at the rate `mutation_rate`.
    spec fn mutated(&self, genes: Seq<T>, mutation_rate: Ratio, r: Seq<T>) -> bool;

    fn mutate(&self, genes: Vec<T>, mutation_rate: Ratio) -> (r: Vec<T>)
        ensures
            r@.len() == genes@.len(),
            mutation_rate.is_never() ==> r@ == genes@,
            self.mutated(genes@, mutation_rate, r@),
    ;
}

/// `s` with the genes at `i` and `j` exchanged.
pub open spec fn swapped<T>(s: Seq<T>, i: int, j: int) -> Seq<T> {
    s.update(i, s[j]).update(j, s[i])
}

/// `s` with the genes from `from` to `to` (exclusive) in reverse order.
pub open spec fn reversed_range<T>(s: Seq<T>, from: int, to: int) -> Seq<T> {
    s.subrange(0, from) + s.subrange(from, to).reverse() + s.subrange(to, s.len() as int)
}

/// Exchanges the genes at `i` and `j`.
pub fn swap_genes<T: Copy>(v: &mut Vec<T>, i: usize, j: usize)
    requires
        i < old(v)@.len(),
        j < old(v)@.len(),
    ensures
        final(v)@ == swapped(old(v)@, i as int, j as int),
        final(v)@.to_multiset() == old(v)@.to_multiset(),
{
    broadcast use vstd::seq_lib::group_to_multiset_ensures;

    let a = v[i];
    let b = v[j];
    v.set(i, b);
    v.set(j, a);
    proof {
        let s = old(v)@;
        if i != j {
            vstd::seq_lib::to_multiset_update(s, i as int, b);
            vstd::seq_lib::to_multiset_update(s.update(i as int, b), j as int, a);
        } else {
            assert(v@ =~= s);
        }
    }
}

/// Reverses the genes from `from` to `to` (exclusive).
pub fn reverse_range<T: Copy>(v: &mut Vec<T>, from: usize, to: usize)
    requires
        from <= to <= old(v)@.len(),
    ensures
        final(v)@ == reversed_range(old(v)@, from as int, to as int),
        final(v)@.to_multiset() == old(v)@.to_multiset(),
{
    let ghost s = v@;
    let mut lo = from;
    let mut hi = to;
    while hi - lo > 1
        invariant
            from <= lo <= hi <= to <= s.len(),
            v@.len() == s.len(),
            lo - from == to - hi,
            v@.to_multiset() == s.to_multiset(),
            forall|k: int| 0 <= k < from || to <= k < s.len() ==> v@[k] == s[k],
            forall|k: int| lo <= k < hi ==> v@[k] == s[k],
            forall|k: int| from <= k < lo ==> v@[k] == s[to - 1 - (k - from)],
            forall|k: int| hi <= k < to ==> v@[k] == s[to - 1 - (k - from)],
        decreases hi - lo,
    {
        swap_genes(v, lo, hi - 1);
        lo = lo + 1;
        hi = hi - 1;
    }
    assert(v@ =~= reversed_range(s, from as int, to as int));
}

} // verus!
