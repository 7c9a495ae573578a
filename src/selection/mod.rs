use vstd::prelude::*;

use crate::chromosome::Chromosome;
use crate::crossover::Crossover;
use crate::generation::{genomes, Generation};
use crate::random::Ratio;

pub mod tournament;

pub use self::tournament::Tournament;

verus! {

/// Why a selection could not pick parents.
#[derive(Clone, Copy, Debug, PartialEq, Eq)]
pub enum SelectionError {
    /// A tournament larger than the generation.
    TournamentTooLarge,
    /// Parents asked of an empty generation.
    EmptyGeneration,
    /// Parents asked of tournaments without contestants.
    EmptyTournament,
    /// More parents asked for than a `usize` can count.
    TooMany,
}

/// How many parents a selection picks: `size * retain * parents / children`, rounded down,
/// then down again to a whole number of groups of `parents`.
pub open spec fn selection_count(retain: Ratio, size: nat, parents: nat, children: nat) -> int {
    let scaled: int = (size * retain.num() * parents) as int / (retain.den() * children) as int;
    (scaled / parents as int) * parents as int
}

/// The sequences of `picked` are genes of chromosomes of `generation`.
pub open spec fn picked_from<T>(picked: Seq<Vec<T>>, generation: Seq<(Seq<T>)>) -> bool {
    forall|i: int| 0 <= i < picked.len() ==> generation.contains(#[trigger] picked[i]@)
}

/// A policy that picks the parents for the crossover operator `crossover`.
pub trait Selection<T> {
    spec fn retain(&self) -> Ratio;

    fn retain_ratio(&self) -> (r: Ratio)
        ensures
            r == self.retain(),
    ;

    /// `picked` is a selection that this policy may make from `generation` for an operator of
    /// `parents` parents and `children` children.
    spec fn picks(
        &self,
        generation: Seq<Chromosome<T>>,
        parents: nat,
        children: nat,
        picked: Seq<Vec<T>>,
    ) -> bool;

    /// A generation of `size` chromosomes is fit for this selection; selecting from an unfit
    /// one is a caller's error.
    spec fn accepts(&self, size: nat) -> bool;

    /// Tests whether `generation` is fit for this selection.
    fn check_generation(&self, generation: &Generation<T>) -> (r: bool)
        ensures
            r == self.accepts(generation@.len()),
    ;

    fn select<C: Crossover<T>>(&self, generation: &Generation<T>, crossover: &C) -> (r: Result<
        Vec<Vec<T>>,
        SelectionError,
    >)
        requires
            self.accepts(generation@.len()),
        ensures
            r matches Ok(picked) ==> picked.len() == selection_count(
                self.retain(),
                generation@.len(),
                crossover.arity(),
                crossover.brood(),
            ) && picked_from(picked@, genomes(generation@)),
            r matches Ok(picked) ==> self.picks(
                generation@,
                crossover.arity(),
                crossover.brood(),
                picked@,
            ),
    ;
}

/// The number of parents to pick from a generation of `size` with the retain ratio `retain`,
/// for an operator of `parents` parents and `children` children; `None` where it does not fit
/// a `usize`.
pub fn selection_size(retain: Ratio, size: usize, parents: usize, children: usize) -> (r: Option<
    usize,
>)
    requires
        0 < parents <= u32::MAX,
        0 < children <= u32::MAX,
    ensures
        r matches Some(n) ==> n == selection_count(retain, size as nat, parents as nat, children as nat),
        r is None ==> selection_count(retain, size as nat, parents as nat, children as nat) > usize::MAX,
{
    let num = retain.numerator() as u128;
    let den = retain.denominator() as u128;
    let size_wide = size as u128;
    let parents_wide = parents as u128;
    let children_wide = children as u128;
    assert(size_wide * num <= 0xffff_ffff_ffff_ffff * 0xffff_ffff) by (nonlinear_arith)
        requires
            size_wide <= 0xffff_ffff_ffff_ffff,
            num <= 0xffff_ffff,
    ;
    let product = size_wide * num;
    assert(product * parents_wide <= 0xffff_ffff_ffff_ffff * 0xffff_ffff * 0xffff_ffff) by (
    nonlinear_arith)
        requires
            product <= 0xffff_ffff_ffff_ffff * 0xffff_ffff,
            parents_wide <= 0xffff_ffff,
    ;
    let product = product * parents_wide;
    assert(den * children_wide <= 0xffff_ffff * 0xffff_ffff) by (nonlinear_arith)
        requires
            den <= 0xffff_ffff,
            children_wide <= 0xffff_ffff,
    ;
    assert(den * children_wide > 0) by (nonlinear_arith)
        requires
            den > 0,
            children_wide > 0,
    ;
    let scaled = product / (den * children_wide);
    assert((scaled / parents_wide) * parents_wide <= scaled) by (nonlinear_arith)
        requires
            parents_wide > 0,
    ;
    let count = (scaled / parents_wide) * parents_wide;
    if count > usize::MAX as u128 {
        None
    } else {
        Some(count as usize)
    }
}

} // verus!
