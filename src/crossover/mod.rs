use vstd::prelude::*;

pub mod cut_splice;
pub mod cycle;
pub mod edge_recombination;
pub mod half_uniform;
pub mod one_point;
pub mod order1;
pub mod partially_mapped;
pub mod precedence_preservative;
pub mod three_parent;
pub mod two_point;
pub mod uniform;

pub use self::cut_splice::CutAndSplice;
pub use self::cycle::Cycle;
pub use self::edge_recombination::EdgeRecombination;
pub use self::half_uniform::HalfUniform;
pub use self::one_point::OnePoint;
pub use self::order1::Order1;
pub use self::partially_mapped::PartiallyMapped;
pub use self::precedence_preservative::PrecedencePreservative;
pub use self::three_parent::ThreeParent;
pub use self::two_point::TwoPoint;
pub use self::uniform::UniformCrossover;

verus! {

/// The gene sequences of a list of children.
pub open spec fn genes_of<T>(children: Seq<Vec<T>>) -> Seq<Seq<T>> {
    children.map_values(|c: Vec<T>| c@)
}

/// Why a crossover refused its parents.
#[derive(Clone, Copy, Debug, PartialEq, Eq)]
pub enum CrossoverError {
    /// Fewer parents than the operator takes.
    ParentCount,
    /// Parents of different lengths, for an operator that needs one length.
    LengthMismatch,
    /// A preset split that reaches past the end of a parent.
    SplitOutOfRange,
    /// A parent that holds some gene twice, for an operator that needs unique genes.
    DuplicateGenes,
    /// Parents that do not hold the same genes.
    GeneSetMismatch,
    /// A second parent without enough genes outside the first parent's swath.
    NotEnoughGenes,
    /// Parents too short to draw a split from.
    TooShort,
}

/// An operator that combines `parents()` parent sequences into `children()` child sequences.
pub trait Crossover<T> {
    spec fn arity(&self) -> nat;

    spec fn brood(&self) -> nat;

    /// `r` is an outcome that this operator allows on `parents`.
    spec fn crossed(&self, parents: Seq<Vec<T>>, r: Result<Vec<Vec<T>>, CrossoverError>) -> bool;

    fn parents(&self) -> (r: usize)
        ensures
            r == self.arity(),
            0 < r <= 0xffff_ffff,
    ;

    fn children(&self) -> (r: usize)
        ensures
            r == self.brood(),
            0 < r <= 0xffff_ffff,
    ;

    /// The parents are fit for this operator: the right number, and of the lengths, genes
    /// and splits that it needs; crossing unfit parents is a caller's error.
    spec fn accepts(&self, parents: Seq<Vec<T>>) -> bool;

    /// The operator's tests on genes are exact: it compares no genes, or `==` on its genes
    /// is value equality.
    spec fn exact_checks(&self) -> bool;

    /// Tests whether `parents` are fit for this operator.
    fn check_parents(&self, parents: &Vec<Vec<T>>) -> (r: Result<(), CrossoverError>)
        ensures
            r is Ok ==> self.accepts(parents@),
            self.exact_checks() && self.accepts(parents@) ==> r is Ok,
    ;

    fn cross(&self, parents: &Vec<Vec<T>>) -> (r: Result<Vec<Vec<T>>, CrossoverError>)
        requires
            self.accepts(parents@),
        ensures
            r matches Ok(c) ==> c.len() == self.brood(),
            self.crossed(parents@, r),
    ;
}

} // verus!
