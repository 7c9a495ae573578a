use genetic::mutation::{
    CentreInverse, FlipBit, Mutation, PartialShuffle, ReverseSequence, Shuffle, Thrors, Twors,
    UniformMutation,
};
use genetic::problem::{Permutation, Problem, UniformProblem};
use genetic::random::Ratio;

fn sorted(v: &[i32]) -> Vec<i32> {
    let mut x = v.to_vec();
    x.sort();
    x
}

#[test]
fn centre_inverse_centre_inverse() {
    let mutation = CentreInverse::with_preset_split(4);
    let genes = vec![1, 2, 3, 4, 5, 6];
    let expected = vec![4, 3, 2, 1, 6, 5];
    assert!(expected == mutation.mutate(genes, Ratio::always()));
}

#[test]
fn reverse_sequence_centre_inverse() {
    let mutation = ReverseSequence::with_preset_split(1..5);
    let genes = vec![1, 2, 3, 4, 5, 6];
    let expected = vec![1, 5, 4, 3, 2, 6];
    assert!(expected == mutation.mutate(genes, Ratio::always()));
}

#[test]
fn mutations_at_rate_zero_change_nothing() {
    let genes = vec![1, 2, 3, 4, 5, 6];
    let never = Ratio::never();
    assert_eq!(Twors::new().mutate(genes.clone(), never), genes);
    assert_eq!(Thrors::new().mutate(genes.clone(), never), genes);
    assert_eq!(Shuffle::new().mutate(genes.clone(), never), genes);
    assert_eq!(CentreInverse::new().mutate(genes.clone(), never), genes);
    assert_eq!(ReverseSequence::new().mutate(genes.clone(), never), genes);
    assert_eq!(PartialShuffle::new(4).mutate(genes.clone(), never), genes);
}

#[test]
fn twors_swaps_two_genes() {
    let genes = vec![1, 2, 3, 4, 5, 6];
    let mutated = Twors::new().mutate(genes.clone(), Ratio::always());
    assert_eq!(sorted(&mutated), genes);
    let moved = (0..6).filter(|i| mutated[*i] != genes[*i]).count();
    assert_eq!(moved, 2);
}

#[test]
fn thrors_rotates_three_genes() {
    let genes = vec![1, 2, 3, 4, 5, 6];
    let mutated = Thrors::new().mutate(genes.clone(), Ratio::always());
    assert_eq!(sorted(&mutated), genes);
    let moved = (0..6).filter(|i| mutated[*i] != genes[*i]).count();
    assert_eq!(moved, 3);
}

#[test]
fn shuffle_keeps_genes() {
    let genes: Vec<i32> = (0..50).collect();
    let mutated = Shuffle::new().mutate(genes.clone(), Ratio::always());
    assert_eq!(sorted(&mutated), genes);
}

#[test]
fn partial_shuffle_keeps_the_tail() {
    let genes: Vec<i32> = (0..10).collect();
    let mutated = PartialShuffle::new(4).mutate(genes.clone(), Ratio::always());
    assert_eq!(sorted(&mutated), genes);
    assert_eq!(&mutated[4..], &genes[4..]);
}

#[test]
fn flip_bit_flips_one() {
    let genes = vec![true, true, true, true];
    let mutated = FlipBit::new().mutate(genes, Ratio::always());
    assert_eq!(mutated.iter().filter(|b| !**b).count(), 1);
}

#[derive(Clone, Copy)]
struct Sevens;

impl Problem<i32> for Sevens {
    fn generate_population(&self, size: usize) -> Vec<Vec<i32>> {
        vec![vec![7; 3]; size]
    }
}

impl UniformProblem<i32> for Sevens {
    fn gene_at(&self, _index: usize, gene: i32) -> bool {
        gene == 7
    }

    fn generate_gene(&self, _index: usize) -> i32 {
        7
    }
}

#[test]
fn uniform_mutation_regenerates_every_gene_at_rate_one() {
    let mutation = UniformMutation::new(Sevens);
    assert_eq!(mutation.mutate(vec![1, 2, 3], Ratio::always()), vec![7, 7, 7]);
    assert_eq!(mutation.mutate(vec![1, 2, 3], Ratio::never()), vec![1, 2, 3]);
}

#[test]
fn permutation_population() {
    let problem = Permutation::new(vec![1, 2, 3, 4, 5]);
    let population = problem.generate_population(6);
    assert_eq!(population.len(), 6);
    for genes in population.iter() {
        assert_eq!(sorted(genes), vec![1, 2, 3, 4, 5]);
    }
}

#[test]
fn shuffle_reorders() {
    let genes: Vec<i32> = (0..50).collect();
    let mutated = Shuffle::new().mutate(genes.clone(), Ratio::always());
    assert_ne!(mutated, genes);
}

#[test]
fn centre_inverse_split_past_end_keeps_genes() {
    let mutation = CentreInverse::with_preset_split(9);
    assert_eq!(mutation.mutate(vec![1, 2, 3], Ratio::always()), vec![1, 2, 3]);
}

#[test]
fn centre_inverse_split_at_end_reverses_all() {
    let mutation = CentreInverse::with_preset_split(3);
    assert_eq!(mutation.mutate(vec![1, 2, 3], Ratio::always()), vec![3, 2, 1]);
}
