use genetic::crossover::{
    CrossoverError, Crossover, CutAndSplice, Cycle, EdgeRecombination, HalfUniform, OnePoint,
    Order1, PartiallyMapped, PrecedencePreservative, ThreeParent, TwoPoint, UniformCrossover,
};
use genetic::random::Ratio;

fn is_permutation(a: &[i32], b: &[i32]) -> bool {
    let mut x = a.to_vec();
    let mut y = b.to_vec();
    x.sort();
    y.sort();
    x == y
}

fn count(child: &[i32], value: i32) -> usize {
    child.iter().filter(|x| **x == value).count()
}

#[test]
fn one_point_cross() {
    let parents = vec![vec![0, 1, 2, 3, 4, 5], vec![6, 7, 8, 9, 10, 11]];
    let children = OnePoint::with_preset_split(3).cross(&parents).unwrap();
    assert_eq!(children, vec![vec![0, 1, 2, 9, 10, 11], vec![6, 7, 8, 3, 4, 5]]);
}

#[test]
fn one_point_different_length() {
    let parents = vec![vec![8, 4, 7, 3, 6, 2, 5, 1], vec![0, 1, 2, 3, 4, 5, 6, 7, 8, 9]];
    assert_eq!(OnePoint::new().check_parents(&parents), Err(CrossoverError::LengthMismatch));
}

#[test]
fn one_point_split_past_end() {
    let parents = vec![vec![0, 1, 2], vec![3, 4, 5]];
    assert_eq!(OnePoint::with_preset_split(4).check_parents(&parents), Err(CrossoverError::SplitOutOfRange));
}

#[test]
fn one_point_random_split_keeps_prefixes() {
    let parents = vec![vec![0, 1, 2, 3, 4, 5], vec![6, 7, 8, 9, 10, 11]];
    let children = OnePoint::new().cross(&parents).unwrap();
    assert_eq!(children.len(), 2);
    let split = (0..6).find(|i| children[0][*i] != parents[0][*i]).unwrap_or(6);
    assert!(split < 6);
    let first: Vec<i32> = parents[0][..split].iter().chain(parents[1][split..].iter()).cloned().collect();
    let second: Vec<i32> = parents[1][..split].iter().chain(parents[0][split..].iter()).cloned().collect();
    assert_eq!(children, vec![first, second]);
}

#[test]
fn two_point_cross() {
    let parents = vec![vec![0, 1, 2, 3, 4, 5, 6, 7], vec![8, 9, 10, 11, 12, 13, 14, 15]];
    let children = TwoPoint::with_preset_split(2..5).cross(&parents).unwrap();
    assert_eq!(
        children,
        vec![vec![0, 1, 10, 11, 12, 5, 6, 7], vec![8, 9, 2, 3, 4, 13, 14, 15]]
    );
}

#[test]
fn two_point_different_length() {
    let parents = vec![vec![8, 4, 7, 3, 6, 2, 5, 1], vec![0, 1, 2, 3, 4, 5, 6, 7, 8, 9]];
    assert_eq!(TwoPoint::new().check_parents(&parents), Err(CrossoverError::LengthMismatch));
}

#[test]
fn cut_splice_cross() {
    let parents = vec![vec![0, 1, 2, 3, 4, 5, 6, 7], vec![8, 9, 10, 11, 12, 13, 14, 15]];
    let children = CutAndSplice::with_preset_split(3, 5).cross(&parents).unwrap();
    assert_eq!(
        children,
        vec![vec![0, 1, 2, 13, 14, 15], vec![8, 9, 10, 11, 12, 3, 4, 5, 6, 7]]
    );
}

#[test]
fn cut_splice_different_lengths_allowed() {
    let parents = vec![vec![0, 1, 2], vec![3, 4, 5, 6, 7]];
    let children = CutAndSplice::new().cross(&parents).unwrap();
    assert_eq!(children[0].len() + children[1].len(), 8);
}

#[test]
fn three_parent_cross() {
    let parents = vec![
        vec![0, 0, 1, 1, 0, 0, 1, 1],
        vec![0, 1, 0, 1, 0, 1, 0, 1],
        vec![0, 0, 0, 0, 1, 1, 1, 1],
    ];
    let children = ThreeParent::new().cross(&parents).unwrap();
    assert_eq!(children, vec![vec![0, 0, 0, 1, 0, 1, 1, 1]]);
}

#[test]
fn three_parent_different_length() {
    let parents = vec![vec![8, 4, 7, 3, 6, 2, 5, 1], vec![0, 1, 2, 3, 4, 5, 6, 7, 8, 9], vec![1, 2, 3]];
    assert_eq!(ThreeParent::new().check_parents(&parents), Err(CrossoverError::LengthMismatch));
}

#[test]
fn three_parent_needs_three() {
    let parents = vec![vec![1, 2], vec![3, 4]];
    assert_eq!(ThreeParent::new().check_parents(&parents), Err(CrossoverError::ParentCount));
}

#[test]
fn uniform_cross_prob0() {
    let parents = vec![vec![0, 1, 2, 3, 4, 5, 6, 7], vec![8, 9, 10, 11, 12, 13, 14, 15]];
    let children = UniformCrossover::new(Ratio::never()).cross(&parents).unwrap();
    assert_eq!(children, parents);
}

#[test]
fn uniform_cross_prob1() {
    let parents = vec![vec![0, 1, 2, 3, 4, 5, 6, 7], vec![8, 9, 10, 11, 12, 13, 14, 15]];
    let children = UniformCrossover::new(Ratio::always()).cross(&parents).unwrap();
    assert_eq!(children, vec![parents[1].clone(), parents[0].clone()]);
}

#[test]
fn uniform_cross_different_length() {
    let parents = vec![vec![8, 4, 7, 3, 6, 2, 5, 1], vec![0, 1, 2, 3, 4, 5, 6, 7, 8, 9]];
    assert_eq!(
        UniformCrossover::new(Ratio::never()).check_parents(&parents),
        Err(CrossoverError::LengthMismatch)
    );
}

#[test]
fn uniform_cross_prob05() {
    let length = 10000;
    let epsilon = 0.03;
    let parents: Vec<Vec<i32>> = vec![vec![0; length], vec![1; length]];
    let uniform = UniformCrossover::new(Ratio::new(1, 2));
    let children = uniform.cross(&parents).unwrap();
    for child in children.iter() {
        let test0 = count(child, 0) as f64 / length as f64;
        let test1 = count(child, 1) as f64 / length as f64;
        assert!(approx::AbsDiffEq::abs_diff_eq(&test0, &0.5, epsilon));
        assert!(approx::AbsDiffEq::abs_diff_eq(&test1, &0.5, epsilon));
    }
}

#[test]
fn half_uniform_cross() {
    let length = 10000;
    let epsilon = 0.01;
    let parents: Vec<Vec<i32>> = vec![vec![0; length], vec![1; length]];
    let half_uniform = HalfUniform::new();
    let children = half_uniform.cross(&parents).unwrap();
    for child in children.iter() {
        let test0 = count(child, 0) as f64 / length as f64;
        let test1 = count(child, 1) as f64 / length as f64;
        assert!(approx::AbsDiffEq::abs_diff_eq(&test0, &0.5, epsilon));
        assert!(approx::AbsDiffEq::abs_diff_eq(&test1, &0.5, epsilon));
    }
}

#[test]
fn half_uniform_swaps_exactly_half_of_differences() {
    let parents = vec![vec![1, 2, 3, 4, 5, 6, 7], vec![1, 0, 3, 0, 5, 0, 0]];
    let children = HalfUniform::new().cross(&parents).unwrap();
    let swapped = (0..7).filter(|i| children[0][*i] != parents[0][*i]).count();
    assert_eq!(swapped, 2);
    for i in 0..7 {
        assert!(
            (children[0][i] == parents[0][i] && children[1][i] == parents[1][i])
                || (children[0][i] == parents[1][i] && children[1][i] == parents[0][i])
        );
    }
}

#[test]
fn half_uniform_different_length() {
    let parents = vec![vec![8, 4, 7, 3, 6, 2, 5, 1], vec![0, 1, 2, 3, 4, 5, 6, 7, 8, 9]];
    assert_eq!(HalfUniform::new().check_parents(&parents), Err(CrossoverError::LengthMismatch));
}

#[test]
fn order1_cross() {
    let parents = vec![vec![8, 4, 7, 3, 6, 2, 5, 1, 9, 0], vec![0, 1, 2, 3, 4, 5, 6, 7, 8, 9]];
    let children = Order1::with_preset_split(3..8).cross(&parents).unwrap();
    assert_eq!(
        children,
        vec![vec![0, 4, 7, 3, 6, 2, 5, 1, 8, 9], vec![8, 2, 1, 3, 4, 5, 6, 7, 9, 0]]
    );
}

#[test]
fn order1_different_length() {
    let parents = vec![vec![8, 4, 7, 3, 6, 2, 5, 1], vec![0, 1, 2, 3, 4, 5, 6, 7, 8, 9]];
    assert_eq!(Order1::new().check_parents(&parents), Err(CrossoverError::LengthMismatch));
}

#[test]
fn order1_not_enough_genes() {
    let parents = vec![vec![8, 4, 7, 3, 6, 2, 5, 1, 9, 0], vec![3, 3, 3, 3, 3, 3, 3, 3, 3, 3]];
    assert_eq!(
        Order1::with_preset_split(3..4).check_parents(&parents),
        Err(CrossoverError::DuplicateGenes)
    );
}

#[test]
fn partially_mapped_cross() {
    let parents = vec![vec![8, 4, 7, 3, 6, 2, 5, 1, 9, 0], vec![0, 1, 2, 3, 4, 5, 6, 7, 8, 9]];
    let children = PartiallyMapped::with_preset_split(3..8).cross(&parents).unwrap();
    assert_eq!(
        children,
        vec![vec![0, 7, 4, 3, 6, 2, 5, 1, 8, 9], vec![8, 2, 1, 3, 4, 5, 6, 7, 9, 0]]
    );
}

#[test]
fn partially_mapped_different_length() {
    let parents = vec![vec![8, 4, 7, 3, 6, 2, 5, 1], vec![0, 1, 2, 3, 4, 5, 6, 7, 8, 9]];
    assert_eq!(PartiallyMapped::new().check_parents(&parents), Err(CrossoverError::LengthMismatch));
}

#[test]
fn partially_mapped_different_gene_sets() {
    let parents = vec![vec![8, 4, 7, 3, 6, 2, 5, 1, 9, 0], vec![3, 3, 3, 3, 3, 3, 3, 3, 3, 3]];
    assert_eq!(
        PartiallyMapped::with_preset_split(3..4).check_parents(&parents),
        Err(CrossoverError::DuplicateGenes)
    );
}

#[test]
fn partially_mapped_mismatched_sets() {
    let parents = vec![vec![1, 2, 3, 4], vec![1, 2, 3, 5]];
    assert_eq!(PartiallyMapped::new().check_parents(&parents), Err(CrossoverError::GeneSetMismatch));
}

#[test]
fn partially_mapped_children_are_permutations() {
    let parents = vec![vec![8, 4, 7, 3, 6, 2, 5, 1, 9, 0], vec![0, 1, 2, 3, 4, 5, 6, 7, 8, 9]];
    for _ in 0..50 {
        let children = PartiallyMapped::new().cross(&parents).unwrap();
        assert!(is_permutation(&children[0], &parents[0]));
        assert!(is_permutation(&children[1], &parents[0]));
    }
}

#[test]
fn cycle_cross() {
    let parents = vec![vec![8, 4, 7, 3, 6, 2, 5, 1, 9, 0], vec![0, 1, 2, 3, 4, 5, 6, 7, 8, 9]];
    let children = Cycle::new().cross(&parents).unwrap();
    assert_eq!(
        children,
        vec![vec![8, 1, 2, 3, 4, 5, 6, 7, 9, 0], vec![0, 4, 7, 3, 6, 2, 5, 1, 8, 9]]
    );
}

#[test]
fn cycle_different_length() {
    let parents = vec![vec![8, 4, 7, 3, 6, 2, 5, 1], vec![0, 1, 2, 3, 4, 5, 6, 7, 8, 9]];
    assert_eq!(Cycle::new().check_parents(&parents), Err(CrossoverError::LengthMismatch));
}

#[test]
fn cycle_different_gene_sets() {
    let parents = vec![vec![8, 4, 7, 3, 6, 2, 5, 1, 9, 100], vec![0, 1, 2, 3, 4, 5, 6, 7, 8, 9]];
    assert_eq!(Cycle::new().check_parents(&parents), Err(CrossoverError::GeneSetMismatch));
}

#[test]
fn cycle_children_are_permutations() {
    let parents = vec![vec![3, 1, 4, 0, 5, 2], vec![5, 4, 3, 2, 1, 0]];
    let children = Cycle::new().cross(&parents).unwrap();
    assert!(is_permutation(&children[0], &parents[0]));
    assert!(is_permutation(&children[1], &parents[0]));
}

#[test]
fn edge_recombination_children_are_permutations() {
    let parents = vec![vec![8, 4, 7, 3, 6, 2, 5, 1, 9, 0], vec![0, 1, 2, 3, 4, 5, 6, 7, 8, 9]];
    for _ in 0..50 {
        let children = EdgeRecombination::new().cross(&parents).unwrap();
        assert_eq!(children.len(), 2);
        assert!(is_permutation(&children[0], &parents[0]));
        assert!(is_permutation(&children[1], &parents[0]));
    }
}

#[test]
fn edge_recombination_follows_shared_edges() {
    let parents = vec![vec![0, 1, 2, 3, 4, 5], vec![0, 1, 2, 3, 4, 5]];
    let children = EdgeRecombination::new().cross(&parents).unwrap();
    for child in children.iter() {
        let start = child.iter().position(|g| *g == 0).unwrap();
        let rotated: Vec<i32> = child[start..].iter().chain(child[..start].iter()).cloned().collect();
        let forward = vec![0, 1, 2, 3, 4, 5];
        let backward = vec![0, 5, 4, 3, 2, 1];
        assert!(rotated == forward || rotated == backward);
    }
}

#[test]
fn edge_recombination_too_short() {
    let parents = vec![vec![1], vec![1]];
    assert_eq!(EdgeRecombination::new().check_parents(&parents), Err(CrossoverError::TooShort));
}

#[test]
fn precedence_preservative_different_length() {
    let parents = vec![vec![8, 4, 7, 3, 6, 2, 5, 1], vec![0, 1, 2, 3, 4, 5, 6, 7, 8, 9]];
    assert_eq!(
        PrecedencePreservative::new().check_parents(&parents),
        Err(CrossoverError::LengthMismatch)
    );
}

#[test]
fn precedence_preservative_child_is_permutation() {
    let parents = vec![vec![8, 4, 7, 3, 6, 2, 5, 1, 9, 0], vec![0, 1, 2, 3, 4, 5, 6, 7, 8, 9]];
    let children = PrecedencePreservative::new().cross(&parents).unwrap();
    assert_eq!(children.len(), 1);
    assert!(is_permutation(&children[0], &parents[0]));
}

#[test]
fn fit_parents_pass_the_check() {
    let parents = vec![vec![8, 4, 7, 3, 6, 2, 5, 1, 9, 0], vec![0, 1, 2, 3, 4, 5, 6, 7, 8, 9]];
    assert_eq!(Cycle::new().check_parents(&parents), Ok(()));
    assert_eq!(PartiallyMapped::with_preset_split(3..8).check_parents(&parents), Ok(()));
    assert_eq!(EdgeRecombination::new().check_parents(&parents), Ok(()));
    assert_eq!(Order1::new().check_parents(&parents), Ok(()));
}

#[test]
fn arities() {
    assert_eq!(Crossover::<i32>::parents(&ThreeParent::new()), 3);
    assert_eq!(Crossover::<i32>::children(&ThreeParent::new()), 1);
    assert_eq!(Crossover::<i32>::children(&PrecedencePreservative::new()), 1);
    assert_eq!(Crossover::<i32>::parents(&Cycle::new()), 2);
    assert_eq!(Crossover::<i32>::children(&EdgeRecombination::new()), 2);
}
