use genetic::algorithm::{Algorithm, EvolveError};
use genetic::chromosome::Chromosome;
use genetic::crossover::{Crossover, OnePoint, PartiallyMapped};
use genetic::generation::Generation;
use genetic::mutation::{Mutation, Twors};
use genetic::random::Ratio;
use genetic::reinsertion::{Elitist, FitnessBased, Pure, Reinsertion, UniformReinsertion};
use genetic::selection::{selection_size, Selection, SelectionError, Tournament};
use genetic::termination::{Epoch, FitnessConvergence, FitnessThreshold, Iterations, Termination};
use genetic::tracking::{BestSolution, Tracking};

fn sum(genes: &Vec<i32>) -> i64 {
    genes.iter().map(|g| *g as i64).sum()
}

fn generation_of(pool: Vec<Vec<i32>>) -> Generation<i32> {
    Generation::new(pool, &sum)
}

#[test]
fn generation_is_sorted_by_fitness() {
    let generation = generation_of(vec![vec![1, 1], vec![5, 5], vec![0, 3], vec![2, 2]]);
    let fitness: Vec<i64> = generation.iter().iter().map(|c| c.fitness).collect();
    assert_eq!(fitness, vec![10, 4, 3, 2]);
    assert_eq!(generation.best().genes(), &[5, 5]);
    assert_eq!(generation.size(), 4);
    assert_eq!(generation.total_fitness(), 19);
    let top = generation.top(2);
    assert_eq!(top.len(), 2);
    assert_eq!(top[1].genes, vec![2, 2]);
}

#[test]
fn generation_reevaluate_rescores() {
    let mut generation = generation_of(vec![vec![1, 1], vec![5, 5]]);
    generation.reevaluate(&|g: &Vec<i32>| -sum(g));
    assert_eq!(generation.best().genes, vec![1, 1]);
    assert_eq!(generation.best().fitness, -2);
    assert_eq!(generation.total_fitness(), -12);
}

#[test]
fn selection_size_formula() {
    assert_eq!(selection_size(Ratio::always(), 10, 2, 2), Some(10));
    assert_eq!(selection_size(Ratio::new(1, 2), 10, 2, 1), Some(10));
    assert_eq!(selection_size(Ratio::new(1, 3), 10, 3, 1), Some(9));
    assert_eq!(selection_size(Ratio::new(3, 4), 7, 2, 2), Some(4));
    assert_eq!(selection_size(Ratio::never(), 7, 2, 2), Some(0));
}

#[test]
fn tournament_as_large_as_generation_picks_fittest() {
    let generation = generation_of(vec![vec![1, 1], vec![9, 9], vec![0, 3], vec![2, 2]]);
    let tournament = Tournament::new(Ratio::always(), 4);
    let picked = tournament.select(&generation, &OnePoint::new()).unwrap();
    assert_eq!(picked.len(), 4);
    for genes in picked.iter() {
        assert!(generation.iter().iter().any(|c| &c.genes == genes));
    }
}

#[test]
fn tournament_of_single_chromosome() {
    let generation = generation_of(vec![vec![4, 2]]);
    let tournament = Tournament::new(Ratio::new(2, 1), 1);
    let picked = tournament.select(&generation, &OnePoint::new()).unwrap();
    assert_eq!(picked, vec![vec![4, 2], vec![4, 2]]);
}

#[test]
fn tournament_without_contestants() {
    let generation = generation_of(vec![vec![1], vec![2]]);
    let tournament = Tournament::new(Ratio::always(), 0);
    assert_eq!(
        tournament.select(&generation, &OnePoint::new()),
        Err(SelectionError::EmptyTournament)
    );
}

#[test]
fn tournament_too_large() {
    let generation = generation_of(vec![vec![1], vec![2]]);
    let tournament = Tournament::new(Ratio::always(), 3);
    assert!(!Selection::<i32>::check_generation(&tournament, &generation));
    assert!(Selection::<i32>::check_generation(&Tournament::new(Ratio::always(), 2), &generation));
}

#[test]
fn elitist_fills_with_fittest() {
    let parents = generation_of(vec![vec![1], vec![7], vec![3], vec![5]]);
    let offspring = vec![Chromosome::new(vec![0], 0)];
    let next = Elitist::new().reinsert(&parents, offspring);
    assert_eq!(next.size(), 4);
    let mut genes: Vec<i32> = next.iter().iter().map(|c| c.genes[0]).collect();
    genes.sort();
    assert_eq!(genes, vec![0, 3, 5, 7]);
}

#[test]
fn elitist_keeps_surplus_offspring() {
    let parents = generation_of(vec![vec![1]]);
    let offspring = vec![Chromosome::new(vec![0], 0), Chromosome::new(vec![2], 2)];
    let next = Elitist::new().reinsert(&parents, offspring);
    assert_eq!(next.size(), 2);
    assert_eq!(next.best().genes, vec![2]);
}

#[test]
fn pure_replaces_everything() {
    let parents = generation_of(vec![vec![1], vec![7]]);
    let offspring = vec![Chromosome::new(vec![0], 0)];
    let next = Pure::new().reinsert(&parents, offspring);
    assert_eq!(next.size(), 1);
    assert_eq!(next.best().genes, vec![0]);
}

#[test]
fn uniform_reinsertion_pads_from_parents() {
    let parents = generation_of(vec![vec![1], vec![7], vec![3]]);
    let offspring = vec![Chromosome::new(vec![0], 0)];
    let next = UniformReinsertion::new().reinsert(&parents, offspring);
    assert_eq!(next.size(), 3);
    for c in next.iter().iter() {
        assert!([0, 1, 3, 7].contains(&c.genes[0]));
    }
}

#[test]
fn fitness_based_truncates_to_fittest() {
    let parents = generation_of(vec![vec![1], vec![2]]);
    let offspring = vec![
        Chromosome::new(vec![4], 0),
        Chromosome::new(vec![9], 0),
        Chromosome::new(vec![6], 0),
    ];
    let next = FitnessBased::new(&sum).reinsert(&parents, offspring);
    assert_eq!(next.size(), 2);
    assert_eq!(next.best().genes, vec![9]);
    assert_eq!(next.get(1).genes, vec![6]);
}

#[test]
fn iterations_counts_down() {
    let generation = generation_of(vec![vec![1]]);
    let mut iterations = Iterations::new(2);
    assert!(!iterations.reached(&generation));
    assert!(!iterations.reached(&generation));
    assert!(iterations.reached(&generation));
    let mut zero = Epoch::new(0);
    assert!(zero.reached(&generation));
}

#[test]
fn fitness_threshold_stops_at_threshold() {
    let generation = generation_of(vec![vec![3, 4]]);
    assert!(FitnessThreshold::new(7).reached(&generation));
    assert!(!FitnessThreshold::new(8).reached(&generation));
}

#[test]
fn fitness_convergence_streak_resets() {
    let mut convergence = FitnessConvergence::new(2, 1);
    let bests = [10, 10, 11, 20, 20, 21];
    let answers: Vec<bool> = bests
        .iter()
        .map(|b| convergence.reached(&generation_of(vec![vec![*b]])))
        .collect();
    assert_eq!(answers, vec![false, false, true, false, false, true]);
}

#[test]
fn best_solution_keeps_strict_improvements() {
    let mut best = BestSolution::new();
    best.register(&generation_of(vec![vec![3], vec![1]]));
    assert_eq!(best.best(), (vec![3], 3));
    best.register(&generation_of(vec![vec![2]]));
    assert_eq!(best.best(), (vec![3], 3));
    best.register(&generation_of(vec![vec![5]]));
    assert_eq!(best.best(), (vec![5], 5));
}

fn permutation_pool() -> Vec<Vec<i32>> {
    vec![
        vec![0, 1, 2, 3, 4, 5],
        vec![5, 4, 3, 2, 1, 0],
        vec![2, 0, 4, 1, 5, 3],
        vec![3, 5, 1, 4, 0, 2],
    ]
}

fn score(genes: &Vec<i32>) -> i64 {
    genes.iter().enumerate().map(|(i, g)| (i as i64) * (*g as i64)).sum()
}

#[test]
fn evolve_zero_iterations_returns_initial() {
    let mut algorithm = Algorithm::new(
        &score,
        Tournament::new(Ratio::always(), 2),
        (PartiallyMapped::new(), Ratio::always()),
        (Twors::new(), Ratio::always()),
        Elitist::new(),
        BestSolution::new(),
    );
    let tracking = algorithm.evolve(permutation_pool(), Iterations::new(0)).unwrap();
    assert_eq!(tracking.best().0, vec![0, 1, 2, 3, 4, 5]);
    let fitness: Vec<i64> = algorithm.generation().iter().iter().map(|c| c.fitness).collect();
    let mut expected: Vec<i64> = permutation_pool().iter().map(score).collect();
    expected.sort();
    expected.reverse();
    assert_eq!(fitness, expected);
}

#[test]
fn evolve_keeps_permutations_and_never_loses_the_best() {
    let mut algorithm = Algorithm::new(
        &score,
        Tournament::new(Ratio::always(), 2),
        (PartiallyMapped::new(), Ratio::new(9, 10)),
        (Twors::new(), Ratio::new(1, 10)),
        Elitist::new(),
        BestSolution::new(),
    );
    let best = algorithm.evolve(permutation_pool(), Iterations::new(20)).unwrap().best();
    assert!(best.1 >= score(&vec![0, 1, 2, 3, 4, 5]));
    for c in algorithm.generation().iter().iter() {
        let mut genes = c.genes.clone();
        genes.sort();
        assert_eq!(genes, vec![0, 1, 2, 3, 4, 5]);
        assert_eq!(c.fitness, score(&c.genes));
    }
}

#[test]
fn evolve_with_rate_zero_keeps_parents() {
    let mut algorithm = Algorithm::new(
        &score,
        Tournament::new(Ratio::always(), 1),
        (PartiallyMapped::new(), Ratio::never()),
        (Twors::new(), Ratio::never()),
        Pure::new(),
        BestSolution::new(),
    );
    algorithm.evolve(permutation_pool(), Iterations::new(3)).unwrap();
    for c in algorithm.generation().iter().iter() {
        assert!(permutation_pool().contains(&c.genes));
    }
}

#[test]
fn evolve_empty_pool() {
    let mut algorithm = Algorithm::new(
        &score,
        Tournament::new(Ratio::always(), 1),
        (PartiallyMapped::new(), Ratio::always()),
        (Twors::new(), Ratio::always()),
        Elitist::new(),
        BestSolution::new(),
    );
    assert_eq!(
        algorithm.evolve(Vec::new(), Iterations::new(1)).err(),
        Some(EvolveError::EmptyGeneration)
    );
}

#[test]
fn evolve_reports_crossover_error() {
    let mut algorithm = Algorithm::new(
        &score,
        Tournament::new(Ratio::always(), 1),
        (PartiallyMapped::new(), Ratio::always()),
        (Twors::new(), Ratio::never()),
        Elitist::new(),
        BestSolution::new(),
    );
    let pool = vec![vec![1, 1, 2], vec![1, 1, 2]];
    assert!(matches!(
        algorithm.evolve(pool, Iterations::new(1)).err(),
        Some(EvolveError::Crossover(_))
    ));
}

#[test]
fn rate_zero_gate_passes_group_through() {
    let group = vec![vec![3, 1, 2], vec![2, 3, 1]];
    let out = genetic::algorithm::offspring_of(&PartiallyMapped::new(), group.clone(), Ratio::never());
    assert_eq!(out, Ok(group));
}

#[test]
fn mutation_trait_is_object_of_driver() {
    let genes = Mutation::<i32>::mutate(&Twors::new(), vec![1, 2], Ratio::never());
    assert_eq!(genes, vec![1, 2]);
    assert_eq!(Crossover::<i32>::parents(&OnePoint::new()), 2);
}

struct CountingTracker {
    registered: usize,
}

impl Tracking<i32> for CountingTracker {
    fn registers(&self, _generation: Generation<i32>, next: Self) -> bool {
        next.registered == self.registered + 1
    }

    fn register(&mut self, _generation: &Generation<i32>) {
        self.registered += 1;
    }
}

#[test]
fn iterations_evolve_exactly_n_generations() {
    for n in 0..5 {
        let mut algorithm = Algorithm::new(
            &score,
            Tournament::new(Ratio::always(), 2),
            (PartiallyMapped::new(), Ratio::always()),
            (Twors::new(), Ratio::always()),
            Elitist::new(),
            CountingTracker { registered: 0 },
        );
        let tracker = algorithm.evolve(permutation_pool(), Iterations::new(n as isize)).unwrap();
        assert_eq!(tracker.registered, n + 1);
    }
}

#[test]
fn fitness_convergence_ends_a_run() {
    let mut algorithm = Algorithm::new(
        &score,
        Tournament::new(Ratio::always(), 2),
        (PartiallyMapped::new(), Ratio::always()),
        (Twors::new(), Ratio::always()),
        Elitist::new(),
        CountingTracker { registered: 0 },
    );
    let tracker = algorithm.evolve(permutation_pool(), FitnessConvergence::new(3, 1000)).unwrap();
    assert_eq!(tracker.registered, 4);
}

#[test]
fn fitness_threshold_ends_a_run_at_once() {
    let mut algorithm = Algorithm::new(
        &score,
        Tournament::new(Ratio::always(), 2),
        (PartiallyMapped::new(), Ratio::always()),
        (Twors::new(), Ratio::always()),
        Elitist::new(),
        CountingTracker { registered: 0 },
    );
    let tracker = algorithm.evolve(permutation_pool(), FitnessThreshold::new(0)).unwrap();
    assert_eq!(tracker.registered, 1);
}

#[test]
fn evolve_stops_on_an_unfit_generation() {
    let mut algorithm = Algorithm::new(
        &score,
        Tournament::new(Ratio::always(), 9),
        (PartiallyMapped::new(), Ratio::always()),
        (Twors::new(), Ratio::always()),
        Elitist::new(),
        BestSolution::new(),
    );
    assert_eq!(
        algorithm.evolve(permutation_pool(), Iterations::new(1)).err(),
        Some(EvolveError::UnfitGeneration)
    );
}

#[test]
fn breed_at_rate_zero_passes_parents_through() {
    let selected = vec![vec![3, 1, 2], vec![2, 3, 1], vec![1, 2, 3]];
    let offspring = genetic::algorithm::breed(
        &PartiallyMapped::new(),
        Ratio::never(),
        &Twors::new(),
        Ratio::never(),
        &selected,
    )
    .unwrap();
    let genes: Vec<Vec<i32>> = offspring.iter().map(|c| c.genes.clone()).collect();
    assert_eq!(genes, selected);
}

#[test]
fn one_step_keeps_the_population_size() {
    let mut algorithm = Algorithm::new(
        &score,
        Tournament::new(Ratio::always(), 2),
        (PartiallyMapped::new(), Ratio::always()),
        (Twors::new(), Ratio::always()),
        Elitist::new(),
        BestSolution::new(),
    );
    algorithm.evolve(permutation_pool(), Iterations::new(0)).unwrap();
    algorithm.step().unwrap();
    assert_eq!(algorithm.generation().size(), 4);
    for c in algorithm.generation().iter().iter() {
        assert_eq!(c.fitness, score(&c.genes));
    }
}

#[test]
fn pairs_and_triples() {
    let v = vec![1, 2, 3, 4, 5, 6, 7];
    assert_eq!(genetic::utility::pairs(&v), vec![(1, 2), (3, 4), (5, 6)]);
    assert_eq!(genetic::utility::triples(&v), vec![(1, 2, 3), (4, 5, 6)]);
}

#[test]
fn tracker_of_an_unevolved_run_holds_the_initial_best() {
    let mut algorithm = Algorithm::new(
        &score,
        Tournament::new(Ratio::always(), 2),
        (PartiallyMapped::new(), Ratio::always()),
        (Twors::new(), Ratio::always()),
        Elitist::new(),
        BestSolution::new(),
    );
    let best = algorithm.evolve(permutation_pool(), Iterations::new(0)).unwrap().best();
    let initial = Generation::new(permutation_pool(), &score);
    assert_eq!(best.1, initial.best().fitness);
    assert_eq!(best.0, initial.best().genes);
}
