use vstd::prelude::*;

use vstd::multiset::Multiset;

use crate::chromosome::Chromosome;
use crate::utility::{copied, lemma_map_permutation};

verus! {

broadcast use vstd::seq_lib::group_to_multiset_ensures;

/// Fitness never rises along `s`.
pub open spec fn sorted_by_fitness<T>(s: Seq<Chromosome<T>>) -> bool {
    forall|i: int, j: int| 0 <= i < j < s.len() ==> s[i].fitness >= s[j].fitness
}

/// The sum of the fitness of the chromosomes of `s`.
pub open spec fn fitness_sum<T>(s: Seq<Chromosome<T>>) -> int
    decreases s.len(),
{
    if s.len() == 0 {
        0
    } else {
        fitness_sum(s.drop_last()) + s.last().fitness
    }
}

/// The genes and fitness of each chromosome of `s`, in order.
pub open spec fn scored_genomes<T>(s: Seq<Chromosome<T>>) -> Seq<(Seq<T>, i64)> {
    s.map_values(|c: Chromosome<T>| (c.genes@, c.fitness))
}

/// The gene sequences of `s`, in order.
pub open spec fn genomes<T>(s: Seq<Chromosome<T>>) -> Seq<Seq<T>> {
    s.map_values(|c: Chromosome<T>| c.genes@)
}

/// `scored` holds `genes`, each with the fitness that `fitness` gives it.
pub open spec fn scored_by<T, F: Fn(&Vec<T>) -> i64>(
    fitness: F,
    genes: Seq<Vec<T>>,
    scored: Seq<Chromosome<T>>,
) -> bool {
    &&& scored.len() == genes.len()
    &&& forall|i: int|
        0 <= i < scored.len() ==> (#[trigger] scored[i]).genes@ == genes[i]@ && fitness.ensures(
            (&genes[i],),
            scored[i].fitness,
        )
}

/// Each chromosome of `s` carries the fitness that `fitness` gives its genes.
pub open spec fn all_scored_by<T, F: Fn(&Vec<T>) -> i64>(fitness: F, s: Seq<Chromosome<T>>) -> bool {
    forall|i: int| 0 <= i < s.len() ==> #[trigger] scored_as(fitness, s[i])
}

/// `c` carries the fitness that `fitness` gives its genes.
pub open spec fn scored_as<T, F: Fn(&Vec<T>) -> i64>(fitness: F, c: Chromosome<T>) -> bool {
    exists|g: Vec<T>| g@ == c.genes@ && fitness.ensures((&g,), c.fitness)
}

/// A reordering of scored chromosomes is scored too.
pub proof fn lemma_scored_reordering<T, F: Fn(&Vec<T>) -> i64>(
    fitness: F,
    genes: Seq<Vec<T>>,
    scored: Seq<Chromosome<T>>,
    s: Seq<Chromosome<T>>,
)
    requires
        scored_by(fitness, genes, scored),
        s.to_multiset() == scored.to_multiset(),
    ensures
        all_scored_by(fitness, s),
{
    assert forall|i: int| 0 <= i < s.len() implies #[trigger] scored_as(fitness, s[i]) by {
        vstd::seq_lib::to_multiset_contains(s, s[i]);
        vstd::seq_lib::to_multiset_contains(scored, s[i]);
        assert(s.to_multiset().count(s[i]) > 0);
        let j = choose|j: int| 0 <= j < scored.len() && scored[j] == s[i];
        assert(scored[j].genes@ == genes[j]@);
    }
}

/// The population of one iteration, kept sorted from the fittest down.
pub struct Generation<T> {
    chromosomes: Vec<Chromosome<T>>,
    total_fitness: i128,
}

impl<T> View for Generation<T> {
    type V = Seq<Chromosome<T>>;

    closed spec fn view(&self) -> Seq<Chromosome<T>> {
        self.chromosomes@
    }
}

proof fn lemma_fitness_sum_bounds<T>(s: Seq<Chromosome<T>>)
    ensures
        -(s.len() * 0x8000_0000_0000_0000) <= fitness_sum(s) <= s.len() * 0x8000_0000_0000_0000,
    decreases s.len(),
{
    if s.len() > 0 {
        lemma_fitness_sum_bounds(s.drop_last());
    }
}

/// Sorts `v` from the fittest down, keeping the order of chromosomes of equal fitness.
fn sort_by_fitness<T>(v: Vec<Chromosome<T>>) -> (r: Vec<Chromosome<T>>)
    ensures
        sorted_by_fitness(r@),
        r@.to_multiset() == v@.to_multiset(),
{
    let mut rest = v;
    let mut sorted: Vec<Chromosome<T>> = Vec::new();
    while rest.len() > 0
        invariant
            sorted_by_fitness(sorted@),
            sorted@.to_multiset().add(rest@.to_multiset()) == v@.to_multiset(),
        decreases rest.len(),
    {
        let ghost before = rest@;
        let c = rest.pop().unwrap();
        proof {
            assert(before =~= rest@.push(c));
        }
        let mut j: usize = 0;
        while j < sorted.len() && sorted[j].fitness > c.fitness
            invariant
                j <= sorted.len(),
                forall|k: int| 0 <= k < j ==> sorted@[k].fitness > c.fitness,
            decreases sorted.len() - j,
        {
            j = j + 1;
        }
        let ghost old_sorted = sorted@;
        sorted.insert(j, c);
        proof {
            assert forall|a: int, b: int| 0 <= a < b < sorted@.len() implies sorted@[a].fitness
                >= sorted@[b].fitness by {
                if j < old_sorted.len() {
                    assert(old_sorted[j as int].fitness <= c.fitness);
                }
            }
            assert(sorted@.to_multiset() =~= old_sorted.to_multiset().insert(c));
            assert(before.to_multiset() =~= rest@.to_multiset().insert(c));
        }
    }
    proof {
        assert(rest@.to_multiset() =~= Multiset::empty());
    }
    sorted
}

impl<T> Generation<T> {
    #[verifier::type_invariant]
    closed spec fn well_formed(self) -> bool {
        &&& sorted_by_fitness(self.chromosomes@)
        &&& self.total_fitness == fitness_sum(self.chromosomes@)
    }
}

impl<T: Copy> Generation<T> {
    /// A generation of no chromosome.
    pub fn empty() -> (r: Self)
        ensures
            r@.len() == 0,
    {
        Generation { chromosomes: Vec::new(), total_fitness: 0 }
    }

    /// The generation of `chromosomes` with the fitness they carry, sorted from the fittest
    /// down.
    pub fn from_chromosomes(chromosomes: Vec<Chromosome<T>>) -> (r: Self)
        ensures
            sorted_by_fitness(r@),
            r@.len() == chromosomes@.len(),
            r@.to_multiset() == chromosomes@.to_multiset(),
            scored_genomes(r@).to_multiset() == scored_genomes(chromosomes@).to_multiset(),
    {
        let sorted = sort_by_fitness(chromosomes);
        proof {
            vstd::seq_lib::to_multiset_len(sorted@);
            vstd::seq_lib::to_multiset_len(chromosomes@);
            lemma_map_permutation(
                sorted@,
                chromosomes@,
                |c: Chromosome<T>| (c.genes@, c.fitness),
            );
        }
        let total = total_of(&sorted);
        Generation { chromosomes: sorted, total_fitness: total }
    }

    /// Scores each gene sequence of `pool` with `fitness` and sorts the result from the
    /// fittest down.
    pub fn new<F: Fn(&Vec<T>) -> i64>(pool: Vec<Vec<T>>, fitness: &F) -> (r: Self)
        requires
            forall|g: &Vec<T>| fitness.requires((g,)),
        ensures
            sorted_by_fitness(r@),
            r@.len() == pool@.len(),
            all_scored_by(*fitness, r@),
            exists|scored: Seq<Chromosome<T>>|
                scored_by(*fitness, pool@, scored) && r@.to_multiset() == scored.to_multiset(),
    {
        let scored = score(&pool, fitness);
        let ghost witness = scored@;
        let r = Self::from_chromosomes(scored);
        proof {
            lemma_scored_reordering(*fitness, pool@, witness, r@);
        }
        r
    }

    /// The fittest chromosome.
    pub fn best(&self) -> (r: &Chromosome<T>)
        requires
            self@.len() > 0,
        ensures
            *r == self@[0],
            forall|i: int| 0 <= i < self@.len() ==> self@[i].fitness <= r.fitness,
    {
        proof {
            use_type_invariant(self);
        }
        &self.chromosomes[0]
    }

    /// The chromosome at place `i`, counted from the fittest.
    pub fn get(&self, i: usize) -> (r: &Chromosome<T>)
        requires
            i < self@.len(),
        ensures
            *r == self@[i as int],
    {
        &self.chromosomes[i]
    }

    /// All chromosomes, from the fittest down.
    pub fn iter(&self) -> (r: &[Chromosome<T>])
        ensures
            r@ == self@,
    {
        self.chromosomes.as_slice()
    }

    /// The number of chromosomes; the generation is sorted from the fittest down.
    pub fn size(&self) -> (r: usize)
        ensures
            r == self@.len(),
            sorted_by_fitness(self@),
    {
        proof {
            use_type_invariant(self);
        }
        self.chromosomes.len()
    }

    /// Copies of the `n` fittest chromosomes, from the fittest down.
    pub fn top(&self, n: usize) -> (r: Vec<Chromosome<T>>)
        requires
            n <= self@.len(),
        ensures
            r@.len() == n,
            scored_genomes(r@) == scored_genomes(self@.subrange(0, n as int)),
            forall|i: int|
                0 <= i < n ==> (#[trigger] r@[i]).genes@ == self@[i].genes@ && r@[i].fitness
                    == self@[i].fitness,
    {
        let mut r: Vec<Chromosome<T>> = Vec::with_capacity(n);
        let mut i: usize = 0;
        while i < n
            invariant
                i <= n <= self@.len(),
                r@.len() == i,
                forall|k: int|
                    0 <= k < i ==> (#[trigger] r@[k]).genes@ == self@[k].genes@ && r@[k].fitness
                        == self@[k].fitness,
            decreases n - i,
        {
            r.push(self.chromosomes[i].duplicate());
            i = i + 1;
        }
        assert(scored_genomes(r@) =~= scored_genomes(self@.subrange(0, n as int)));
        r
    }

    /// The sum of the fitness of all chromosomes.
    pub fn total_fitness(&self) -> (r: i128)
        ensures
            r == fitness_sum(self@),
    {
        proof {
            use_type_invariant(self);
        }
        self.total_fitness
    }

    /// Scores every chromosome anew with `fitness` and sorts again.
    pub fn reevaluate<F: Fn(&Vec<T>) -> i64>(&mut self, fitness: &F)
        requires
            forall|g: &Vec<T>| fitness.requires((g,)),
        ensures
            sorted_by_fitness(final(self)@),
            final(self)@.len() == old(self)@.len(),
            all_scored_by(*fitness, final(self)@),
            exists|scored: Seq<Chromosome<T>>|
                scored_by(*fitness, genome_vecs(old(self)@), scored) && final(self)@.to_multiset()
                    == scored.to_multiset(),
    {
        let mut rescored: Vec<Chromosome<T>> = Vec::with_capacity(self.chromosomes.len());
        let mut i: usize = 0;
        while i < self.chromosomes.len()
            invariant
                i <= self@.len(),
                self@ == old(self)@,
                forall|g: &Vec<T>| fitness.requires((g,)),
                rescored@.len() == i,
                forall|k: int|
                    0 <= k < i ==> (#[trigger] rescored@[k]).genes@ == genome_vecs(self@)[k]@
                        && fitness.ensures((&genome_vecs(self@)[k],), rescored@[k].fitness),
            decreases self@.len() - i,
        {
            let f = fitness(&self.chromosomes[i].genes);
            rescored.push(Chromosome { genes: copied(&self.chromosomes[i].genes), fitness: f });
            i = i + 1;
        }
        let ghost witness = rescored@;
        assert(scored_by(*fitness, genome_vecs(old(self)@), witness));
        let fresh = Self::from_chromosomes(rescored);
        proof {
            vstd::seq_lib::to_multiset_len(fresh@);
            vstd::seq_lib::to_multiset_len(witness);
            lemma_scored_reordering(*fitness, genome_vecs(old(self)@), witness, fresh@);
        }
        *self = fresh;
    }
}

/// The gene vectors of `s`, in order.
pub open spec fn genome_vecs<T>(s: Seq<Chromosome<T>>) -> Seq<Vec<T>> {
    s.map_values(|c: Chromosome<T>| c.genes)
}

/// Each gene sequence of `pool`, scored by `fitness`, in order.
fn score<T: Copy, F: Fn(&Vec<T>) -> i64>(pool: &Vec<Vec<T>>, fitness: &F) -> (r: Vec<
    Chromosome<T>,
>)
    requires
        forall|g: &Vec<T>| fitness.requires((g,)),
    ensures
        scored_by(*fitness, pool@, r@),
{
    let mut r: Vec<Chromosome<T>> = Vec::with_capacity(pool.len());
    let mut i: usize = 0;
    while i < pool.len()
        invariant
            i <= pool.len(),
            forall|g: &Vec<T>| fitness.requires((g,)),
            r@.len() == i,
            forall|k: int|
                0 <= k < i ==> (#[trigger] r@[k]).genes@ == pool@[k]@ && fitness.ensures(
                    (&pool@[k],),
                    r@[k].fitness,
                ),
        decreases pool.len() - i,
    {
        let f = fitness(&pool[i]);
        r.push(Chromosome { genes: copied(&pool[i]), fitness: f });
        i = i + 1;
    }
    r
}

/// The sum of the fitness of `v`.
fn total_of<T>(v: &Vec<Chromosome<T>>) -> (r: i128)
    ensures
        r == fitness_sum(v@),
{
    let mut total: i128 = 0;
    let mut i: usize = 0;
    while i < v.len()
        invariant
            i <= v.len(),
            total == fitness_sum(v@.subrange(0, i as int)),
        decreases v.len() - i,
    {
        proof {
            let s = v@.subrange(0, i as int + 1);
            assert(s.drop_last() =~= v@.subrange(0, i as int));
            lemma_fitness_sum_bounds(s);
            assert(i + 1 <= usize::MAX);
        }
        total = total + v[i].fitness as i128;
        i = i + 1;
    }
    assert(v@.subrange(0, v@.len() as int) =~= v@);
    total
}

} // verus!
