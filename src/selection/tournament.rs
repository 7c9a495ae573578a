use vstd::prelude::*;

use crate::chromosome::Chromosome;
use crate::crossover::Crossover;
use crate::generation::{genomes, Generation};
use crate::random::{random_in, Ratio};
use crate::selection::{picked_from, selection_count, selection_size, Selection, SelectionError};
use crate::utility::copied;

verus! {

/// Tournament selection: each parent is the fittest of `tournament_size` chromosomes drawn
/// uniformly at random, with replacement.
#[derive(Clone, Copy, Debug)]
pub struct Tournament {
    pub retain_ratio: Ratio,
    pub size: usize,
}

impl Tournament {
    pub fn new(retain_ratio: Ratio, tournament_size: usize) -> (r: Self)
        ensures
            r.retain_ratio == retain_ratio,
            r.size == tournament_size,
    {
        Tournament { retain_ratio, size: tournament_size }
    }
}

/// The winner of a tournament among the contestants `draws` (places in `chromosomes`): the
/// first contestant of the highest fitness.
pub open spec fn tournament_winner<T>(
    chromosomes: Seq<Chromosome<T>>,
    draws: Seq<usize>,
    w: int,
) -> bool {
    &&& 0 <= w < draws.len()
    &&& forall|j: int|
        0 <= j < draws.len() ==> chromosomes[draws[j] as int].fitness
            <= chromosomes[draws[w] as int].fitness
    &&& forall|j: int|
        0 <= j < w ==> chromosomes[draws[j] as int].fitness < chromosomes[draws[w] as int].fitness
}

/// `genes` are those of the winner of some tournament of `size` contestants drawn from
/// `chromosomes`.
pub open spec fn tournament_pick<T>(chromosomes: Seq<Chromosome<T>>, size: nat, genes: Seq<T>) -> bool {
    exists|draws: Seq<usize>, w: int|
        {
            &&& draws.len() == size
            &&& forall|j: int| 0 <= j < draws.len() ==> (#[trigger] draws[j]) < chromosomes.len()
            &&& tournament_winner(chromosomes, draws, w)
            &&& genes == chromosomes[draws[w] as int].genes@
        }
}

/// Holds a tournament among the contestants `draws`, places in `chromosomes`; returns the
/// place in `draws` of the winner.
pub fn hold_tournament<T>(chromosomes: &[Chromosome<T>], draws: &Vec<usize>) -> (r: usize)
    requires
        draws@.len() > 0,
        forall|j: int| 0 <= j < draws@.len() ==> draws@[j] < chromosomes@.len(),
    ensures
        tournament_winner(chromosomes@, draws@, r as int),
{
    let mut best: usize = 0;
    let mut j: usize = 1;
    while j < draws.len()
        invariant
            0 < draws@.len(),
            forall|k: int| 0 <= k < draws@.len() ==> draws@[k] < chromosomes@.len(),
            1 <= j <= draws@.len(),
            tournament_winner(chromosomes@, draws@.subrange(0, j as int), best as int),
        decreases draws@.len() - j,
    {
        if chromosomes[draws[j]].fitness > chromosomes[draws[best]].fitness {
            best = j;
        }
        j = j + 1;
        proof {
            let prefix = draws@.subrange(0, j as int);
            assert forall|k: int| 0 <= k < prefix.len() implies prefix[k] == draws@[k] by {}
        }
    }
    assert(draws@.subrange(0, draws@.len() as int) =~= draws@);
    best
}

/// Whoever else is drawn, a tournament that draws the fittest chromosome of a sorted
/// generation is won by a chromosome of the highest fitness; so a tournament as large as the
/// generation picks its fittest whenever its draws reach every chromosome.
pub proof fn lemma_tournament_picks_fittest<T>(
    chromosomes: Seq<Chromosome<T>>,
    draws: Seq<usize>,
    w: int,
)
    requires
        forall|i: int, j: int|
            0 <= i < j < chromosomes.len() ==> chromosomes[i].fitness >= chromosomes[j].fitness,
        tournament_winner(chromosomes, draws, w),
        forall|j: int| 0 <= j < draws.len() ==> draws[j] < chromosomes.len(),
        exists|j: int| 0 <= j < draws.len() && draws[j] == 0,
    ensures
        chromosomes[draws[w] as int].fitness == chromosomes[0].fitness,
        forall|i: int|
            0 <= i < chromosomes.len() ==> (#[trigger] chromosomes[i]).fitness
                <= chromosomes[draws[w] as int].fitness,
{
    let j = choose|j: int| 0 <= j < draws.len() && draws[j] == 0;
    assert(chromosomes[draws[j] as int].fitness <= chromosomes[draws[w] as int].fitness);
    if draws[w] > 0 {
        assert(chromosomes[0].fitness >= chromosomes[draws[w] as int].fitness);
    }
    assert forall|i: int| 0 <= i < chromosomes.len() implies (#[trigger] chromosomes[i]).fitness
        <= chromosomes[draws[w] as int].fitness by {
        if i > 0 {
            assert(chromosomes[0].fitness >= chromosomes[i].fitness);
        }
    }
}

/// `count` places drawn uniformly at random in `0..n`.
fn draw_places(count: usize, n: usize) -> (r: Vec<usize>)
    requires
        n > 0,
    ensures
        r@.len() == count,
        forall|j: int| 0 <= j < count ==> r@[j] < n,
{
    let mut r: Vec<usize> = Vec::with_capacity(count);
    while r.len() < count
        invariant
            n > 0,
            r@.len() <= count,
            forall|j: int| 0 <= j < r@.len() ==> r@[j] < n,
        decreases count - r@.len(),
    {
        r.push(random_in(0, n));
    }
    r
}

impl<T: Copy> Selection<T> for Tournament {
    open spec fn retain(&self) -> Ratio {
        self.retain_ratio
    }

    fn retain_ratio(&self) -> Ratio {
        self.retain_ratio
    }

    open spec fn picks(
        &self,
        generation: Seq<Chromosome<T>>,
        parents: nat,
        children: nat,
        picked: Seq<Vec<T>>,
    ) -> bool {
        &&& picked.len() == selection_count(self.retain_ratio, generation.len(), parents, children)
        &&& forall|k: int|
            0 <= k < picked.len() ==> #[trigger] tournament_pick(
                generation,
                self.size as nat,
                picked[k]@,
            )
    }

    /// A tournament may not be larger than the generation.
    open spec fn accepts(&self, size: nat) -> bool {
        self.size <= size
    }

    fn check_generation(&self, generation: &Generation<T>) -> (r: bool) {
        self.size <= generation.size()
    }

    fn select<C: Crossover<T>>(&self, generation: &Generation<T>, crossover: &C) -> (r: Result<
        Vec<Vec<T>>,
        SelectionError,
    >)
        ensures
            r matches Ok(picked) ==> forall|k: int|
                0 <= k < picked.len() ==> #[trigger] tournament_pick(
                    generation@,
                    self.size as nat,
                    picked@[k]@,
                ),
            self.size > 0 && self.size <= generation@.len() && generation@.len() > 0 && selection_count(
                self.retain_ratio,
                generation@.len(),
                crossover.arity(),
                crossover.brood(),
            ) <= usize::MAX ==> r is Ok,
    {
        let size = generation.size();
        if self.size > size {
            return Err(SelectionError::TournamentTooLarge);
        }
        let parents = crossover.parents();
        let children = crossover.children();
        let count = match selection_size(self.retain_ratio, size, parents, children) {
            Some(count) => count,
            None => {
                return Err(SelectionError::TooMany);
            },
        };
        if count > 0 && size == 0 {
            return Err(SelectionError::EmptyGeneration);
        }
        if count > 0 && self.size == 0 {
            return Err(SelectionError::EmptyTournament);
        }
        let chromosomes = generation.iter();
        let mut selected: Vec<Vec<T>> = Vec::with_capacity(count);
        while selected.len() < count
            invariant
                size == generation@.len() == chromosomes@.len(),
                chromosomes@ == generation@,
                count > 0 ==> size > 0 && self.size > 0,
                selected@.len() <= count,
                picked_from(selected@, genomes(generation@)),
                forall|k: int|
                    0 <= k < selected@.len() ==> #[trigger] tournament_pick(
                        generation@,
                        self.size as nat,
                        selected@[k]@,
                    ),
            decreases count - selected@.len(),
        {
            let draws = draw_places(self.size, size);
            let w = hold_tournament(chromosomes, &draws);
            let winner = &chromosomes[draws[w]];
            let genes = copied(&winner.genes);
            proof {
                assert(genomes(generation@)[draws@[w as int] as int] == genes@);
                assert(tournament_pick(generation@, self.size as nat, genes@));
            }
            let ghost before = selected@;
            selected.push(genes);
            proof {
                assert forall|k: int| 0 <= k < selected@.len() implies #[trigger] tournament_pick(
                    generation@,
                    self.size as nat,
                    selected@[k]@,
                ) by {
                    if k < before.len() {
                        assert(selected@[k] == before[k]);
                    }
                }
            }
            proof {
                assert forall|i: int| 0 <= i < selected@.len() implies genomes(
                    generation@,
                ).contains(#[trigger] selected@[i]@) by {
                    if i < selected@.len() - 1 {
                        assert(selected@[i] == selected@.drop_last()[i]);
                    }
                }
            }
        }
        Ok(selected)
    }
}

} // verus!
