use vstd::prelude::*;

use crate::chromosome::Chromosome;
use crate::crossover::{genes_of, Crossover, CrossoverError};
use crate::generation::{all_scored_by, genome_vecs, scored_by, sorted_by_fitness, Generation};
use crate::mutation::Mutation;
use crate::random::{happens, Ratio};
use crate::reinsertion::Reinsertion;
use crate::selection::{Selection, SelectionError};
use crate::termination::{lemma_state_after_prefix, state_after, stops_after, Termination};
use crate::tracking::Tracking;
use crate::utility::copied;

verus! {

/// Why a run of the algorithm stopped before its termination was reached.
#[derive(Clone, Copy, Debug, PartialEq, Eq)]
pub enum EvolveError {
    /// A generation without any chromosome.
    EmptyGeneration,
    /// The selection does not accept the current generation.
    UnfitGeneration,
    /// The selection could not pick parents.
    Selection(SelectionError),
    /// The crossover refused a parent group.
    Crossover(CrossoverError),
    /// The termination was still not reached after `u64::MAX` generations.
    GenerationLimit,
}

/// The generational loop: selection, rate-gated crossover, rate-gated mutation and
/// reinsertion, repeated until a termination is reached.
pub struct Algorithm<'a, T, C, F: Fn(&Vec<T>) -> i64, M, R, S, TR> {
    generation: Generation<T>,
    crossover: C,
    fitness: &'a F,
    mutation: M,
    reinsertion: R,
    selection: S,
    tracking: TR,
    mutation_rate: Ratio,
    crossover_rate: Ratio,
}

/// `g` is a generation that scoring `pool` with `fitness` may give: each gene sequence
/// scored, sorted from the fittest down.
pub open spec fn initial_generation<T, F: Fn(&Vec<T>) -> i64>(
    fitness: F,
    pool: Seq<Vec<T>>,
    g: Seq<Chromosome<T>>,
) -> bool {
    &&& sorted_by_fitness(g)
    &&& exists|scored: Seq<Chromosome<T>>|
        scored_by(fitness, pool, scored) && g.to_multiset() == scored.to_multiset()
}

/// `after` is `merged` scored by `fitness` and sorted from the fittest down.
pub open spec fn rescored<T, F: Fn(&Vec<T>) -> i64>(
    fitness: F,
    merged: Seq<Chromosome<T>>,
    after: Seq<Chromosome<T>>,
) -> bool {
    &&& sorted_by_fitness(after)
    &&& exists|scored: Seq<Chromosome<T>>|
        scored_by(fitness, genome_vecs(merged), scored) && after.to_multiset()
            == scored.to_multiset()
}

/// The offspring of one parent group: the crossover's children when the rate gate passes,
/// else the group itself, unchanged and in order.
pub fn offspring_of<T: Copy, C: Crossover<T>>(
    crossover: &C,
    group: Vec<Vec<T>>,
    crossover_rate: Ratio,
) -> (r: Result<Vec<Vec<T>>, CrossoverError>)
    ensures
        crossover_rate.is_never() ==> r == Ok::<Vec<Vec<T>>, CrossoverError>(group),
        crossover_rate.is_always() ==> (r is Err || crossover.crossed(group@, r)),
        r == Ok::<Vec<Vec<T>>, CrossoverError>(group) || r is Err || crossover.crossed(group@, r),
        r is Ok && r != Ok::<Vec<Vec<T>>, CrossoverError>(group) ==> crossover.accepts(group@),
{
    if happens(crossover_rate) {
        match crossover.check_parents(&group) {
            Ok(()) => crossover.cross(&group),
            Err(e) => Err(e),
        }
    } else {
        Ok(group)
    }
}

/// `groups` cut (copies of) `selected` in order into groups of `parents`, the last one
/// possibly shorter.
pub open spec fn grouped<T>(selected: Seq<Vec<T>>, parents: nat, groups: Seq<Seq<Vec<T>>>) -> bool {
    &&& genes_of(groups.flatten()) == genes_of(selected)
    &&& forall|k: int|
        0 <= k < groups.len() ==> 0 < (#[trigger] groups[k]).len() <= parents && (k + 1
            < groups.len() ==> groups[k].len() == parents)
}

/// `offspring` are the children `kids` of the groups `groups` (each group's children as
/// `offspring_of` allows them), one after the other, each mutated at `mutation_rate` and
/// unscored.
pub open spec fn bred_from<T, C: Crossover<T>, M: Mutation<T>>(
    crossover: C,
    crossover_rate: Ratio,
    mutation: M,
    mutation_rate: Ratio,
    groups: Seq<Seq<Vec<T>>>,
    kids: Seq<Vec<Vec<T>>>,
    offspring: Seq<Chromosome<T>>,
) -> bool {
    let flat = kids.map_values(|c: Vec<Vec<T>>| c@).flatten();
    &&& kids.len() == groups.len()
    &&& forall|k: int|
        0 <= k < groups.len() ==> {
            &&& (#[trigger] kids[k])@ == groups[k] || crossover.crossed(
                groups[k],
                Ok::<Vec<Vec<T>>, CrossoverError>(kids[k]),
            )
            &&& crossover_rate.is_never() ==> kids[k]@ == groups[k]
            &&& crossover_rate.is_always() ==> crossover.crossed(
                groups[k],
                Ok::<Vec<Vec<T>>, CrossoverError>(kids[k]),
            )
        }
    &&& offspring.len() == flat.len()
    &&& forall|i: int|
        0 <= i < offspring.len() ==> (#[trigger] offspring[i]).fitness == 0
            && offspring[i].genes@.len() == flat[i]@.len() && (mutation_rate.is_never()
            ==> offspring[i].genes@ == flat[i]@) && mutation.mutated(
            flat[i]@,
            mutation_rate,
            offspring[i].genes@,
        )
}

/// `offspring` are bred from `selected` as `breed` does: some grouping of `selected` and some
/// children of each group, as `bred_from` relates them.
pub open spec fn bred<T, C: Crossover<T>, M: Mutation<T>>(
    crossover: C,
    crossover_rate: Ratio,
    mutation: M,
    mutation_rate: Ratio,
    selected: Seq<Vec<T>>,
    offspring: Seq<Chromosome<T>>,
) -> bool {
    exists|groups: Seq<Seq<Vec<T>>>, kids: Seq<Vec<Vec<T>>>|
        grouped(selected, crossover.arity(), groups) && bred_from(
            crossover,
            crossover_rate,
            mutation,
            mutation_rate,
            groups,
            kids,
            offspring,
        )
}

/// With crossover and mutation rates of zero, breeding passes the selected parents through
/// unchanged and in order: the crossover is never applied.
pub proof fn lemma_rate_zero_passes_parents<T, C: Crossover<T>, M: Mutation<T>>(
    crossover: C,
    crossover_rate: Ratio,
    mutation: M,
    mutation_rate: Ratio,
    selected: Seq<Vec<T>>,
    offspring: Seq<Chromosome<T>>,
)
    requires
        crossover_rate.is_never(),
        mutation_rate.is_never(),
        bred(crossover, crossover_rate, mutation, mutation_rate, selected, offspring),
    ensures
        offspring.len() == selected.len(),
        forall|i: int| 0 <= i < offspring.len() ==> (#[trigger] offspring[i]).genes@ == selected[i]@,
{
    let (groups, kids) = choose|groups: Seq<Seq<Vec<T>>>, kids: Seq<Vec<Vec<T>>>|
        grouped(selected, crossover.arity(), groups) && bred_from(
            crossover,
            crossover_rate,
            mutation,
            mutation_rate,
            groups,
            kids,
            offspring,
        );
    let views = kids.map_values(|c: Vec<Vec<T>>| c@);
    assert(views =~= groups) by {
        assert forall|k: int| 0 <= k < groups.len() implies views[k] == groups[k] by {
            assert(kids[k]@ == groups[k]);
        }
    }
    let flat = views.flatten();
    assert(genes_of(flat) == genes_of(selected));
    assert(flat.len() == selected.len()) by {
        assert(genes_of(flat).len() == genes_of(selected).len());
    }
    assert forall|i: int| 0 <= i < offspring.len() implies (#[trigger] offspring[i]).genes@
        == selected[i]@ by {
        assert(genes_of(flat)[i] == genes_of(selected)[i]);
    }
}

/// The offspring of the parents `selected`: groups of `crossover.parents()` in order, each
/// through `offspring_of`, then each child through `mutation` and made an unscored
/// chromosome, in order.
pub fn breed<T: Copy, C: Crossover<T>, M: Mutation<T>>(
    crossover: &C,
    crossover_rate: Ratio,
    mutation: &M,
    mutation_rate: Ratio,
    selected: &Vec<Vec<T>>,
) -> (r: Result<Vec<Chromosome<T>>, CrossoverError>)
    ensures
        r matches Ok(off) ==> bred(*crossover, crossover_rate, *mutation, mutation_rate, selected@, off@),
        r is Err ==> !crossover_rate.is_never(),
        crossover_rate.is_never() ==> (r matches Ok(off) && off.len()
            == selected.len() && forall|i: int|
            0 <= i < off.len() ==> (#[trigger] off@[i]).genes@.len()
                == selected@[i]@.len() && (mutation_rate.is_never() ==> off@[i].genes@
                == selected@[i]@)),
{
    let parents = crossover.parents();
    let ghost mut groups: Seq<Seq<Vec<T>>> = Seq::empty();
    let ghost mut kids: Seq<Vec<Vec<T>>> = Seq::empty();
    let mut offspring: Vec<Chromosome<T>> = Vec::new();
    let mut start: usize = 0;
    while start < selected.len()
        invariant
            0 < parents,
            parents == crossover.arity(),
            start <= selected@.len(),
            genes_of(groups.flatten()) == genes_of(selected@.subrange(0, start as int)),
            forall|k: int|
                0 <= k < groups.len() ==> 0 < (#[trigger] groups[k]).len() <= parents && (k + 1
                    < groups.len() ==> groups[k].len() == parents),
            groups.len() > 0 && start < selected@.len() ==> groups.last().len() == parents,
            bred_from(*crossover, crossover_rate, *mutation, mutation_rate, groups, kids, offspring@),
            crossover_rate.is_never() ==> genes_of(kids.map_values(|c: Vec<Vec<T>>| c@).flatten())
                == genes_of(selected@.subrange(0, start as int)),
        decreases selected@.len() - start,
    {
        let end = if selected.len() - start < parents {
            selected.len()
        } else {
            start + parents
        };
        let mut group: Vec<Vec<T>> = Vec::with_capacity(end - start);
        let mut k: usize = start;
        while k < end
            invariant
                start <= k <= end <= selected@.len(),
                genes_of(group@) == genes_of(selected@.subrange(start as int, k as int)),
            decreases end - k,
        {
            let ghost gb = group@;
            group.push(copied(&selected[k]));
            k = k + 1;
            proof {
                assert(genes_of(group@) =~= genes_of(gb).push(selected@[k - 1]@));
                assert(genes_of(selected@.subrange(start as int, k as int)) =~= genes_of(
                    selected@.subrange(start as int, k - 1),
                ).push(selected@[k - 1]@));
            }
        }
        let ghost group_view = group@;
        let result = offspring_of(crossover, group, crossover_rate);
        let ghost outcome = result;
        let children = match result {
            Ok(children) => children,
            Err(e) => {
                return Err(e);
            },
        };
        let ghost before = offspring@;
        let ghost flat_before = kids.map_values(|c: Vec<Vec<T>>| c@).flatten();
        let mut c: usize = 0;
        while c < children.len()
            invariant
                c <= children@.len(),
                offspring@.len() == before.len() + c,
                forall|i: int| 0 <= i < before.len() ==> offspring@[i] == before[i],
                forall|i: int|
                    0 <= i < c ==> (#[trigger] offspring@[before.len() + i]).fitness == 0
                        && offspring@[before.len() + i].genes@.len() == children@[i]@.len() && (
                    mutation_rate.is_never() ==> offspring@[before.len() + i].genes@
                        == children@[i]@) && mutation.mutated(
                        children@[i]@,
                        mutation_rate,
                        offspring@[before.len() + i].genes@,
                    ),
            decreases children@.len() - c,
        {
            let child = mutation.mutate(copied(&children[c]), mutation_rate);
            offspring.push(Chromosome::from_genes(child));
            c = c + 1;
        }
        proof {
            let old_groups = groups;
            let old_kids = kids;
            groups = groups.push(group_view);
            kids = kids.push(children);
            old_groups.lemma_flatten_push(group_view);
            assert(selected@.subrange(0, end as int) =~= selected@.subrange(0, start as int)
                + selected@.subrange(start as int, end as int));
            assert(genes_of(groups.flatten()) =~= genes_of(old_groups.flatten()) + genes_of(group_view));
            assert(genes_of(selected@.subrange(0, end as int)) =~= genes_of(selected@.subrange(0, start as int)) + genes_of(selected@.subrange(start as int, end as int)));
            let views = kids.map_values(|v: Vec<Vec<T>>| v@);
            assert(views =~= old_kids.map_values(|v: Vec<Vec<T>>| v@).push(children@));
            old_kids.map_values(|v: Vec<Vec<T>>| v@).lemma_flatten_push(children@);
            let flat = views.flatten();
            assert(flat =~= flat_before + children@);
            assert forall|i: int| 0 <= i < offspring@.len() implies (#[trigger] offspring@[i]).fitness == 0
                && offspring@[i].genes@.len() == flat[i]@.len() && (mutation_rate.is_never()
                ==> offspring@[i].genes@ == flat[i]@) && mutation.mutated(
                flat[i]@,
                mutation_rate,
                offspring@[i].genes@,
            ) by {
                if i >= before.len() {
                    let j = i - before.len();
                    assert(offspring@[before.len() + j] == offspring@[i]);
                    assert(flat[i] == children@[j]);
                } else {
                    assert(offspring@[i] == before[i]);
                    assert(flat[i] == flat_before[i]);
                }
            }
            assert(outcome == Ok::<Vec<Vec<T>>, CrossoverError>(children));
            assert forall|k: int| 0 <= k < groups.len() implies {
                &&& (#[trigger] kids[k])@ == groups[k] || crossover.crossed(
                    groups[k],
                    Ok::<Vec<Vec<T>>, CrossoverError>(kids[k]),
                )
                &&& crossover_rate.is_never() ==> kids[k]@ == groups[k]
                &&& crossover_rate.is_always() ==> crossover.crossed(
                    groups[k],
                    Ok::<Vec<Vec<T>>, CrossoverError>(kids[k]),
                )
            } by {
                if k < old_groups.len() {
                    assert(kids[k] == old_kids[k]);
                    assert(groups[k] == old_groups[k]);
                }
            }
        }
        start = end;
    }
    proof {
        assert(selected@.subrange(0, selected@.len() as int) =~= selected@);
        assert(grouped(selected@, crossover.arity(), groups));
        assert(bred_from(*crossover, crossover_rate, *mutation, mutation_rate, groups, kids, offspring@));
        assert(bred(*crossover, crossover_rate, *mutation, mutation_rate, selected@, offspring@));
        if crossover_rate.is_never() {
            let flat = kids.map_values(|c: Vec<Vec<T>>| c@).flatten();
            assert(genes_of(flat) == genes_of(selected@));
            assert(flat.len() == selected@.len()) by {
                assert(genes_of(flat).len() == genes_of(selected@).len());
            }
            assert forall|i: int| 0 <= i < flat.len() implies flat[i]@ == selected@[i]@ by {
                assert(genes_of(flat)[i] == genes_of(selected@)[i]);
            }
        }
    }
    Ok(offspring)
}

impl<'a, T, C, F: Fn(&Vec<T>) -> i64, M, R, S, TR> Algorithm<'a, T, C, F, M, R, S, TR> {
    /// The current generation.
    pub closed spec fn current(&self) -> Seq<Chromosome<T>> {
        self.generation@
    }

    pub closed spec fn scorer(&self) -> &'a F {
        self.fitness
    }

    pub closed spec fn tracker(&self) -> TR {
        self.tracking
    }

    /// The probability with which a parent group goes through the crossover.
    pub closed spec fn crossover_rate_of(&self) -> Ratio {
        self.crossover_rate
    }

    /// The mutation rate handed to the mutation operator.
    pub closed spec fn mutation_rate_of(&self) -> Ratio {
        self.mutation_rate
    }

    pub closed spec fn selection_of(&self) -> S {
        self.selection
    }

    pub closed spec fn crossover_of(&self) -> C {
        self.crossover
    }

    pub closed spec fn reinsertion_of(&self) -> R {
        self.reinsertion
    }

    pub closed spec fn mutation_of(&self) -> M {
        self.mutation
    }

    /// The strategies and rates of `self` and `other` are the same.
    pub open spec fn same_setup(&self, other: &Self) -> bool {
        &&& self.scorer() == other.scorer()
        &&& self.selection_of() == other.selection_of()
        &&& self.crossover_of() == other.crossover_of()
        &&& self.reinsertion_of() == other.reinsertion_of()
        &&& self.mutation_of() == other.mutation_of()
        &&& self.crossover_rate_of() == other.crossover_rate_of()
        &&& self.mutation_rate_of() == other.mutation_rate_of()
    }
}

impl<
    'a,
    T: Copy,
    C: Crossover<T>,
    F: Fn(&Vec<T>) -> i64,
    M: Mutation<T>,
    R: Reinsertion<T>,
    S: Selection<T>,
    TR: Tracking<T>,
> Algorithm<'a, T, C, F, M, R, S, TR> {
    /// One generational step can lead from `before` to `after`: a selection that the
    /// selection may make, offspring bred from it as `breed` does, a generation that the
    /// reinsertion may build from them, scored anew and sorted.
    pub open spec fn steps_to(&self, before: Seq<Chromosome<T>>, after: Seq<Chromosome<T>>) -> bool {
        exists|picked: Seq<Vec<T>>, offspring: Seq<Chromosome<T>>, merged: Seq<Chromosome<T>>|
            {
                &&& self.selection_of().picks(
                    before,
                    self.crossover_of().arity(),
                    self.crossover_of().brood(),
                    picked,
                )
                &&& bred(
                    self.crossover_of(),
                    self.crossover_rate_of(),
                    self.mutation_of(),
                    self.mutation_rate_of(),
                    picked,
                    offspring,
                )
                &&& self.reinsertion_of().merges(before, offspring, merged)
                &&& rescored(*self.scorer(), merged, after)
            }
    }

    /// An algorithm scoring with `fitness`, which must accept every gene sequence, and using
    /// the given strategies; crossover and mutation each come with their rate.
    pub fn new(
        fitness: &'a F,
        selection: S,
        crossover: (C, Ratio),
        mutation: (M, Ratio),
        reinsertion: R,
        tracking: TR,
    ) -> (r: Self)
        requires
            forall|g: &Vec<T>| fitness.requires((g,)),
        ensures
            r.scorer() == fitness,
            r.current().len() == 0,
            r.tracker() == tracking,
            r.crossover_rate_of() == crossover.1,
            r.mutation_rate_of() == mutation.1,
    {
        let (crossover, crossover_rate) = crossover;
        let (mutation, mutation_rate) = mutation;
        Algorithm {
            generation: Generation::empty(),
            crossover,
            fitness,
            mutation,
            reinsertion,
            selection,
            tracking,
            mutation_rate,
            crossover_rate,
        }
    }

    /// The current generation.
    pub fn generation(&self) -> (r: &Generation<T>)
        ensures
            r@ == self.current(),
    {
        &self.generation
    }

    /// The tracking strategy.
    pub fn tracking(&self) -> (r: &TR)
        ensures
            *r == self.tracker(),
    {
        &self.tracking
    }

    /// One generational step: selection, rate-gated crossover per parent group, rate-gated
    /// mutation per child, reinsertion, then scoring and sorting anew.
    pub fn step(&mut self) -> (r: Result<(), EvolveError>)
        requires
            forall|g: &Vec<T>| old(self).scorer().requires((g,)),
        ensures
            final(self).same_setup(old(self)),
            final(self).tracker() == old(self).tracker(),
            r is Ok ==> old(self).steps_to(old(self).current(), final(self).current()),
            final(self).scorer() == old(self).scorer(),
            final(self).crossover_rate_of() == old(self).crossover_rate_of(),
            old(self).crossover_rate_of().is_never() ==> !(r matches Err(
                EvolveError::Crossover(_),
            )),
            !(r matches Err(EvolveError::EmptyGeneration)),
            !(r matches Err(EvolveError::GenerationLimit)),
            r is Ok ==> sorted_by_fitness(final(self).current()) && all_scored_by(
                *final(self).scorer(),
                final(self).current(),
            ),
    {
        assert(forall|g: &Vec<T>| self.scorer().requires((g,)));
        let ghost before = self.generation@;
        if !self.selection.check_generation(&self.generation) {
            return Err(EvolveError::UnfitGeneration);
        }
        let selected = match self.selection.select(&self.generation, &self.crossover) {
            Ok(selected) => selected,
            Err(e) => {
                return Err(EvolveError::Selection(e));
            },
        };
        let offspring = match breed(
            &self.crossover,
            self.crossover_rate,
            &self.mutation,
            self.mutation_rate,
            &selected,
        ) {
            Ok(offspring) => offspring,
            Err(e) => {
                return Err(EvolveError::Crossover(e));
            },
        };
        let ghost picked = selected@;
        let ghost bred_offspring = offspring@;
        let mut next = self.reinsertion.reinsert(&self.generation, offspring);
        let ghost merged = next@;
        let fitness = self.fitness;
        assert(fitness == self.scorer());
        assert(forall|g: &Vec<T>| fitness.requires((g,)));
        next.reevaluate(fitness);
        self.generation = next;
        proof {
            assert(rescored(*self.scorer(), merged, self.generation@));
            assert(self.selection_of().picks(
                before,
                self.crossover_of().arity(),
                self.crossover_of().brood(),
                picked,
            ));
            assert(self.reinsertion_of().merges(before, bred_offspring, merged));
            assert(bred(
                self.crossover_of(),
                self.crossover_rate_of(),
                self.mutation_of(),
                self.mutation_rate_of(),
                picked,
                bred_offspring,
            ));
            assert(self.same_setup(old(self)));
            assert(old(self).selection_of().picks(
                before,
                old(self).crossover_of().arity(),
                old(self).crossover_of().brood(),
                picked,
            ));
            assert(bred(
                old(self).crossover_of(),
                old(self).crossover_rate_of(),
                old(self).mutation_of(),
                old(self).mutation_rate_of(),
                picked,
                bred_offspring,
            ));
            assert(old(self).reinsertion_of().merges(before, bred_offspring, merged));
            assert(rescored(*old(self).scorer(), merged, self.generation@));
        }
        Ok(())
    }

    /// Scores `pool` as the initial generation, then evolves it until `termination` is
    /// reached, checking it once per generation, the initial one included; tracking sees
    /// every generation.
    ///
    /// On success the checks answered "go on" for the first `n` generations and "stop" for
    /// the last; with `n == 0` the generation is the initial one, unevolved.
    #[verifier::rlimit(80)]
    pub fn evolve<Term: Termination>(&mut self, pool: Vec<Vec<T>>, termination: Term) -> (r:
        Result<&TR, EvolveError>)
        requires
            forall|g: &Vec<T>| old(self).scorer().requires((g,)),
        ensures
            final(self).scorer() == old(self).scorer(),
            pool@.len() == 0 ==> r == Err::<&TR, EvolveError>(EvolveError::EmptyGeneration),
            r is Err && pool@.len() > 0 ==> exists|g: Seq<Chromosome<T>>|
                initial_generation(*old(self).scorer(), pool@, g) && !termination.stops(
                    g[0].fitness,
                ),
            pool@.len() > 0 && (forall|g: Seq<Chromosome<T>>|
                #[trigger] initial_generation(*old(self).scorer(), pool@, g) ==> termination.stops(
                    g[0].fitness,
                )) ==> r is Ok && initial_generation(
                *old(self).scorer(),
                pool@,
                final(self).current(),
            ),
            r == Err::<&TR, EvolveError>(EvolveError::EmptyGeneration) ==> pool@.len() == 0
                || final(self).current().len() == 0,
            r == Err::<&TR, EvolveError>(EvolveError::GenerationLimit) ==> exists|bests: Seq<i64>|
                bests.len() == u64::MAX + 1 && forall|i: nat|
                    i <= u64::MAX ==> !(#[trigger] state_after(termination, bests, i)).stops(
                        bests[i as int],
                    ),
            old(self).crossover_rate_of().is_never() ==> !(r matches Err(
                EvolveError::Crossover(_),
            )),
            r is Ok ==> sorted_by_fitness(final(self).current()) && all_scored_by(
                *old(self).scorer(),
                final(self).current(),
            ),
            r matches Ok(t) ==> *t == final(self).tracker(),
            r is Ok ==> final(self).current().len() > 0 && exists|
                bests: Seq<i64>,
                n: nat,
                gens: Seq<Seq<Chromosome<T>>>,
                registered: Seq<Generation<T>>,
                trackers: Seq<TR>,
            |
                {
                    &&& stops_after(termination, bests, n)
                    &&& bests[n as int] == final(self).current()[0].fitness
                    &&& n == 0 ==> exists|scored: Seq<Chromosome<T>>|
                        scored_by(*old(self).scorer(), pool@, scored)
                            && final(self).current().to_multiset() == scored.to_multiset()
                    &&& gens.len() == n + 1
                    &&& gens[n as int] == final(self).current()
                    &&& exists|scored: Seq<Chromosome<T>>|
                        scored_by(*old(self).scorer(), pool@, scored) && gens[0].to_multiset()
                            == scored.to_multiset()
                    &&& forall|i: int|
                        0 <= i < n ==> old(self).steps_to(#[trigger] gens[i], gens[i + 1])
                    &&& forall|i: int| 0 <= i <= n ==> bests[i] == (#[trigger] gens[i])[0].fitness
                    &&& registered.len() == n + 1
                    &&& forall|i: int| 0 <= i <= n ==> (#[trigger] registered[i])@ == gens[i]
                    &&& trackers.len() == n + 2
                    &&& trackers[0] == old(self).tracker()
                    &&& trackers[n + 1int] == final(self).tracker()
                    &&& forall|i: int|
                        0 <= i <= n ==> (#[trigger] trackers[i]).registers(
                            registered[i],
                            trackers[i + 1],
                        )
                },
            final(self).same_setup(old(self)),
    {
        assert(self.scorer() == self.fitness);
        assert(forall|g: &Vec<T>| self.scorer().requires((g,)));
        let ghost first = termination;
        let mut checker = termination;
        self.generation = Generation::new(pool, self.fitness);
        if self.generation.size() == 0 {
            proof {
                vstd::seq_lib::to_multiset_len(self.generation@);
            }
            return Err(EvolveError::EmptyGeneration);
        }
        assert(pool@.len() > 0);
        let ghost first_tracker = self.tracking;
        self.tracking.register(&self.generation);
        let ghost mut registered: Seq<Generation<T>> = seq![self.generation];
        let ghost mut trackers: Seq<TR> = seq![first_tracker, self.tracking];
        let ghost mut bests: Seq<i64> = Seq::empty();
        let ghost initial = self.generation@;
        let ghost mut gens: Seq<Seq<Chromosome<T>>> = seq![initial];
        let mut cycles: u64 = 0;
        let ghost best = self.generation@[0].fitness;
        let mut done = checker.reached(&self.generation);
        proof {
            bests = bests.push(best);
            assert(state_after(first, bests, 0) == first);
            assert(state_after(first, bests, 1) == first.next(best));
        }
        while !done
            invariant
                pool@.len() > 0,
                self.scorer() == old(self).scorer(),
                self.crossover_rate_of() == old(self).crossover_rate_of(),
                forall|g: &Vec<T>| self.scorer().requires((g,)),
                self.current().len() > 0,
                cycles > 0 ==> !first.stops(bests[0]),
                sorted_by_fitness(self.current()),
                all_scored_by(*self.scorer(), self.current()),
                bests.len() == cycles + 1,
                bests[cycles as int] == self.current()[0].fitness,
                forall|i: nat| i < cycles ==> !(#[trigger] state_after(first, bests, i)).stops(
                    bests[i as int],
                ),
                done == state_after(first, bests, cycles as nat).stops(bests[cycles as int]),
                checker == state_after(first, bests, (cycles + 1) as nat),
                first == termination,
                cycles == 0 ==> self.current() == initial,
                initial_generation(*old(self).scorer(), pool@, initial),
                self.same_setup(old(self)),
                exists|scored: Seq<Chromosome<T>>|
                    scored_by(*old(self).scorer(), pool@, scored) && initial.to_multiset()
                        == scored.to_multiset(),
                gens.len() == cycles + 1,
                gens[0] == initial,
                gens[cycles as int] == self.current(),
                forall|i: int| 0 <= i < cycles ==> old(self).steps_to(#[trigger] gens[i], gens[i + 1]),
                forall|i: int| 0 <= i <= cycles ==> bests[i] == (#[trigger] gens[i])[0].fitness,
                forall|i: int| 0 <= i <= cycles ==> (#[trigger] gens[i]).len() > 0,
                registered.len() == cycles + 1,
                forall|i: int| 0 <= i <= cycles ==> (#[trigger] registered[i])@ == gens[i],
                trackers.len() == cycles + 2,
                trackers[0] == old(self).tracker(),
                trackers[cycles + 1int] == self.tracker(),
                forall|i: int|
                    0 <= i <= cycles ==> (#[trigger] trackers[i]).registers(
                        registered[i],
                        trackers[i + 1],
                    ),
            decreases u64::MAX - cycles,
        {
            assert(!first.stops(bests[0])) by {
                if cycles > 0 {
                    assert(!state_after(first, bests, 0).stops(bests[0]));
                }
            }
            assert(bests[0] == initial[0].fitness) by {
                assert(bests[0] == gens[0][0].fitness);
            }
            if cycles == u64::MAX {
                proof {
                    assert forall|i: nat| i <= u64::MAX implies !(#[trigger] state_after(
                        first,
                        bests,
                        i,
                    )).stops(bests[i as int]) by {
                        if i < cycles {
                        }
                    }
                }
                return Err(EvolveError::GenerationLimit);
            }
            match self.step() {
                Ok(()) => {},
                Err(e) => {
                    return Err(e);
                },
            }
            if self.generation.size() == 0 {
                return Err(EvolveError::EmptyGeneration);
            }
            proof {
                let old_gens = gens;
                gens = gens.push(self.generation@);
                assert forall|i: int| 0 <= i < cycles + 1 implies old(self).steps_to(
                    #[trigger] gens[i],
                    gens[i + 1],
                ) by {
                    if i < cycles {
                        assert(gens[i] == old_gens[i] && gens[i + 1] == old_gens[i + 1]);
                    }
                }
            }
            let ghost tracker_before = self.tracking;
            self.tracking.register(&self.generation);
            proof {
                let old_trackers = trackers;
                let old_registered = registered;
                registered = registered.push(self.generation);
                trackers = trackers.push(self.tracking);
                assert forall|i: int| 0 <= i <= cycles + 1 implies (#[trigger] trackers[i]).registers(
                    registered[i],
                    trackers[i + 1],
                ) by {
                    if i <= cycles {
                        assert(trackers[i] == old_trackers[i] && registered[i] == old_registered[i]
                            && trackers[i + 1] == old_trackers[i + 1]);
                    } else {
                        assert(trackers[i] == tracker_before);
                    }
                }
                assert forall|i: int| 0 <= i <= cycles + 1 implies (#[trigger] registered[i])@ == gens[i] by {
                    if i <= cycles {
                        assert(registered[i] == old_registered[i]);
                    }
                }
            }
            let ghost best = self.generation@[0].fitness;
            done = checker.reached(&self.generation);
            proof {
                let before = bests;
                bests = bests.push(best);
                assert forall|i: nat| i <= cycles + 1 implies #[trigger] state_after(
                    first,
                    bests,
                    i,
                ) == state_after(first, before, i) by {
                    lemma_state_after_prefix(first, bests, before, i);
                }
                assert(state_after(first, bests, (cycles + 2) as nat) == state_after(
                    first,
                    bests,
                    (cycles + 1) as nat,
                ).next(best));
            }
            cycles = cycles + 1;
        }
        Ok(&self.tracking)
    }
}

} // verus!
