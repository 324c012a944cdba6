use vstd::prelude::*;
use vstd::pervasive::cloned;
use crate::evaluator::Evaluator;
use crate::scores::{sorted_by_fitness, lemma_permutation_keeps_entries, lemma_sorted_first_is_min};

verus! {

/// One evolving candidate: it reports its own fitness score, lower being
/// better.
pub trait Speciment {
    /// The candidate's score.
    spec fn score_spec(&self) -> u64;

    /// Computes the candidate's score.
    fn score(&self) -> (r: u64)
        ensures
            r == self.score_spec(),
    ;
}

/// Re-seeds a population from an elite buffer.
pub trait Crosser<S: Speciment> {
    /// What this operator guarantees of a population it has re-seeded from
    /// the given elites.
    spec fn cross_ok(&self, post: Seq<S>, best: Seq<S>) -> bool;

    /// Overwrites candidates with elite genomes; the population keeps its
    /// size and satisfies the operator's re-seed guarantee.
    fn cross(&self, population: &mut Vec<S>, best: &Vec<S>)
        requires
            best@.len() > 0,
        ensures
            final(population)@.len() == old(population)@.len(),
            self.cross_ok(final(population)@, best@),
    ;
}

/// Perturbs every candidate of a population in place.
pub trait Mutator<S: Speciment> {
    /// What this operator guarantees of the population it has perturbed,
    /// given the population it started from.
    spec fn mutate_ok(&self, pre: Seq<S>, post: Seq<S>) -> bool;

    /// Mutates candidates; the population keeps its size and satisfies the
    /// operator's mutation guarantee.
    fn mutate(&self, population: &mut Vec<S>)
        ensures
            final(population)@.len() == old(population)@.len(),
            self.mutate_ok(old(population)@, final(population)@),
    ;
}

/// A population is one evolution step of the strategies when some elite
/// buffer re-seeded an intermediate population that the mutator then turned
/// into it.
pub open spec fn evolved_step<S: Speciment, C: Crosser<S>, M: Mutator<S>>(
    crosser: C,
    mutator: M,
    post: Seq<S>,
) -> bool {
    exists|mid: Seq<S>, prev_best: Seq<S>|
        prev_best.len() > 0 && #[trigger] crosser.cross_ok(mid, prev_best) && mutator.mutate_ok(
            mid,
            post,
        )
}

/// Drives the generational loop over pluggable strategies: one cycle is
/// re-seed from the elites, mutate, evaluate, then extract the new elites.
/// Progress reporting every `print_rate` cycles is the caller's concern.
pub struct GeneticAlgorithm<C, M, E> {
    pub print_rate: u32,
    pub crosser: C,
    pub mutator: M,
    pub evaluator: E,
}

impl<C, M, E> GeneticAlgorithm<C, M, E> {
    /// Bundles the strategies into a driver.
    pub fn new(print_rate: u32, crosser: C, mutator: M, evaluator: E) -> (r: Self)
        ensures
            r == (GeneticAlgorithm { print_rate, crosser, mutator, evaluator }),
    {
        Self { print_rate, crosser, mutator, evaluator }
    }

    /// Runs `cycles` full passes of re-seed, mutate, evaluate, extract-best
    /// over the population and returns the final elite buffer of ten
    /// candidates, cloned in ascending-score order from the last cycle's
    /// population. Zero cycles leave the population and the evaluator
    /// untouched and return ten clones of the first candidate. After at least
    /// one cycle the evaluator's table is sorted ascending, pairs each
    /// population index with that candidate's exact score, and its first
    /// entry's score is at most every population member's score.
    pub fn evolve<S: Speciment + Clone>(
        &mut self,
        population: &mut Vec<S>,
        cycles: u32,
    ) -> (best: Vec<S>) where C: Crosser<S>, M: Mutator<S>, E: Evaluator<S>
        requires
            old(population)@.len() >= 10,
            old(self).evaluator.scores_spec().len() == old(population)@.len(),
    ensures
        final(population)@.len() == old(population)@.len(),
        best@.len() == 10,
        final(self).evaluator.scores_spec().len() == final(population)@.len(),
        final(self).print_rate == old(self).print_rate,
        final(self).crosser == old(self).crosser,
        final(self).mutator == old(self).mutator,
        cycles > 0 ==> evolved_step(
            final(self).crosser,
            final(self).mutator,
            final(population)@,
        ),
        cycles == 0 ==> final(population)@ == old(population)@ && *final(self) == *old(self)
            && forall|k: int|
            0 <= k < best@.len() ==> cloned::<S>(old(population)@[0], #[trigger] best@[k]),
        cycles > 0 ==> {
            &&& sorted_by_fitness(final(self).evaluator.scores_spec())
            &&& forall|k: int|
                0 <= k < final(self).evaluator.scores_spec().len() ==> (#[trigger] final(self).evaluator.scores_spec()[k]).0 < final(population)@.len() && final(self).evaluator.scores_spec()[k].1 == final(population)@[final(self).evaluator.scores_spec()[k].0 as int].score_spec()
            &&& forall|k: int|
                0 <= k < best@.len() ==> cloned::<S>(
                    final(population)@[final(self).evaluator.scores_spec()[k].0 as int],
                    #[trigger] best@[k],
                )
            &&& forall|j: int|
                0 <= j < final(population)@.len() ==> final(self).evaluator.scores_spec()[0].1 <= (
                #[trigger] final(population)@[j]).score_spec()
        },
    {
        let ghost orig_pop: Seq<S> = population@;
        let mut best: Vec<S> = Vec::new();
        let mut b: usize = 0;
        while b < 10
            invariant
                b <= 10,
                best@.len() == b,
                population@.len() >= 10,
                population@ == orig_pop,
                forall|k: int| 0 <= k < b ==> cloned::<S>(orig_pop[0], #[trigger] best@[k]),
            decreases 10 - b,
        {
            best.push(population[0].clone());
            b = b + 1;
        }
        let mut i: u32 = 0;
        while i < cycles
            invariant
                population@.len() == orig_pop.len(),
                orig_pop.len() >= 10,
                best@.len() == 10,
                self.evaluator.scores_spec().len() == population@.len(),
                i <= cycles,
                self.print_rate == old(self).print_rate,
                self.crosser == old(self).crosser,
                self.mutator == old(self).mutator,
                i > 0 ==> evolved_step(self.crosser, self.mutator, population@),
                i == 0 ==> population@ == orig_pop && *self == *old(self) && forall|k: int|
                    0 <= k < best@.len() ==> cloned::<S>(orig_pop[0], #[trigger] best@[k]),
                i > 0 ==> {
                    &&& sorted_by_fitness(self.evaluator.scores_spec())
                    &&& forall|k: int|
                        0 <= k < self.evaluator.scores_spec().len() ==> (
                        #[trigger] self.evaluator.scores_spec()[k]).0 < population@.len()
                            && self.evaluator.scores_spec()[k].1
                            == population@[self.evaluator.scores_spec()[k].0 as int].score_spec()
                    &&& forall|k: int|
                        0 <= k < best@.len() ==> cloned::<S>(
                            population@[self.evaluator.scores_spec()[k].0 as int],
                            #[trigger] best@[k],
                        )
                    &&& forall|j: int|
                        0 <= j < population@.len() ==> self.evaluator.scores_spec()[0].1 <= (
                        #[trigger] population@[j]).score_spec()
                },
            decreases cycles - i,
        {
            let ghost prev_best: Seq<S> = best@;
            self.crosser.cross(population, &best);
            let ghost mid: Seq<S> = population@;
            self.mutator.mutate(population);
            proof {
                assert(self.crosser.cross_ok(mid, prev_best));
                assert(self.mutator.mutate_ok(mid, population@));
                assert(evolved_step(self.crosser, self.mutator, population@));
            }
            self.evaluator.evaluate(population);
            let ghost pre: Seq<(usize, u64)> = self.evaluator.scores_spec();
            let ghost pop_now: Seq<S> = population@;
            self.evaluator.extract_best(&mut best, population);
            proof {
                lemma_permutation_keeps_entries(
                    pre,
                    self.evaluator.scores_spec(),
                    |e: (usize, u64)| e.0 < pop_now.len() && e.1 == pop_now[e.0 as int].score_spec(),
                );
                lemma_sorted_first_is_min(pre, self.evaluator.scores_spec());
                assert forall|j: int| 0 <= j < population@.len() implies
                    self.evaluator.scores_spec()[0].1 <= (
                #[trigger] population@[j]).score_spec() by {
                    assert(pre[j].1 == pop_now[j].score_spec());
                }
            }
            i = i + 1;
        }
        best
    }
}

} // verus!
