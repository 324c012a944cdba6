use vstd::prelude::*;
use vstd::pervasive::{cloned, VecAdditionalExecFns};
use crate::genetic::Speciment;
use crate::scores::{sorted_by_fitness, stable_reorder, sort_scores, lemma_permutation_keeps_entries};

verus! {

/// Scores a population and extracts its elite, keeping an internal score
/// table whose entry i pairs a population index with a candidate's score.
pub trait Evaluator<S: Speciment + Clone> {
    /// The evaluator's score table.
    spec fn scores_spec(&self) -> Seq<(usize, u64)>;

    /// Overwrites the score table in place: entry i becomes
    /// (i, score of candidate i). Every candidate is visited; the population
    /// is left as it was.
    fn evaluate(&mut self, population: &mut Vec<S>)
        requires
            old(self).scores_spec().len() == old(population)@.len(),
        ensures
            final(population)@ == old(population)@,
            final(self).scores_spec().len() == old(self).scores_spec().len(),
            forall|i: int|
                0 <= i < final(population)@.len() ==> (#[trigger] final(self).scores_spec()[i]).0
                    == i && final(self).scores_spec()[i].1 == final(population)@[i].score_spec(),
    ;

    /// Sorts the score table ascending by score, keeping exactly the same
    /// entries and the prior relative order of equal scores, and copies the
    /// candidates at the first K sorted entries into `best`, in
    /// ascending-score order, replacing its contents entirely.
    fn extract_best(&mut self, best: &mut Vec<S>, population: &Vec<S>)
        requires
            old(self).scores_spec().len() == population@.len(),
            old(best)@.len() <= population@.len(),
            forall|k: int|
                0 <= k < old(self).scores_spec().len() ==> (#[trigger] old(self).scores_spec()[k]).0 < population@.len(),
        ensures
            final(self).scores_spec().to_multiset() == old(self).scores_spec().to_multiset(),
            final(self).scores_spec().len() == old(self).scores_spec().len(),
            sorted_by_fitness(final(self).scores_spec()),
            stable_reorder(old(self).scores_spec(), final(self).scores_spec()),
            forall|k: int|
                0 <= k < final(self).scores_spec().len() ==> (#[trigger] final(self).scores_spec()[k]).0 < population@.len(),
            final(best)@.len() == old(best)@.len(),
            forall|k: int|
                0 <= k < final(best)@.len() ==> cloned::<S>(
                    population@[final(self).scores_spec()[k].0 as int],
                    #[trigger] final(best)@[k],
                ),
    ;
}

/// The stock evaluator: owns the score table that it overwrites each cycle.
pub struct DefaultEvaluator {
    pub scores: Vec<(usize, u64)>,
}

impl DefaultEvaluator {
    /// A fresh evaluator whose table holds one zeroed entry per candidate.
    pub fn new(population_size: usize) -> (r: DefaultEvaluator)
        ensures
            r.scores@.len() == population_size,
    {
        let mut scores: Vec<(usize, u64)> = Vec::new();
        let mut i: usize = 0;
        while i < population_size
            invariant
                i <= population_size,
                scores@.len() == i,
            decreases population_size - i,
        {
            scores.push((0, 0));
            i = i + 1;
        }
        DefaultEvaluator { scores }
    }
}

impl<S: Speciment + Clone> Evaluator<S> for DefaultEvaluator {
    open spec fn scores_spec(&self) -> Seq<(usize, u64)> {
        self.scores@
    }

    fn evaluate(&mut self, population: &mut Vec<S>) {
        let n: usize = population.len();
        let mut i: usize = 0;
        while i < n
            invariant
                n == population@.len(),
                population@ == old(population)@,
                self.scores@.len() == population@.len(),
                i <= n,
                forall|k: int|
                    0 <= k < i ==> (#[trigger] self.scores@[k]).0 == k && self.scores@[k].1
                        == population@[k].score_spec(),
            decreases n - i,
        {
            let v: u64 = population[i].score();
            self.scores.set(i, (i, v));
            i = i + 1;
        }
    }

    fn extract_best(&mut self, best: &mut Vec<S>, population: &Vec<S>) {
        sort_scores(&mut self.scores);
        proof {
            lemma_permutation_keeps_entries(
                old(self).scores@,
                self.scores@,
                |e: (usize, u64)| e.0 < population@.len(),
            );
        }
        let ghost sorted_table: Seq<(usize, u64)> = self.scores@;
        let kk: usize = best.len();
        let mut k: usize = 0;
        while k < kk
            invariant
                kk == best@.len(),
                kk <= population@.len(),
                self.scores@ == sorted_table,
                self.scores@.len() == population@.len(),
                k <= kk,
                forall|m: int|
                    0 <= m < self.scores@.len() ==> (#[trigger] self.scores@[m]).0
                        < population@.len(),
                forall|m: int|
                    0 <= m < k ==> cloned::<S>(
                        population@[self.scores@[m].0 as int],
                        #[trigger] best@[m],
                    ),
            decreases kk - k,
        {
            let idx: usize = self.scores[k].0;
            let c: S = population[idx].clone();
            best.set(k, c);
            k = k + 1;
        }
    }
}

} // verus!
