use vstd::prelude::*;

mod evaluator;
mod fitness;
mod genetic;
mod scores;
mod strategy;
mod image;
mod rng;

pub use image::{blend, lemma_blend_in_range, in_rect, blend_rect_spec, blend_rect, valid_draw, mutated_from, mutate,
    reseeded_from, cross, copy_from, clone_candidate, score, note_best_speciment,
    lemma_elites_dominate, scores_some_elite, lemma_reseed_roundtrip, cycle_state_ok,
    cycle_result_ok, offspring_of, run_cycle, run_cycles};
pub use scores::{sorted_by_fitness, entries_with, stable_reorder, sort_scores,
    lemma_permutation_keeps_entries, lemma_sorted_first_is_min};
pub use genetic::{Speciment, Crosser, Mutator, GeneticAlgorithm, evolved_step};
pub use evaluator::{Evaluator, DefaultEvaluator};
pub use strategy::{ImageSpeciment, EliteCrosser, RectMutator, clone_of_some_elite, rect_mutated,
    lemma_clone_keeps_score, lemma_image_elites_dominate};
pub use fitness::{abs_diff, l1_dist, fitness, lemma_l1_dist_bound, lemma_l1_dist_symmetric,
    lemma_l1_dist_zero};
