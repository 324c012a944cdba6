use evo_image::{sort_scores, score, note_best_speciment, cross, fitness, copy_from,
    clone_candidate, run_cycle, run_cycles};

#[test]
fn sort_scores_orders_by_fitness() {
    let mut scores: Vec<(usize, u64)> = vec![(0, 50), (1, 10), (2, 30)];
    sort_scores(&mut scores);
    assert_eq!(scores, vec![(1, 10), (2, 30), (0, 50)]);
}

#[test]
fn sort_scores_keeps_equal_entries_in_order() {
    // equal fitness values keep their prior relative order
    let mut scores: Vec<(usize, u64)> = vec![(3, 20), (1, 10), (2, 20), (0, 5)];
    sort_scores(&mut scores);
    assert_eq!(scores, vec![(0, 5), (1, 10), (3, 20), (2, 20)]);
}

#[test]
fn extraction_scenario_two_elites() {
    // scores [(0, 50), (1, 10), (2, 30)] with an elite buffer of two: after
    // extraction the buffer holds candidate 1 then candidate 2
    let population: Vec<Vec<u8>> = vec![vec![50, 0], vec![10, 0], vec![30, 0]];
    let mut scores: Vec<(usize, u64)> = vec![(0, 50), (1, 10), (2, 30)];
    let mut best: Vec<Vec<u8>> = vec![vec![0, 0], vec![0, 0]];
    note_best_speciment(&population, &mut scores, &mut best);
    assert_eq!(best[0], vec![10, 0]);
    assert_eq!(best[1], vec![30, 0]);
    assert_eq!(scores, vec![(1, 10), (2, 30), (0, 50)]);
}

#[test]
fn extraction_best_dominates_population() {
    let target: Vec<u8> = vec![100, 100, 100, 100];
    let population: Vec<Vec<u8>> = vec![
        vec![0, 0, 0, 0],
        vec![90, 90, 90, 90],
        vec![100, 100, 100, 99],
        vec![255, 255, 255, 255],
    ];
    let mut scores: Vec<(usize, u64)> = vec![(0, 0); 4];
    score(&population, &target, &mut scores);
    let mut best: Vec<Vec<u8>> = vec![vec![0; 4], vec![0; 4], vec![0; 4]];
    note_best_speciment(&population, &mut scores, &mut best);

    // ascending by fitness, and the head is at least as fit as every member
    let best_fits: Vec<u64> = best.iter().map(|c| fitness(c, &target)).collect();
    assert!(best_fits[0] <= best_fits[1] && best_fits[1] <= best_fits[2]);
    for cand in &population {
        assert!(best_fits[0] <= fitness(cand, &target));
    }
    assert_eq!(best[0], vec![100, 100, 100, 99]);
    assert_eq!(best_fits[0], 1);
}

#[test]
fn score_fills_every_entry() {
    let target: Vec<u8> = vec![1, 2];
    let population: Vec<Vec<u8>> = vec![vec![1, 2], vec![0, 0], vec![3, 2]];
    let mut scores: Vec<(usize, u64)> = vec![(9, 9); 3];
    score(&population, &target, &mut scores);
    assert_eq!(scores, vec![(0, 0), (1, 3), (2, 2)]);
}

#[test]
fn reseed_then_score_matches_an_elite() {
    // every re-seeded candidate's fitness equals the fitness of one elite
    let target: Vec<u8> = vec![10, 20, 30, 40];
    let best: Vec<Vec<u8>> = vec![vec![10, 20, 30, 40], vec![0, 0, 0, 0]];
    let elite_fits: Vec<u64> = best.iter().map(|e| fitness(e, &target)).collect();
    let mut population: Vec<Vec<u8>> = vec![vec![7; 4], vec![8; 4], vec![9; 4], vec![1; 4]];
    cross(&mut population, &best);
    let mut scores: Vec<(usize, u64)> = vec![(0, 0); 4];
    score(&population, &target, &mut scores);
    for &(_, f) in scores.iter() {
        assert!(elite_fits.contains(&f));
    }
}

#[test]
fn cross_replaces_whole_genomes() {
    let best: Vec<Vec<u8>> = vec![vec![4, 5, 6]];
    let mut population: Vec<Vec<u8>> = vec![vec![0, 0, 0], vec![9, 9, 9]];
    cross(&mut population, &best);
    assert_eq!(population, vec![vec![4, 5, 6], vec![4, 5, 6]]);
}

#[test]
fn copy_and_clone_carry_all_bytes() {
    let src: Vec<u8> = vec![1, 2, 3, 4, 5];
    let mut dst: Vec<u8> = vec![0; 5];
    copy_from(&mut dst, &src);
    assert_eq!(dst, src);
    assert_eq!(clone_candidate(&src), src);
}

#[test]
fn zero_cycles_change_nothing() {
    let target: Vec<u8> = vec![9; 16];
    let mut population: Vec<Vec<u8>> = vec![vec![0; 16], vec![1; 16]];
    let mut best: Vec<Vec<u8>> = vec![vec![2; 16]];
    let mut scores: Vec<(usize, u64)> = vec![(0, 7), (1, 8)];
    run_cycles(&mut population, &mut best, &mut scores, &target, 4, 4, 0);
    assert_eq!(population, vec![vec![0; 16], vec![1; 16]]);
    assert_eq!(best, vec![vec![2; 16]]);
    assert_eq!(scores, vec![(0, 7), (1, 8)]);
}

#[test]
fn one_cycle_refreshes_the_elites() {
    let target: Vec<u8> = vec![200; 16];
    let mut population: Vec<Vec<u8>> = vec![vec![0; 16], vec![0; 16], vec![0; 16]];
    let mut best: Vec<Vec<u8>> = vec![vec![0; 16], vec![0; 16]];
    let mut scores: Vec<(usize, u64)> = vec![(0, 0); 3];
    run_cycle(&mut population, &mut best, &mut scores, &target, 4, 4);

    // the table is sorted ascending and carries each candidate's fitness
    for w in scores.windows(2) {
        assert!(w[0].1 <= w[1].1);
    }
    for &(idx, f) in scores.iter() {
        assert_eq!(f, fitness(&population[idx], &target));
    }
    // the elites come from the first sorted entries and the head dominates
    assert_eq!(best[0], population[scores[0].0]);
    assert_eq!(best[1], population[scores[1].0]);
    let head_fit = fitness(&best[0], &target);
    for cand in &population {
        assert!(head_fit <= fitness(cand, &target));
    }
}

#[test]
fn cycles_improve_toward_the_target() {
    // a few cycles of the full loop strictly help on a strongly contrasting
    // target compared with a blank elite
    let target: Vec<u8> = vec![255; 25];
    let mut population: Vec<Vec<u8>> = vec![vec![0; 25]; 6];
    let mut best: Vec<Vec<u8>> = vec![vec![0; 25]; 2];
    let mut scores: Vec<(usize, u64)> = vec![(0, 0); 6];
    let blank_fit = fitness(&vec![0; 25], &target);
    run_cycles(&mut population, &mut best, &mut scores, &target, 5, 5, 40);
    assert!(fitness(&best[0], &target) < blank_fit);
}
