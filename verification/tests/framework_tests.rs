use evo_image::{GeneticAlgorithm, DefaultEvaluator, EliteCrosser, RectMutator, ImageSpeciment,
    Speciment, Crosser, Mutator, Evaluator};

fn blank_population(target: &Vec<u8>, n: usize) -> Vec<ImageSpeciment> {
    let mut population: Vec<ImageSpeciment> = Vec::new();
    for _ in 0..n {
        population.push(ImageSpeciment::new(target));
    }
    population
}

#[test]
fn speciment_scores_its_own_distance() {
    let target: Vec<u8> = vec![10, 20, 30, 40];
    let s = ImageSpeciment::new(&target);
    assert_eq!(s.score(), 100);
    assert_eq!(s.bytes().as_slice(), &[0, 0, 0, 0]);
    let copy = s.clone();
    assert_eq!(copy.score(), 100);
}

#[test]
fn evaluator_tabulates_and_extracts() {
    let target: Vec<u8> = vec![50, 50];
    let population: Vec<ImageSpeciment> = blank_population(&target, 3);
    let mut evaluator = DefaultEvaluator::new(3);
    let mut pop = population;
    evaluator.evaluate(&mut pop);
    assert_eq!(evaluator.scores, vec![(0, 100), (1, 100), (2, 100)]);

    let mut best: Vec<ImageSpeciment> = vec![ImageSpeciment::new(&target)];
    evaluator.extract_best(&mut best, &pop);
    assert_eq!(best.len(), 1);
    assert_eq!(best[0].score(), 100);
}

#[test]
fn evolve_returns_ten_elites() {
    let target: Vec<u8> = vec![240; 16];
    let mut population = blank_population(&target, 12);
    let mut driver = GeneticAlgorithm::new(
        100,
        EliteCrosser {},
        RectMutator { width: 4, height: 4 },
        DefaultEvaluator::new(12),
    );
    let best = driver.evolve(&mut population, 30);
    assert_eq!(best.len(), 10);
    assert_eq!(population.len(), 12);
    // ascending scores, and the head is at least as fit as every member
    let fits: Vec<u64> = best.iter().map(|s| s.score()).collect();
    for w in fits.windows(2) {
        assert!(w[0] <= w[1]);
    }
    for s in &population {
        assert!(fits[0] <= s.score());
    }
    // against a bright target, blending rectangles strictly beats all-zero
    assert!(fits[0] < ImageSpeciment::new(&target).score());
}

#[test]
fn evolve_zero_cycles_returns_clones_of_first() {
    let target: Vec<u8> = vec![7, 8, 9, 10];
    let mut population = blank_population(&target, 10);
    let mut driver = GeneticAlgorithm::new(
        1,
        EliteCrosser {},
        RectMutator { width: 2, height: 2 },
        DefaultEvaluator::new(10),
    );
    let first_score = population[0].score();
    let best = driver.evolve(&mut population, 0);
    assert_eq!(best.len(), 10);
    for s in &best {
        assert_eq!(s.score(), first_score);
        assert_eq!(s.bytes().as_slice(), population[0].bytes().as_slice());
    }
    assert_eq!(driver.print_rate, 1);
}

#[test]
fn strategies_preserve_population_size() {
    let target: Vec<u8> = vec![128; 9];
    let mut population = blank_population(&target, 4);
    let best = blank_population(&target, 2);
    EliteCrosser {}.cross(&mut population, &best);
    assert_eq!(population.len(), 4);
    RectMutator { width: 3, height: 3 }.mutate(&mut population);
    assert_eq!(population.len(), 4);
    for s in &population {
        assert_eq!(s.bytes().len(), 9);
    }
}

#[test]
fn mutator_leaves_mismatched_candidates_unchanged() {
    // a candidate whose buffer does not match the configured image, and any
    // degenerate image, are left exactly as they were
    let target: Vec<u8> = vec![50; 9];
    let mut population = blank_population(&target, 2);
    RectMutator { width: 4, height: 4 }.mutate(&mut population);
    for s in &population {
        assert_eq!(s.bytes().as_slice(), &[0; 9]);
    }
    RectMutator { width: 2, height: 9 }.mutate(&mut population);
    for s in &population {
        assert_eq!(s.bytes().as_slice(), &[0; 9]);
    }
}

#[test]
fn crosser_clones_an_elite_genome() {
    // with a single elite, re-seeding must make every candidate its clone
    let target: Vec<u8> = vec![9, 9, 9];
    let mut elite = ImageSpeciment::new(&target);
    let mut pop_src: Vec<ImageSpeciment> = vec![elite.clone()];
    RectMutator { width: 3, height: 3 }.mutate(&mut pop_src);
    elite = pop_src.remove(0);
    let best: Vec<ImageSpeciment> = vec![elite];
    let mut population = blank_population(&target, 3);
    EliteCrosser {}.cross(&mut population, &best);
    for s in &population {
        assert_eq!(s.bytes().as_slice(), best[0].bytes().as_slice());
        assert_eq!(s.score(), best[0].score());
    }
}
