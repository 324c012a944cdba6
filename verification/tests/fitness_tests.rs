use evo_image::fitness;

#[test]
fn fitness_scenario_l1_distance() {
    // target = [10, 20, 30, 40], candidate all zero: 10 + 20 + 30 + 40 = 100
    let target: Vec<u8> = vec![10, 20, 30, 40];
    let candidate: Vec<u8> = vec![0, 0, 0, 0];
    assert_eq!(fitness(&candidate, &target), 100);

    // replacing the candidate with the target's bytes drops the score to zero
    let perfect: Vec<u8> = vec![10, 20, 30, 40];
    assert_eq!(fitness(&perfect, &target), 0);
}

#[test]
fn fitness_is_symmetric() {
    let a: Vec<u8> = vec![1, 200, 33, 7, 255];
    let b: Vec<u8> = vec![9, 100, 44, 7, 0];
    assert_eq!(fitness(&a, &b), fitness(&b, &a));
    let c: Vec<u8> = vec![0, 255];
    let d: Vec<u8> = vec![255, 0];
    assert_eq!(fitness(&c, &d), fitness(&d, &c));
}

#[test]
fn fitness_zero_iff_identical() {
    let target: Vec<u8> = vec![5, 5, 5];
    let same: Vec<u8> = vec![5, 5, 5];
    assert_eq!(fitness(&same, &target), 0);

    // any single differing byte gives a nonzero score
    let off_by_last: Vec<u8> = vec![5, 5, 6];
    assert!(fitness(&off_by_last, &target) > 0);
    let off_by_first: Vec<u8> = vec![4, 5, 5];
    assert!(fitness(&off_by_first, &target) > 0);
}

#[test]
fn fitness_covers_every_byte() {
    // only the final byte differs: a loop that stops one element short would
    // report zero here
    let target: Vec<u8> = vec![0, 0, 0, 0, 0, 0, 0, 9];
    let candidate: Vec<u8> = vec![0, 0, 0, 0, 0, 0, 0, 0];
    assert_eq!(fitness(&candidate, &target), 9);
}

#[test]
fn fitness_empty_and_extremes() {
    let empty_a: Vec<u8> = Vec::new();
    let empty_b: Vec<u8> = Vec::new();
    assert_eq!(fitness(&empty_a, &empty_b), 0);

    let lo: Vec<u8> = vec![0, 0];
    let hi: Vec<u8> = vec![255, 255];
    assert_eq!(fitness(&lo, &hi), 510);
}
