use evo_image::{blend_rect, mutate, fitness};

#[test]
fn blend_rect_scenario_single_pixel() {
    // width = 4, height = 4, draw end_x = 1, end_y = 1, span_x = 1, span_y = 1,
    // color = 200 on an all-zero candidate: exactly one pixel (row 1, col 1)
    // becomes (0 / 2) + (200 / 2) = 100; all others remain 0
    let mut candidate: Vec<u8> = vec![0; 16];
    blend_rect(&mut candidate, 4, 4, 1, 1, 1, 1, 200);
    for (i, &b) in candidate.iter().enumerate() {
        if i == 1 * 4 + 1 {
            assert_eq!(b, 100);
        } else {
            assert_eq!(b, 0);
        }
    }
}

#[test]
fn blend_rect_scenario_wide_rectangle() {
    // rows [1, 3) x columns [1, 2) of a 4x4 all-80 image blended with 60:
    // (80 / 2) + (60 / 2) = 70
    let mut candidate: Vec<u8> = vec![80; 16];
    blend_rect(&mut candidate, 4, 4, 1, 1, 1, 2, 60);
    for row in 0..4 {
        for col in 0..4 {
            let expect = if (1..3).contains(&row) && col == 1 { 70 } else { 80 };
            assert_eq!(candidate[row * 4 + col], expect);
        }
    }
}

#[test]
fn blend_never_leaves_byte_range() {
    // the extreme blend: every operand at its maximum still fits in a byte,
    // (255 / 2) + (254 / 2) = 127 + 127 = 254
    let mut candidate: Vec<u8> = vec![255; 16];
    blend_rect(&mut candidate, 4, 4, 1, 1, 2, 2, 254);
    for &b in candidate.iter() {
        assert!(b == 255 || b == 254);
    }
    assert!(candidate.iter().any(|&b| b == 254));
}

#[test]
fn mutate_blends_a_real_rectangle() {
    // every sample of an all-255 candidate that the random rectangle touches
    // becomes 127 + color / 2 <= 254, so after mutation at least one byte has
    // dropped below 255 and none left the byte range's blend bound
    let mut population: Vec<Vec<u8>> = vec![vec![255; 16], vec![255; 16]];
    mutate(&mut population, 4, 4);
    assert_eq!(population.len(), 2);
    for cand in &population {
        assert_eq!(cand.len(), 16);
        assert!(cand.iter().any(|&b| b < 255));
        for &b in cand.iter() {
            assert!(b == 255 || (127..=254).contains(&b));
        }
    }
}

#[test]
fn mutate_on_zero_keeps_low_values() {
    // blending zero toward any gray level yields at most 127
    let mut population: Vec<Vec<u8>> = vec![vec![0; 25]];
    mutate(&mut population, 5, 5);
    for &b in population[0].iter() {
        assert!(b <= 127);
    }
    let target: Vec<u8> = vec![0; 25];
    // the mutated candidate is still comparable against a same-size target
    let _ = fitness(&population[0], &target);
}
