use std::collections::VecDeque;

use viravis::utils::{
    fade_exponent, fade_linear, mean, mean_abs, mean_nonzero, moving_average, smooth_directional,
};

#[test]
fn mean_exact() {
    assert_eq!(mean(&[1000, 2000, 3000]), 2000);
    assert_eq!(mean(&[7]), 7);
    assert_eq!(mean(&[1, 2]), 1);
}

#[test]
fn mean_abs_exact() {
    assert_eq!(mean_abs(&[-1000, 1000, -2000, 2000]), 1500);
    assert_eq!(mean_abs(&[0, 0, 0, 0]), 0);
    assert_eq!(mean_abs(&[-5]), 5);
}

#[test]
fn mean_nonzero_sentinel_on_all_zeros() {
    let hist: VecDeque<i64> = VecDeque::from(vec![0; 8]);
    assert_eq!(mean_nonzero(&hist), 1000);
    let empty: VecDeque<i64> = VecDeque::new();
    assert_eq!(mean_nonzero(&empty), 1000);
}

#[test]
fn mean_nonzero_skips_zeros() {
    let hist: VecDeque<i64> = VecDeque::from(vec![0, -2000, 4000, 0]);
    assert_eq!(mean_nonzero(&hist), 3000);
}

#[test]
fn moving_average_keeps_length() {
    for window in [0usize, 1, 2, 7, 1000] {
        for len in [1usize, 2, 5, 64] {
            let input: Vec<i64> = (0..len as i64).map(|i| i * 10).collect();
            let out = moving_average(&input, window);
            assert_eq!(out.len(), len);
        }
    }
    let empty: Vec<i64> = Vec::new();
    assert_eq!(moving_average(&empty, 3).len(), 0);
}

#[test]
fn moving_average_exact() {
    assert_eq!(moving_average(&vec![1000, 2000, 3000], 1), vec![1000, 1500, 2500]);
    assert_eq!(moving_average(&vec![1000, 2000, 3000], 0), vec![0, 0, 0]);
}

#[test]
fn smooth_directional_unit_rate_returns_new() {
    let prev = vec![100, 900, 500, 0];
    let new = vec![400, 200, 500, 1000];
    assert_eq!(smooth_directional(&prev, &new, 1000, 1000), new);
}

#[test]
fn smooth_directional_zero_rate_returns_prev() {
    let prev = vec![100, 900, 500, 0];
    let new = vec![400, 200, 500, 1000];
    assert_eq!(smooth_directional(&prev, &new, 0, 0), prev);
}

#[test]
fn smooth_directional_rates_split_by_direction() {
    assert_eq!(smooth_directional(&vec![0], &vec![1000], 500, 100), vec![500]);
    assert_eq!(smooth_directional(&vec![1000], &vec![0], 500, 100), vec![900]);
}

#[test]
fn fade_linear_clamps_at_zero() {
    let out = fade_linear(&vec![1500, 200, -300], 500);
    assert_eq!(out, vec![1000, 0, 0]);
    assert!(out.iter().all(|&x| x >= 0));
}

#[test]
fn fade_exponent_ramps_and_clamps() {
    let out = fade_exponent(&vec![5000, 5000, 5000, 5000], 1000);
    assert_eq!(out, vec![5000, 4000, 3000, 2000]);
    let clamped = fade_exponent(&vec![100, 100, 100, 100], 90);
    assert_eq!(clamped, vec![100, 10, 0, 0]);
    assert!(clamped.iter().all(|&x| x >= 0));
}
