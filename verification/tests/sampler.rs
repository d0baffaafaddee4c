use numeric_kernels::sampler::{sample_int, walk, DomainError};
use rand::rngs::StdRng;
use rand::{Rng, SeedableRng};

// The real-number side of one spin: the running totals of the weights
// compared with the spin `u * (sum / n)`.
fn spin_readings(weights: &[f64], n: usize, u: f64) -> (Vec<bool>, bool) {
    let sum: f64 = weights.iter().fold(0.0, |acc, &w| acc + w);
    let spoke_gap = sum / n as f64;
    let spin = u * spoke_gap;
    let mut total = 0.0;
    let mut below_spin = Vec::new();
    for &w in weights {
        total += w;
        below_spin.push(total < spin);
    }
    (below_spin, sum > 0.0)
}

fn spin_once(weights: &[f64], n: usize, u: f64) -> Result<usize, DomainError> {
    let (below_spin, has_mass) = spin_readings(weights, n, u);
    sample_int(&below_spin, n, has_mass)
}

#[test]
fn sample_stops_at_first_total_that_reaches_the_spin() {
    assert_eq!(sample_int(&[false, false, false], 3, true), Ok(0));
    assert_eq!(sample_int(&[true, false, false], 3, true), Ok(1));
    assert_eq!(sample_int(&[true, true, false], 3, true), Ok(2));
    assert_eq!(sample_int(&[true, false, true], 3, true), Ok(1));
}

#[test]
fn sample_without_spokes_is_refused() {
    assert_eq!(sample_int(&[false, false], 0, true), Err(DomainError::NoSpokes));
    assert_eq!(sample_int(&[], 0, false), Err(DomainError::NoSpokes));
    assert_eq!(spin_once(&[0.5, 0.5], 0, 0.3), Err(DomainError::NoSpokes));
}

#[test]
fn sample_without_weights_is_refused() {
    assert_eq!(sample_int(&[], 3, true), Err(DomainError::NoWeights));
    assert_eq!(sample_int(&[], 1, false), Err(DomainError::NoWeights));
    assert_eq!(spin_once(&[], 2, 0.3), Err(DomainError::NoWeights));
}

#[test]
fn sample_without_mass_is_refused() {
    assert_eq!(sample_int(&[false, false], 2, false), Err(DomainError::NoMass));
    assert_eq!(spin_once(&[0.0, 0.0, 0.0], 3, 0.0), Err(DomainError::NoMass));
    assert_eq!(spin_once(&[0.0, 0.0, 0.0], 3, 0.9), Err(DomainError::NoMass));
}

#[test]
fn sample_walk_past_the_end_is_refused() {
    assert_eq!(sample_int(&[true], 1, true), Err(DomainError::WalkPastEnd));
    assert_eq!(sample_int(&[true, true, true], 5, true), Err(DomainError::WalkPastEnd));
}

#[test]
fn sample_index_is_below_n_for_every_draw() {
    let weights = [0.1, 0.0, 2.5, 0.4, 1.0];
    let n = weights.len();
    let mut u = 0.0;
    while u < 1.0 {
        let drawn = spin_once(&weights, n, u).expect("the weights have mass");
        assert!(drawn < n);
        u += 0.001;
    }
    assert_eq!(spin_once(&weights, n, 0.999_999_999), Ok(2));
}

#[test]
fn sample_follows_the_slice_formula() {
    // sum 10, n 2: the gap is 5 and the spin is u * 5
    let weights = [1.0, 2.0, 3.0, 4.0];
    assert_eq!(spin_once(&weights, 2, 0.0), Ok(0));
    assert_eq!(spin_once(&weights, 2, 0.2), Ok(0));
    assert_eq!(spin_once(&weights, 2, 0.3), Ok(1));
    assert_eq!(spin_once(&weights, 2, 0.6), Ok(1));
    assert_eq!(spin_once(&weights, 2, 0.7), Ok(2));
    assert_eq!(spin_once(&weights, 2, 0.99), Ok(2));
    // one spoke: the spin ranges over the whole wheel
    assert_eq!(spin_once(&weights, 1, 0.99), Ok(3));
    assert_eq!(spin_once(&weights, 1, 0.5), Ok(2));
}

#[test]
fn sample_never_reaches_the_far_weights_with_many_spokes() {
    // with as many spokes as weights the spin stays inside the first gap
    let weights = [4.0, 1.0, 1.0, 1.0, 1.0];
    let mut u = 0.0;
    while u < 1.0 {
        assert_eq!(spin_once(&weights, 5, u), Ok(0));
        u += 0.01;
    }
}

#[test]
fn sample_skips_leading_zero_weights() {
    assert_eq!(spin_once(&[0.0, 0.0, 5.0], 1, 0.5), Ok(2));
    assert_eq!(spin_once(&[0.0, 0.0, 5.0], 3, 0.5), Ok(2));
    // a spin of zero is reached by the first total, whatever it is
    assert_eq!(spin_once(&[0.0, 0.0, 5.0], 3, 0.0), Ok(0));
}

#[test]
fn sample_is_deterministic_for_a_seeded_source() {
    let weights = [0.3, 1.2, 0.0, 2.0, 0.5, 0.7];
    let mut first = Vec::new();
    let mut rng = StdRng::seed_from_u64(42);
    for _ in 0..200 {
        let u: f64 = rng.gen();
        assert!((0.0..1.0).contains(&u));
        first.push(spin_once(&weights, 1, u));
    }
    let mut second = Vec::new();
    let mut rng = StdRng::seed_from_u64(42);
    for _ in 0..200 {
        let u: f64 = rng.gen();
        second.push(spin_once(&weights, 1, u));
    }
    assert_eq!(first, second);
    assert!(first.iter().all(|drawn| matches!(drawn, Ok(i) if *i < weights.len())));
}

#[test]
fn sample_same_comparisons_same_index() {
    let below_spin = [true, true, false, true, false];
    let once = sample_int(&below_spin, 5, true);
    for _ in 0..10 {
        assert_eq!(sample_int(&below_spin, 5, true), once);
    }
    assert_eq!(once, Ok(2));
}

#[test]
fn walk_finds_the_first_clear_reading() {
    assert_eq!(walk(&[]), None);
    assert_eq!(walk(&[true, true]), None);
    assert_eq!(walk(&[false]), Some(0));
    assert_eq!(walk(&[true, true, true, false, false]), Some(3));
}

#[test]
fn domain_error_messages() {
    assert_eq!(DomainError::NoSpokes.message(), "the number of spokes must be positive");
    assert_eq!(DomainError::NoWeights.message(), "the weight vector is empty");
    assert_eq!(DomainError::NoMass.message(), "the weights do not sum to a positive value");
    assert_eq!(DomainError::WalkPastEnd.message(), "the weights never reach the spin");
}
