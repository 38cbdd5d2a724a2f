use rand::Rng;
use rand::SeedableRng;
use rusty_krab_manager::errors::CoreError;
use rusty_krab_manager::mass::WEIGHT_SCALE;
use rusty_krab_manager::rand_utils::{draw, make_cdf, roll_die};

#[test]
fn cdf_of_valid_pmf_is_prefix_sums() {
    let pdf: Vec<u64> = vec![200_000, 300_000, 500_000];
    let cdf = make_cdf(&pdf).unwrap();
    assert_eq!(cdf, vec![200_000, 500_000, 1_000_000]);
}

#[test]
fn cdf_is_non_decreasing_with_full_last_element() {
    let pdf: Vec<u64> = vec![1, 0, 999_998, 0, 1];
    let cdf = make_cdf(&pdf).unwrap();
    assert_eq!(cdf.len(), pdf.len());
    for w in cdf.windows(2) {
        assert!(w[0] <= w[1]);
    }
    assert_eq!(*cdf.last().unwrap(), WEIGHT_SCALE);
}

#[test]
fn cdf_rejects_mass_that_is_not_full() {
    assert_eq!(make_cdf(&vec![1, 2, 3]), Err(CoreError::MassNotOne));
    assert_eq!(make_cdf(&vec![500_000, 500_001]), Err(CoreError::MassNotOne));
    assert_eq!(make_cdf(&vec![]), Err(CoreError::MassNotOne));
}

#[test]
fn draw_returns_smallest_index_above_the_toss() {
    let cdf: Vec<u64> = vec![200_000, 500_000, 1_000_000];
    assert_eq!(draw(&cdf, 0), Ok(0));
    assert_eq!(draw(&cdf, 199_999), Ok(0));
    assert_eq!(draw(&cdf, 200_000), Ok(1));
    assert_eq!(draw(&cdf, 499_999), Ok(1));
    assert_eq!(draw(&cdf, 500_000), Ok(2));
    assert_eq!(draw(&cdf, 999_999), Ok(2));
}

#[test]
fn draw_reports_the_invariant_violation_when_no_index_fits() {
    let cdf: Vec<u64> = vec![200_000, 500_000, 1_000_000];
    assert_eq!(draw(&cdf, 1_000_000), Err(CoreError::NoDrawIndex));
}

#[test]
fn roll_die_rejects_a_bad_distribution() {
    assert_eq!(roll_die(&vec![1, 2, 3]), Err(CoreError::MassNotOne));
}

#[test]
fn roll_die_never_picks_a_zero_weight_side() {
    // mass sits on index 1 alone, so any in-range uniform value picks it
    let pdf: Vec<u64> = vec![0, 1_000_000, 0];
    for _ in 0..200 {
        assert_eq!(roll_die(&pdf), Ok(1));
    }
}

#[test]
fn sampling_is_statistically_unbiased() {
    // a seeded deterministic source stands in for the system's randomness
    let pdf: Vec<u64> = vec![200_000, 300_000, 500_000];
    let cdf = make_cdf(&pdf).unwrap();
    let mut rng = rand::rngs::StdRng::seed_from_u64(0x5eed);
    let n = 100_000usize;
    let mut counts = [0usize; 3];
    for _ in 0..n {
        let toss: u64 = rng.gen_range(0..WEIGHT_SCALE);
        let idx = draw(&cdf, toss).unwrap();
        counts[idx] += 1;
    }
    // each empirical frequency within one percent of the mass function
    assert!(counts[0].abs_diff(20_000) <= 1_000, "counts: {:?}", counts);
    assert!(counts[1].abs_diff(30_000) <= 1_000, "counts: {:?}", counts);
    assert!(counts[2].abs_diff(50_000) <= 1_000, "counts: {:?}", counts);
}
