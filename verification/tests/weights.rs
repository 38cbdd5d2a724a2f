use rusty_krab_manager::balance::update_tagweights;
use rusty_krab_manager::errors::CoreError;
use rusty_krab_manager::mass::WEIGHT_SCALE;
use rusty_krab_manager::settings_util::normalize_priors;
use rusty_krab_manager::errors::ErrorClass;
use rusty_krab_manager::urgency::{turn_timetilldue_into_pdf, uniform_pdf};

#[test]
fn uniform_shares_are_even_with_exact_total() {
    assert_eq!(uniform_pdf(1).unwrap(), vec![1_000_000]);
    assert_eq!(uniform_pdf(4).unwrap(), vec![250_000; 4]);
    // the remainder of one part goes to the first item
    assert_eq!(uniform_pdf(3).unwrap(), vec![333_334, 333_333, 333_333]);
}

#[test]
fn uniform_rejects_zero_items() {
    assert_eq!(uniform_pdf(0), Err(CoreError::EmptyCatalog));
}

#[test]
fn urgency_weights_follow_the_inverse_deadline_policy() {
    // largest deadline 200: raw weights 2_000_000 and 1_000_000,
    // normalized shares 666_666 and 333_333, slack of one to the sooner task
    let pdf = turn_timetilldue_into_pdf(&vec![100, 200]).unwrap();
    assert_eq!(pdf, vec![666_667, 333_333]);
}

#[test]
fn urgency_pdf_sums_to_full_mass_and_favours_the_soonest() {
    let dues: Vec<u64> = vec![37, 11, 900, 11, 400_000];
    let pdf = turn_timetilldue_into_pdf(&dues).unwrap();
    assert_eq!(pdf.len(), dues.len());
    assert_eq!(pdf.iter().sum::<u64>(), WEIGHT_SCALE);
    // the first task with the smallest deadline holds the largest share
    let smallest = *dues.iter().min().unwrap();
    let first_min = dues.iter().position(|d| *d == smallest).unwrap();
    for p in &pdf {
        assert!(*p <= pdf[first_min]);
    }
}

#[test]
fn urgency_of_a_single_task_is_the_whole_mass() {
    assert_eq!(turn_timetilldue_into_pdf(&vec![12_345]).unwrap(), vec![WEIGHT_SCALE]);
}

#[test]
fn urgency_rejects_an_empty_deadline_vector() {
    assert_eq!(turn_timetilldue_into_pdf(&vec![]), Err(CoreError::EmptyCatalog));
}

#[test]
fn balancer_moves_mass_from_empty_tags_to_the_rest() {
    // the first tag has no tasks: its whole weight moves to the second
    let out = update_tagweights(&vec![700_000, 300_000], &vec![false, true]).unwrap();
    assert_eq!(out, vec![0, 1_000_000]);
}

#[test]
fn balancer_preserves_total_mass_over_every_partition() {
    let w: Vec<u64> = vec![100_000, 400_000, 250_000, 250_000];
    for pattern in 1u32..15 {
        let has: Vec<bool> = (0..4).map(|i| pattern & (1 << i) != 0).collect();
        if let Ok(out) = update_tagweights(&w, &has) {
            assert_eq!(out.iter().sum::<u64>(), WEIGHT_SCALE, "pattern {:?}", has);
        }
    }
}

#[test]
fn balancer_splits_freed_mass_evenly_with_exact_remainder() {
    // 100_000 freed over three survivors: 33_334, 33_333, 33_333 extra
    let out = update_tagweights(
        &vec![100_000, 300_000, 300_000, 300_000],
        &vec![false, true, true, true],
    )
    .unwrap();
    assert_eq!(out, vec![0, 333_334, 333_333, 333_333]);
}

#[test]
fn balancer_is_idempotent_when_no_tag_is_empty() {
    let w: Vec<u64> = vec![500_000, 0, 500_000];
    let out = update_tagweights(&w, &vec![true, true, true]).unwrap();
    assert_eq!(out, w);
}

#[test]
fn balancer_rejects_a_catalog_with_no_weighted_tag() {
    // every tag is empty or weightless: no mass can move anywhere
    assert_eq!(
        update_tagweights(&vec![600_000, 400_000], &vec![false, false]),
        Err(CoreError::NoWeightedTag)
    );
    assert_eq!(
        update_tagweights(&vec![0, 1_000_000], &vec![true, false]),
        Err(CoreError::NoWeightedTag)
    );
}

#[test]
fn priors_already_of_full_mass_stay_unchanged() {
    let w: Vec<u64> = vec![700_000, 0, 300_000];
    assert_eq!(normalize_priors(&w).unwrap(), w);
}

#[test]
fn priors_off_by_rounding_are_repaired_exactly() {
    // a third each, rounded down: one part short of the full mass
    let out = normalize_priors(&vec![333_333, 333_333, 333_333]).unwrap();
    assert_eq!(out, vec![333_334, 333_333, 333_333]);
    assert_eq!(out.iter().sum::<u64>(), WEIGHT_SCALE);
}

#[test]
fn priors_far_from_full_mass_are_rejected() {
    assert_eq!(
        normalize_priors(&vec![500_000, 400_000]),
        Err(CoreError::WeightSumOff)
    );
    assert_eq!(normalize_priors(&vec![]), Err(CoreError::WeightSumOff));
}

#[test]
fn every_fault_knows_its_class() {
    assert_eq!(CoreError::TagVectorMismatch.class(), ErrorClass::Configuration);
    assert_eq!(CoreError::WeightSumOff.class(), ErrorClass::Configuration);
    assert_eq!(CoreError::BadDuration.class(), ErrorClass::Configuration);
    assert_eq!(CoreError::UnknownTag.class(), ErrorClass::Data);
    assert_eq!(CoreError::EmptyCatalog.class(), ErrorClass::Data);
    assert_eq!(CoreError::NoWeightedTag.class(), ErrorClass::Data);
    assert_eq!(CoreError::MassNotOne.class(), ErrorClass::Invariant);
    assert_eq!(CoreError::NoDrawIndex.class(), ErrorClass::Invariant);
}

#[test]
fn prior_slack_is_one_part_per_tag() {
    // two tags: two parts of rounding slack are repaired, three are not
    let repaired = normalize_priors(&vec![500_001, 500_001]).unwrap();
    assert_eq!(repaired.iter().sum::<u64>(), WEIGHT_SCALE);
    assert_eq!(
        normalize_priors(&vec![500_002, 500_001]),
        Err(CoreError::WeightSumOff)
    );
}
