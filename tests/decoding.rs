use sfe_core::repetition::{majority_flipped, RepetitionTrial};
use sfe_core::surface::{
    apply_correction, decode_syndrome, logical_failure, logical_parity, stabilizer_syndrome,
    SurfaceTrial,
};

fn unit(q: usize) -> [bool; 9] {
    let mut z = [false; 9];
    z[q] = true;
    z
}

#[test]
fn syndrome_of_single_flips() {
    assert_eq!(stabilizer_syndrome(&unit(0)), [true, false, false, false]);
    assert_eq!(stabilizer_syndrome(&unit(4)), [true, true, true, true]);
    assert_eq!(stabilizer_syndrome(&unit(5)), [false, true, false, true]);
    assert_eq!(stabilizer_syndrome(&[false; 9]), [false; 4]);
}

#[test]
fn zero_syndrome_gets_no_correction() {
    assert_eq!(decode_syndrome(&[false; 4]), Vec::<usize>::new());
}

#[test]
fn every_single_flip_with_a_unique_signature_is_found() {
    for q in 0..9 {
        let synd = stabilizer_syndrome(&unit(q));
        assert_eq!(decode_syndrome(&synd), vec![q]);
    }
}

#[test]
fn pair_search_when_no_single_channel_matches() {
    // {s0, s3} is no single channel's signature; channels 0 and 8 give it.
    assert_eq!(decode_syndrome(&[true, false, false, true]), vec![0, 8]);
    // {s1, s2}: the first pair in search order is (1, 3).
    assert_eq!(decode_syndrome(&[false, true, true, false]), vec![1, 3]);
}

#[test]
fn pair_search_also_runs_when_the_nearest_single_is_one_off() {
    // {s0, s1, s2} is one bit from channel 1's signature, but the pair
    // (1, 6) matches it exactly.
    assert_eq!(decode_syndrome(&[true, true, true, false]), vec![1, 6]);
}

#[test]
fn correction_flips_the_listed_channels() {
    let z = unit(2);
    let fixed = apply_correction(&z, &vec![2, 7]);
    assert_eq!(fixed, unit(7));
    assert_eq!(apply_correction(&z, &vec![]), z);
}

#[test]
fn logical_operator_parity() {
    assert!(!logical_parity(&[false; 9]));
    assert!(logical_parity(&unit(4)));
    let mut z = unit(1);
    z[7] = true;
    assert!(!logical_parity(&z));
}

#[test]
fn single_error_is_corrected() {
    let z = unit(1);
    let synd = stabilizer_syndrome(&z);
    assert!(!logical_failure(&z, &synd));
}

#[test]
fn logical_string_goes_undetected() {
    let mut z = [false; 9];
    z[1] = true;
    z[4] = true;
    z[7] = true;
    let synd = stabilizer_syndrome(&z);
    assert_eq!(synd, [false; 4]);
    assert!(logical_failure(&z, &synd));
}

#[test]
fn surface_trial_records_and_decodes_the_final_cycle() {
    let mut trial = SurfaceTrial::new(3);
    trial.record_cycle(&unit(3), &[false; 4]);
    assert_eq!(trial.physical_flips, 1);
    assert_eq!(trial.last_syndrome, [true, false, true, false]);
    // Channel 3 flips back; a measurement error corrupts stabilizer 2.
    trial.record_cycle(&unit(3), &[false, false, true, false]);
    assert_eq!(trial.state, [false; 9]);
    assert_eq!(trial.last_syndrome, [false, false, true, false]);
    assert_eq!(trial.cycles_done, 2);
    let o = trial.outcome();
    assert_eq!(o.physical_flips, 2);
    // The phantom syndrome is read as channel 6 and corrected there, which
    // leaves the logical operator untouched.
    assert!(!o.logical_failed);
}

#[test]
fn noiseless_surface_trial_never_fails() {
    let mut trial = SurfaceTrial::new(20);
    for _ in 0..20 {
        trial.record_cycle(&[false; 9], &[false; 4]);
    }
    let o = trial.outcome();
    assert_eq!(o.physical_flips, 0);
    assert!(!o.logical_failed);
}

#[test]
fn majority_vote() {
    assert!(!majority_flipped(&vec![false, false, false]));
    assert!(!majority_flipped(&vec![true, false, false]));
    assert!(majority_flipped(&vec![true, false, true]));
    assert!(majority_flipped(&vec![true, true, true, false, false]) );
    assert!(!majority_flipped(&vec![]));
}

#[test]
fn repetition_trial_keeps_per_channel_histories() {
    let mut trial = RepetitionTrial::new(3, 4);
    trial.record_cycle(&vec![false, true, false], &vec![false, false, false]);
    trial.record_cycle(&vec![false, false, false], &vec![true, false, false]);
    trial.record_cycle(&vec![true, true, false], &vec![false, false, false]);
    assert_eq!(trial.states, vec![true, false, false]);
    assert_eq!(trial.physical_flips, 3);
    assert_eq!(trial.channel_history(0), vec![false, true, true]);
    assert_eq!(trial.channel_history(1), vec![true, true, false]);
    assert_eq!(trial.channel_history(2), vec![false, false, false]);
    let o = trial.outcome(&vec![true, false, false]);
    assert_eq!(o.physical_flips, 3);
    assert!(!o.logical_failed);
    assert!(trial.outcome(&vec![true, true, false]).logical_failed);
}

#[test]
fn repetition_trial_without_cycles_never_fails() {
    let trial = RepetitionTrial::new(3, 0);
    assert!(!trial.outcome(&vec![true, true, true]).logical_failed);
}

#[test]
fn noiseless_repetition_trial_never_fails() {
    let mut trial = RepetitionTrial::new(3, 40);
    for _ in 0..40 {
        trial.record_cycle(&vec![false; 3], &vec![false; 3]);
    }
    for q in 0..3 {
        assert_eq!(trial.channel_history(q), vec![false; 40]);
    }
    let o = trial.outcome(&vec![false; 3]);
    assert_eq!(o.physical_flips, 0);
    assert!(!o.logical_failed);
}

#[test]
fn every_single_flip_is_corrected_without_logical_failure() {
    for q in 0..9 {
        let z = unit(q);
        let synd = stabilizer_syndrome(&z);
        let c = decode_syndrome(&synd);
        assert_eq!(apply_correction(&z, &c), [false; 9]);
        assert!(!logical_failure(&z, &synd));
    }
}
