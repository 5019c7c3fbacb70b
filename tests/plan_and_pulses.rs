use sfe_core::plan::{plan_repetition_run, plan_surface_run, ConfigFault, QecError, RunPlan};
use sfe_core::pulses::{cycle_offsets, is_pulse_sequence, sign_schedule};

fn evenly_spaced(n: usize, steps: usize) -> Vec<usize> {
    (0..n).map(|k| k * steps / n).collect()
}

#[test]
fn even_distance_is_rejected() {
    assert_eq!(
        plan_repetition_run(4, 2000, 50, 100),
        Err(QecError::InvalidConfiguration(ConfigFault::EvenDistance))
    );
    assert_eq!(
        plan_repetition_run(0, 2000, 50, 100),
        Err(QecError::InvalidConfiguration(ConfigFault::EvenDistance))
    );
}

#[test]
fn even_distance_is_rejected_before_other_faults() {
    assert_eq!(
        plan_repetition_run(2, 2000, 0, 0),
        Err(QecError::InvalidConfiguration(ConfigFault::EvenDistance))
    );
}

#[test]
fn zero_trials_is_rejected() {
    assert_eq!(
        plan_repetition_run(3, 2000, 50, 0),
        Err(QecError::InvalidConfiguration(ConfigFault::NoTrials))
    );
    assert_eq!(
        plan_surface_run(2000, 50, 0),
        Err(QecError::InvalidConfiguration(ConfigFault::NoTrials))
    );
}

#[test]
fn zero_measure_interval_is_rejected() {
    assert_eq!(
        plan_repetition_run(3, 2000, 0, 10),
        Err(QecError::InvalidConfiguration(ConfigFault::ZeroMeasureInterval))
    );
}

#[test]
fn oversized_run_is_rejected() {
    assert_eq!(
        plan_repetition_run(3, usize::MAX, 1, usize::MAX / 2),
        Err(QecError::InvalidConfiguration(ConfigFault::TooManySlots))
    );
}

#[test]
fn repetition_plan_counts_cycles_and_slots() {
    let plan = plan_repetition_run(3, 2000, 50, 2000).unwrap();
    assert_eq!(
        plan,
        RunPlan { channels: 3, num_cycles: 40, cycle_len: 50, trials: 2000 }
    );
    assert_eq!(plan.total_slots(), 2000 * 3 * 40);
}

#[test]
fn slots_count_one_cycle_when_none_completes() {
    let plan = plan_repetition_run(5, 30, 50, 7).unwrap();
    assert_eq!(plan.num_cycles, 0);
    assert_eq!(plan.total_slots(), 7 * 5);
}

#[test]
fn surface_plan_has_nine_channels() {
    let plan = plan_surface_run(1000, 100, 4).unwrap();
    assert_eq!(plan.channels, 9);
    assert_eq!(plan.num_cycles, 10);
    assert_eq!(plan.total_slots(), 4 * 9 * 10);
}

#[test]
fn offsets_are_taken_modulo_the_cycle_and_deduplicated() {
    let pulses = vec![3, 53, 10, 110, 49, 0];
    assert_eq!(cycle_offsets(&pulses, 50), vec![0, 3, 10, 49]);
}

#[test]
fn offsets_of_evenly_spaced_pulses() {
    let pulses = evenly_spaced(60, 2000);
    assert_eq!(pulses.len(), 60);
    assert!(is_pulse_sequence(&pulses, 2000));
    let offsets = cycle_offsets(&pulses, 50);
    assert!(offsets.windows(2).all(|w| w[0] < w[1]));
    assert!(offsets.iter().all(|&t| t < 50));
    for p in &pulses {
        assert!(offsets.contains(&(p % 50)));
    }
    for t in &offsets {
        assert!(pulses.iter().any(|p| p % 50 == *t));
    }
}

#[test]
fn empty_pulse_sequence_has_no_offsets() {
    assert_eq!(cycle_offsets(&vec![], 10), Vec::<usize>::new());
    assert_eq!(sign_schedule(&vec![], 4), vec![false, false, false, false]);
}

#[test]
fn sign_flips_at_each_offset_before_the_sample() {
    let pulses = vec![1, 3];
    assert_eq!(
        sign_schedule(&pulses, 5),
        vec![false, true, true, false, false]
    );
    let pulses = vec![0, 2, 4];
    assert_eq!(
        sign_schedule(&pulses, 5),
        vec![true, true, false, false, true]
    );
    // 6 falls on offset 1 again; the repeat does not flip twice.
    let pulses = vec![1, 6];
    assert_eq!(sign_schedule(&pulses, 5), vec![false, true, true, true, true]);
}

#[test]
fn pulse_sequence_format() {
    assert!(is_pulse_sequence(&vec![], 0));
    assert!(is_pulse_sequence(&vec![0, 5, 9], 10));
    assert!(!is_pulse_sequence(&vec![0, 5, 10], 10));
    assert!(!is_pulse_sequence(&vec![5, 5], 10));
    assert!(!is_pulse_sequence(&vec![6, 5], 10));
}
