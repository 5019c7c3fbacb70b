use sfe_core::plan::plan_repetition_run;
use sfe_core::tally::{count_set, summarize, QecTally, TrialOutcome};

#[test]
fn counting_set_flags() {
    assert_eq!(count_set(&[]), 0);
    assert_eq!(count_set(&[true, false, true, true]), 3);
}

#[test]
fn tallies_merge_in_any_order() {
    let a = QecTally { trials: 3, logical_failures: 1, physical_flips: 10 };
    let b = QecTally { trials: 2, logical_failures: 2, physical_flips: 4 };
    let c = QecTally { trials: 5, logical_failures: 0, physical_flips: 1 };
    assert_eq!(a.merge(&b), b.merge(&a));
    assert_eq!(a.merge(&b).merge(&c), a.merge(&b.merge(&c)));
    assert_eq!(
        a.merge(&b),
        QecTally { trials: 5, logical_failures: 3, physical_flips: 14 }
    );
}

#[test]
fn recording_outcomes() {
    let mut t = QecTally::new();
    t.record(TrialOutcome { logical_failed: true, physical_flips: 4 });
    t.record(TrialOutcome { logical_failed: false, physical_flips: 2 });
    assert_eq!(t, QecTally { trials: 2, logical_failures: 1, physical_flips: 6 });
    assert_eq!(
        QecTally::from_outcome(TrialOutcome { logical_failed: true, physical_flips: 7 }),
        QecTally { trials: 1, logical_failures: 1, physical_flips: 7 }
    );
}

#[test]
fn rates_and_gain() {
    let plan = plan_repetition_run(3, 2000, 50, 10).unwrap();
    let tally = QecTally { trials: 10, logical_failures: 2, physical_flips: 60 };
    let s = summarize(3, &plan, &tally);
    assert_eq!(s.slots, 10 * 3 * 40);
    assert_eq!(s.physical_rate(), (60, 1200));
    assert_eq!(s.logical_rate(), (2, 10));
    // (60 / 1200) / (2 / 10) = 600 / 2400
    assert_eq!(s.gain(), Some((600, 2400)));
}

#[test]
fn no_gain_without_logical_failures() {
    let plan = plan_repetition_run(3, 2000, 50, 10).unwrap();
    let tally = QecTally { trials: 10, logical_failures: 0, physical_flips: 60 };
    assert_eq!(summarize(3, &plan, &tally).gain(), None);
}

#[test]
fn noiseless_run_has_zero_rates() {
    let plan = plan_repetition_run(3, 2000, 50, 10).unwrap();
    let s = summarize(3, &plan, &QecTally { trials: 10, logical_failures: 0, physical_flips: 0 });
    assert_eq!(s.physical_rate().0, 0);
    assert_eq!(s.logical_rate().0, 0);
    assert_eq!(s.gain(), None);
}
