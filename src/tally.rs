//! Per-trial outcomes and their aggregation into error-rate counts.
use vstd::prelude::*;
use crate::plan::RunPlan;

verus! {

/// Number of `true` entries of `s`.
pub open spec fn count_true(s: Seq<bool>) -> nat
    decreases s.len(),
{
    if s.len() == 0 {
        0
    } else {
        count_true(s.drop_last()) + if s.last() {
            1nat
        } else {
            0nat
        }
    }
}

/// No more entries are `true` than there are entries.
pub proof fn lemma_count_true_bound(s: Seq<bool>)
    ensures
        count_true(s) <= s.len(),
    decreases s.len(),
{
    if s.len() > 0 {
        lemma_count_true_bound(s.drop_last());
    }
}

/// A sequence with no `true` entry counts zero.
pub proof fn lemma_count_all_false(s: Seq<bool>)
    requires
        forall|q: int| 0 <= q < s.len() ==> !s[q],
    ensures
        count_true(s) == 0,
    decreases s.len(),
{
    if s.len() > 0 {
        lemma_count_all_false(s.drop_last());
    }
}

/// Counts the `true` entries of `flags`.
pub fn count_set(flags: &[bool]) -> (r: usize)
    ensures
        r == count_true(flags@),
{
    let n = flags.len();
    let mut r: usize = 0;
    let mut i: usize = 0;
    while i < n
        invariant
            n == flags@.len(),
            i <= n,
            r == count_true(flags@.subrange(0, i as int)),
            r <= i,
        decreases n - i,
    {
        proof {
            assert(flags@.subrange(0, i as int + 1).drop_last() =~= flags@.subrange(0, i as int));
        }
        if flags[i] {
            r = r + 1;
        }
        i = i + 1;
    }
    proof {
        assert(flags@.subrange(0, n as int) =~= flags@);
    }
    r
}

/// What one Monte-Carlo trial contributes to a run.
#[derive(Clone, Copy, Debug, PartialEq, Eq, Structural)]
pub struct TrialOutcome {
    /// The decoded logical state disagrees with the encoded one.
    pub logical_failed: bool,
    /// Number of true-state flips over all channels and cycles.
    pub physical_flips: usize,
}

/// Running sums over the trials of a run. Trials share nothing else, so
/// partial tallies may be merged in any order.
#[derive(Clone, Copy, Debug, PartialEq, Eq, Structural)]
pub struct QecTally {
    pub trials: usize,
    pub logical_failures: usize,
    pub physical_flips: usize,
}

impl QecTally {
    pub open spec fn wf(&self) -> bool {
        self.logical_failures <= self.trials
    }

    /// A tally of no trials.
    pub fn new() -> (r: QecTally)
        ensures
            r.wf(),
            r.trials == 0,
            r.logical_failures == 0,
            r.physical_flips == 0,
    {
        QecTally { trials: 0, logical_failures: 0, physical_flips: 0 }
    }

    /// The tally of a single trial.
    pub fn from_outcome(o: TrialOutcome) -> (r: QecTally)
        ensures
            r.wf(),
            r.trials == 1,
            r.logical_failures == (if o.logical_failed { 1int } else { 0int }),
            r.physical_flips == o.physical_flips,
    {
        QecTally { trials: 1, logical_failures: if o.logical_failed { 1 } else { 0 }, physical_flips: o.physical_flips }
    }

    /// Componentwise sum of two tallies.
    pub fn merge(&self, other: &QecTally) -> (r: QecTally)
        requires
            self.wf(),
            other.wf(),
            self.trials + other.trials <= usize::MAX,
            self.physical_flips + other.physical_flips <= usize::MAX,
        ensures
            r.wf(),
            r == merged(*self, *other),
    {
        QecTally {
            trials: self.trials + other.trials,
            logical_failures: self.logical_failures + other.logical_failures,
            physical_flips: self.physical_flips + other.physical_flips,
        }
    }

    /// Adds one trial's outcome.
    pub fn record(&mut self, o: TrialOutcome)
        requires
            old(self).wf(),
            old(self).trials < usize::MAX,
            old(self).physical_flips + o.physical_flips <= usize::MAX,
        ensures
            *final(self) == merged(*old(self), (QecTally {
                trials: 1,
                logical_failures: if o.logical_failed { 1 } else { 0 },
                physical_flips: o.physical_flips,
            })),
            final(self).wf(),
    {
        let one = QecTally::from_outcome(o);
        *self = self.merge(&one);
    }
}

/// Componentwise sum of two tallies, in mathematical integers.
pub open spec fn merged(a: QecTally, b: QecTally) -> QecTally {
    QecTally {
        trials: (a.trials + b.trials) as usize,
        logical_failures: (a.logical_failures + b.logical_failures) as usize,
        physical_flips: (a.physical_flips + b.physical_flips) as usize,
    }
}

/// Merging tallies does not depend on the order of the partial results:
/// it is commutative and associative wherever the sums fit.
pub proof fn lemma_merge_order_free(a: QecTally, b: QecTally, c: QecTally)
    requires
        a.trials + b.trials + c.trials <= usize::MAX,
        a.logical_failures + b.logical_failures + c.logical_failures <= usize::MAX,
        a.physical_flips + b.physical_flips + c.physical_flips <= usize::MAX,
    ensures
        merged(a, b) == merged(b, a),
        merged(merged(a, b), c) == merged(a, merged(b, c)),
{
}

/// The result of a run in exact counts: the physical error rate is
/// `physical_flips / slots`, the logical error rate `logical_failures / trials`.
#[derive(Clone, Copy, Debug, PartialEq, Eq, Structural)]
pub struct QecSummary {
    /// Code distance (3 for the surface code).
    pub distance: usize,
    pub physical_flips: usize,
    /// `trials * channels * max(cycles, 1)`.
    pub slots: usize,
    pub logical_failures: usize,
    pub trials: usize,
}

/// Builds the summary of a finished run from its plan and its tally.
pub fn summarize(distance: usize, plan: &RunPlan, tally: &QecTally) -> (r: QecSummary)
    requires
        plan.wf(),
        tally.wf(),
        tally.trials == plan.trials,
    ensures
        r == (QecSummary {
            distance,
            physical_flips: tally.physical_flips,
            slots: plan.slots() as usize,
            logical_failures: tally.logical_failures,
            trials: tally.trials,
        }),
{
    QecSummary {
        distance,
        physical_flips: tally.physical_flips,
        slots: plan.total_slots(),
        logical_failures: tally.logical_failures,
        trials: tally.trials,
    }
}

impl QecSummary {
    /// The physical error rate as `(numerator, denominator)`; `(0, 1)`
    /// when there are no slots.
    pub fn physical_rate(&self) -> (r: (usize, usize))
        ensures
            self.slots > 0 ==> r == (self.physical_flips, self.slots),
            self.slots == 0 ==> r == (0usize, 1usize),
    {
        if self.slots > 0 {
            (self.physical_flips, self.slots)
        } else {
            (0, 1)
        }
    }

    /// The logical error rate as `(numerator, denominator)`.
    pub fn logical_rate(&self) -> (r: (usize, usize))
        ensures
            r == (self.logical_failures, self.trials),
    {
        (self.logical_failures, self.trials)
    }

    /// The gain `physical_rate / logical_rate` as an exact fraction, or
    /// `None` (reported as the sentinel `-1`) when no logical failure
    /// occurred.
    pub fn gain(&self) -> (r: Option<(u128, u128)>)
        ensures
            self.logical_failures == 0 ==> r.is_none(),
            self.logical_failures > 0 ==> r == Some(
                (
                    (self.physical_rate_spec().0 * self.trials) as u128,
                    (self.physical_rate_spec().1 * self.logical_failures) as u128,
                ),
            ),
    {
        if self.logical_failures == 0 {
            return None;
        }
        let (num, den) = self.physical_rate();
        proof {
            lemma_product_fits(num as int, self.trials as int);
            lemma_product_fits(den as int, self.logical_failures as int);
        }
        Some(((num as u128) * (self.trials as u128), (den as u128) * (self.logical_failures as u128)))
    }

    pub open spec fn physical_rate_spec(&self) -> (usize, usize) {
        if self.slots > 0 {
            (self.physical_flips, self.slots)
        } else {
            (0usize, 1usize)
        }
    }
}

proof fn lemma_product_fits(a: int, b: int)
    requires
        0 <= a <= usize::MAX,
        0 <= b <= usize::MAX,
    ensures
        a * b <= u128::MAX,
{
    assert(a * b <= usize::MAX * usize::MAX) by (nonlinear_arith)
        requires
            0 <= a <= usize::MAX,
            0 <= b <= usize::MAX,
    ;
}

} // verus!
