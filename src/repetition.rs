//! Repetition code: per-channel syndrome histories and the majority vote
//! over the channels' decoded final states.
use vstd::prelude::*;
use crate::tally::{count_set, count_true, lemma_count_all_false, lemma_count_true_bound, TrialOutcome};

verus! {

/// The majority of the decoded channels ends flipped.
pub open spec fn majority(decoded: Seq<bool>) -> bool {
    count_true(decoded) > decoded.len() / 2
}

/// Whether more than half of the channels decode as flipped.
pub fn majority_flipped(decoded: &Vec<bool>) -> (r: bool)
    ensures
        r == majority(decoded@),
{
    let n = count_set(decoded.as_slice());
    n > decoded.len() / 2
}

/// One repetition-code Monte-Carlo trial: the hidden true state of each
/// channel, and for each completed cycle the syndrome bit observed on each
/// channel.
pub struct RepetitionTrial {
    pub states: Vec<bool>,
    pub history: Vec<Vec<bool>>,
    pub num_cycles: usize,
    pub physical_flips: usize,
}

/// `next` is `prev` after one cycle with the given channel flips and
/// measurement flips: the cycle's observations are appended, earlier ones
/// kept.
pub open spec fn repetition_cycle(prev: RepetitionTrial, next: RepetitionTrial, flips: Seq<bool>, meas_flips: Seq<bool>) -> bool {
    &&& next.distance() == prev.distance()
    &&& next.num_cycles == prev.num_cycles
    &&& next.states@ == Seq::new(prev.distance(), |q: int| prev.states@[q] != flips[q])
    &&& next.history@.drop_last() == prev.history@
    &&& next.cycles_done() == prev.cycles_done() + 1
    &&& next.history@.last()@ == Seq::new(prev.distance(), |q: int| next.states@[q] != meas_flips[q])
    &&& next.physical_flips == prev.physical_flips + count_true(flips)
}

impl RepetitionTrial {
    /// No channel has flipped and every observed bit reads zero.
    pub open spec fn is_quiet(&self) -> bool {
        &&& self.physical_flips == 0
        &&& forall|q: int| 0 <= q < self.distance() ==> !self.states@[q]
        &&& forall|c: int, q: int| 0 <= c < self.cycles_done() && 0 <= q < self.distance() ==> !self.observed(q, c)
    }

    pub open spec fn distance(&self) -> nat {
        self.states@.len()
    }

    pub open spec fn cycles_done(&self) -> nat {
        self.history@.len()
    }

    /// The bit observed on channel `q` in cycle `c`.
    pub open spec fn observed(&self, q: int, c: int) -> bool {
        self.history@[c]@[q]
    }

    pub open spec fn wf(&self) -> bool {
        &&& self.cycles_done() <= self.num_cycles
        &&& self.distance() * self.num_cycles <= usize::MAX
        &&& self.physical_flips <= self.distance() * self.cycles_done()
        &&& forall|c: int| 0 <= c < self.cycles_done() ==> (#[trigger] self.history@[c])@.len() == self.distance()
    }

    /// A trial over `distance` channels and `num_cycles` cycles, every
    /// channel in its initial state and nothing observed yet.
    pub fn new(distance: usize, num_cycles: usize) -> (r: RepetitionTrial)
        requires
            distance * num_cycles <= usize::MAX,
        ensures
            r.wf(),
            r.is_quiet(),
            r.distance() == distance,
            forall|q: int| 0 <= q < distance ==> !r.states@[q],
            r.cycles_done() == 0,
            r.num_cycles == num_cycles,
            r.physical_flips == 0,
    {
        let mut states: Vec<bool> = Vec::new();
        let mut q: usize = 0;
        while q < distance
            invariant
                q <= distance,
                states@.len() == q,
                forall|p: int| 0 <= p < q ==> !states@[p],
            decreases distance - q,
        {
            states.push(false);
            q = q + 1;
        }
        RepetitionTrial { states, history: Vec::new(), num_cycles, physical_flips: 0 }
    }

    /// Records one cycle: channel `q` flips its true state where `flips[q]`
    /// holds, then is measured, the reading inverted where `meas_flips[q]`
    /// holds.
    pub fn record_cycle(&mut self, flips: &Vec<bool>, meas_flips: &Vec<bool>)
        requires
            old(self).wf(),
            old(self).cycles_done() < old(self).num_cycles,
            flips@.len() == old(self).distance(),
            meas_flips@.len() == old(self).distance(),
        ensures
            final(self).wf(),
            repetition_cycle(*old(self), *final(self), flips@, meas_flips@),
    {
        let d = self.states.len();
        let ghost before = self.states@;
        let mut row: Vec<bool> = Vec::new();
        let mut q: usize = 0;
        while q < d
            invariant
                d == self.states@.len(),
                d == before.len(),
                self.history == old(self).history,
                self.num_cycles == old(self).num_cycles,
                self.physical_flips == old(self).physical_flips,
                d == flips@.len(),
                d == meas_flips@.len(),
                q <= d,
                row@.len() == q,
                forall|p: int| 0 <= p < q ==> self.states@[p] == (before[p] != flips@[p]),
                forall|p: int| q <= p < d ==> self.states@[p] == before[p],
                forall|p: int| 0 <= p < q ==> row@[p] == (self.states@[p] != meas_flips@[p]),
            decreases d - q,
        {
            let next = self.states[q] != flips[q];
            self.states.set(q, next);
            row.push(next != meas_flips[q]);
            q = q + 1;
        }
        let n = count_set(flips.as_slice());
        proof {
            lemma_count_true_bound(flips@);
            let c = self.history@.len() as int;
            let dd = d as int;
            assert(dd * c + dd == dd * (c + 1)) by (nonlinear_arith);
            assert(dd * (c + 1) <= dd * (self.num_cycles as int)) by (nonlinear_arith)
                requires
                    c + 1 <= self.num_cycles,
                    dd >= 0,
            ;
        }
        self.physical_flips = self.physical_flips + n;
        self.history.push(row);
        assert(self.states@ =~= Seq::new(before.len(), |p: int| before[p] != flips@[p]));
        assert(self.history@.drop_last() =~= old(self).history@);
        assert(self.history@.last()@ =~= Seq::new(before.len(), |p: int| self.states@[p] != meas_flips@[p]));
    }

    /// The bits observed on channel `q`, one per completed cycle.
    pub fn channel_history(&self, q: usize) -> (r: Vec<bool>)
        requires
            self.wf(),
            q < self.distance(),
        ensures
            r@ == Seq::new(self.cycles_done(), |c: int| self.observed(q as int, c)),
    {
        let n = self.history.len();
        let mut r: Vec<bool> = Vec::new();
        let mut c: usize = 0;
        while c < n
            invariant
                n == self.history@.len(),
                self.wf(),
                q < self.distance(),
                c <= n,
                r@.len() == c,
                forall|k: int| 0 <= k < c ==> r@[k] == self.observed(q as int, k),
            decreases n - c,
        {
            assert(self.history@[c as int]@.len() == self.distance());
            r.push(self.history[c][q]);
            c = c + 1;
        }
        assert(r@ =~= Seq::new(self.cycles_done(), |k: int| self.observed(q as int, k)));
        r
    }

    /// The trial's contribution to the run, given each channel's decoded
    /// final state: it fails when some cycle was run and a majority of the
    /// channels decode as flipped.
    pub fn outcome(&self, decoded: &Vec<bool>) -> (r: TrialOutcome)
        requires
            decoded@.len() == self.distance(),
        ensures
            r.physical_flips == self.physical_flips,
            r.logical_failed == (self.cycles_done() > 0 && majority(decoded@)),
    {
        let failed = self.history.len() > 0 && majority_flipped(decoded);
        TrialOutcome { logical_failed: failed, physical_flips: self.physical_flips }
    }
}

/// A trial whose channels all decode as unflipped does not fail.
pub proof fn lemma_quiet_majority(decoded: Seq<bool>)
    requires
        forall|q: int| 0 <= q < decoded.len() ==> !decoded[q],
    ensures
        !majority(decoded),
{
    lemma_count_all_false(decoded);
}

/// With no channel flip and no measurement error, a quiet trial stays
/// quiet through a cycle.
pub proof fn lemma_noiseless_repetition_cycle(
    prev: RepetitionTrial,
    next: RepetitionTrial,
    flips: Seq<bool>,
    meas_flips: Seq<bool>,
)
    requires
        prev.wf(),
        prev.is_quiet(),
        flips.len() == prev.distance(),
        meas_flips.len() == prev.distance(),
        forall|q: int| 0 <= q < flips.len() ==> !flips[q],
        forall|q: int| 0 <= q < meas_flips.len() ==> !meas_flips[q],
        repetition_cycle(prev, next, flips, meas_flips),
    ensures
        next.is_quiet(),
{
    lemma_count_all_false(flips);
    assert forall|c: int, q: int| 0 <= c < next.cycles_done() && 0 <= q < next.distance() implies !next.observed(q, c) by {
        if c < prev.cycles_done() {
            assert(next.history@[c] == next.history@.drop_last()[c]);
            assert(!prev.observed(q, c));
        } else {
            assert(next.history@[c] == next.history@.last());
        }
    }
}

} // verus!
