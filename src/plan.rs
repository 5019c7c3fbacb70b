//! Validation of a Monte-Carlo run's shape before any simulation work.
use vstd::prelude::*;

verus! {

/// Why a run's configuration was refused.
#[derive(Clone, Copy, Debug, PartialEq, Eq, Structural)]
pub enum ConfigFault {
    /// The repetition code's majority vote needs an odd number of channels.
    EvenDistance,
    /// A run needs at least one trial.
    NoTrials,
    /// A measurement cycle needs at least one sample.
    ZeroMeasureInterval,
    /// `trials * channels * max(cycles, 1)` does not fit in a `usize`.
    TooManySlots,
}

/// Error of the QEC entry points.
#[derive(Clone, Copy, Debug, PartialEq, Eq, Structural)]
pub enum QecError {
    InvalidConfiguration(ConfigFault),
}

/// The shape of a validated run.
#[derive(Clone, Copy, Debug, PartialEq, Eq, Structural)]
pub struct RunPlan {
    /// Data channels per trial (the code distance, or 9 for the surface code).
    pub channels: usize,
    /// Number of complete measurement cycles: `total_time / measure_interval`.
    pub num_cycles: usize,
    /// Samples per cycle.
    pub cycle_len: usize,
    /// Number of Monte-Carlo trials.
    pub trials: usize,
}

/// Number of flip slots counted for the physical error rate.
pub open spec fn slot_count(trials: int, channels: int, num_cycles: int) -> int {
    trials * channels * (if num_cycles > 1 { num_cycles } else { 1 })
}

impl RunPlan {
    pub open spec fn wf(self) -> bool {
        &&& self.trials > 0
        &&& self.cycle_len > 0
        &&& slot_count(self.trials as int, self.channels as int, self.num_cycles as int) <= usize::MAX
    }

    pub open spec fn slots(self) -> int {
        slot_count(self.trials as int, self.channels as int, self.num_cycles as int)
    }

    /// Number of flip slots: `trials * channels * max(num_cycles, 1)`.
    pub fn total_slots(&self) -> (r: usize)
        requires
            self.wf(),
        ensures
            r == self.slots(),
    {
        let cycles: usize = if self.num_cycles > 1 { self.num_cycles } else { 1 };
        proof {
            lemma_slot_parts(self.trials as int, self.channels as int, cycles as int);
        }
        self.trials * self.channels * cycles
    }
}

proof fn lemma_slot_parts(t: int, c: int, n: int)
    requires
        t >= 1,
        c >= 0,
        n >= 1,
        t * c * n <= usize::MAX,
    ensures
        t * c <= usize::MAX,
{
    assert(t * c <= t * c * n) by (nonlinear_arith)
        requires
            t >= 1,
            c >= 0,
            n >= 1,
    ;
}

/// Checks the shape of a run on `channels` channels and builds its plan.
fn plan_run(channels: usize, total_time: usize, measure_interval: usize, trials: usize) -> (r: Result<RunPlan, QecError>)
    ensures
        r == plan_spec(channels, total_time, measure_interval, trials),
        r matches Ok(p) ==> p.wf(),
{
    if trials == 0 {
        return Err(QecError::InvalidConfiguration(ConfigFault::NoTrials));
    }
    if measure_interval == 0 {
        return Err(QecError::InvalidConfiguration(ConfigFault::ZeroMeasureInterval));
    }
    let num_cycles = total_time / measure_interval;
    let cycles: usize = if num_cycles > 1 { num_cycles } else { 1 };
    let per_trial = channels.checked_mul(cycles);
    let total = match per_trial {
        Some(x) => x.checked_mul(trials),
        None => None,
    };
    proof {
        if per_trial.is_none() {
            assert(channels * cycles <= trials * channels * cycles) by (nonlinear_arith)
                requires
                    trials >= 1,
                    channels >= 0,
                    cycles >= 1,
            ;
        }
        assert(trials * channels * cycles == channels * cycles * trials) by (nonlinear_arith);
    }
    match total {
        Some(_) => Ok(RunPlan { channels, num_cycles, cycle_len: measure_interval, trials }),
        None => Err(QecError::InvalidConfiguration(ConfigFault::TooManySlots)),
    }
}

/// Validates a repetition-code run of the given `distance`. An even
/// distance is refused before anything else is looked at.
pub fn plan_repetition_run(distance: usize, total_time: usize, measure_interval: usize, trials: usize) -> (r: Result<RunPlan, QecError>)
    ensures
        distance % 2 == 0 ==> r == Err::<RunPlan, QecError>(QecError::InvalidConfiguration(ConfigFault::EvenDistance)),
        distance % 2 == 1 ==> r == plan_spec(distance, total_time, measure_interval, trials),
        r matches Ok(p) ==> p.wf() && p.channels == distance && p.channels % 2 == 1,
{
    if distance % 2 == 0 {
        return Err(QecError::InvalidConfiguration(ConfigFault::EvenDistance));
    }
    plan_run(distance, total_time, measure_interval, trials)
}

/// Number of data channels of the distance-3 surface code.
pub const SURFACE_CHANNELS: usize = 9;

/// Validates a distance-3 surface-code run (9 data channels).
pub fn plan_surface_run(total_time: usize, measure_interval: usize, trials: usize) -> (r: Result<RunPlan, QecError>)
    ensures
        r == plan_spec(9, total_time, measure_interval, trials),
        r matches Ok(p) ==> p.wf() && p.channels == 9,
{
    plan_run(SURFACE_CHANNELS, total_time, measure_interval, trials)
}

/// What validating a run on `channels` channels gives.
pub open spec fn plan_spec(channels: usize, total_time: usize, measure_interval: usize, trials: usize) -> Result<RunPlan, QecError> {
    if trials == 0 {
        Err(QecError::InvalidConfiguration(ConfigFault::NoTrials))
    } else if measure_interval == 0 {
        Err(QecError::InvalidConfiguration(ConfigFault::ZeroMeasureInterval))
    } else if slot_count(trials as int, channels as int, (total_time / measure_interval) as int) > usize::MAX {
        Err(QecError::InvalidConfiguration(ConfigFault::TooManySlots))
    } else {
        Ok(RunPlan { channels, num_cycles: total_time / measure_interval, cycle_len: measure_interval, trials })
    }
}

} // verus!
