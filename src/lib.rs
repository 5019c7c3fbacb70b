//! Integer and boolean core of a QEC evaluation harness: run validation,
//! pulse-sign schedules, per-trial syndrome records, the repetition-code
//! majority vote, the distance-3 surface-code decoder and trial tallies.
pub mod plan;
pub mod pulses;
pub mod repetition;
pub mod surface;
pub mod tally;
