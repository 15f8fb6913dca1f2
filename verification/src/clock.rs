//! Instants and the admission window of a collision candidate.
//!
//! An instant is a count of ticks since the start of the step. A tick is so
//! short, and the range of the count so wide, that a time measured in seconds
//! as a double-precision number of any common size is a whole number of
//! ticks. The library compares instants and never does arithmetic on them
//! that could lose a tick.

use vstd::prelude::*;

verus! {

/// An instant, in ticks since the start of the step.
pub type Tick = i128;

/// The number of ticks in a second: two to the power of 80.
pub const TICKS_PER_SECOND: Tick = 1_208_925_819_614_629_174_706_176;

/// How far before a particle's own time a collision is still accepted: a
/// microsecond, as closely as a double-precision number states it. Contacts
/// that lie a little in the past come from rounding, and are resolved;
/// anything earlier is dropped.
pub const TIME_EPS: u64 = 1_208_925_819_614_629_120;

/// A candidate is admitted when it lies strictly later than `now - tolerance`
/// and strictly before `threshold`.
pub open spec fn in_window(time: int, now: int, tolerance: int, threshold: int) -> bool {
    now - tolerance < time && time < threshold
}

/// Decides whether a collision at `time` may still be scheduled for a particle
/// whose motion has already been carried forward to `now`.
pub fn is_admissible(time: Tick, now: Tick, tolerance: u64, threshold: Tick) -> (ok: bool)
    ensures
        ok == in_window(time as int, now as int, tolerance as int, threshold as int),
{
    let late_enough = match now.checked_sub(tolerance as i128) {
        Some(earliest) => time > earliest,
        // The window opens before the first instant that can be counted.
        None => true,
    };
    late_enough && time < threshold
}

} // verus!
