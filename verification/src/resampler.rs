//! Clock-drift decisions.
//!
//! Sender and receiver clocks are never perfectly aligned, so a receiver's
//! jitter buffer slowly fills or drains over time. Its occupancy tells which
//! way to nudge the resampling ratio: too much buffered audio means the sender
//! clock is fast, so consume input faster; too little means the opposite.

use vstd::prelude::*;

verus! {

/// How the resampling ratio has to move.
#[derive(Debug, Clone, Copy, PartialEq, Eq, Structural)]
pub enum Drift {
    /// Audio is accumulating: consume input faster.
    SpeedUp,
    /// Audio is running out: consume input slower.
    SlowDown,
    /// Occupancy is at the target, or above it by no more than the slack.
    Hold,
}

/// How far occupancy may rise above the target: half of it, at least one.
pub open spec fn slack(target_frames: usize) -> int {
    if target_frames / 2 >= 1 {
        (target_frames / 2) as int
    } else {
        1
    }
}

/// The way to move for an occupancy.
pub open spec fn drift_for(occupancy_frames: usize, target_frames: usize) -> Drift {
    if occupancy_frames > target_frames + slack(target_frames) {
        Drift::SpeedUp
    } else if occupancy_frames < target_frames {
        Drift::SlowDown
    } else {
        Drift::Hold
    }
}

/// Decide from jitter buffer occupancy how the playback ratio has to move.
pub fn adjust_for_occupancy(occupancy_frames: usize, target_frames: usize) -> (d: Drift)
    ensures
        d == drift_for(occupancy_frames, target_frames),
{
    let half: usize = target_frames / 2;
    let slack: usize = if half < 1 {
        1
    } else {
        half
    };
    if occupancy_frames > target_frames && occupancy_frames - target_frames > slack {
        Drift::SpeedUp
    } else if occupancy_frames < target_frames {
        Drift::SlowDown
    } else {
        Drift::Hold
    }
}

/// A fuller buffer never asks for a slower pace.
pub proof fn law_drift_is_monotone(low: usize, high: usize, target_frames: usize)
    requires
        low <= high,
    ensures
        drift_for(low, target_frames) == Drift::SpeedUp ==> drift_for(high, target_frames)
            == Drift::SpeedUp,
        drift_for(high, target_frames) == Drift::SlowDown ==> drift_for(low, target_frames)
            == Drift::SlowDown,
{
}

/// A buffer at its target is left alone, and one below it always slowed down.
pub proof fn law_drift_holds_at_target(occupancy_frames: usize, target_frames: usize)
    ensures
        drift_for(target_frames, target_frames) == Drift::Hold,
        occupancy_frames < target_frames <==> drift_for(occupancy_frames, target_frames)
            == Drift::SlowDown,
{
}

/// Less than the target slows down; more than half the target above it, and at
/// least two, speeds up; anything between is left alone.
pub proof fn law_drift_compares_with_the_target(occupancy_frames: usize, target_frames: usize)
    ensures
        ({
            let drift = drift_for(occupancy_frames, target_frames);
            let above = occupancy_frames - target_frames;
            &&& drift == Drift::SlowDown <==> above < 0
            &&& drift == Drift::SpeedUp <==> above > 1 && above > target_frames / 2
            &&& drift == Drift::Hold <==> 0 <= above <= 1 || (0 <= above && above
                <= target_frames / 2)
        }),
{
}

} // verus!
