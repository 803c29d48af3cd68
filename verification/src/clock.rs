//! Filter time bookkeeping: the pair of last-update stamps and the policy
//! that decides, for each incoming measurement, how far the predict and the
//! covariance-propagation steps advance.
//!
//! Timestamps are fixed-point integers at a caller-chosen scale. A step
//! with a non-positive time delta is skipped, which protects the filter
//! against out-of-order measurements; the very first update after
//! initialization therefore sees a zero delta and changes nothing.
use vstd::prelude::*;

verus! {

/// A pair of timestamps (or time deltas): one for the nonlinear state
/// prediction, one for the covariance propagation and observation.
#[derive(Clone, Copy, PartialEq, Eq, Structural, Debug)]
pub struct KFTime<T> {
    pub predict: T,
    pub observe: T,
}

/// A pair of time deltas, as handed to a predict step.
pub type DeltaTime<T> = KFTime<T>;

impl<T: Copy> KFTime<T> {
    /// Both stamps set to the same time.
    pub fn all(t: T) -> (r: KFTime<T>)
        ensures
            r.predict == t,
            r.observe == t,
    {
        KFTime { predict: t, observe: t }
    }
}

/// Magnitude cap on the timestamps the clock accepts, so that time deltas
/// never overflow.
pub const TIME_CAP: i64 = 2305843009213693952;

/// Whether a predict or observe step with this time delta runs at all:
/// steps with non-positive deltas are skipped.
pub open spec fn spec_step_runs(dt: i64) -> bool {
    dt > 0
}

/// The skip policy, as executable code: a step runs exactly when its time
/// delta is positive. In particular a zero delta (a repeated timestamp, or
/// the first update after initialization) leaves the state and the
/// covariance untouched.
pub fn step_runs(dt: i64) -> (r: bool)
    ensures
        r == spec_step_runs(dt),
{
    dt > 0
}

/// The filter clock: the timestamps of the last prediction and the last
/// applied observation.
#[derive(Clone, Copy, PartialEq, Eq, Structural, Debug)]
pub struct FilterClock {
    pub last: KFTime<i64>,
}

impl FilterClock {
    pub open spec fn wf(self) -> bool {
        -TIME_CAP <= self.last.predict <= TIME_CAP && -TIME_CAP <= self.last.observe <= TIME_CAP
    }

    /// A clock whose last prediction and observation both sit at the
    /// initialization stamp, so that the first update sees a zero delta.
    pub fn new(timestamp_init: i64) -> (r: FilterClock)
        requires
            -TIME_CAP <= timestamp_init <= TIME_CAP,
        ensures
            r.last.predict == timestamp_init,
            r.last.observe == timestamp_init,
            r.wf(),
    {
        FilterClock { last: KFTime { predict: timestamp_init, observe: timestamp_init } }
    }

    /// Start an update at `timestamp`: return the deltas since the last
    /// prediction and the last observation, and advance the prediction
    /// stamp. The prediction stamp advances whether or not an observation
    /// follows, so a measurement that yields no observation still moves
    /// the filter forward in time.
    pub fn begin_update(&mut self, timestamp: i64) -> (dt: DeltaTime<i64>)
        requires
            old(self).wf(),
            -TIME_CAP <= timestamp <= TIME_CAP,
        ensures
            dt.predict == timestamp - old(self).last.predict,
            dt.observe == timestamp - old(self).last.observe,
            final(self).last.predict == timestamp,
            final(self).last.observe == old(self).last.observe,
            final(self).wf(),
    {
        let dt = KFTime {
            predict: timestamp - self.last.predict,
            observe: timestamp - self.last.observe,
        };
        self.last.predict = timestamp;
        dt
    }

    /// Record that an observation was applied at `timestamp`. Called only
    /// when the update produced an observation; a skipped observation
    /// leaves the observation stamp where it was.
    pub fn confirm_observe(&mut self, timestamp: i64)
        requires
            old(self).wf(),
            -TIME_CAP <= timestamp <= TIME_CAP,
        ensures
            final(self).last.observe == timestamp,
            final(self).last.predict == old(self).last.predict,
            final(self).wf(),
    {
        self.last.observe = timestamp;
    }
}

/// An update at the time the clock already stands at yields zero deltas,
/// and a zero delta is a skipped step: predicting at an unchanged time
/// leaves state and covariance exactly as they were.
pub proof fn lemma_zero_delta_skips(clock: FilterClock, timestamp: i64)
    requires
        clock.wf(),
        clock.last.predict == timestamp,
        clock.last.observe == timestamp,
    ensures
        !spec_step_runs((timestamp - clock.last.predict) as i64),
        !spec_step_runs((timestamp - clock.last.observe) as i64),
{
}

} // verus!
