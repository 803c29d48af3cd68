//! Measurement carriers and the IMU initialization accumulator.
//!
//! IMU samples arrive as fixed-point vectors (see [`crate::fixed`]); the
//! accumulator folds them into running component sums and hands out the
//! componentwise mean, which seeds the gravity direction and the gyroscope
//! bias of a fresh filter.
use vstd::prelude::*;

verus! {

use crate::fixed::{Vec3Fx, COORD_CAP, floor_div};

/// A measurement together with the time it was taken at.
pub struct StampedMeasurement<T, M> {
    pub timestamp: T,
    pub measured: M,
}

impl<T, M> StampedMeasurement<T, M> {
    pub fn new(timestamp: T, measured: M) -> (r: StampedMeasurement<T, M>)
        ensures
            r.timestamp == timestamp,
            r.measured == measured,
    {
        StampedMeasurement { timestamp, measured }
    }

    pub fn from_tuple(pair: (T, M)) -> (r: StampedMeasurement<T, M>)
        ensures
            r.timestamp == pair.0,
            r.measured == pair.1,
    {
        let (timestamp, measured) = pair;
        StampedMeasurement { timestamp, measured }
    }
}

/// One inertial sample: linear acceleration and angular velocity, both in
/// fixed-point units, with magnitude bounded by [`COORD_CAP`].
#[derive(Clone, Copy, PartialEq, Eq, Structural, Debug)]
pub struct ImuSampleFx {
    pub lin: Vec3Fx,
    pub ang: Vec3Fx,
}

impl ImuSampleFx {
    pub open spec fn wf(self) -> bool {
        self.lin.in_range(COORD_CAP as int) && self.ang.in_range(COORD_CAP as int)
    }
}

/// An IMU sample with its timestamp.
pub type StampedImuFx = StampedMeasurement<i64, ImuSampleFx>;

/// Marks a configuration that carries no gravity norm: the caller
/// supplies the gravity factor directly instead of deriving it from the
/// configured gravity and the initialization's mean acceleration.
pub struct NoGravity;

/// The per-point uncertainty model of a body-frame LiDAR point: range
/// noise along the viewing ray and angular noise perpendicular to it,
/// both in fixed-point units at the caller's scale.
#[derive(Clone, Copy, PartialEq, Eq, Structural, Debug)]
pub struct ProcessCov {
    /// Standard deviation of the measured range, in lattice units.
    pub distance: i64,
    /// Standard deviation of the beam direction, in microradians.
    pub direction: i64,
}

/// The result of IMU initialization: the componentwise means of the first
/// samples, the number of samples folded, and the stamp of the last one.
///
/// The mean linear acceleration seeds the gravity direction and, through
/// its norm, the gravity factor; the mean angular rate seeds the gyroscope
/// bias.
#[derive(Clone, Copy, PartialEq, Eq, Structural, Debug)]
pub struct ImuInitFx {
    pub lin_mean: Vec3Fx,
    pub ang_mean: Vec3Fx,
    pub sample_count: usize,
    pub timestamp_init: i64,
}

/// Cap on the number of samples the initialization accumulator folds, so
/// that the component sums stay in range.
pub const INIT_SAMPLE_CAP: usize = 1048576;

/// Folds IMU samples into running sums for initialization.
pub struct ImuInitAccumulator {
    pub lin_sum: Vec3Fx,
    pub ang_sum: Vec3Fx,
    pub count: usize,
    pub last_timestamp: i64,
}

impl ImuInitAccumulator {
    /// Sums stay bounded by the count times the per-sample cap.
    pub open spec fn wf(self) -> bool {
        &&& self.count <= INIT_SAMPLE_CAP
        &&& self.lin_sum.in_range(self.count * COORD_CAP)
        &&& self.ang_sum.in_range(self.count * COORD_CAP)
    }

    pub fn new() -> (r: ImuInitAccumulator)
        ensures
            r.count == 0,
            r.lin_sum == (Vec3Fx { x: 0, y: 0, z: 0 }),
            r.ang_sum == (Vec3Fx { x: 0, y: 0, z: 0 }),
            r.wf(),
    {
        ImuInitAccumulator {
            lin_sum: Vec3Fx { x: 0, y: 0, z: 0 },
            ang_sum: Vec3Fx { x: 0, y: 0, z: 0 },
            count: 0,
            last_timestamp: 0,
        }
    }

    /// Fold one sample into the running sums.
    pub fn push(&mut self, sample: &StampedImuFx)
        requires
            old(self).wf(),
            old(self).count < INIT_SAMPLE_CAP,
            sample.measured.wf(),
        ensures
            final(self).count == old(self).count + 1,
            final(self).lin_sum.x == old(self).lin_sum.x + sample.measured.lin.x,
            final(self).lin_sum.y == old(self).lin_sum.y + sample.measured.lin.y,
            final(self).lin_sum.z == old(self).lin_sum.z + sample.measured.lin.z,
            final(self).ang_sum.x == old(self).ang_sum.x + sample.measured.ang.x,
            final(self).ang_sum.y == old(self).ang_sum.y + sample.measured.ang.y,
            final(self).ang_sum.z == old(self).ang_sum.z + sample.measured.ang.z,
            final(self).last_timestamp == sample.timestamp,
            final(self).wf(),
    {
        proof {
            let n = old(self).count as int;
            assert((n + 1) * COORD_CAP == n * COORD_CAP + COORD_CAP) by (nonlinear_arith);
        }
        self.lin_sum = Vec3Fx {
            x: self.lin_sum.x + sample.measured.lin.x,
            y: self.lin_sum.y + sample.measured.lin.y,
            z: self.lin_sum.z + sample.measured.lin.z,
        };
        self.ang_sum = Vec3Fx {
            x: self.ang_sum.x + sample.measured.ang.x,
            y: self.ang_sum.y + sample.measured.ang.y,
            z: self.ang_sum.z + sample.measured.ang.z,
        };
        self.count = self.count + 1;
        self.last_timestamp = sample.timestamp;
    }

    /// Fold one sample if the accumulator can take it: refused exactly
    /// when the sample cap is reached or a component is out of range, in
    /// which case nothing changes.
    pub fn try_push(&mut self, sample: &StampedImuFx) -> (accepted: bool)
        requires
            old(self).wf(),
        ensures
            final(self).wf(),
            accepted == (old(self).count < INIT_SAMPLE_CAP && sample.measured.wf()),
            accepted ==> {
                &&& final(self).count == old(self).count + 1
                &&& final(self).lin_sum.x == old(self).lin_sum.x + sample.measured.lin.x
                &&& final(self).lin_sum.y == old(self).lin_sum.y + sample.measured.lin.y
                &&& final(self).lin_sum.z == old(self).lin_sum.z + sample.measured.lin.z
                &&& final(self).ang_sum.x == old(self).ang_sum.x + sample.measured.ang.x
                &&& final(self).ang_sum.y == old(self).ang_sum.y + sample.measured.ang.y
                &&& final(self).ang_sum.z == old(self).ang_sum.z + sample.measured.ang.z
                &&& final(self).last_timestamp == sample.timestamp
            },
            !accepted ==> *final(self) == *old(self),
    {
        if self.count >= INIT_SAMPLE_CAP {
            return false;
        }
        let lin = sample.measured.lin;
        let ang = sample.measured.ang;
        let in_range = -COORD_CAP <= lin.x && lin.x <= COORD_CAP && -COORD_CAP <= lin.y && lin.y
            <= COORD_CAP && -COORD_CAP <= lin.z && lin.z <= COORD_CAP && -COORD_CAP <= ang.x
            && ang.x <= COORD_CAP && -COORD_CAP <= ang.y && ang.y <= COORD_CAP && -COORD_CAP
            <= ang.z && ang.z <= COORD_CAP;
        if !in_range {
            return false;
        }
        self.push(sample);
        true
    }

    /// The componentwise floor mean of the folded samples, or `None` when
    /// no sample arrived: an empty initialization is reported as absent,
    /// and the caller retries.
    pub fn finish(&self) -> (r: Option<ImuInitFx>)
        requires
            self.wf(),
        ensures
            r is None <==> self.count == 0,
            r is Some ==> {
                let init = r->Some_0;
                &&& init.sample_count == self.count
                &&& init.timestamp_init == self.last_timestamp
                &&& init.lin_mean.x == self.lin_sum.x as int / self.count as int
                &&& init.lin_mean.y == self.lin_sum.y as int / self.count as int
                &&& init.lin_mean.z == self.lin_sum.z as int / self.count as int
                &&& init.ang_mean.x == self.ang_sum.x as int / self.count as int
                &&& init.ang_mean.y == self.ang_sum.y as int / self.count as int
                &&& init.ang_mean.z == self.ang_sum.z as int / self.count as int
            },
    {
        if self.count == 0 {
            return None;
        }
        let n = self.count as i64;
        Some(
            ImuInitFx {
                lin_mean: Vec3Fx {
                    x: floor_div(self.lin_sum.x, n),
                    y: floor_div(self.lin_sum.y, n),
                    z: floor_div(self.lin_sum.z, n),
                },
                ang_mean: Vec3Fx {
                    x: floor_div(self.ang_sum.x, n),
                    y: floor_div(self.ang_sum.y, n),
                    z: floor_div(self.ang_sum.z, n),
                },
                sample_count: self.count,
                timestamp_init: self.last_timestamp,
            },
        )
    }
}

} // verus!
