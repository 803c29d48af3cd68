//! A LiDAR-inertial odometry core: an error-state Kalman filter over a
//! 24-dimensional state, an uncertainty-aware voxel map of planar surfaces,
//! and a voxel-grid downsampler.
//!
//! All geometry in this crate is carried in fixed-point lattice coordinates
//! (signed integers at a caller-chosen scale), so that every routing,
//! gating and bookkeeping decision is exact and verified. The floating-point
//! linear algebra that produces the numbers the decisions run on (state
//! integration, covariance propagation, eigendecompositions) lives outside
//! the verified core and hands its results in as plain integers.
pub mod clock;
pub mod context;
pub mod cov;
pub mod downsample;
pub mod eskf;
pub mod fixed;
pub mod frame;
pub mod layout;
pub mod measurement;
pub mod plane;
pub mod voxel_map;

use vstd::prelude::*;

verus! {

/// The total dimension of the flat error-state vector.
pub const STATE_DIM: usize = 24;

pub fn state_dim() -> (r: usize)
    ensures
        r == STATE_DIM,
{
    STATE_DIM
}

} // verus!
