//! The error-state layout: named sub-states of the flat 24-dimensional
//! state vector, each with a fixed offset and dimension.
//!
//! Every block of the covariance matrix and every slice of the state vector
//! is addressed through this table, so the offset arithmetic is stated and
//! proved once, here, instead of being scattered through the filter.
use vstd::prelude::*;

verus! {

/// A named contiguous slice of the flat error-state vector.
///
/// `Pose`, `Acc`, `Bias` and `AccWithBias` are composites; the remaining
/// eight sub-states are the Euclidean leaves that partition the vector.
#[derive(Clone, Copy, PartialEq, Eq, Structural, Debug)]
pub enum SubState {
    Pose,
    Rotation,
    Position,
    Velocity,
    Gravity,
    AccWithBias,
    Acc,
    LinearAcc,
    AngularAcc,
    Bias,
    LinearAccBias,
    AngularAccBias,
}

impl SubState {
    /// Offset of this sub-state inside the flat state vector.
    pub open spec fn spec_offset(self) -> int {
        match self {
            SubState::Pose => 0,
            SubState::Rotation => 0,
            SubState::Position => 3,
            SubState::Velocity => 6,
            SubState::Gravity => 9,
            SubState::AccWithBias => 12,
            SubState::Acc => 12,
            SubState::LinearAcc => 12,
            SubState::AngularAcc => 15,
            SubState::Bias => 18,
            SubState::LinearAccBias => 18,
            SubState::AngularAccBias => 21,
        }
    }

    /// Dimension of this sub-state.
    pub open spec fn spec_dim(self) -> int {
        match self {
            SubState::Pose => 6,
            SubState::Rotation => 3,
            SubState::Position => 3,
            SubState::Velocity => 3,
            SubState::Gravity => 3,
            SubState::AccWithBias => 12,
            SubState::Acc => 6,
            SubState::LinearAcc => 3,
            SubState::AngularAcc => 3,
            SubState::Bias => 6,
            SubState::LinearAccBias => 3,
            SubState::AngularAccBias => 3,
        }
    }

    /// Offset one past the last component of this sub-state.
    pub open spec fn spec_end_offset(self) -> int {
        self.spec_offset() + self.spec_dim()
    }

    pub fn offset(self) -> (r: usize)
        ensures
            r == self.spec_offset(),
    {
        match self {
            SubState::Pose => 0,
            SubState::Rotation => 0,
            SubState::Position => 3,
            SubState::Velocity => 6,
            SubState::Gravity => 9,
            SubState::AccWithBias => 12,
            SubState::Acc => 12,
            SubState::LinearAcc => 12,
            SubState::AngularAcc => 15,
            SubState::Bias => 18,
            SubState::LinearAccBias => 18,
            SubState::AngularAccBias => 21,
        }
    }

    pub fn dim(self) -> (r: usize)
        ensures
            r == self.spec_dim(),
    {
        match self {
            SubState::Pose => 6,
            SubState::Rotation => 3,
            SubState::Position => 3,
            SubState::Velocity => 3,
            SubState::Gravity => 3,
            SubState::AccWithBias => 12,
            SubState::Acc => 6,
            SubState::LinearAcc => 3,
            SubState::AngularAcc => 3,
            SubState::Bias => 6,
            SubState::LinearAccBias => 3,
            SubState::AngularAccBias => 3,
        }
    }

    pub fn end_offset(self) -> (r: usize)
        ensures
            r == self.spec_end_offset(),
    {
        let o = self.offset();
        let d = self.dim();
        o + d
    }

    /// Every sub-state lies inside the flat vector.
    pub open spec fn spec_in_bounds(self) -> bool {
        0 <= self.spec_offset() && self.spec_end_offset() <= crate::STATE_DIM
    }

    /// The eight Euclidean leaves, in layout order.
    pub open spec fn spec_is_leaf(self) -> bool {
        match self {
            SubState::Rotation
            | SubState::Position
            | SubState::Velocity
            | SubState::Gravity
            | SubState::LinearAcc
            | SubState::AngularAcc
            | SubState::LinearAccBias
            | SubState::AngularAccBias => true,
            _ => false,
        }
    }
}

/// The sub-state offsets and end offsets, written out: the pose spans the
/// first six components (rotation then position), then velocity, then
/// gravity, then the accelerations with their biases fill the vector.
pub proof fn lemma_state_layout()
    ensures
        SubState::Pose.spec_offset() == 0 && SubState::Pose.spec_end_offset() == 6,
        SubState::Rotation.spec_offset() == 0 && SubState::Rotation.spec_end_offset() == 3,
        SubState::Position.spec_offset() == 3 && SubState::Position.spec_end_offset() == 6,
        SubState::Velocity.spec_offset() == 6 && SubState::Velocity.spec_end_offset() == 9,
        SubState::Gravity.spec_offset() == 9 && SubState::Gravity.spec_end_offset() == 12,
        SubState::AccWithBias.spec_offset() == 12 && SubState::AccWithBias.spec_end_offset() == 24,
        SubState::Acc.spec_offset() == 12 && SubState::Acc.spec_end_offset() == 18,
        SubState::LinearAcc.spec_offset() == 12 && SubState::LinearAcc.spec_end_offset() == 15,
        SubState::AngularAcc.spec_offset() == 15 && SubState::AngularAcc.spec_end_offset() == 18,
        SubState::Bias.spec_offset() == 18 && SubState::Bias.spec_end_offset() == 24,
        SubState::LinearAccBias.spec_offset() == 18 && SubState::LinearAccBias.spec_end_offset()
            == 21,
        SubState::AngularAccBias.spec_offset() == 21 && SubState::AngularAccBias.spec_end_offset()
            == 24,
{
}

/// The Euclidean leaves tile the whole vector: consecutive leaves abut,
/// the first starts at zero and the last ends at the state dimension, and
/// every sub-state fits inside the vector.
pub proof fn lemma_state_layout_partition()
    ensures
        forall|s: SubState| s.spec_in_bounds(),
        SubState::Rotation.spec_offset() == 0,
        SubState::Rotation.spec_end_offset() == SubState::Position.spec_offset(),
        SubState::Position.spec_end_offset() == SubState::Velocity.spec_offset(),
        SubState::Velocity.spec_end_offset() == SubState::Gravity.spec_offset(),
        SubState::Gravity.spec_end_offset() == SubState::LinearAcc.spec_offset(),
        SubState::LinearAcc.spec_end_offset() == SubState::AngularAcc.spec_offset(),
        SubState::AngularAcc.spec_end_offset() == SubState::LinearAccBias.spec_offset(),
        SubState::LinearAccBias.spec_end_offset() == SubState::AngularAccBias.spec_offset(),
        SubState::AngularAccBias.spec_end_offset() == crate::STATE_DIM,
{
    assert(forall|s: SubState| s.spec_in_bounds()) by {
        assert forall|s: SubState| s.spec_in_bounds() by {
            match s {
                SubState::Pose => {},
                SubState::Rotation => {},
                SubState::Position => {},
                SubState::Velocity => {},
                SubState::Gravity => {},
                SubState::AccWithBias => {},
                SubState::Acc => {},
                SubState::LinearAcc => {},
                SubState::AngularAcc => {},
                SubState::Bias => {},
                SubState::LinearAccBias => {},
                SubState::AngularAccBias => {},
            }
        }
    }
}

/// Each composite sub-state spans exactly its parts: the pose is rotation
/// then position, the accelerations are linear then angular, the biases
/// likewise, and `AccWithBias` is the accelerations followed by the biases.
pub proof fn lemma_state_layout_nesting()
    ensures
        SubState::Pose.spec_offset() == SubState::Rotation.spec_offset(),
        SubState::Rotation.spec_end_offset() == SubState::Position.spec_offset(),
        SubState::Position.spec_end_offset() == SubState::Pose.spec_end_offset(),
        SubState::Acc.spec_offset() == SubState::LinearAcc.spec_offset(),
        SubState::LinearAcc.spec_end_offset() == SubState::AngularAcc.spec_offset(),
        SubState::AngularAcc.spec_end_offset() == SubState::Acc.spec_end_offset(),
        SubState::Bias.spec_offset() == SubState::LinearAccBias.spec_offset(),
        SubState::LinearAccBias.spec_end_offset() == SubState::AngularAccBias.spec_offset(),
        SubState::AngularAccBias.spec_end_offset() == SubState::Bias.spec_end_offset(),
        SubState::AccWithBias.spec_offset() == SubState::Acc.spec_offset(),
        SubState::Acc.spec_end_offset() == SubState::Bias.spec_offset(),
        SubState::Bias.spec_end_offset() == SubState::AccWithBias.spec_end_offset(),
{
}

/// Marker for the pose sub-state (rotation and translation on SE(3)).
pub struct Pose;

/// Marker for the rotation part of the pose.
pub struct Rotation;

/// Marker for the translation part of the pose.
pub struct Position;

/// Marker for the velocity sub-state.
pub struct Velocity;

/// Marker for the gravity sub-state.
pub struct Gravity;

/// Marker for the linear-acceleration sub-state.
pub struct LinearAcc;

/// Marker for the angular-acceleration sub-state.
pub struct AngularAcc;

/// Marker for the linear-acceleration bias sub-state.
pub struct AccBias;

/// Marker for the angular-acceleration bias sub-state.
pub struct GyroBias;

/// Marker for a kinematic velocity-bias sub-state of an extended,
/// leg-kinematics-aware state.
pub struct KinVelocityBias;

/// Marker for a contact-foot-position sub-state of an extended,
/// leg-kinematics-aware state.
pub struct ContactFootPos;

/// A state value tagged with the marker of the sub-state it instantiates.
///
/// The marker is phantom: it carries no data and only keeps two sub-states
/// with the same carrier type from being mixed up.
pub struct MarkedState<S, M>(pub S, pub core::marker::PhantomData<M>);

impl<S, M> MarkedState<S, M> {
    pub fn new(state: S) -> (r: MarkedState<S, M>)
        ensures
            r.0 == state,
    {
        MarkedState(state, core::marker::PhantomData)
    }

    /// Re-tag the carried value with another sub-state marker.
    pub fn map_state_marker<N>(self) -> (r: MarkedState<S, N>)
        ensures
            r.0 == self.0,
    {
        MarkedState(self.0, core::marker::PhantomData)
    }
}

impl<S: Clone, M> Clone for MarkedState<S, M> {
    fn clone(&self) -> (r: Self)
        ensures
            cloned(self.0, r.0),
    {
        MarkedState(self.0.clone(), core::marker::PhantomData)
    }
}

} // verus!
