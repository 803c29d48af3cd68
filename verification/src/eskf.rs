//! The error-state Kalman filter's interface surface: the predict and
//! observe capabilities, and the markers that classify observation models
//! and sub-states.
//!
//! The filter's numeric body — nonlinear integration on SE(3), covariance
//! propagation and the Kalman update — is floating-point linear algebra
//! and lives with the caller; this crate fixes the shapes it works
//! against: the state layout ([`crate::layout`]), the covariance block
//! discipline ([`crate::cov`]) and the update scheduling
//! ([`crate::clock`]).
use vstd::prelude::*;

verus! {

/// Something that advances its state by a time delta.
pub trait StatePredictor<T> {
    fn predict(&mut self, dt: T);
}

/// Something that corrects its state by a measurement.
pub trait StateObserver<T> {
    fn observe(&mut self, measurement: T);
}

/// The observation model that applies no measurement matrix: the
/// measurement reads the observed sub-state directly, so the update
/// kernel takes the covariance columns of that sub-state as they are
/// instead of multiplying by an identity.
pub struct NoModel;

impl NoModel {
    pub fn new() -> NoModel {
        NoModel
    }
}

/// Marks a sub-state that carries no additive bias of its own, so that
/// its sensitivity columns in the covariance are its own columns.
pub trait Unbiased {
}

/// The unbiased reading of a composite sub-state: an observation through
/// this marker correlates against the underlying sub-state's columns
/// without the bias columns that follow them.
pub struct UnbiasedState<S> {
    pub marker: core::marker::PhantomData<S>,
}

impl<S> UnbiasedState<S> {
    pub fn new() -> UnbiasedState<S> {
        UnbiasedState { marker: core::marker::PhantomData }
    }
}

} // verus!
