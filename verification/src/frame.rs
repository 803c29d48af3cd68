//! Frame tags: phantom labels that pin a point or a transform to the
//! coordinate frame it lives in, so that values in different frames cannot
//! be mixed by accident.
use vstd::prelude::*;

verus! {

/// The LiDAR (body) frame.
pub struct Body;

/// The inertial-measurement-unit frame.
pub struct Imu;

/// The fixed world frame.
pub struct World;

/// A value tagged with the frame it is expressed in. The tag is phantom:
/// it carries no data.
///
/// A transform from frame `A` to frame `B` is tagged `fn(A) -> B`, so that
/// frame composition is checked by the type system.
pub struct Framed<T, F> {
    pub inner: T,
    pub frame: core::marker::PhantomData<F>,
}

impl<T, F> Framed<T, F> {
    pub fn new(inner: T) -> (r: Framed<T, F>)
        ensures
            r.inner == inner,
    {
        Framed { inner, frame: core::marker::PhantomData }
    }

    /// Tag a value with a frame given as a value, for type inference.
    pub fn new_with_frame(inner: T, frame: F) -> (r: Framed<T, F>)
        ensures
            r.inner == inner,
    {
        let _ = frame;
        Framed { inner, frame: core::marker::PhantomData }
    }

    /// Apply a function to the inner value, keeping the frame tag.
    pub fn map_framed<Op: FnOnce(T) -> T>(self, f: Op) -> (r: Framed<T, F>)
        requires
            f.requires((self.inner,)),
        ensures
            f.ensures((self.inner,), r.inner),
    {
        let inner = f(self.inner);
        Framed { inner, frame: core::marker::PhantomData }
    }

    /// Borrow the inner value under the same frame tag.
    pub fn as_ref(&self) -> (r: Framed<&T, F>)
        ensures
            r.inner == &self.inner,
    {
        Framed { inner: &self.inner, frame: core::marker::PhantomData }
    }
}

impl<T, F1, F2> Framed<T, FrameMap<F1, F2>> {
    /// Tag a transform with its source and destination frames, given as
    /// values for type inference.
    pub fn new_transform(inner: T, from: F1, to: F2) -> (r: Framed<T, FrameMap<F1, F2>>)
        ensures
            r.inner == inner,
    {
        let _ = from;
        let _ = to;
        Framed { inner, frame: core::marker::PhantomData }
    }
}

impl<T, A, B> Framed<T, FrameMap<A, B>> {
    /// Chain with a transform out of this one's destination frame: the
    /// composition (computed by `f` from the two inner transforms) takes
    /// this one's source frame to the other's destination frame. Any
    /// other pairing of the frames does not type-check.
    pub fn and_then<U, V, C, Op: FnOnce(&T, &U) -> V>(
        &self,
        next: &Framed<U, FrameMap<B, C>>,
        f: Op,
    ) -> (r: Framed<V, FrameMap<A, C>>)
        requires
            f.requires((&self.inner, &next.inner)),
        ensures
            f.ensures((&self.inner, &next.inner), r.inner),
    {
        let inner = f(&self.inner, &next.inner);
        Framed { inner, frame: core::marker::PhantomData }
    }

    /// Apply to a value in the source frame, yielding one in the
    /// destination frame. A value tagged with any other frame does not
    /// type-check.
    pub fn apply<P, Q, Op: FnOnce(&T, P) -> Q>(&self, value: Framed<P, A>, f: Op) -> (r: Framed<
        Q,
        B,
    >)
        requires
            f.requires((&self.inner, value.inner)),
        ensures
            f.ensures((&self.inner, value.inner), r.inner),
    {
        let inner = f(&self.inner, value.inner);
        Framed { inner, frame: core::marker::PhantomData }
    }
}

impl<T: Clone, F> Clone for Framed<T, F> {
    fn clone(&self) -> (r: Self)
        ensures
            cloned(self.inner, r.inner),
    {
        Framed { inner: self.inner.clone(), frame: core::marker::PhantomData }
    }
}

/// The frame tag of a transform taking frame `A` to frame `B`.
pub struct FrameMap<A, B> {
    pub from: core::marker::PhantomData<A>,
    pub to: core::marker::PhantomData<B>,
}

/// A value in the body frame.
pub type BodyFramed<T> = Framed<T, Body>;

/// A value in the IMU frame.
pub type ImuFramed<T> = Framed<T, Imu>;

/// A value in the world frame.
pub type WorldFramed<T> = Framed<T, World>;

} // verus!
