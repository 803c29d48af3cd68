//! A small helper for carrying a value together with the context (a config,
//! a connection, a tag) it is to be interpreted in.
use vstd::prelude::*;

verus! {

/// A value with its context.
pub struct InContext<T, C> {
    pub inner: T,
    pub context: C,
}

impl<T, C> InContext<T, C> {
    pub fn new(inner: T, context: C) -> (r: InContext<T, C>)
        ensures
            r.inner == inner,
            r.context == context,
    {
        InContext { inner, context }
    }

    /// Apply a function to the context, keeping the inner value.
    pub fn map_context<C2, Op: FnOnce(C) -> C2>(self, f: Op) -> (r: InContext<T, C2>)
        requires
            f.requires((self.context,)),
        ensures
            r.inner == self.inner,
            f.ensures((self.context,), r.context),
    {
        let context = f(self.context);
        InContext { inner: self.inner, context }
    }
}

/// Pair any value with a context.
pub trait WithContext<C>: Sized {
    fn with_context(self, context: C) -> (r: InContext<Self, C>)
        ensures
            r.inner == self,
            r.context == context,
    ;
}

impl<T, C> WithContext<C> for T {
    fn with_context(self, context: C) -> (r: InContext<T, C>)
        ensures
            r.inner == self,
            r.context == context,
    {
        InContext { inner: self, context }
    }
}

} // verus!
