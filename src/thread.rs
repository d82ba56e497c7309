use vstd::prelude::*;

verus! {

/// An upstream whose subscription is deferred onto a scheduler.
pub struct ThreadObservable<X, O> {
    pub scheduler: X,
    pub original: O,
}

impl<X, O> ThreadObservable<X, O> {
    pub fn new(original: O, scheduler: X) -> (r: Self)
        ensures
            r.original == original,
            r.scheduler == scheduler,
    {
        ThreadObservable { scheduler, original }
    }
}

/// The slot that a deferred subscription is put in once the scheduled task
/// has made it, and that cancellation empties.
pub struct PendingSubscription<S> {
    sub: Option<S>,
}

impl<S> PendingSubscription<S> {
    pub closed spec fn slot(&self) -> Option<S> {
        self.sub
    }

    pub fn new() -> (r: Self)
        ensures
            r.slot().is_none(),
    {
        PendingSubscription { sub: None }
    }

    /// Stores the subscription that the scheduled task made.
    pub fn fill(&mut self, sub: S)
        ensures
            final(self).slot() == Some(sub),
    {
        self.sub = Some(sub);
    }

    /// Takes out the subscription to cancel: none when the scheduled task
    /// has not run yet, in which case cancelling does nothing.
    pub fn cancel(&mut self) -> (r: Option<S>)
        ensures
            r == old(self).slot(),
            final(self).slot().is_none(),
    {
        self.sub.take()
    }
}

} // verus!
