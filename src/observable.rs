use vstd::prelude::*;

verus! {

/// A one-shot producer made from the function that starts it: subscribing
/// hands that function the guarded consumer, once.
pub struct BaseObservable<S> {
    subscribe: S,
}

impl<S> BaseObservable<S> {
    pub closed spec fn start_fn(&self) -> S {
        self.subscribe
    }

    pub fn new(subscribe: S) -> (r: Self)
        ensures
            r.start_fn() == subscribe,
    {
        BaseObservable { subscribe }
    }

    /// Starts the producer on `observer`, consuming it.
    pub fn start<G>(self, observer: G)
        where
            S: FnOnce(G),
        requires
            self.start_fn().requires((observer,)),
        ensures
            self.start_fn().ensures((observer,), ()),
    {
        (self.subscribe)(observer)
    }
}

} // verus!
