use vstd::prelude::*;

verus! {

/// A single-use cancellation handle: it owns one teardown action, which
/// `unsubscribe` runs, consuming the handle so that it cannot run twice.
pub struct Subscription<F> {
    unsubscribe: F,
}

impl<F: FnOnce()> Subscription<F> {
    pub closed spec fn teardown(&self) -> F {
        self.unsubscribe
    }

    pub fn new(f: F) -> (r: Self)
        ensures
            r.teardown() == f,
    {
        Subscription { unsubscribe: f }
    }

    /// Runs the teardown action.
    pub fn unsubscribe(self)
        requires
            self.teardown().requires(()),
        ensures
            self.teardown().ensures((), ()),
    {
        (self.unsubscribe)()
    }
}

} // verus!
