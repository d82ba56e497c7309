use vstd::prelude::*;

verus! {

/// A one-shot executor: `run` hands a unit of work to it, consuming the
/// scheduler.
pub struct Scheduler<X> {
    executor: X,
}

impl<X> Scheduler<X> {
    pub closed spec fn executor(&self) -> X {
        self.executor
    }

    pub fn new(executor: X) -> (r: Self)
        ensures
            r.executor() == executor,
    {
        Scheduler { executor }
    }

    /// Hands `work` to the executor.
    pub fn run<W>(self, work: W)
        where
            X: FnOnce(W),
        requires
            self.executor().requires((work,)),
        ensures
            self.executor().ensures((work,), ()),
    {
        (self.executor)(work)
    }
}

} // verus!
