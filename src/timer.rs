use vstd::prelude::*;

verus! {

/// A periodic source with the given period; it does not emit yet.
pub struct Interval {
    time: i32,
}

impl Interval {
    pub closed spec fn period(&self) -> i32 {
        self.time
    }

    pub fn new(e: i32) -> (r: Self)
        ensures
            r.period() == e,
    {
        Interval { time: e }
    }

    pub fn time(&self) -> (r: i32)
        ensures
            r == self.period(),
    {
        self.time
    }
}

} // verus!
