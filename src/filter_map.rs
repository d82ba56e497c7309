use vstd::prelude::*;

use crate::functions::{apply, call, is_function};
use crate::observer::BaseObserver;
use crate::signal::{guarded, live, lemma_guarded_push, Signal};

verus! {

/// An upstream whose items pass through `map`, which may drop them.
pub struct FilterMapObservable<M, O> {
    pub map: M,
    pub original: O,
}

impl<M, O> FilterMapObservable<M, O> {
    pub fn new(original: O, map: M) -> (r: Self)
        ensures
            r.original == original,
            r.map == map,
    {
        FilterMapObservable { map, original }
    }

    /// The item forwarded in place of `item`, if any.
    pub fn apply<I, J>(&self, item: I) -> (r: Option<J>)
        where
            M: Fn(I) -> Option<J>,
        requires
            is_function(self.map),
        ensures
            r == apply(self.map, item),
    {
        call(&self.map, item)
    }
}

/// What `filter_map(f)` sends downstream for the upstream signals `s`, before
/// the downstream guard: the replacement of each item where `f` gives one,
/// and every terminal signal.
pub open spec fn filter_map_raw<I, J, E, M: Fn(I) -> Option<J>>(f: M, s: Seq<Signal<I, E>>) -> Seq<
    Signal<J, E>,
>
    decreases s.len(),
{
    if s.len() == 0 {
        Seq::empty()
    } else {
        let p = filter_map_raw(f, s.drop_last());
        match s.last() {
            Signal::Next(v) => match apply(f, v) {
                Some(w) => p.push(Signal::Next(w)),
                None => p,
            },
            Signal::Error(e) => p.push(Signal::Error(e)),
            Signal::Completed => p.push(Signal::Completed),
        }
    }
}

/// What a subscriber of `filter_map(f)` receives when the upstream pushes
/// the signals of `source`, in order.
pub fn filter_map<I, J, E, M: Fn(I) -> Option<J>>(f: M, source: Vec<Signal<I, E>>) -> (r: Vec<
    Signal<J, E>,
>)
    requires
        is_function(f),
    ensures
        r@ == guarded(filter_map_raw(f, source@)),
{
    let ghost src = source@;
    let op = FilterMapObservable::new((), f);
    let mut guard = BaseObserver::new(0, ());
    let mut out: Vec<Signal<J, E>> = Vec::new();
    for x in it: source.into_iter()
        invariant
            it.seq() == src,
            op.map == f,
            is_function(f),
            guard.slot().is_some() == live(filter_map_raw(f, src.take(it.index() as int))),
            out@ == guarded(filter_map_raw(f, src.take(it.index() as int))),
    {
        let ghost p = src.take(it.index() as int);
        proof {
            assert(src.take(it.index() + 1).drop_last() =~= p);
        }
        let y = match x {
            Signal::Next(v) => match op.apply(v) {
                Some(w) => Some(Signal::Next(w)),
                None => None,
            },
            Signal::Error(e) => Some(Signal::Error(e)),
            Signal::Completed => Some(Signal::Completed),
        };
        if let Some(y) = y {
            proof {
                lemma_guarded_push(filter_map_raw(f, p), y);
            }
            guard.deliver(y, &mut out);
        }
    }
    proof {
        assert(src.take(src.len() as int) =~= src);
    }
    out
}

} // verus!
