use vstd::prelude::*;

use crate::functions::{apply, call, is_function};
use crate::observer::BaseObserver;
use crate::signal::{guarded, live, lemma_guarded_push, Signal};

verus! {

/// An upstream whose items pass through `map`.
pub struct MapObservable<M, O> {
    pub map: M,
    pub original: O,
}

impl<M, O> MapObservable<M, O> {
    pub fn new(original: O, map: M) -> (r: Self)
        ensures
            r.original == original,
            r.map == map,
    {
        MapObservable { map, original }
    }

    /// The item forwarded in place of `item`.
    pub fn apply<I, J>(&self, item: I) -> (r: J)
        where
            M: Fn(I) -> J,
        requires
            is_function(self.map),
        ensures
            r == apply(self.map, item),
    {
        call(&self.map, item)
    }
}

/// One upstream signal as `map(f)` forwards it.
pub open spec fn map_signal<I, J, E, M: Fn(I) -> J>(f: M, x: Signal<I, E>) -> Signal<J, E> {
    match x {
        Signal::Next(v) => Signal::Next(apply(f, v)),
        Signal::Error(e) => Signal::Error(e),
        Signal::Completed => Signal::Completed,
    }
}

/// What `map(f)` sends downstream for the upstream signals `s`, before the
/// downstream guard: each signal in turn, an item transformed by `f`.
pub open spec fn map_raw<I, J, E, M: Fn(I) -> J>(f: M, s: Seq<Signal<I, E>>) -> Seq<Signal<J, E>> {
    s.map_values(|x: Signal<I, E>| map_signal(f, x))
}

/// What a subscriber of `map(f)` receives when the upstream pushes the
/// signals of `source`, in order.
pub fn map<I, J, E, M: Fn(I) -> J>(f: M, source: Vec<Signal<I, E>>) -> (r: Vec<Signal<J, E>>)
    requires
        is_function(f),
    ensures
        r@ == guarded(map_raw(f, source@)),
{
    let ghost src = source@;
    let op = MapObservable::new((), f);
    let mut guard = BaseObserver::new(0, ());
    let mut out: Vec<Signal<J, E>> = Vec::new();
    for x in it: source.into_iter()
        invariant
            it.seq() == src,
            op.map == f,
            is_function(f),
            guard.slot().is_some() == live(map_raw(f, src.take(it.index() as int))),
            out@ == guarded(map_raw(f, src.take(it.index() as int))),
    {
        let ghost p = src.take(it.index() as int);
        let y = match x {
            Signal::Next(v) => Signal::Next(op.apply(v)),
            Signal::Error(e) => Signal::Error(e),
            Signal::Completed => Signal::Completed,
        };
        proof {
            assert(map_raw(f, src.take(it.index() + 1)) =~= map_raw(f, p).push(y));
            lemma_guarded_push(map_raw(f, p), y);
        }
        guard.deliver(y, &mut out);
    }
    proof {
        assert(src.take(src.len() as int) =~= src);
    }
    out
}

} // verus!
