use vstd::prelude::*;

use crate::functions::{apply, call, is_function};
use crate::observer::BaseObserver;
use crate::signal::{guarded, live, lemma_guarded_push, Signal};

verus! {

/// An upstream whose terminal error passes through `map`.
pub struct MapErrorObservable<M, O> {
    pub map: M,
    pub original: O,
}

impl<M, O> MapErrorObservable<M, O> {
    pub fn new(original: O, map: M) -> (r: Self)
        ensures
            r.original == original,
            r.map == map,
    {
        MapErrorObservable { map, original }
    }

    /// The error forwarded in place of `error`.
    pub fn apply<E, D>(&self, error: E) -> (r: D)
        where
            M: Fn(E) -> D,
        requires
            is_function(self.map),
        ensures
            r == apply(self.map, error),
    {
        call(&self.map, error)
    }
}

/// One upstream signal as `map_err(f)` forwards it.
pub open spec fn map_err_signal<I, E, D, M: Fn(E) -> D>(f: M, x: Signal<I, E>) -> Signal<I, D> {
    match x {
        Signal::Next(v) => Signal::Next(v),
        Signal::Error(e) => Signal::Error(apply(f, e)),
        Signal::Completed => Signal::Completed,
    }
}

/// What `map_err(f)` sends downstream for the upstream signals `s`, before
/// the downstream guard: each signal in turn, an error transformed by `f`.
pub open spec fn map_err_raw<I, E, D, M: Fn(E) -> D>(f: M, s: Seq<Signal<I, E>>) -> Seq<
    Signal<I, D>,
> {
    s.map_values(|x: Signal<I, E>| map_err_signal(f, x))
}

/// What a subscriber of `map_err(f)` receives when the upstream pushes the
/// signals of `source`, in order.
pub fn map_err<I, E, D, M: Fn(E) -> D>(f: M, source: Vec<Signal<I, E>>) -> (r: Vec<Signal<I, D>>)
    requires
        is_function(f),
    ensures
        r@ == guarded(map_err_raw(f, source@)),
{
    let ghost src = source@;
    let op = MapErrorObservable::new((), f);
    let mut guard = BaseObserver::new(0, ());
    let mut out: Vec<Signal<I, D>> = Vec::new();
    for x in it: source.into_iter()
        invariant
            it.seq() == src,
            op.map == f,
            is_function(f),
            guard.slot().is_some() == live(map_err_raw(f, src.take(it.index() as int))),
            out@ == guarded(map_err_raw(f, src.take(it.index() as int))),
    {
        let ghost p = src.take(it.index() as int);
        let y = match x {
            Signal::Next(v) => Signal::Next(v),
            Signal::Error(e) => Signal::Error(op.apply(e)),
            Signal::Completed => Signal::Completed,
        };
        proof {
            assert(map_err_raw(f, src.take(it.index() + 1)) =~= map_err_raw(f, p).push(y));
            lemma_guarded_push(map_err_raw(f, p), y);
        }
        guard.deliver(y, &mut out);
    }
    proof {
        assert(src.take(src.len() as int) =~= src);
    }
    out
}

} // verus!
