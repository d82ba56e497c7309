use vstd::prelude::*;

use crate::observable::BaseObservable;
use crate::signal::{items, Signal};
use crate::subject::Subject;

verus! {

/// A producer started by `subscribe`.
pub fn create<S>(subscribe: S) -> (r: BaseObservable<S>)
    ensures
        r.start_fn() == subscribe,
{
    BaseObservable::new(subscribe)
}

/// An empty relay slot.
pub fn subject<G>() -> (r: Subject<G>)
    ensures
        r.slot().is_none(),
{
    Subject::new()
}

/// The signals of a source that completes at once.
pub fn empty<I, E>() -> (r: Vec<Signal<I, E>>)
    ensures
        r@ == seq![Signal::<I, E>::Completed],
{
    let mut r: Vec<Signal<I, E>> = Vec::new();
    r.push(Signal::Completed);
    r
}

/// The signals of a source that never signals.
pub fn never<I, E>() -> (r: Vec<Signal<I, E>>)
    ensures
        r@ == Seq::<Signal<I, E>>::empty(),
{
    Vec::new()
}

/// The signals of a source that fails at once with `error`.
pub fn throw<I, E>(error: E) -> (r: Vec<Signal<I, E>>)
    ensures
        r@ == seq![Signal::<I, E>::Error(error)],
{
    let mut r: Vec<Signal<I, E>> = Vec::new();
    r.push(Signal::Error(error));
    r
}

/// The signals of a source of the one item `i`.
pub fn from_value<I, E>(i: I) -> (r: Vec<Signal<I, E>>)
    ensures
        r@ == seq![Signal::<I, E>::Next(i), Signal::<I, E>::Completed],
{
    let mut r: Vec<Signal<I, E>> = Vec::new();
    r.push(Signal::Next(i));
    r.push(Signal::Completed);
    r
}

/// The signals of a source of the items `iter`, in order.
pub fn from_iter<I, E>(iter: Vec<I>) -> (r: Vec<Signal<I, E>>)
    ensures
        r@ == items::<I, E>(iter@).push(Signal::Completed),
{
    let ghost xs = iter@;
    let mut r: Vec<Signal<I, E>> = Vec::new();
    for x in it: iter.into_iter()
        invariant
            it.seq() == xs,
            r@ == items::<I, E>(xs.take(it.index() as int)),
    {
        r.push(Signal::Next(x));
        proof {
            assert(r@ =~= items::<I, E>(xs.take(it.index() + 1)));
        }
    }
    proof {
        assert(xs.take(xs.len() as int) =~= xs);
    }
    r.push(Signal::Completed);
    r
}

/// The signals of a source of the outcome `res`: its value then a
/// completion, or its error.
pub fn from_result<I, E>(res: Result<I, E>) -> (r: Vec<Signal<I, E>>)
    ensures
        r@ == match res {
            Ok(i) => seq![Signal::<I, E>::Next(i), Signal::<I, E>::Completed],
            Err(e) => seq![Signal::<I, E>::Error(e)],
        },
{
    match res {
        Ok(item) => from_value(item),
        Err(err) => throw(err),
    }
}

/// The signals of a source of the value in `opt`, if any, then a completion.
pub fn from_option<I, E>(opt: Option<I>) -> (r: Vec<Signal<I, E>>)
    ensures
        r@ == match opt {
            Some(i) => seq![Signal::<I, E>::Next(i), Signal::<I, E>::Completed],
            None => seq![Signal::<I, E>::Completed],
        },
{
    match opt {
        Some(item) => from_value(item),
        None => empty(),
    }
}

} // verus!
