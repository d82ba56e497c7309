use vstd::prelude::*;

use crate::observer::BaseObserver;
use crate::signal::{guarded, live, lemma_guarded_push, Signal};

verus! {

/// An upstream whose items are shown to `tap` before they pass on unchanged.
pub struct TapObservable<T, O> {
    pub tap: T,
    pub original: O,
}

impl<T, O> TapObservable<T, O> {
    pub fn new(original: O, tap: T) -> (r: Self)
        ensures
            r.original == original,
            r.tap == tap,
    {
        TapObservable { tap, original }
    }

    /// Shows `item` to the side effect and hands it back for forwarding.
    pub fn inspect<I>(&self, item: I) -> (r: I)
        where
            T: Fn(&I),
        requires
            forall|x: &I| #[trigger] self.tap.requires((x,)),
        ensures
            r == item,
            self.tap.ensures((&item,), ()),
    {
        (self.tap)(&item);
        item
    }
}

/// What a subscriber of `tap(f)` receives when the upstream pushes the
/// signals of `source`, in order; `f` sees each item first.
pub fn tap<I, E, T: Fn(&I)>(f: T, source: Vec<Signal<I, E>>) -> (r: Vec<Signal<I, E>>)
    requires
        forall|x: &I| #[trigger] f.requires((x,)),
    ensures
        r@ == guarded(source@),
        forall|i: int|
            0 <= i < source@.len() && (#[trigger] source@[i]) is Next ==> f.ensures(
                (&source@[i]->Next_0,),
                (),
            ),
{
    let ghost src = source@;
    let op = TapObservable::new((), f);
    let mut guard = BaseObserver::new(0, ());
    let mut out: Vec<Signal<I, E>> = Vec::new();
    for x in it: source.into_iter()
        invariant
            it.seq() == src,
            op.tap == f,
            forall|x: &I| #[trigger] f.requires((x,)),
            guard.slot().is_some() == live(src.take(it.index() as int)),
            out@ == guarded(src.take(it.index() as int)),
            forall|i: int|
                0 <= i < it.index() && (#[trigger] src[i]) is Next ==> f.ensures(
                    (&src[i]->Next_0,),
                    (),
                ),
    {
        let ghost p = src.take(it.index() as int);
        let y = match x {
            Signal::Next(v) => Signal::Next(op.inspect(v)),
            other => other,
        };
        proof {
            assert(src.take(it.index() + 1) =~= p.push(y));
            lemma_guarded_push(p, y);
        }
        guard.deliver(y, &mut out);
    }
    proof {
        assert(src.take(src.len() as int) =~= src);
    }
    out
}

} // verus!
